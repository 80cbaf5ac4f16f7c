//! What can go wrong, and how it is told.
use vstd::prelude::*;
use vstd::string::*;

use crate::config::model::ConfigError;
use crate::process::manager::{HealthCheckError, SpawnError};
use crate::text::{decimal, decimal_int, decimal_text, decimal_text_signed, join, join_texts, texts};
use crate::units::{gib_of, gib_text};

verus! {

broadcast use vstd::string::group_string_axioms;

/// Why a model could not be loaded.
#[derive(Debug)]
pub enum LoadError {
    ModelNotFound(String),
    PresetNotFound(String),
    NoBinary(String),
    DraftNotFound { id: String, target: String },
    SpawnFailed(SpawnError),
    FitProbeFailed(String),
    InsufficientVram { model: String, needed: u64, free: u64 },
}

/// Why a model could not be stopped.
#[derive(Debug)]
pub enum StopError {
    ModelNotFound(String),
}

/// Why a change was refused.
#[derive(Debug)]
pub enum MutationError {
    NotFound(String),
    Conflict(String),
    InvalidConfig(ConfigError),
    DraftInUse { id: String, targets: Vec<String> },
    AliasConflict(String),
    AliasNotFound(String),
    AliasShadowsModel(String),
    AliasTargetMissing { alias: String, target: String },
    AliasCycle { alias: String, target: String },
    AliasInvalid(String),
}

/// An exit code as it is shown.
pub open spec fn code_text(code: Option<i32>) -> Seq<char> {
    match code {
        Some(n) => "Some("@ + decimal_int(n as int) + ")"@,
        None => "None"@,
    }
}

fn show_code(code: Option<i32>) -> (r: String)
    ensures
        r@ == code_text(code),
{
    match code {
        Some(n) => {
            let d = decimal_text_signed(n as i64);
            "Some(".to_owned().concat(d.as_str()).concat(")")
        },
        None => "None".to_owned(),
    }
}

impl HealthCheckError {
    /// How the error is told.
    pub open spec fn text(&self) -> Seq<char> {
        match self {
            HealthCheckError::Timeout(s) => "timed out after "@ + decimal(*s as nat) + "s"@,
            HealthCheckError::Http(e) => "http error: "@ + e@,
            HealthCheckError::ChildExited(code, what) =>
            "inference server exited before becoming ready (exit code "@ + code_text(*code)
                + "): "@ + what@,
        }
    }

    /// How the error is told.
    pub fn message(&self) -> (r: String)
        ensures
            r@ == self.text(),
    {
        match self {
            HealthCheckError::Timeout(s) => {
                let d = decimal_text(*s);
                "timed out after ".to_owned().concat(d.as_str()).concat("s")
            },
            HealthCheckError::Http(e) => "http error: ".to_owned().concat(e.as_str()),
            HealthCheckError::ChildExited(code, what) => {
                let c = show_code(*code);
                "inference server exited before becoming ready (exit code ".to_owned().concat(
                    c.as_str(),
                ).concat("): ").concat(what.as_str())
            },
        }
    }
}

impl SpawnError {
    /// How the error is told.
    pub open spec fn text(&self) -> Seq<char> {
        match self {
            SpawnError::SpawnFailed(reason, binary) => "failed to spawn '"@ + binary@ + "': "@
                + reason@,
            SpawnError::HealthCheckFailed(e) => "health check failed: "@ + e.text(),
            SpawnError::NoFreePort => "no free port available on 127.0.0.1"@,
        }
    }

    /// How the error is told.
    pub fn message(&self) -> (r: String)
        ensures
            r@ == self.text(),
    {
        match self {
            SpawnError::SpawnFailed(reason, binary) => "failed to spawn '".to_owned().concat(
                binary.as_str(),
            ).concat("': ").concat(reason.as_str()),
            SpawnError::HealthCheckFailed(e) => {
                let m = e.message();
                "health check failed: ".to_owned().concat(m.as_str())
            },
            SpawnError::NoFreePort => "no free port available on 127.0.0.1".to_owned(),
        }
    }
}

impl LoadError {
    /// How the error is told.
    pub open spec fn text(&self) -> Seq<char> {
        match self {
            LoadError::ModelNotFound(id) => "model '"@ + id@ + "' not found"@,
            LoadError::PresetNotFound(id) => "binary preset '"@ + id@
                + "' not found — edit the model and pick an existing preset or a custom path"@,
            LoadError::NoBinary(id) => "model '"@ + id@
                + "' has no binary configured — edit the model and pick a binary preset or a custom path"@,
            LoadError::DraftNotFound { id, target } => "model references draft '"@ + id@
                + "', but no model '"@ + id@ + "' exists (target: '"@ + target@ + "')"@,
            LoadError::SpawnFailed(e) => "spawn failed: "@ + e.text(),
            LoadError::FitProbeFailed(e) => "llama.cpp fit probe failed: "@ + e@,
            LoadError::InsufficientVram { model, needed, free } =>
            "not enough idle VRAM to load '"@ + model@ + "': need "@ + gib_of(*needed as nat)
                + " GiB, have "@ + gib_of(*free as nat)
                + " GiB (active requests are not evicted)"@,
        }
    }

    /// How the error is told.
    pub fn message(&self) -> (r: String)
        ensures
            r@ == self.text(),
    {
        match self {
            LoadError::ModelNotFound(id) => "model '".to_owned().concat(id.as_str()).concat(
                "' not found",
            ),
            LoadError::PresetNotFound(id) => "binary preset '".to_owned().concat(
                id.as_str(),
            ).concat("' not found — edit the model and pick an existing preset or a custom path"),
            LoadError::NoBinary(id) => "model '".to_owned().concat(id.as_str()).concat(
                "' has no binary configured — edit the model and pick a binary preset or a custom path",
            ),
            LoadError::DraftNotFound { id, target } => "model references draft '".to_owned().concat(
                id.as_str(),
            ).concat("', but no model '").concat(id.as_str()).concat("' exists (target: '").concat(
                target.as_str(),
            ).concat("')"),
            LoadError::SpawnFailed(e) => {
                let m = e.message();
                "spawn failed: ".to_owned().concat(m.as_str())
            },
            LoadError::FitProbeFailed(e) => "llama.cpp fit probe failed: ".to_owned().concat(
                e.as_str(),
            ),
            LoadError::InsufficientVram { model, needed, free } => {
                let n = gib_text(*needed);
                let f = gib_text(*free);
                "not enough idle VRAM to load '".to_owned().concat(model.as_str()).concat(
                    "': need ",
                ).concat(n.as_str()).concat(" GiB, have ").concat(f.as_str()).concat(
                    " GiB (active requests are not evicted)",
                )
            },
        }
    }

    /// Whether the configuration is at fault, so that another attempt fails
    /// in the same way.
    pub open spec fn of_configuration(&self) -> bool {
        ||| self is ModelNotFound
        ||| self is PresetNotFound
        ||| self is NoBinary
        ||| self is DraftNotFound
    }
}

/// Whether the configuration is at fault.
pub fn is_configuration_load_error(e: &LoadError) -> (r: bool)
    ensures
        r == e.of_configuration(),
{
    match e {
        LoadError::ModelNotFound(_) => true,
        LoadError::PresetNotFound(_) => true,
        LoadError::NoBinary(_) => true,
        LoadError::DraftNotFound { .. } => true,
        _ => false,
    }
}

impl StopError {
    /// How the error is told.
    pub open spec fn text(&self) -> Seq<char> {
        match self {
            StopError::ModelNotFound(id) => "model '"@ + id@ + "' not found"@,
        }
    }

    /// How the error is told.
    pub fn message(&self) -> (r: String)
        ensures
            r@ == self.text(),
    {
        match self {
            StopError::ModelNotFound(id) => "model '".to_owned().concat(id.as_str()).concat(
                "' not found",
            ),
        }
    }
}

impl ConfigError {
    /// How the error is told.
    pub open spec fn text(&self) -> Seq<char> {
        match self {
            ConfigError::DraftNotFound { id } => "model references draft '"@ + id@
                + "', but no model with that id exists"@,
            ConfigError::DraftSelfReference => "model cannot reference itself as a draft"@,
        }
    }

    /// How the error is told.
    pub fn message(&self) -> (r: String)
        ensures
            r@ == self.text(),
    {
        match self {
            ConfigError::DraftNotFound { id } => "model references draft '".to_owned().concat(
                id.as_str(),
            ).concat("', but no model with that id exists"),
            ConfigError::DraftSelfReference => "model cannot reference itself as a draft".to_owned(),
        }
    }
}

impl MutationError {
    /// How the error is told.
    pub open spec fn text(&self) -> Seq<char> {
        match self {
            MutationError::NotFound(id) => "model '"@ + id@ + "' not found"@,
            MutationError::Conflict(id) => "model '"@ + id@ + "' already exists"@,
            MutationError::InvalidConfig(e) => "invalid config: "@ + e.text(),
            MutationError::DraftInUse { id, targets } => "cannot delete '"@ + id@
                + "': used as a draft by "@ + join(texts(targets@), ", "@),
            MutationError::AliasConflict(a) => "alias '"@ + a@ + "' already exists"@,
            MutationError::AliasNotFound(a) => "alias '"@ + a@ + "' not found"@,
            MutationError::AliasShadowsModel(a) => "alias '"@ + a@
                + "' collides with an existing model id"@,
            MutationError::AliasTargetMissing { alias, target } => "alias '"@ + alias@
                + "' points at '"@ + target@ + "', which is not a model or alias"@,
            MutationError::AliasCycle { alias, target } => "alias '"@ + alias@ + "' → '"@ + target@
                + "' would create a resolution cycle"@,
            MutationError::AliasInvalid(what) => "invalid alias: "@ + what@,
        }
    }

    /// How the error is told.
    pub fn message(&self) -> (r: String)
        ensures
            r@ == self.text(),
    {
        match self {
            MutationError::NotFound(id) => "model '".to_owned().concat(id.as_str()).concat(
                "' not found",
            ),
            MutationError::Conflict(id) => "model '".to_owned().concat(id.as_str()).concat(
                "' already exists",
            ),
            MutationError::InvalidConfig(e) => {
                let m = e.message();
                "invalid config: ".to_owned().concat(m.as_str())
            },
            MutationError::DraftInUse { id, targets } => {
                let t = join_texts(targets, ", ");
                "cannot delete '".to_owned().concat(id.as_str()).concat(
                    "': used as a draft by ",
                ).concat(t.as_str())
            },
            MutationError::AliasConflict(a) => "alias '".to_owned().concat(a.as_str()).concat(
                "' already exists",
            ),
            MutationError::AliasNotFound(a) => "alias '".to_owned().concat(a.as_str()).concat(
                "' not found",
            ),
            MutationError::AliasShadowsModel(a) => "alias '".to_owned().concat(a.as_str()).concat(
                "' collides with an existing model id",
            ),
            MutationError::AliasTargetMissing { alias, target } => "alias '".to_owned().concat(
                alias.as_str(),
            ).concat("' points at '").concat(target.as_str()).concat(
                "', which is not a model or alias",
            ),
            MutationError::AliasCycle { alias, target } => "alias '".to_owned().concat(
                alias.as_str(),
            ).concat("' → '").concat(target.as_str()).concat("' would create a resolution cycle"),
            MutationError::AliasInvalid(what) => "invalid alias: ".to_owned().concat(what.as_str()),
        }
    }
}

} // verus!
