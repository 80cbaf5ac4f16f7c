//! What the answers of the management interface say.
use vstd::prelude::*;
use vstd::string::*;

use crate::config::model::{CacheType, ModelConfig, WeightsFormat};
use crate::config::preset::BinaryPreset;
use crate::orchestrator::errors::{LoadError, MutationError, StopError};
use crate::order::{sort_stable, sorted_by, text_le, text_leq};
use crate::text::{
    decimal, decimal_text, join, join_texts, same_text, split_on, split_text, texts, trim, trim_text,
};

verus! {

broadcast use vstd::string::group_string_axioms;

/// The path of a model file.
#[derive(Debug)]
pub struct GgufInfoQuery {
    pub path: String,
}

/// The path of a directory.
#[derive(Debug)]
pub struct FileBrowserQuery {
    pub path: String,
}

// ----- statuses -----

/// An answer that tells an error.
#[derive(Debug)]
pub struct Failure {
    pub status: u16,
    pub error: String,
}

/// The status of the answer to a change that is refused.
pub open spec fn mutation_status(e: MutationError) -> u16 {
    match e {
        MutationError::NotFound(_) => 404,
        MutationError::Conflict(_) => 409,
        MutationError::InvalidConfig(_) => 422,
        MutationError::DraftInUse { .. } => 409,
        MutationError::AliasConflict(_) => 409,
        MutationError::AliasNotFound(_) => 404,
        MutationError::AliasShadowsModel(_) => 422,
        MutationError::AliasTargetMissing { .. } => 422,
        MutationError::AliasCycle { .. } => 422,
        MutationError::AliasInvalid(_) => 422,
    }
}

/// What is told about a change that is refused.
pub open spec fn mutation_text(e: MutationError) -> Seq<char> {
    match e {
        MutationError::NotFound(id) => "'"@ + id@ + "' not found"@,
        MutationError::Conflict(id) => "'"@ + id@ + "' already exists"@,
        MutationError::InvalidConfig(c) => c.text(),
        MutationError::DraftInUse { id, targets } => "cannot delete draft '"@ + id@
            + "': still referenced by "@ + join(texts(targets@), ", "@)
            + ". Unset draft_model_id on those targets first."@,
        MutationError::AliasConflict(a) => "alias '"@ + a@ + "' already exists"@,
        MutationError::AliasNotFound(a) => "alias '"@ + a@ + "' not found"@,
        other => other.text(),
    }
}

fn quoted(what: &str, id: &str, rest: &str) -> (r: String)
    ensures
        r@ == what@ + id@ + rest@,
{
    what.to_owned().concat(id).concat(rest)
}

/// The answer to a change that is refused.
pub fn mutation_response(e: &MutationError) -> (r: Failure)
    ensures
        r.status == mutation_status(*e),
        r.error@ == mutation_text(*e),
{
    match e {
        MutationError::NotFound(id) => Failure {
            status: 404,
            error: quoted("'", id.as_str(), "' not found"),
        },
        MutationError::Conflict(id) => Failure {
            status: 409,
            error: quoted("'", id.as_str(), "' already exists"),
        },
        MutationError::InvalidConfig(c) => Failure { status: 422, error: c.message() },
        MutationError::DraftInUse { id, targets } => {
            let t = join_texts(targets, ", ");
            Failure {
                status: 409,
                error: quoted(
                    "cannot delete draft '",
                    id.as_str(),
                    "': still referenced by ",
                ).concat(t.as_str()).concat(". Unset draft_model_id on those targets first."),
            }
        },
        MutationError::AliasConflict(a) => Failure {
            status: 409,
            error: quoted("alias '", a.as_str(), "' already exists"),
        },
        MutationError::AliasNotFound(a) => Failure {
            status: 404,
            error: quoted("alias '", a.as_str(), "' not found"),
        },
        other => Failure { status: 422, error: other.message() },
    }
}

/// The status of the answer when a model could not be loaded.
pub open spec fn load_status(e: LoadError) -> u16 {
    if e is ModelNotFound {
        404
    } else if e.of_configuration() {
        422
    } else {
        503
    }
}

/// The answer when a model could not be loaded.
pub fn load_response(e: &LoadError) -> (r: Failure)
    ensures
        r.status == load_status(*e),
        r.error@ == e.text(),
{
    let status: u16 = match e {
        LoadError::ModelNotFound(_) => 404,
        LoadError::PresetNotFound(_) => 422,
        LoadError::NoBinary(_) => 422,
        LoadError::DraftNotFound { .. } => 422,
        _ => 503,
    };
    Failure { status, error: e.message() }
}

/// The answer when a model could not be stopped.
pub fn stop_response(e: &StopError) -> (r: Failure)
    ensures
        r.status == 404,
        r.error@ == e.text(),
{
    Failure { status: 404, error: e.message() }
}

/// What is told where the id in a path is not the id in the body.
pub fn check_ids(what: &str, in_url: &str, in_body: &str) -> (r: Option<Failure>)
    ensures
        match r {
            Some(f) => in_url@ != in_body@ && f.status == 400 && f.error@ == what@
                + " in URL and body must match"@,
            None => in_url@ == in_body@,
        },
{
    if same_text(in_url, in_body) {
        None
    } else {
        Some(Failure { status: 400, error: what.to_owned().concat(" in URL and body must match") })
    }
}

/// The status of the answer to several changes at once.
pub fn reconcile_status(errors: &Vec<String>) -> (r: u16)
    ensures
        r == (if errors@.len() == 0 {
            200u16
        } else {
            207
        }),
{
    if errors.len() == 0 {
        200
    } else {
        207
    }
}

// ----- validation -----

/// What the file system says of a path.
#[derive(Debug, Clone, Copy, PartialEq, Eq, Structural)]
pub struct PathFacts {
    pub exists: bool,
    pub is_file: bool,
    pub is_dir: bool,
    pub executable: bool,
}

/// What is wrong with a model definition, and what is doubtful about it.
#[derive(Debug)]
pub struct ValidationResponse {
    pub valid: bool,
    pub errors: Vec<String>,
    pub warnings: Vec<String>,
}

/// The texts with another at their end, where `add` holds.
pub open spec fn and_if(s: Seq<Seq<char>>, add: bool, t: Seq<char>) -> Seq<Seq<char>> {
    if add {
        s.push(t)
    } else {
        s
    }
}

fn push_text(v: &mut Vec<String>, t: String)
    ensures
        texts(final(v)@) == texts(old(v)@).push(t@),
{
    let ghost before = v@;
    let ghost tv = t@;
    v.push(t);
    assert(texts(v@) =~= texts(before).push(tv));
}

/// What is wrong with the path of a program.
pub open spec fn binary_faults(path: Seq<char>, f: PathFacts) -> Seq<Seq<char>> {
    if path.len() == 0 {
        seq!["binary path is empty"@]
    } else if !f.exists {
        seq!["binary '"@ + path + "' does not exist"@]
    } else {
        and_if(
            and_if(Seq::empty(), !f.is_file, "binary '"@ + path + "' is not a file"@),
            !f.executable,
            "binary '"@ + path + "' is not executable"@,
        )
    }
}

/// Notes what is wrong with the path of a program.
pub fn validate_binary_path(path: &str, f: PathFacts, errors: &mut Vec<String>)
    ensures
        texts(final(errors)@) == texts(old(errors)@) + binary_faults(path@, f),
{
    let ghost before = texts(errors@);
    if path.is_empty() {
        push_text(errors, "binary path is empty".to_owned());
    } else if !f.exists {
        push_text(errors, quoted("binary '", path, "' does not exist"));
    } else {
        if !f.is_file {
            push_text(errors, quoted("binary '", path, "' is not a file"));
        }
        if !f.executable {
            push_text(errors, quoted("binary '", path, "' is not executable"));
        }
    }
    assert(texts(errors@) =~= before + binary_faults(path@, f));
}

/// What is wrong with the path of a model.
pub open spec fn model_path_faults(m: ModelConfig, f: PathFacts) -> Seq<Seq<char>> {
    let path = m.model_path@;
    if path.len() == 0 {
        seq!["model path is empty"@]
    } else if !f.exists {
        seq!["model path '"@ + path + "' does not exist"@]
    } else {
        match m.weights_format {
            WeightsFormat::Gguf => and_if(
                Seq::empty(),
                !f.is_file,
                "GGUF model path '"@ + path + "' is not a file"@,
            ),
            WeightsFormat::Safetensors => and_if(
                Seq::empty(),
                !f.is_dir,
                "safetensors model path '"@ + path + "' is not a directory"@,
            ),
        }
    }
}

/// Notes what is wrong with the path of a model.
pub fn validate_model_path(m: &ModelConfig, f: PathFacts, errors: &mut Vec<String>)
    ensures
        texts(final(errors)@) == texts(old(errors)@) + model_path_faults(*m, f),
{
    let ghost before = texts(errors@);
    let path = m.model_path.as_str();
    if path.is_empty() {
        push_text(errors, "model path is empty".to_owned());
    } else if !f.exists {
        push_text(errors, quoted("model path '", path, "' does not exist"));
    } else {
        match m.weights_format {
            WeightsFormat::Gguf => {
                if !f.is_file {
                    push_text(errors, quoted("GGUF model path '", path, "' is not a file"));
                }
            },
            WeightsFormat::Safetensors => {
                if !f.is_dir {
                    push_text(
                        errors,
                        quoted("safetensors model path '", path, "' is not a directory"),
                    );
                }
            },
        }
    }
    assert(texts(errors@) =~= before + model_path_faults(*m, f));
}

/// What a text says as a number.
#[derive(Debug, Clone, Copy, PartialEq, Eq, Structural)]
pub enum Numeral {
    NoNumber,
    Positive,
    NotPositive,
}

/// The entries of a split.
pub open spec fn entries_of(split: Seq<char>) -> Seq<Seq<char>> {
    split_on(split, ',').map_values(|p: Seq<char>| trim(p))
}

/// The entries of a split.
pub fn split_entries(split: &str) -> (r: Vec<String>)
    ensures
        texts(r@) == entries_of(split@),
{
    let parts = split_text(split, ',');
    let ghost all = split_on(split@, ',');
    assert(all.len() == parts@.len());
    let mut r: Vec<String> = Vec::new();
    let mut i: usize = 0;
    while i < parts.len()
        invariant
            i <= parts@.len(),
            texts(parts@) == all,
            all.len() == parts@.len(),
            r@.len() == i,
            forall|j: int| 0 <= j < i ==> (#[trigger] r@[j])@ == trim(all[j]),
        decreases parts@.len() - i,
    {
        assert(all[i as int] == parts@[i as int]@);
        r.push(trim_text(parts[i].as_str()));
        i += 1;
    }
    assert(texts(r@) =~= entries_of(split@));
    r
}

/// What is wrong with the first `n` entries of a split.
pub open spec fn entry_faults(e: Seq<Seq<char>>, k: Seq<Numeral>, n: int) -> Seq<Seq<char>>
    decreases n,
{
    if n <= 0 {
        Seq::empty()
    } else {
        and_if(
            entry_faults(e, k, n - 1),
            k[n - 1] == Numeral::NoNumber,
            "tensor_split entry '"@ + e[n - 1] + "' is not a number"@,
        )
    }
}

/// What is wrong with a split whose entries are numbers as `k` says.
pub open spec fn split_faults(m: ModelConfig, k: Seq<Numeral>) -> Seq<Seq<char>> {
    match m.tensor_split {
        Some(split) => {
            let e = entries_of(split@);
            and_if(
                entry_faults(e, k, e.len() as int),
                !k.contains(Numeral::Positive),
                "tensor_split must contain at least one positive entry"@,
            )
        },
        None => Seq::empty(),
    }
}

/// What is doubtful about a split.
pub open spec fn split_doubts(m: ModelConfig, gpu_count: nat) -> Seq<Seq<char>> {
    match m.tensor_split {
        Some(split) => {
            let n = entries_of(split@).len();
            and_if(
                Seq::empty(),
                gpu_count > 0 && n != gpu_count,
                "tensor_split has "@ + decimal(n) + " entries but "@ + decimal(gpu_count)
                    + " GPUs were detected"@,
            )
        },
        None => Seq::empty(),
    }
}

/// Whether there is a kind for every entry of the split.
pub open spec fn kinds_fit(m: ModelConfig, k: Seq<Numeral>) -> bool {
    match m.tensor_split {
        Some(split) => k.len() == entries_of(split@).len(),
        None => true,
    }
}

/// Notes what is wrong with a split, and what is doubtful about it. The kinds
/// of its entries are handed in.
pub fn validate_tensor_split(
    m: &ModelConfig,
    gpu_count: usize,
    kinds: &Vec<Numeral>,
    errors: &mut Vec<String>,
    warnings: &mut Vec<String>,
)
    requires
        kinds_fit(*m, kinds@),
    ensures
        texts(final(errors)@) == texts(old(errors)@) + split_faults(*m, kinds@),
        texts(final(warnings)@) == texts(old(warnings)@) + split_doubts(*m, gpu_count as nat),
{
    let ghost before = texts(errors@);
    let ghost warned = texts(warnings@);
    match &m.tensor_split {
        Some(split) => {
            let parts = split_entries(split.as_str());
            let ghost all = entries_of(split@);
            assert(all.len() == parts@.len());
            if gpu_count > 0 && parts.len() != gpu_count {
                let t = "tensor_split has ".to_owned().concat(
                    decimal_text(parts.len() as u64).as_str(),
                ).concat(" entries but ").concat(decimal_text(gpu_count as u64).as_str()).concat(
                    " GPUs were detected",
                );
                push_text(warnings, t);
            }
            assert(texts(warnings@) =~= warned + split_doubts(*m, gpu_count as nat));
            let mut some = false;
            let mut i: usize = 0;
            assert(texts(errors@) =~= before + entry_faults(all, kinds@, 0));
            while i < parts.len()
                invariant
                    i <= parts@.len(),
                    texts(parts@) == all,
                    all.len() == parts@.len(),
                    kinds@.len() == parts@.len(),
                    texts(errors@) == before + entry_faults(all, kinds@, i as int),
                    some == exists|j: int| 0 <= j < i && #[trigger] kinds@[j] == Numeral::Positive,
                decreases parts@.len() - i,
            {
                assert(all[i as int] == parts@[i as int]@);
                if kinds[i] == Numeral::Positive {
                    some = true;
                    assert(kinds@[i as int] == Numeral::Positive);
                }
                if kinds[i] == Numeral::NoNumber {
                    let ghost held = texts(errors@);
                    push_text(
                        errors,
                        quoted("tensor_split entry '", parts[i].as_str(), "' is not a number"),
                    );
                    assert(texts(errors@) =~= before + entry_faults(all, kinds@, i + 1));
                }
                i += 1;
            }
            assert(some == kinds@.contains(Numeral::Positive));
            if !some {
                push_text(
                    errors,
                    "tensor_split must contain at least one positive entry".to_owned(),
                );
            }
            assert(texts(errors@) =~= before + split_faults(*m, kinds@));
        },
        None => {
            assert(before =~= before + split_faults(*m, kinds@));
            assert(warned =~= warned + split_doubts(*m, gpu_count as nat));
        },
    }
}

/// What is doubtful about the context length.
pub open spec fn context_doubts(m: ModelConfig) -> Seq<Seq<char>> {
    match m.gguf_meta {
        Some(meta) => and_if(
            Seq::empty(),
            m.context > meta.max_context,
            "context "@ + decimal(m.context as nat) + " exceeds GGUF metadata max_context "@
                + decimal(meta.max_context as nat),
        ),
        None => Seq::empty(),
    }
}

/// Notes what is doubtful about the context length.
pub fn validate_context(m: &ModelConfig, warnings: &mut Vec<String>)
    ensures
        texts(final(warnings)@) == texts(old(warnings)@) + context_doubts(*m),
{
    let ghost before = texts(warnings@);
    match &m.gguf_meta {
        Some(meta) => {
            if m.context > meta.max_context {
                let t = "context ".to_owned().concat(decimal_text(m.context as u64).as_str()).concat(
                    " exceeds GGUF metadata max_context ",
                ).concat(decimal_text(meta.max_context as u64).as_str());
                push_text(warnings, t);
            }
        },
        None => {},
    }
    assert(texts(warnings@) =~= before + context_doubts(*m));
}

/// Whether a cache is held with fewer bits.
pub open spec fn is_quantized(c: Option<CacheType>) -> bool {
    match c {
        Some(t) => t == CacheType::Q8_0 || t == CacheType::Q4_0,
        None => false,
    }
}

fn quantized(c: Option<CacheType>) -> (r: bool)
    ensures
        r == is_quantized(c),
{
    match c {
        Some(t) => t == CacheType::Q8_0 || t == CacheType::Q4_0,
        None => false,
    }
}

/// What is doubtful about the cache.
pub open spec fn cache_doubts(m: ModelConfig) -> Seq<Seq<char>> {
    and_if(
        Seq::empty(),
        (is_quantized(m.cache_type_k) || is_quantized(m.cache_type_v)) && !m.flash_attn,
        "KV cache quantization usually requires flash attention"@,
    )
}

/// Notes what is doubtful about the cache.
pub fn validate_cache_quantization(m: &ModelConfig, warnings: &mut Vec<String>)
    ensures
        texts(final(warnings)@) == texts(old(warnings)@) + cache_doubts(*m),
{
    let ghost before = texts(warnings@);
    if (quantized(m.cache_type_k) || quantized(m.cache_type_v)) && !m.flash_attn {
        push_text(warnings, "KV cache quantization usually requires flash attention".to_owned());
    }
    assert(texts(warnings@) =~= before + cache_doubts(*m));
}

/// The place of the preset of that id, from `i` on.
pub open spec fn preset_at(p: Seq<BinaryPreset>, id: Seq<char>, i: int) -> Option<int>
    decreases p.len() - i,
{
    if i < 0 || i >= p.len() {
        None
    } else if p[i].id@ == id {
        Some(i)
    } else {
        preset_at(p, id, i + 1)
    }
}

/// The program that a model is run with, if its preset exists.
pub open spec fn program_of(m: ModelConfig, presets: Seq<BinaryPreset>) -> Option<Seq<char>> {
    match m.binary_preset {
        Some(id) => match preset_at(presets, id@, 0) {
            Some(i) => Some(presets[i].binary@),
            None => None,
        },
        None => Some(m.binary@),
    }
}

/// The program that a model is run with, if its preset exists.
pub fn find_program(m: &ModelConfig, presets: &Vec<BinaryPreset>) -> (r: Option<String>)
    ensures
        crate::text::option_text(r) == program_of(*m, presets@),
{
    match &m.binary_preset {
        Some(id) => {
            let mut i: usize = 0;
            while i < presets.len()
                invariant
                    i <= presets@.len(),
                    preset_at(presets@, id@, 0) == preset_at(presets@, id@, i as int),
                    m.binary_preset == Some(*id),
                decreases presets@.len() - i,
            {
                if same_text(presets[i].id.as_str(), id.as_str()) {
                    return Some(presets[i].binary.clone());
                }
                i += 1;
            }
            None
        },
        None => Some(m.binary.clone()),
    }
}

/// What is wrong with the program of a model.
pub open spec fn program_faults(m: ModelConfig, presets: Seq<BinaryPreset>, f: PathFacts) -> Seq<
    Seq<char>,
> {
    match program_of(m, presets) {
        Some(path) => binary_faults(path, f),
        None => seq!["binary preset '"@ + m.binary_preset->0@ + "' does not exist"@],
    }
}

/// What is wrong with a model definition, and what is doubtful about it.
/// `binary` is what the file system says of its program, `model_path` what it
/// says of the model, and `kinds` are the kinds of the entries of its split.
pub fn validate_model(
    m: &ModelConfig,
    presets: &Vec<BinaryPreset>,
    gpu_count: usize,
    binary: PathFacts,
    model_path: PathFacts,
    kinds: &Vec<Numeral>,
) -> (r: ValidationResponse)
    requires
        kinds_fit(*m, kinds@),
    ensures
        texts(r.errors@) == program_faults(*m, presets@, binary) + model_path_faults(
            *m,
            model_path,
        ) + split_faults(*m, kinds@),
        texts(r.warnings@) == split_doubts(*m, gpu_count as nat) + context_doubts(*m)
            + cache_doubts(*m),
        r.valid == (r.errors@.len() == 0),
{
    let mut errors: Vec<String> = Vec::new();
    let mut warnings: Vec<String> = Vec::new();
    assert(texts(errors@) =~= Seq::empty() && texts(warnings@) =~= Seq::empty());
    match find_program(m, presets) {
        Some(path) => {
            validate_binary_path(path.as_str(), binary, &mut errors);
        },
        None => {
            match &m.binary_preset {
                Some(id) => {
                    push_text(&mut errors, quoted("binary preset '", id.as_str(), "' does not exist"));
                },
                None => {},
            }
        },
    }
    assert(texts(errors@) =~= program_faults(*m, presets@, binary));
    validate_model_path(m, model_path, &mut errors);
    validate_tensor_split(m, gpu_count, kinds, &mut errors, &mut warnings);
    assert(texts(warnings@) =~= split_doubts(*m, gpu_count as nat));
    validate_context(m, &mut warnings);
    validate_cache_quantization(m, &mut warnings);
    let valid = errors.len() == 0;
    ValidationResponse { valid, errors, warnings }
}

/// The status of the answer to a validation.
pub fn validation_status(v: &ValidationResponse) -> (r: u16)
    ensures
        r == (if v.errors@.len() == 0 {
            200u16
        } else {
            422
        }),
{
    if v.errors.len() == 0 {
        200
    } else {
        422
    }
}

// ----- files -----

/// An entry of a directory.
#[derive(Debug)]
pub struct FileEntry {
    pub name: String,
    pub path: String,
    pub is_dir: bool,
}

/// The order of the entries: directories first, then by name.
pub open spec fn entry_order() -> spec_fn(FileEntry, FileEntry) -> bool {
    |a: FileEntry, b: FileEntry|
        if a.is_dir != b.is_dir {
            a.is_dir
        } else {
            text_leq(a.name@, b.name@)
        }
}

/// The entries of a directory in the order in which they are shown.
pub fn sort_entries(entries: Vec<FileEntry>) -> (r: Vec<FileEntry>)
    ensures
        r@ == sorted_by(entries@, entry_order()),
{
    let le = |a: &FileEntry, b: &FileEntry| -> (c: bool)
        ensures
            c == entry_order()(*a, *b),
        {
            if a.is_dir != b.is_dir {
                a.is_dir
            } else {
                text_le(a.name.as_str(), b.name.as_str())
            }
        };
    sort_stable(entries, le, Ghost(entry_order()))
}

} // verus!
