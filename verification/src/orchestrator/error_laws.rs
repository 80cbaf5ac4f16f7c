//! What holds of the messages that tell what went wrong.
use vstd::prelude::*;
use vstd::string::*;

use crate::api::json::JsonView;
use crate::api::loop_guard::endpoint::halt_text;
use crate::api::proxy::ProxyFailure;
use crate::api::routes::mutation_text;
use crate::config::model::ConfigError;
use crate::orchestrator::errors::{LoadError, MutationError, StopError};
use crate::process::manager::{HealthCheckError, SpawnError};
use crate::text::{decimal, has_infix, join, occurs_at, texts};
use crate::units::gib_of;

verus! {

broadcast use vstd::string::group_string_axioms;

proof fn lemma_holds(a: Seq<char>, x: Seq<char>, b: Seq<char>)
    ensures
        has_infix(a + x + b, x),
{
    let all = a + x + b;
    let i = a.len() as int;
    assert(all.subrange(i, i + x.len()) =~= x);
    assert(occurs_at(all, x, i));
}

proof fn lemma_ends(a: Seq<char>, x: Seq<char>)
    ensures
        has_infix(a + x, x),
{
    lemma_holds(a, x, Seq::empty());
    assert(a + x + Seq::<char>::empty() =~= a + x);
}

proof fn lemma_holds_on(s: Seq<char>, b: Seq<char>, x: Seq<char>)
    requires
        has_infix(s, x),
    ensures
        has_infix(s + b, x),
        has_infix(b + s, x),
{
    let i = choose|i: int| occurs_at(s, x, i);
    assert((s + b).subrange(i, i + x.len()) =~= s.subrange(i, i + x.len()));
    assert(occurs_at(s + b, x, i));
    let j = b.len() + i;
    assert((b + s).subrange(j, j + x.len()) =~= s.subrange(i, i + x.len()));
    assert(occurs_at(b + s, x, j));
}

proof fn lemma_short_of_memory(model: Seq<char>, n: Seq<char>, f: Seq<char>)
    ensures
        ({
            let all = "not enough idle VRAM to load '"@ + model + "': need "@ + n + " GiB, have "@ + f
                + " GiB (active requests are not evicted)"@;
            &&& has_infix(all, model)
            &&& has_infix(all, "need "@ + n + " GiB"@)
            &&& has_infix(all, "have "@ + f + " GiB"@)
        }),
{
    let first = "not enough idle VRAM to load '"@;
    let end = " GiB (active requests are not evicted)"@;
    let all = first + model + "': need "@ + n + " GiB, have "@ + f + end;
    lemma_holds(first, model, "': need "@ + n + " GiB, have "@ + f + end);
    assert(all =~= first + model + ("': need "@ + n + " GiB, have "@ + f + end));
    lemma_parts_of_words();
    let note = " (active requests are not evicted)"@;
    let x = "need "@ + n + " GiB"@;
    let y = "have "@ + f + " GiB"@;
    let start = first + model + "': "@;
    lemma_holds(start, x, ", "@ + y + note);
    assert(all =~= start + x + (", "@ + y + note));
    lemma_holds(start + x + ", "@, y, note);
    assert(all =~= start + x + ", "@ + y + note);
}

proof fn lemma_parts_of_words()
    ensures
        "': need "@ == "': "@ + "need "@,
        " GiB, have "@ == " GiB"@ + ", "@ + "have "@,
        " GiB (active requests are not evicted)"@ == " GiB"@ + " (active requests are not evicted)"@,
{
    reveal_strlit("': need ");
    reveal_strlit("need ");
    reveal_strlit(" GiB, have ");
    reveal_strlit(" GiB");
    reveal_strlit("have ");
    reveal_strlit(" GiB (active requests are not evicted)");
    reveal_strlit("': ");
    reveal_strlit(", ");
    reveal_strlit(" (active requests are not evicted)");
    assert("': need "@ =~= "': "@ + "need "@);
    assert(" GiB, have "@ =~= " GiB"@ + ", "@ + "have "@);
    assert(" GiB (active requests are not evicted)"@ =~= " GiB"@
        + " (active requests are not evicted)"@);
}

/// The message about a load that failed names what it is about: the model, the
/// preset, the draft and its target, the memory that is needed and the memory
/// that is there, and the reason that was given.
pub proof fn law_failed_loads_name_what_failed(e: LoadError)
    ensures
        e matches LoadError::ModelNotFound(id) ==> has_infix(e.text(), id@),
        e matches LoadError::PresetNotFound(id) ==> has_infix(e.text(), id@),
        e matches LoadError::NoBinary(id) ==> has_infix(e.text(), id@),
        e matches LoadError::DraftNotFound { id, target } ==> has_infix(e.text(), id@) && has_infix(
            e.text(),
            target@,
        ),
        e matches LoadError::FitProbeFailed(what) ==> has_infix(e.text(), what@),
        e matches LoadError::InsufficientVram { model, needed, free } ==> has_infix(
            e.text(),
            model@,
        ) && has_infix(e.text(), "need "@ + gib_of(needed as nat) + " GiB"@) && has_infix(
            e.text(),
            "have "@ + gib_of(free as nat) + " GiB"@,
        ),
        e matches LoadError::SpawnFailed(SpawnError::SpawnFailed(reason, binary)) ==> has_infix(
            e.text(),
            reason@,
        ) && has_infix(e.text(), binary@),
        e matches LoadError::SpawnFailed(SpawnError::HealthCheckFailed(
            HealthCheckError::Timeout(s),
        )) ==> has_infix(e.text(), decimal(s as nat) + "s"@),
        e matches LoadError::SpawnFailed(SpawnError::HealthCheckFailed(
            HealthCheckError::Http(what),
        )) ==> has_infix(e.text(), what@),
        e matches LoadError::SpawnFailed(SpawnError::HealthCheckFailed(
            HealthCheckError::ChildExited(_, what),
        )) ==> has_infix(e.text(), what@),
{
    match e {
        LoadError::ModelNotFound(id) => {
            lemma_holds("model '"@, id@, "' not found"@);
        },
        LoadError::PresetNotFound(id) => {
            lemma_holds(
                "binary preset '"@,
                id@,
                "' not found — edit the model and pick an existing preset or a custom path"@,
            );
        },
        LoadError::NoBinary(id) => {
            lemma_holds(
                "model '"@,
                id@,
                "' has no binary configured — edit the model and pick a binary preset or a custom path"@,
            );
        },
        LoadError::DraftNotFound { id, target } => {
            let a = "model references draft '"@ + id@ + "', but no model '"@ + id@
                + "' exists (target: '"@;
            lemma_holds(a, target@, "')"@);
            lemma_holds("model references draft '"@, id@, "', but no model '"@);
            let b = "model references draft '"@ + id@ + "', but no model '"@;
            lemma_holds_on(b, id@, id@);
            lemma_holds_on(b + id@, "' exists (target: '"@, id@);
            lemma_holds_on(a, target@, id@);
            lemma_holds_on(a + target@, "')"@, id@);
        },
        LoadError::FitProbeFailed(what) => {
            lemma_ends("llama.cpp fit probe failed: "@, what@);
        },
        LoadError::InsufficientVram { model, needed, free } => {
            lemma_short_of_memory(model@, gib_of(needed as nat), gib_of(free as nat));
        },
        LoadError::SpawnFailed(SpawnError::SpawnFailed(reason, binary)) => {
            let a = "failed to spawn '"@ + binary@ + "': "@;
            lemma_ends(a, reason@);
            lemma_holds("failed to spawn '"@, binary@, "': "@);
            lemma_holds_on(a, reason@, binary@);
            lemma_holds_on(a + reason@, "spawn failed: "@, reason@);
            lemma_holds_on(a + reason@, "spawn failed: "@, binary@);
        },
        LoadError::SpawnFailed(SpawnError::HealthCheckFailed(h)) => {
            match h {
                HealthCheckError::Timeout(s) => {
                    let x = decimal(s as nat) + "s"@;
                    lemma_ends("timed out after "@, x);
                    assert(h.text() =~= "timed out after "@ + x);
                    lemma_holds_on(h.text(), "health check failed: "@, x);
                    lemma_holds_on("health check failed: "@ + h.text(), "spawn failed: "@, x);
                },
                HealthCheckError::Http(what) => {
                    lemma_ends("http error: "@, what@);
                    lemma_holds_on(h.text(), "health check failed: "@, what@);
                    lemma_holds_on("health check failed: "@ + h.text(), "spawn failed: "@, what@);
                },
                HealthCheckError::ChildExited(code, what) => {
                    let a = "inference server exited before becoming ready (exit code "@
                        + crate::orchestrator::errors::code_text(code) + "): "@;
                    lemma_ends(a, what@);
                    lemma_holds_on(h.text(), "health check failed: "@, what@);
                    lemma_holds_on("health check failed: "@ + h.text(), "spawn failed: "@, what@);
                },
            }
        },
        LoadError::SpawnFailed(SpawnError::NoFreePort) => {},
    }
}

/// The message about a change that was refused names what it is about, in the
/// journal as in the answer.
pub proof fn law_refused_changes_name_what_was_refused(e: MutationError)
    ensures
        e matches MutationError::NotFound(id) ==> has_infix(e.text(), id@) && has_infix(
            mutation_text(e),
            id@,
        ),
        e matches MutationError::Conflict(id) ==> has_infix(e.text(), id@) && has_infix(
            mutation_text(e),
            id@,
        ),
        e matches MutationError::AliasConflict(a) ==> has_infix(e.text(), a@) && has_infix(
            mutation_text(e),
            a@,
        ),
        e matches MutationError::AliasNotFound(a) ==> has_infix(e.text(), a@) && has_infix(
            mutation_text(e),
            a@,
        ),
        e matches MutationError::AliasShadowsModel(a) ==> has_infix(e.text(), a@) && has_infix(
            mutation_text(e),
            a@,
        ),
        e matches MutationError::AliasTargetMissing { alias, target } ==> has_infix(
            e.text(),
            alias@,
        ) && has_infix(e.text(), target@) && mutation_text(e) == e.text(),
        e matches MutationError::AliasCycle { alias, target } ==> has_infix(e.text(), alias@)
            && has_infix(e.text(), target@) && mutation_text(e) == e.text(),
        e matches MutationError::AliasInvalid(what) ==> has_infix(e.text(), what@) && mutation_text(
            e,
        ) == e.text(),
        e matches MutationError::DraftInUse { id, targets } ==> has_infix(e.text(), id@)
            && has_infix(e.text(), join(texts(targets@), ", "@)) && has_infix(mutation_text(e), id@)
            && has_infix(mutation_text(e), join(texts(targets@), ", "@)),
        e matches MutationError::InvalidConfig(ConfigError::DraftNotFound { id }) ==> has_infix(
            e.text(),
            id@,
        ) && has_infix(mutation_text(e), id@),
{
    match e {
        MutationError::NotFound(id) => {
            lemma_holds("model '"@, id@, "' not found"@);
            lemma_holds("'"@, id@, "' not found"@);
        },
        MutationError::Conflict(id) => {
            lemma_holds("model '"@, id@, "' already exists"@);
            lemma_holds("'"@, id@, "' already exists"@);
        },
        MutationError::AliasConflict(a) => {
            lemma_holds("alias '"@, a@, "' already exists"@);
        },
        MutationError::AliasNotFound(a) => {
            lemma_holds("alias '"@, a@, "' not found"@);
        },
        MutationError::AliasShadowsModel(a) => {
            lemma_holds("alias '"@, a@, "' collides with an existing model id"@);
        },
        MutationError::AliasTargetMissing { alias, target } => {
            let a = "alias '"@ + alias@ + "' points at '"@;
            lemma_holds("alias '"@, alias@, "' points at '"@);
            lemma_holds(a, target@, "', which is not a model or alias"@);
            lemma_holds_on(a, target@, alias@);
            lemma_holds_on(a + target@, "', which is not a model or alias"@, alias@);
        },
        MutationError::AliasCycle { alias, target } => {
            let a = "alias '"@ + alias@ + "' → '"@;
            lemma_holds("alias '"@, alias@, "' → '"@);
            lemma_holds(a, target@, "' would create a resolution cycle"@);
            lemma_holds_on(a, target@, alias@);
            lemma_holds_on(a + target@, "' would create a resolution cycle"@, alias@);
        },
        MutationError::AliasInvalid(what) => {
            lemma_ends("invalid alias: "@, what@);
        },
        MutationError::DraftInUse { id, targets } => {
            let t = join(texts(targets@), ", "@);
            let a = "cannot delete '"@ + id@ + "': used as a draft by "@;
            lemma_holds("cannot delete '"@, id@, "': used as a draft by "@);
            lemma_ends(a, t);
            lemma_holds_on(a, t, id@);
            let b = "cannot delete draft '"@ + id@ + "': still referenced by "@;
            lemma_holds("cannot delete draft '"@, id@, "': still referenced by "@);
            lemma_holds(b, t, ". Unset draft_model_id on those targets first."@);
            lemma_holds_on(b, t, id@);
            lemma_holds_on(b + t, ". Unset draft_model_id on those targets first."@, id@);
        },
        MutationError::InvalidConfig(c) => {
            if let ConfigError::DraftNotFound { id } = c {
                lemma_holds(
                    "model references draft '"@,
                    id@,
                    "', but no model with that id exists"@,
                );
                lemma_holds_on(c.text(), "invalid config: "@, id@);
            }
        },
    }
}

/// The message about a model that could not be stopped names the model.
pub proof fn law_a_failed_stop_names_the_model(e: StopError)
    ensures
        e matches StopError::ModelNotFound(id) && has_infix(e.text(), id@),
{
    match e {
        StopError::ModelNotFound(id) => {
            lemma_holds("model '"@, id@, "' not found"@);
        },
    }
}

/// A client that gets no answer is told why: the reason, the model where it is
/// known, and whether it may try again.
pub proof fn law_clients_are_told_why(f: ProxyFailure)
    ensures
        f.told() is Object,
        f.told()->Object_0.len() >= 1,
        f.told()->Object_0[0].0 == "error"@,
        f.told()->Object_0[0].1 is Str,
        f matches ProxyFailure::Upstream(why) ==> has_infix(
            f.told()->Object_0[0].1->Str_0,
            why@,
        ),
        f matches ProxyFailure::TooLarge { limit, why } ==> {
            &&& has_infix(f.told()->Object_0[0].1->Str_0, decimal(limit as nat))
            &&& has_infix(f.told()->Object_0[0].1->Str_0, why@)
        },
        f matches ProxyFailure::NotLoaded { model, error } ==> {
            &&& f.told()->Object_0[0].1 == JsonView::Str(error.text())
            &&& f.told()->Object_0.contains(("model"@, JsonView::Str(model@)))
        },
        f matches ProxyFailure::Restarting(model) ==> {
            &&& has_infix(f.told()->Object_0[0].1->Str_0, model@)
            &&& f.told()->Object_0.contains(("model"@, JsonView::Str(model@)))
            &&& f.told()->Object_0.contains(("retry"@, JsonView::Bool(true)))
        },
        f is Refused ==> f.told()->Object_0.len() == 1,
{
    let e = f.told()->Object_0;
    match f {
        ProxyFailure::Refused(r) => {
            assert(e[0] == ("error"@, JsonView::Str(r.told())));
        },
        ProxyFailure::Upstream(why) => {
            lemma_ends("upstream error: "@, why@);
            assert(e[0] == ("error"@, JsonView::Str("upstream error: "@ + why@)));
        },
        ProxyFailure::TooLarge { limit, why } => {
            let a = "request body exceeds max size of "@;
            let n = decimal(limit as nat);
            let b = " bytes or could not be read: "@;
            lemma_holds(a, n, b);
            lemma_holds_on(a + n + b, why@, n);
            lemma_ends(a + n + b, why@);
            assert(e[0] == ("error"@, JsonView::Str(a + n + b + why@)));
        },
        ProxyFailure::NotLoaded { model, error } => {
            assert(e[0] == ("error"@, JsonView::Str(error.text())));
            assert(e[1] == ("model"@, JsonView::Str(model@)));
        },
        ProxyFailure::Restarting(model) => {
            let b = "' was unresponsive and is being restarted; please retry"@;
            lemma_holds("model '"@, model@, b);
            assert(e[0] == ("error"@, JsonView::Str("model '"@ + model@ + b)));
            assert(e[1] == ("model"@, JsonView::Str(model@)));
            assert(e[2] == ("retry"@, JsonView::Bool(true)));
        },
    }
}

/// The text that ends a stream tells after how many attempts it ended, and how
/// long the loop was.
pub proof fn law_an_ended_stream_tells_its_loop(attempts: nat, period: nat, what: Seq<char>)
    ensures
        has_infix(halt_text(attempts, period, what), decimal(attempts)),
        has_infix(halt_text(attempts, period, what), "(period="@ + decimal(period) + ")"@),
        has_infix(halt_text(attempts, period, what), what),
{
    let a = "\n\n[loop detected after "@;
    let b = " attempt(s) (period="@;
    let c = "), "@;
    let d = "]\n"@;
    let n = decimal(attempts);
    let p = decimal(period);
    reveal_strlit(" attempt(s) (period=");
    reveal_strlit(" attempt(s) ");
    reveal_strlit("(period=");
    reveal_strlit("), ");
    reveal_strlit(")");
    reveal_strlit(", ");
    assert(b =~= " attempt(s) "@ + "(period="@);
    assert(c =~= ")"@ + ", "@);
    let all = halt_text(attempts, period, what);
    lemma_holds(a, n, b + p + c + what + d);
    assert(all =~= a + n + (b + p + c + what + d));
    let x = "(period="@ + p + ")"@;
    lemma_holds(a + n + " attempt(s) "@, x, ", "@ + what + d);
    assert(all =~= a + n + " attempt(s) "@ + x + (", "@ + what + d));
    lemma_holds(a + n + b + p + c, what, d);
}

} // verus!
