//! What holds of every answer to a client.
use vstd::prelude::*;
use vstd::string::*;

use crate::api::json::{json_document, JsonView};
use crate::api::loop_guard::cross_turn::has_tool_loop;
use crate::api::proxy::{
    forwards, is_hop_by_hop, list_view, listed_names, Forward, ProxyFailure, Refusal,
};
use crate::api::routes::{
    binary_faults, cache_doubts, context_doubts, entries_of, entry_faults, entry_order, load_status,
    model_path_faults, mutation_status, preset_at, program_faults, program_of, split_doubts,
    split_faults, FileEntry, Numeral, PathFacts,
};
use crate::api::state::{tells, ModelResponse};
use crate::config::alias::ModelAlias;
use crate::config::model::{CacheType, ModelConfig, ModelState, WeightsFormat};
use crate::config::preset::BinaryPreset;
use crate::config::settings::{LoopGuardSettings, ModelExposure};
use crate::orchestrator::errors::{LoadError, MutationError};
use crate::process::manager::ModelRuntime;
use crate::text::{decimal, has_suffix};

verus! {

broadcast use vstd::string::group_string_axioms;

// ----- what is passed on -----

/// A request goes to the port of its instance on this machine, under the path
/// and with the query that the client gave. Its body is passed on byte for byte
/// unless it is a chat request that repeats its tool calls.
pub proof fn law_requests_are_passed_on_as_they_are(
    port: u16,
    path: Seq<char>,
    path_and_query: Seq<char>,
    body: Seq<u8>,
    guards: LoopGuardSettings,
    r: Forward,
)
    requires
        forwards(port, path, path_and_query, body, guards, r),
    ensures
        r.url@ == "http://127.0.0.1:"@ + decimal(port as nat) + path_and_query,
        !guards.tool.enabled || !has_suffix(path, "/chat/completions"@) || json_document(body) is None
            || !has_tool_loop(json_document(body)->0, &guards.tool) ==> r.body@ == body,
        !guards.streaming.enabled ==> r.session is None,
        r.session matches Some(s) ==> s.attempt == 0 && json_document(r.body@) == Some(s.req_doc@),
{
}

/// A client that asks in a way that cannot be served is told so; a fault of the
/// server is never laid at the client's door.
pub proof fn law_refusals_have_their_status(f: ProxyFailure)
    ensures
        f matches ProxyFailure::Refused(Refusal::NotPost) ==> f.code() == 405,
        f matches ProxyFailure::Refused(Refusal::NoModel) ==> f.code() == 400,
        f is TooLarge ==> f.code() == 413,
        f is Upstream ==> f.code() == 502,
        f is NotLoaded || f is Restarting ==> f.code() == 503,
        f is Refused || f is TooLarge <==> 400 <= f.code() < 500,
{
}

/// The headers that belong to one connection are these eight.
pub proof fn law_connection_headers(name: Seq<char>)
    ensures
        is_hop_by_hop("connection"@),
        is_hop_by_hop("keep-alive"@),
        is_hop_by_hop("proxy-authenticate"@),
        is_hop_by_hop("proxy-authorization"@),
        is_hop_by_hop("te"@),
        is_hop_by_hop("trailer"@),
        is_hop_by_hop("transfer-encoding"@),
        is_hop_by_hop("upgrade"@),
        is_hop_by_hop(name) ==> seq![
            "connection"@,
            "keep-alive"@,
            "proxy-authenticate"@,
            "proxy-authorization"@,
            "te"@,
            "trailer"@,
            "transfer-encoding"@,
            "upgrade"@,
        ].contains(name),
{
    let all = seq![
        "connection"@,
        "keep-alive"@,
        "proxy-authenticate"@,
        "proxy-authorization"@,
        "te"@,
        "trailer"@,
        "transfer-encoding"@,
        "upgrade"@,
    ];
    assert(all[0] == "connection"@ && all[1] == "keep-alive"@ && all[2] == "proxy-authenticate"@
        && all[3] == "proxy-authorization"@);
    assert(all[4] == "te"@ && all[5] == "trailer"@ && all[6] == "transfer-encoding"@ && all[7]
        == "upgrade"@);
}

/// The list of models names every alias, and every model exactly where all are
/// exposed; and it names nothing else.
pub proof fn law_the_list_names_models_and_aliases(
    models: Seq<ModelConfig>,
    aliases: Seq<ModelAlias>,
    exposure: ModelExposure,
    i: int,
    x: Seq<char>,
)
    ensures
        0 <= i < aliases.len() ==> listed_names(models, aliases, exposure).contains(
            aliases[i].alias@,
        ),
        0 <= i < models.len() && exposure == ModelExposure::FullList ==> listed_names(
            models,
            aliases,
            exposure,
        ).contains(models[i].id@),
        listed_names(models, aliases, exposure).contains(x) ==> ((exists|k: int|
            0 <= k < aliases.len() && (#[trigger] aliases[k]).alias@ == x) || (exposure
            == ModelExposure::FullList && exists|k: int|
            0 <= k < models.len() && (#[trigger] models[k]).id@ == x)),
        listed_names(models, aliases, exposure).len() == aliases.len() + (if exposure
            == ModelExposure::FullList {
            models.len() as int
        } else {
            0
        }),
{
    let all = listed_names(models, aliases, exposure);
    let off = if exposure == ModelExposure::FullList {
        models.len() as int
    } else {
        0
    };
    if 0 <= i < aliases.len() {
        assert(all[off + i] == aliases[i].alias@);
    }
    if 0 <= i < models.len() && exposure == ModelExposure::FullList {
        assert(all[i] == models[i].id@);
    }
    if all.contains(x) {
        let k = choose|k: int| 0 <= k < all.len() && all[k] == x;
        if k < off {
            assert(models[k].id@ == x);
        } else {
            assert(aliases[k - off].alias@ == x);
        }
    }
}

/// Each name of the list stands as an id in its data, in the same order.
pub proof fn law_the_list_holds_an_entry_for_each_name(names: Seq<Seq<char>>, i: int)
    requires
        0 <= i < names.len(),
    ensures
        list_view(names).text_at("object"@) == Some("list"@),
        list_view(names).items_at("data"@) is Some,
        list_view(names).items_at("data"@)->0.len() == names.len(),
        list_view(names).items_at("data"@)->0[i].text_at("id"@) == Some(names[i]),
        list_view(names).items_at("data"@)->0[i].text_at("object"@) == Some("model"@),
{
    reveal_strlit("object");
    reveal_strlit("data");
    reveal_strlit("id");
    assert("object"@.len() != "data"@.len() && "id"@.len() != "object"@.len());
    reveal_with_fuel(JsonView::entry, 3);
    let e = list_view(names)->Object_0;
    assert(e[0].0 == "object"@ && e[1].0 == "data"@);
    let l = crate::api::proxy::listed(names[i])->Object_0;
    assert(l[0].0 == "id"@ && l[1].0 == "object"@);
}

// ----- statuses -----

/// A change is refused with 404 where what it names is missing, with 409 where
/// it clashes with what is there, and with 422 where it makes no sense.
pub proof fn law_refused_changes_have_their_status(e: MutationError)
    ensures
        e is NotFound || e is AliasNotFound <==> mutation_status(e) == 404,
        e is Conflict || e is DraftInUse || e is AliasConflict <==> mutation_status(e) == 409,
        e is InvalidConfig || e is AliasShadowsModel || e is AliasTargetMissing || e is AliasCycle
            || e is AliasInvalid <==> mutation_status(e) == 422,
{
}

/// A load is answered with 404 where the model is not known, with 422 where its
/// definition is at fault, and with 503 where it may work another time.
pub proof fn law_failed_loads_have_their_status(e: LoadError)
    ensures
        e is ModelNotFound <==> load_status(e) == 404,
        e is PresetNotFound || e is NoBinary || e is DraftNotFound <==> load_status(e) == 422,
        e is SpawnFailed || e is FitProbeFailed || e is InsufficientVram <==> load_status(e) == 503,
{
}

// ----- validation -----

/// A program is in order exactly where its path is given and is that of a file
/// that can be executed.
pub proof fn law_a_program_must_be_executable(path: Seq<char>, f: PathFacts)
    ensures
        binary_faults(path, f).len() == 0 <==> (path.len() > 0 && f.exists && f.is_file
            && f.executable),
{
}

/// What is wrong with a program is told by its path: that it is missing, that it
/// is no file, that it cannot be run, each exactly where it holds.
pub proof fn law_each_fault_of_a_program_is_told(path: Seq<char>, f: PathFacts)
    requires
        path.len() > 0,
    ensures
        binary_faults(path, f).contains("binary '"@ + path + "' does not exist"@) <==> !f.exists,
        binary_faults(path, f).contains("binary '"@ + path + "' is not a file"@) <==> f.exists
            && !f.is_file,
        binary_faults(path, f).contains("binary '"@ + path + "' is not executable"@) <==> f.exists
            && !f.executable,
{
    reveal_strlit("' does not exist");
    reveal_strlit("' is not a file");
    reveal_strlit("' is not executable");
    let a = "binary '"@ + path + "' does not exist"@;
    let b = "binary '"@ + path + "' is not a file"@;
    let c = "binary '"@ + path + "' is not executable"@;
    assert("' does not exist"@.len() == 16);
    assert("' is not a file"@.len() == 15);
    assert("' is not executable"@.len() == 19);
    assert(a.len() != b.len() && b.len() != c.len() && a.len() != c.len());
    let faults = binary_faults(path, f);
    if !f.exists {
        assert(faults[0] == a);
    } else {
        if !f.is_file {
            assert(faults[0] == b);
            if !f.executable {
                assert(faults[1] == c);
            }
        } else if !f.executable {
            assert(faults[0] == c);
        }
    }
}

/// A model whose preset does not exist is at fault, and so is one whose program
/// is.
pub proof fn law_a_model_needs_its_program(
    m: ModelConfig,
    presets: Seq<BinaryPreset>,
    f: PathFacts,
)
    ensures
        m.binary_preset is None ==> program_faults(m, presets, f) == binary_faults(m.binary@, f),
        m.binary_preset matches Some(p) ==> {
            &&& (forall|i: int| 0 <= i < presets.len() ==> (#[trigger] presets[i]).id@ != p@)
                ==> program_faults(m, presets, f) == seq![
                "binary preset '"@ + p@ + "' does not exist"@,
            ]
            &&& forall|i: int|
                0 <= i < presets.len() && (#[trigger] presets[i]).id@ == p@ && (forall|j: int|
                    0 <= j < i ==> (#[trigger] presets[j]).id@ != p@) ==> program_faults(
                    m,
                    presets,
                    f,
                ) == binary_faults(presets[i].binary@, f)
        },
{
    law_a_model_runs_its_presets_program(m, presets);
    if let Some(p) = m.binary_preset {
        assert forall|i: int|
            0 <= i < presets.len() && (#[trigger] presets[i]).id@ == p@ && (forall|j: int|
                0 <= j < i ==> (#[trigger] presets[j]).id@ != p@) implies program_faults(
            m,
            presets,
            f,
        ) == binary_faults(presets[i].binary@, f) by {
            lemma_preset_is_first(presets, p@, 0, i);
        }
    }
}

proof fn lemma_preset_is_first(p: Seq<BinaryPreset>, id: Seq<char>, from: int, i: int)
    requires
        0 <= from <= i < p.len(),
        p[i].id@ == id,
        forall|j: int| from <= j < i ==> (#[trigger] p[j]).id@ != id,
    ensures
        preset_at(p, id, from) == Some(i),
    decreases i - from,
{
    if from < i {
        assert(p[from].id@ != id);
        lemma_preset_is_first(p, id, from + 1, i);
    }
}

/// A model file is in order exactly where its path is given and exists, as a
/// file for GGUF and as a directory for safetensors.
pub proof fn law_a_model_path_must_fit_its_format(m: ModelConfig, f: PathFacts)
    ensures
        model_path_faults(m, f).len() == 0 <==> (m.model_path@.len() > 0 && f.exists && (
        m.weights_format == WeightsFormat::Gguf ==> f.is_file) && (m.weights_format
            == WeightsFormat::Safetensors ==> f.is_dir)),
{
}

proof fn lemma_preset(p: Seq<BinaryPreset>, id: Seq<char>, from: int)
    requires
        0 <= from,
    ensures
        match preset_at(p, id, from) {
            Some(i) => from <= i < p.len() && p[i].id@ == id,
            None => forall|i: int| from <= i < p.len() ==> (#[trigger] p[i]).id@ != id,
        },
    decreases p.len() - from,
{
    if from < p.len() && p[from].id@ != id {
        lemma_preset(p, id, from + 1);
    }
}

/// A model runs the program of its preset, which must exist, or its own where
/// it has no preset.
pub proof fn law_a_model_runs_its_presets_program(m: ModelConfig, presets: Seq<BinaryPreset>)
    ensures
        m.binary_preset is None ==> program_of(m, presets) == Some(m.binary@),
        m.binary_preset matches Some(p) ==> match program_of(m, presets) {
            Some(path) => exists|i: int|
                0 <= i < presets.len() && (#[trigger] presets[i]).id@ == p@ && path
                    == presets[i].binary@,
            None => forall|i: int| 0 <= i < presets.len() ==> (#[trigger] presets[i]).id@ != p@,
        },
{
    if m.binary_preset is Some {
        lemma_preset(presets, m.binary_preset->0@, 0);
    }
}

proof fn lemma_entry_faults(e: Seq<Seq<char>>, k: Seq<Numeral>, n: int)
    requires
        0 <= n <= k.len(),
    ensures
        entry_faults(e, k, n).len() == 0 <==> forall|i: int|
            0 <= i < n ==> #[trigger] k[i] != Numeral::NoNumber,
    decreases n,
{
    if n > 0 {
        lemma_entry_faults(e, k, n - 1);
    }
}

/// A split is in order exactly where there is none, or where each entry is a
/// number and one of them is positive.
pub proof fn law_a_split_must_be_numbers(m: ModelConfig, k: Seq<Numeral>)
    requires
        m.tensor_split is Some ==> k.len() == entries_of(m.tensor_split->0@).len(),
    ensures
        split_faults(m, k).len() == 0 <==> (m.tensor_split is None || ((forall|i: int|
            0 <= i < k.len() ==> #[trigger] k[i] != Numeral::NoNumber) && exists|i: int|
            0 <= i < k.len() && #[trigger] k[i] == Numeral::Positive)),
{
    if m.tensor_split is Some {
        lemma_entry_faults(entries_of(m.tensor_split->0@), k, k.len() as int);
    }
}

/// What is doubtful: a split whose length is not the number of GPUs, a context
/// longer than the model was made for, and a cache of fewer bits without flash
/// attention.
pub proof fn law_doubts(m: ModelConfig, gpu_count: nat)
    ensures
        split_doubts(m, gpu_count).len() > 0 <==> (m.tensor_split is Some && gpu_count > 0
            && entries_of(m.tensor_split->0@).len() != gpu_count),
        context_doubts(m).len() > 0 <==> (m.gguf_meta is Some && m.context
            > m.gguf_meta->0.max_context),
        cache_doubts(m).len() > 0 <==> (!m.flash_attn && (m.cache_type_k == Some(CacheType::Q8_0)
            || m.cache_type_k == Some(CacheType::Q4_0) || m.cache_type_v == Some(CacheType::Q8_0)
            || m.cache_type_v == Some(CacheType::Q4_0))),
{
}

/// Directories stand before files.
pub proof fn law_directories_come_first(a: FileEntry, b: FileEntry)
    ensures
        a.is_dir && !b.is_dir ==> entry_order()(a, b) && !entry_order()(b, a),
{
}

/// A model is told with its own state and with the figures of its runtime.
pub proof fn law_a_model_is_told_as_it_is(r: ModelResponse, m: ModelConfig, rt: ModelRuntime)
    requires
        tells(r, m, rt),
    ensures
        r.state@ == (match m.state {
            ModelState::Idle => "idle"@,
            ModelState::Loading => "loading"@,
            ModelState::Running => "running"@,
            ModelState::Error(_) => "error"@,
        }),
        r.state_message is Some <==> m.state is Error,
        m.state matches ModelState::Error(e) ==> r.state_message == Some(e),
        r.id == m.id && r.name == m.name && r.profile == m.profile,
        r.binary == m.binary && r.model_path == m.model_path,
        r.context == m.context && r.estimated_vram == m.estimated_vram,
        r.extra_args@ == m.extra_args@,
        r.last_used == m.last_used,
        r.pid == m.pid,
        r.instances == rt.instances,
        r.pending_instances == rt.pending,
        r.active_requests == rt.active,
        r.weights_format@ == (if m.weights_format == WeightsFormat::Gguf {
            "gguf"@
        } else {
            "safetensors"@
        }),
{
}

} // verus!
