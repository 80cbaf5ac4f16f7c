//! What holds of all settings and of all throughput reports.
use vstd::prelude::*;
use vstd::string::*;

use crate::api::json::JsonView;
use crate::config::backend::{backend_named_in, Backend, BackendTags};
use crate::config::gpu_tags::{overrides_by_pci, tagged, GpuTagOverride};
use crate::config::model::{equal_numbers, size_sum, NumberView};
use crate::config::perf::{
    delta_of, is_positive_text, line_value, line_values, no_exponent_before, series_name,
    timings_of, tracked_at, with_tracked, TrackedView, VllmPerfDelta, VllmPerfSnapshot,
};
use crate::config::preset::BinaryPreset;
use crate::config::settings::{
    action_of, switch_of, value_from, AppSettingsView, EnvVars, ModelExposure, StreamingLoopAction,
};
use crate::lifecycle::asked_port;
use crate::system::memcap::reserve_gib;
use crate::text::{
    decimal, has_infix, has_prefix, is_blank, lower, occurs_at, trim, unsigned_up_to, words,
};
use crate::text_laws::law_numbers_are_read_back;
use crate::vram::tracker::GpuInfo;

verus! {

broadcast use vstd::string::group_string_axioms;

// ----- settings -----

/// Settings that are made admissible lie within their bounds, and a value that
/// lies within them already is kept, as is everything that has no bounds.
pub proof fn law_admissible_settings_are_kept(s: AppSettingsView)
    ensures
        ({
            let c = s.clean();
            let a = s.loop_guards.streaming;
            let b = c.loop_guards.streaming;
            &&& b.window_bytes == (if a.window_bytes >= 1024 { a.window_bytes } else { 1024 })
            &&& b.repeats == (if a.repeats >= 2 { a.repeats } else { 2 })
            &&& b.check_interval_ms == (if a.check_interval_ms >= 1 { a.check_interval_ms } else { 1 })
            &&& b.max_retries == a.max_retries
            &&& b.enabled == a.enabled
            &&& b.action == a.action
            &&& b.replay_partial == a.replay_partial
        }),
        ({
            let a = s.loop_guards.tool;
            let b = s.clean().loop_guards.tool;
            &&& b.repeats == (if a.repeats >= 2 { a.repeats } else { 2 })
            &&& b.window_messages == (if a.window_messages >= 2 { a.window_messages } else { 2 })
            &&& b.enabled == a.enabled
        }),
        ({
            let a = s.watchdog;
            let b = s.clean().watchdog;
            &&& b.enabled == a.enabled
            &&& b.idle_timeout_secs == a.idle_timeout_secs
            &&& b.engine_reset_watch == a.engine_reset_watch
            &&& b.engine_reset_poll_secs >= 1
            &&& a.engine_reset_poll_secs >= 1 ==> b.engine_reset_poll_secs == a.engine_reset_poll_secs
            &&& b.liveness_interval_secs >= 1
            &&& a.liveness_interval_secs >= 1 ==> b.liveness_interval_secs == a.liveness_interval_secs
            &&& b.liveness_timeout_secs >= 1
            &&& a.liveness_timeout_secs >= 1 ==> b.liveness_timeout_secs == a.liveness_timeout_secs
            &&& b.liveness_failures_to_recycle >= 1
            &&& a.liveness_failures_to_recycle >= 1 ==> b.liveness_failures_to_recycle
                == a.liveness_failures_to_recycle
            &&& !is_blank(a.drm_root) ==> b.drm_root == a.drm_root
            &&& is_blank(a.drm_root) ==> b.drm_root == "/sys/class/drm"@
            &&& !is_blank(a.liveness_probe_path) ==> b.liveness_probe_path == a.liveness_probe_path
            &&& is_blank(a.liveness_probe_path) ==> b.liveness_probe_path == "/slots"@
            &&& b.devcoredump_capture_dir == a.devcoredump_capture_dir
            &&& b.notify_webhook_url == a.notify_webhook_url
            &&& b.liveness_enabled == a.liveness_enabled
        }),
        1 <= s.clean().gpu_vram_cap_pct <= 100,
        1 <= s.gpu_vram_cap_pct <= 100 ==> s.clean().gpu_vram_cap_pct == s.gpu_vram_cap_pct,
        1 <= s.clean().display_gpu_vram_cap_pct <= 100,
        1 <= s.display_gpu_vram_cap_pct <= 100 ==> s.clean().display_gpu_vram_cap_pct
            == s.display_gpu_vram_cap_pct,
        s.gpu_vram_cap_pct > 100 ==> s.clean().gpu_vram_cap_pct == 100,
        s.clean().model_exposure == s.model_exposure,
        !is_blank(s.models_folder) ==> s.clean().models_folder == s.models_folder,
{
}

/// Where the environment says nothing, these values apply.
pub proof fn law_what_applies_where_nothing_is_said(env: &EnvVars)
    requires
        forall|name: Seq<char>| #[trigger] env.value(name) is None,
    ensures
        ({
            let s = AppSettingsView::asked(env);
            let l = s.loop_guards.streaming;
            let t = s.loop_guards.tool;
            let w = s.watchdog;
            &&& s.gpu_vram_cap_pct == 98 && s.display_gpu_vram_cap_pct == 80
            &&& s.model_exposure == ModelExposure::FullList
            &&& s.models_folder == "~/models"@
            &&& l.enabled && l.window_bytes == 65536 && l.repeats == 10 && l.check_interval_ms
                == 5000 && l.max_retries == 3 && l.action == StreamingLoopAction::Heal
                && l.replay_partial
            &&& t.enabled && t.repeats == 3 && t.window_messages == 80
            &&& w.enabled && w.idle_timeout_secs == 900 && w.engine_reset_watch
                && w.engine_reset_poll_secs == 3 && w.liveness_enabled && w.liveness_interval_secs
                == 30 && w.liveness_timeout_secs == 10 && w.liveness_failures_to_recycle == 3
            &&& w.devcoredump_capture_dir == "~/gpu-hangs"@
            &&& w.notify_webhook_url == ""@
        }),
{
}

/// Each variable of the environment sets its own setting.
pub proof fn law_each_variable_sets_its_own_setting(env: &EnvVars, v: Seq<char>, n: nat)
    requires
        unsigned_up_to(trim(v), 100) == Some(n),
        2 <= n,
    ensures
        ({
            let s = AppSettingsView::asked(env);
            let l = s.loop_guards.streaming;
            let t = s.loop_guards.tool;
            let w = s.watchdog;
            &&& env.value("INFERENCE_ROUTER_LOOP_REPEATS"@) == Some(v) ==> l.repeats == n
            &&& env.value("INFERENCE_ROUTER_LOOP_CHECK_INTERVAL_MS"@) == Some(v)
                ==> l.check_interval_ms == n
            &&& env.value("INFERENCE_ROUTER_LOOP_MAX_RETRIES"@) == Some(v) ==> l.max_retries == n
            &&& env.value("INFERENCE_ROUTER_LOOP_WINDOW"@) == Some(v) ==> l.window_bytes == 1024
            &&& env.value("INFERENCE_ROUTER_TOOL_LOOP_REPEATS"@) == Some(v) ==> t.repeats == n
            &&& env.value("INFERENCE_ROUTER_TOOL_LOOP_WINDOW_MESSAGES"@) == Some(v)
                ==> t.window_messages == n
            &&& env.value("INFERENCE_ROUTER_IDLE_TIMEOUT_SECS"@) == Some(v) ==> w.idle_timeout_secs
                == n
            &&& env.value("INFERENCE_ROUTER_ENGINE_RESET_POLL_SECS"@) == Some(v)
                ==> w.engine_reset_poll_secs == n
            &&& env.value("INFERENCE_ROUTER_LIVENESS_INTERVAL_SECS"@) == Some(v)
                ==> w.liveness_interval_secs == n
            &&& env.value("INFERENCE_ROUTER_LIVENESS_TIMEOUT_SECS"@) == Some(v)
                ==> w.liveness_timeout_secs == n
            &&& env.value("INFERENCE_ROUTER_LIVENESS_FAILURES"@) == Some(v)
                ==> w.liveness_failures_to_recycle == n
            &&& env.value("INFERENCE_ROUTER_GPU_VRAM_CAP_PCT"@) == Some(v) ==> s.gpu_vram_cap_pct
                == n
            &&& env.value("INFERENCE_ROUTER_DISPLAY_VRAM_CAP_PCT"@) == Some(v)
                ==> s.display_gpu_vram_cap_pct == n
        }),
{
}

/// A window is as large as its variable says, from the least one on.
pub proof fn law_the_window_is_as_large_as_asked_for(env: &EnvVars, v: Seq<char>, n: nat)
    requires
        unsigned_up_to(trim(v), usize::MAX as nat) == Some(n),
        n >= 1024,
        env.value("INFERENCE_ROUTER_LOOP_WINDOW"@) == Some(v),
    ensures
        n <= usize::MAX ==> AppSettingsView::asked(env).loop_guards.streaming.window_bytes == n,
{
}

/// Each switch in the environment sets its own switch, either way.
pub proof fn law_each_switch_sets_its_own_setting(env: &EnvVars, v: Seq<char>, on: bool)
    requires
        switch_of(Some(v)) == Some(on),
    ensures
        ({
            let s = AppSettingsView::asked(env);
            let l = s.loop_guards.streaming;
            let t = s.loop_guards.tool;
            let w = s.watchdog;
            &&& env.value("INFERENCE_ROUTER_LOOP_ENABLED"@) == Some(v) ==> l.enabled == on
            &&& env.value("INFERENCE_ROUTER_LOOP_REPLAY_PARTIAL"@) == Some(v) ==> l.replay_partial
                == on
            &&& env.value("INFERENCE_ROUTER_TOOL_LOOP_ENABLED"@) == Some(v) ==> t.enabled == on
            &&& env.value("INFERENCE_ROUTER_WATCHDOG_ENABLED"@) == Some(v) ==> w.enabled == on
            &&& env.value("INFERENCE_ROUTER_ENGINE_RESET_WATCH"@) == Some(v)
                ==> w.engine_reset_watch == on
            &&& env.value("INFERENCE_ROUTER_LIVENESS_ENABLED"@) == Some(v) ==> w.liveness_enabled
                == on
            &&& env.value("INFERENCE_ROUTER_EXPOSE_ALIASES_ONLY"@) == Some(v) ==> (s.model_exposure
                == ModelExposure::AliasesOnly <==> on)
        }),
{
}

/// Each text in the environment sets its own setting, as it stands.
pub proof fn law_each_text_sets_its_own_setting(env: &EnvVars, v: Seq<char>)
    requires
        !is_blank(v),
    ensures
        ({
            let s = AppSettingsView::asked(env);
            let w = s.watchdog;
            &&& env.value("INFERENCE_ROUTER_MODELS_FOLDER"@) == Some(v) ==> s.models_folder == v
            &&& env.value("INFERENCE_ROUTER_DRM_ROOT"@) == Some(v) ==> w.drm_root == v
            &&& env.value("INFERENCE_ROUTER_DEVCOREDUMP_CAPTURE_DIR"@) == Some(v)
                ==> w.devcoredump_capture_dir == v
            &&& env.value("INFERENCE_ROUTER_LIVENESS_PROBE_PATH"@) == Some(v)
                ==> w.liveness_probe_path == v
            &&& env.value("INFERENCE_ROUTER_NOTIFY_WEBHOOK_URL"@) == Some(v)
                ==> w.notify_webhook_url == v
            &&& env.value("INFERENCE_ROUTER_LOOP_ACTION"@) == Some(v)
                ==> s.loop_guards.streaming.action == action_of(v)
        }),
{
}

/// The router listens where its variable says, where that is a port.
pub proof fn law_the_port_is_the_one_asked_for(env: EnvVars, v: Seq<char>, n: nat)
    requires
        env.value("INFERENCE_ROUTER_PORT"@) == Some(v),
    ensures
        trim(v) == decimal(n) && n <= 65535 ==> asked_port(env) == Some(n),
        trim(v) == decimal(n) && n > 65535 ==> asked_port(env) is None,
{
    law_numbers_are_read_back(n, 65535);
}

/// The reserve is the number of gibibytes that its variable says.
pub proof fn law_the_reserve_is_the_one_asked_for(env: EnvVars, v: Seq<char>, n: nat)
    requires
        env.value("INFERENCE_ROUTER_SYSTEM_RESERVE_GIB"@) == Some(v),
        trim(v) == decimal(n),
        n <= u64::MAX,
    ensures
        reserve_gib(env) == Some(n),
{
    law_numbers_are_read_back(n, u64::MAX as nat);
}

// ----- tags -----

/// Tags that were set for an address are those of the GPU there, and of no
/// other; nothing else of a GPU changes. Of several settings for one address
/// the last one holds.
pub proof fn law_set_tags_hold_at_their_address(
    s: Seq<GpuTagOverride>,
    g: GpuInfo,
    i: int,
)
    requires
        0 <= i < s.len(),
        forall|j: int| i < j < s.len() ==> (#[trigger] s[j]).pci_bus_id@ != s[i].pci_bus_id@,
    ensures
        overrides_by_pci(s).dom().contains(s[i].pci_bus_id@),
        overrides_by_pci(s)[s[i].pci_bus_id@] == s[i],
        g.pci_bus_id matches Some(p) && p@ == s[i].pci_bus_id@ ==> tagged(
            g,
            overrides_by_pci(s),
        ).tags == s[i].tags,
        g.pci_bus_id is None ==> tagged(g, overrides_by_pci(s)) == g,
        (g.pci_bus_id is Some && forall|j: int|
            0 <= j < s.len() ==> (#[trigger] s[j]).pci_bus_id@ != (g.pci_bus_id->0)@) ==> tagged(
            g,
            overrides_by_pci(s),
        ) == g,
        tagged(g, overrides_by_pci(s)) == (GpuInfo {
            tags: tagged(g, overrides_by_pci(s)).tags,
            ..g
        }),
    decreases s.len(),
{
    let front = s.drop_last();
    if i < s.len() - 1 {
        assert(s[s.len() - 1].pci_bus_id@ != s[i].pci_bus_id@);
        assert forall|j: int| i < j < front.len() implies (#[trigger] front[j]).pci_bus_id@
            != front[i].pci_bus_id@ by {
            assert(front[j] == s[j]);
        }
        law_set_tags_hold_at_their_address(front, g, i);
    }
    if g.pci_bus_id is Some && (forall|j: int|
        0 <= j < s.len() ==> (#[trigger] s[j]).pci_bus_id@ != (g.pci_bus_id->0)@) {
        lemma_not_set(s, (g.pci_bus_id->0)@);
    }
}

proof fn lemma_not_set(s: Seq<GpuTagOverride>, p: Seq<char>)
    requires
        forall|j: int| 0 <= j < s.len() ==> (#[trigger] s[j]).pci_bus_id@ != p,
    ensures
        !overrides_by_pci(s).dom().contains(p),
    decreases s.len(),
{
    if s.len() > 0 {
        let front = s.drop_last();
        assert forall|j: int| 0 <= j < front.len() implies (#[trigger] front[j]).pci_bus_id@ != p by {
            assert(front[j] == s[j]);
        }
        assert(s[s.len() - 1].pci_bus_id@ != p);
        lemma_not_set(front, p);
    }
}

// ----- figures of models -----

/// The sizes of the files of a model are added up.
pub proof fn law_sizes_are_added_up(s: Seq<u64>, n: u64)
    ensures
        size_sum(Seq::empty()) == 0,
        size_sum(s.push(n)) == size_sum(s) + n,
        s.len() == 1 ==> size_sum(s) == s[0],
{
    assert(s.push(n).drop_last() =~= s);
    if s.len() == 1 {
        assert(s.drop_last() =~= Seq::<u64>::empty());
        assert(size_sum(s.drop_last()) == 0);
    }
}

/// Numbers are the same where they are written the same, and zero is the same
/// with a sign and without; what is no number is the same as nothing.
pub proof fn law_numbers_are_the_same_as_written(a: NumberView, b: NumberView)
    ensures
        a.text == "NaN"@ ==> !equal_numbers(a, b) && !equal_numbers(b, a),
        a.text != "NaN"@ ==> equal_numbers(a, a),
        a.text == "0"@ && b.text == "-0"@ ==> equal_numbers(a, b) && equal_numbers(b, a),
        a.text != b.text && a.text != "0"@ && a.text != "-0"@ ==> !equal_numbers(a, b)
            && !equal_numbers(b, a),
{
    reveal_strlit("0");
    reveal_strlit("-0");
    reveal_strlit("NaN");
    assert("0"@.len() == 1 && "-0"@.len() == 2 && "NaN"@.len() == 3);
}

// ----- presets -----

proof fn lemma_infix_of_part(a: Seq<char>, x: Seq<char>, c: Seq<char>, w: Seq<char>)
    requires
        has_infix(lower(x), w),
    ensures
        has_infix(lower(a + x + c), w),
{
    let l = lower(x);
    let all = lower(a + x + c);
    let i = choose|i: int| occurs_at(l, w, i);
    let j = a.len() + i;
    assert(all.subrange(j, j + w.len()) =~= l.subrange(i, i + w.len()));
    assert(occurs_at(all, w, j));
}

/// A preset runs on the backends that it names. Where it names none, its id, its
/// name and its path are looked through, each of them.
pub proof fn law_a_preset_without_targets_is_guessed(p: &BinaryPreset, x: Seq<char>)
    requires
        x == p.id@ || x == p.name@ || x == p.binary@,
    ensures
        p.targets@.len() > 0 ==> p.targets_or_guess() == p.targets@,
        p.targets@.len() == 0 ==> {
            &&& has_infix(lower(x), "rocm"@) || has_infix(lower(x), "hip"@) ==> p.targets_or_guess()
                == seq![Backend::Rocm]
            &&& has_infix(lower(x), "cuda"@) || has_infix(lower(x), "nvidia"@)
                ==> p.targets_or_guess() == seq![Backend::Cuda] || p.targets_or_guess()
                == seq![Backend::Rocm]
            &&& has_infix(lower(x), "sycl"@) || has_infix(lower(x), "oneapi"@)
                ==> p.targets_or_guess().len() == 1 && p.targets_or_guess()[0] != Backend::Vulkan
            &&& has_infix(lower(x), "vulkan"@) ==> p.targets_or_guess().len() == 1
        },
{
    let h = p.hint();
    let gap = seq![' '];
    let none = Seq::<char>::empty();
    assert(h =~= none + p.id@ + (gap + p.name@ + gap + p.binary@));
    assert(h =~= (p.id@ + gap) + p.name@ + (gap + p.binary@));
    assert(h =~= (p.id@ + gap + p.name@ + gap) + p.binary@ + none);
    assert forall|w: Seq<char>| has_infix(lower(x), w) implies #[trigger] has_infix(lower(h), w) by {
        if x == p.id@ {
            lemma_infix_of_part(none, x, gap + p.name@ + gap + p.binary@, w);
        } else if x == p.name@ {
            lemma_infix_of_part(p.id@ + gap, x, gap + p.binary@, w);
        } else {
            lemma_infix_of_part(p.id@ + gap + p.name@ + gap, x, none, w);
        }
    }
}

/// A switch is on for the words one, true, yes and on, and off for zero, false,
/// no and off, in any case and with white space around them; no other word says
/// anything.
pub proof fn law_switches_are_words(v: Seq<char>)
    ensures
        switch_of(None) is None,
        switch_of(Some(v)) == Some(true) <==> (lower(trim(v)) == "1"@ || lower(trim(v)) == "true"@
            || lower(trim(v)) == "yes"@ || lower(trim(v)) == "on"@),
        lower(trim(v)) == "0"@ || lower(trim(v)) == "false"@ || lower(trim(v)) == "no"@ || lower(
            trim(v),
        ) == "off"@ ==> switch_of(Some(v)) == Some(false),
        switch_of(Some(v)) == Some(false) ==> (lower(trim(v)) == "0"@ || lower(trim(v)) == "false"@
            || lower(trim(v)) == "no"@ || lower(trim(v)) == "off"@),
        lower(trim(v)) == "abort"@ ==> action_of(v) == StreamingLoopAction::Abort,
        lower(trim(v)) == "log"@ ==> action_of(v) == StreamingLoopAction::Log,
        lower(trim(v)) != "log"@ && lower(trim(v)) != "abort"@ ==> action_of(v)
            == StreamingLoopAction::Heal,
{
    reveal_strlit("1");
    reveal_strlit("true");
    reveal_strlit("yes");
    reveal_strlit("on");
    reveal_strlit("0");
    reveal_strlit("false");
    reveal_strlit("no");
    reveal_strlit("off");
    reveal_strlit("abort");
    reveal_strlit("log");
    assert("1"@.len() == 1 && "0"@.len() == 1 && "on"@.len() == 2 && "no"@.len() == 2);
    assert("yes"@.len() == 3 && "off"@.len() == 3 && "log"@.len() == 3 && "true"@.len() == 4);
    assert("false"@.len() == 5 && "abort"@.len() == 5);
    assert("1"@[0] == '1' && "0"@[0] == '0');
    assert("yes"@[0] == 'y' && "off"@[0] == 'o');
    assert("on"@[0] == 'o' && "no"@[0] == 'n');
}

/// A variable has the value that stands beside its name, the first where it
/// stands there more than once.
pub proof fn law_variables_are_found_by_name(vars: Seq<(String, String)>, name: Seq<char>)
    ensures
        match value_from(vars, name) {
            Some(v) => exists|i: int|
                {
                    &&& 0 <= i < vars.len()
                    &&& (#[trigger] vars[i]).0@ == name
                    &&& vars[i].1@ == v
                    &&& forall|j: int| 0 <= j < i ==> (#[trigger] vars[j]).0@ != name
                },
            None => forall|i: int| 0 <= i < vars.len() ==> (#[trigger] vars[i]).0@ != name,
        },
    decreases vars.len(),
{
    if vars.len() > 0 && vars[0].0@ != name {
        let rest = vars.drop_first();
        law_variables_are_found_by_name(rest, name);
        match value_from(rest, name) {
            Some(v) => {
                let i = choose|i: int|
                    {
                        &&& 0 <= i < rest.len()
                        &&& (#[trigger] rest[i]).0@ == name
                        &&& rest[i].1@ == v
                        &&& forall|j: int| 0 <= j < i ==> (#[trigger] rest[j]).0@ != name
                    };
                assert(vars[i + 1] == rest[i]);
                assert forall|j: int| 0 <= j < i + 1 implies (#[trigger] vars[j]).0@ != name by {
                    if j > 0 {
                        assert(rest[j - 1] == vars[j]);
                    }
                }
            },
            None => {
                assert forall|i: int| 0 <= i < vars.len() implies (#[trigger] vars[i]).0@ != name by {
                    if i > 0 {
                        assert(rest[i - 1] == vars[i]);
                    }
                }
            },
        }
    } else if vars.len() > 0 {
        assert(vars[0].0@ == name);
    }
}

// ----- backends -----

/// A GPU carries exactly the tags that are set.
pub proof fn law_tags_are_told_apart(t: BackendTags)
    ensures
        t.has(Backend::Vulkan) == t.vulkan,
        t.has(Backend::Cuda) == t.cuda,
        t.has(Backend::Rocm) == t.rocm,
        t.has(Backend::Sycl) == t.sycl,
{
}

/// A text names ROCm before any other backend, then CUDA, then SYCL, then
/// Vulkan, in any case of letters, and none where it holds none of the words.
pub proof fn law_backends_are_named_in_texts(text: Seq<char>)
    ensures
        ({
            let t = lower(text);
            let rocm = has_infix(t, "rocm"@) || has_infix(t, "hip"@);
            let cuda = has_infix(t, "cuda"@) || has_infix(t, "nvidia"@);
            let sycl = has_infix(t, "sycl"@) || has_infix(t, "oneapi"@);
            let vulkan = has_infix(t, "vulkan"@);
            &&& backend_named_in(text) == Some(Backend::Rocm) <==> rocm
            &&& backend_named_in(text) == Some(Backend::Cuda) <==> !rocm && cuda
            &&& backend_named_in(text) == Some(Backend::Sycl) <==> !rocm && !cuda && sycl
            &&& backend_named_in(text) == Some(Backend::Vulkan) <==> !rocm && !cuda && !sycl
                && vulkan
            &&& backend_named_in(text) is None <==> !rocm && !cuda && !sycl && !vulkan
        }),
{
}

// ----- throughput -----

/// A response tells its throughput where one of its two speeds is positive: the
/// first is that of decoding, the second that of the prompt.
pub proof fn law_timings_are_read_by_name(v: JsonView, t: JsonView, d: Seq<char>, p: Seq<char>)
    requires
        v.get("timings"@) == Some(t),
        t.get("predicted_per_second"@) == Some(JsonView::Number(d)),
        t.get("prompt_per_second"@) == Some(JsonView::Number(p)),
    ensures
        is_positive_text(d) || is_positive_text(p) ==> timings_of(v) == Some((d, p)),
        !is_positive_text(d) && !is_positive_text(p) ==> timings_of(v) is None,
{
}

/// A speed that is not reported counts as zero, and one that is greater than
/// zero is enough.
pub proof fn law_a_missing_speed_is_zero(v: JsonView, t: JsonView, d: Seq<char>)
    requires
        v.get("timings"@) == Some(t),
    ensures
        t.get("predicted_per_second"@) == Some(JsonView::Number(d)) && t.get("prompt_per_second"@)
            is None && is_positive_text(d) ==> timings_of(v) == Some((d, "0"@)),
        t.get("predicted_per_second"@) is None && t.get("prompt_per_second"@) == Some(
            JsonView::Number(d),
        ) && is_positive_text(d) ==> timings_of(v) == Some(("0"@, d)),
{
}

/// A number is greater than zero where it has no minus sign and some digit that
/// is not zero before its exponent.
pub proof fn law_numbers_greater_than_zero(front: Seq<char>, c: char, rest: Seq<char>)
    requires
        '1' <= c <= '9',
        forall|i: int| 0 <= i < front.len() ==> #[trigger] front[i] != 'e' && front[i] != 'E',
    ensures
        front.len() == 0 || front[0] != '-' ==> is_positive_text(front + seq![c] + rest),
        !is_positive_text(seq!['-'] + rest),
        !is_positive_text(Seq::empty()),
{
    let s = front + seq![c] + rest;
    let n = front.len() as int;
    assert(s[n] == c);
    assert(no_exponent_before(s, n)) by {
        assert forall|j: int| 0 <= j < n implies s[j] != 'e' && s[j] != 'E' by {
            assert(s[j] == front[j]);
        }
    }
    assert(front.len() > 0 ==> s[0] == front[0]);
}

/// A snapshot takes the place of the one of its process, and the others stay.
pub proof fn law_a_snapshot_takes_the_place_of_its_process(
    s: Seq<TrackedView>,
    t: TrackedView,
    i: int,
)
    ensures
        with_tracked(s, t).contains(t),
        0 <= i < s.len() && s[i].pid != t.pid ==> with_tracked(s, t).contains(s[i]),
        (forall|k: int| 0 <= k < s.len() ==> (#[trigger] s[k]).pid != t.pid) ==> with_tracked(s, t)
            == s.push(t),
        (exists|k: int| 0 <= k < s.len() && (#[trigger] s[k]).pid == t.pid) ==> with_tracked(
            s,
            t,
        ).len() == s.len(),
{
    lemma_tracked(s, t.pid, 0);
    let all = with_tracked(s, t);
    match tracked_at(s, t.pid, 0) {
        Some(k) => {
            assert(all[k] == t);
        },
        None => {
            assert(all.last() == t);
        },
    }
    if 0 <= i < s.len() && s[i].pid != t.pid {
        assert(all[i] == s[i]);
    }
}

/// The name of a series stands before its labels.
pub proof fn law_labels_are_no_part_of_a_name(name: Seq<char>, labels: Seq<char>)
    requires
        !name.contains('{'),
    ensures
        series_name(name + seq!['{'] + labels) == name,
        series_name(name) == name,
{
    reveal_strlit("{");
    assert("{"@ =~= seq!['{']);
    let s = name + seq!['{'] + labels;
    let n = name.len() as int;
    crate::text_laws::lemma_first(s, "{"@, 0);
    assert(s.subrange(n, n + 1) =~= seq!['{']);
    assert(occurs_at(s, "{"@, n));
    let i = crate::text::first_at(s, "{"@, 0)->0;
    if i < n {
        assert(s.subrange(i, i + 1)[0] == s[i]);
        assert(name[i] == '{');
        assert(name.contains('{'));
    }
    assert(i == n) by {
        if i > n {
            assert(!occurs_at(s, "{"@, n));
        }
    }
    assert(s.take(n) =~= name);
    crate::text_laws::lemma_first(name, "{"@, 0);
    if let Some(k) = crate::text::first_at(name, "{"@, 0) {
        assert(name.subrange(k, k + 1)[0] == name[k]);
        assert(name.contains('{'));
    }
}

/// A line of a report gives a value to a metric exactly where its first word is
/// the name of the metric, with or without labels, and is no comment.
pub proof fn law_metrics_are_read_by_name(line: Seq<char>, name: Seq<char>)
    ensures
        line_value(line, name) is Some <==> (words(line).len() >= 2 && !has_prefix(
            words(line)[0],
            "#"@,
        ) && series_name(words(line)[0]) == name),
        line_value(line, name) matches Some(v) ==> v == words(line)[1],
{
}

/// Every line that gives a value to a metric counts, in order.
pub proof fn law_every_value_of_a_metric_counts(
    lines: Seq<Seq<char>>,
    name: Seq<char>,
    n: int,
    i: int,
)
    requires
        0 <= i < n <= lines.len(),
        line_value(lines[i], name) is Some,
    ensures
        line_values(lines, name, n).contains(line_value(lines[i], name)->0),
    decreases n,
{
    let all = line_values(lines, name, n);
    let front = line_values(lines, name, n - 1);
    if i < n - 1 {
        law_every_value_of_a_metric_counts(lines, name, n - 1, i);
        let k = choose|k: int|
            0 <= k < front.len() && front[k] == line_value(lines[i], name)->0;
        assert(all[k] == front[k]);
    } else {
        assert(all[front.len() as int] == line_value(lines[i], name)->0);
    }
}

proof fn lemma_tracked(s: Seq<TrackedView>, pid: i32, from: int)
    requires
        0 <= from,
    ensures
        match tracked_at(s, pid, from) {
            Some(i) => from <= i < s.len() && s[i].pid == pid,
            None => forall|i: int| from <= i < s.len() ==> (#[trigger] s[i]).pid != pid,
        },
    decreases s.len() - from,
{
    if from < s.len() {
        lemma_tracked(s, pid, from + 1);
    }
}

/// The first snapshot of a process, and the first after it began anew, count
/// from zero; a later one counts what came since the one before; and one that
/// has less of anything counts for nothing.
pub proof fn law_snapshots_count_what_is_new(
    s: Seq<TrackedView>,
    model_id: Seq<char>,
    pid: i32,
    next: VllmPerfSnapshot,
    k: int,
)
    ensures
        (forall|i: int| 0 <= i < s.len() ==> (#[trigger] s[i]).pid != pid) ==> delta_of(
            s,
            model_id,
            pid,
            next,
        ) == Some(
            VllmPerfDelta {
                decode_samples: next.decode_samples,
                prefill_samples: next.prefill_samples,
                since: None,
            },
        ),
        0 <= k < s.len() && s[k].pid == pid && s[k].model_id == model_id && (forall|i: int|
            0 <= i < s.len() && (#[trigger] s[i]).pid == pid ==> i == k) ==> {
            let prev = s[k].snapshot;
            let d = delta_of(s, model_id, pid, next);
            &&& next.process_start_seconds > prev.process_start_seconds ==> d is Some
                && d->0.since is None && d->0.decode_samples == next.decode_samples
            &&& next.process_start_seconds < prev.process_start_seconds ==> d is None
            &&& next.process_start_seconds == prev.process_start_seconds ==> {
                let older = next.decode_samples < prev.decode_samples || next.prefill_samples
                    < prev.prefill_samples || next.decode_tokens < prev.decode_tokens
                    || next.decode_seconds < prev.decode_seconds || next.prefill_tokens
                    < prev.prefill_tokens || next.prefill_seconds < prev.prefill_seconds;
                &&& d is None <==> older
                &&& !older ==> d->0.since == Some(prev) && d->0.decode_samples
                    + prev.decode_samples == next.decode_samples && d->0.prefill_samples
                    + prev.prefill_samples == next.prefill_samples
            }
        },
{
    lemma_tracked(s, pid, 0);
}

/// New work counts as the larger of its two numbers of requests, and as one at
/// least.
pub proof fn law_new_work_is_a_request_at_least(d: VllmPerfDelta)
    ensures
        d.requests() >= 1,
        d.requests() >= d.decode_samples,
        d.requests() >= d.prefill_samples,
        d.requests() == d.decode_samples || d.requests() == d.prefill_samples || (d.requests() == 1
            && d.decode_samples == 0 && d.prefill_samples == 0),
{
}

} // verus!
