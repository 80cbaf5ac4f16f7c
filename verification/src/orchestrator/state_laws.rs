//! What holds of every change to the models and of every recovery.
use vstd::prelude::*;
use vstd::string::*;

use crate::config::model::{ModelConfig, ModelState};
use crate::config::preset::BinaryPreset;
use crate::orchestrator::crud::{
    draft_users, law_stopping_touches_one_model, preset_users, spawn_changes, updated_model,
    ModelUpdate, RunState,
};
use crate::orchestrator::engine::{noted, without_stale_state, EventView, Orchestrator};
use crate::orchestrator::errors::MutationError;
use crate::paths::parts;
use crate::process::manager::{
    at_child, at_pid, forgotten, serves, started_pids, without, InstanceInfo,
};
use crate::text::option_text;

verus! {

broadcast use vstd::string::group_string_axioms;

// ----- what starts a different process -----

/// A model is started differently wherever one of the settings differs that its
/// process is started with.
pub proof fn law_every_setting_of_a_process_counts(a: &ModelConfig, b: &ModelConfig)
    ensures
        a.weights_format != b.weights_format ==> spawn_changes(a, b),
        a.context != b.context ==> spawn_changes(a, b),
        a.top_k != b.top_k ==> spawn_changes(a, b),
        a.flash_attn != b.flash_attn ==> spawn_changes(a, b),
        a.mlock != b.mlock ==> spawn_changes(a, b),
        a.no_mmap != b.no_mmap ==> spawn_changes(a, b),
        a.parallel_slots != b.parallel_slots ==> spawn_changes(a, b),
        a.cache_type_k != b.cache_type_k ==> spawn_changes(a, b),
        a.cache_type_v != b.cache_type_v ==> spawn_changes(a, b),
        a.threads != b.threads ==> spawn_changes(a, b),
        a.cache_ram_mib != b.cache_ram_mib ==> spawn_changes(a, b),
        a.reasoning_format != b.reasoning_format ==> spawn_changes(a, b),
        a.reasoning_budget != b.reasoning_budget ==> spawn_changes(a, b),
        a.mtp_tokens != b.mtp_tokens ==> spawn_changes(a, b),
        a.draft_max != b.draft_max ==> spawn_changes(a, b),
        a.draft_min != b.draft_min ==> spawn_changes(a, b),
        a.ctx_checkpoints != b.ctx_checkpoints ==> spawn_changes(a, b),
        a.checkpoint_min_step != b.checkpoint_min_step ==> spawn_changes(a, b),
        a.checkpoint_every_n_tokens != b.checkpoint_every_n_tokens ==> spawn_changes(a, b),
        option_text(a.binary_preset) != option_text(b.binary_preset) ==> spawn_changes(a, b),
        option_text(a.chat_template_kwargs) != option_text(b.chat_template_kwargs)
            ==> spawn_changes(a, b),
        option_text(a.draft_model_id) != option_text(b.draft_model_id) ==> spawn_changes(a, b),
        a.temperature.text@ != b.temperature.text@ && a.temperature.text@ != "0"@
            && a.temperature.text@ != "-0"@ ==> spawn_changes(a, b),
        a.top_p.text@ != b.top_p.text@ && a.top_p.text@ != "0"@ && a.top_p.text@ != "-0"@
            ==> spawn_changes(a, b),
        a.min_p.text@ != b.min_p.text@ && a.min_p.text@ != "0"@ && a.min_p.text@ != "-0"@
            ==> spawn_changes(a, b),
        a.presence_penalty.text@ != b.presence_penalty.text@ && a.presence_penalty.text@ != "0"@
            && a.presence_penalty.text@ != "-0"@ ==> spawn_changes(a, b),
        a.repeat_penalty.text@ != b.repeat_penalty.text@ && a.repeat_penalty.text@ != "0"@
            && a.repeat_penalty.text@ != "-0"@ ==> spawn_changes(a, b),
        parts(a.binary@) != parts(b.binary@) ==> spawn_changes(a, b),
        parts(a.model_path@) != parts(b.model_path@) ==> spawn_changes(a, b),
        a.mmproj_path is Some != b.mmproj_path is Some ==> spawn_changes(a, b),
        a.mmproj_path is Some && b.mmproj_path is Some && parts(a.mmproj_path->0@) != parts(
            b.mmproj_path->0@,
        ) ==> spawn_changes(a, b),
        a.draft_p_min is Some != b.draft_p_min is Some ==> spawn_changes(a, b),
        a.extra_args@.len() != b.extra_args@.len() ==> spawn_changes(a, b),
        (exists|i: int|
            0 <= i < a.extra_args@.len() && i < b.extra_args@.len() && (#[trigger] a.extra_args@[i])@
                != b.extra_args@[i]@) ==> spawn_changes(a, b),
{
    if a.extra_args@.len() != b.extra_args@.len() {
        assert(crate::text::texts(a.extra_args@).len() != crate::text::texts(b.extra_args@).len());
    }
    if exists|i: int|
        0 <= i < a.extra_args@.len() && i < b.extra_args@.len() && (#[trigger] a.extra_args@[i])@
            != b.extra_args@[i]@ {
        let i = choose|i: int|
            0 <= i < a.extra_args@.len() && i < b.extra_args@.len() && (
            #[trigger] a.extra_args@[i])@ != b.extra_args@[i]@;
        assert(crate::text::texts(a.extra_args@)[i] != crate::text::texts(b.extra_args@)[i]);
    }
}

/// A model that differs in nothing but its name, its state, its place or what
/// is known of its file is started in the same way.
pub proof fn law_names_and_states_start_nothing_new(a: &ModelConfig, b: &ModelConfig)
    requires
        *b == (ModelConfig {
            id: b.id,
            name: b.name,
            profile: b.profile,
            state: b.state,
            pid: b.pid,
            estimated_vram: b.estimated_vram,
            last_used: b.last_used,
            gguf_meta: b.gguf_meta,
            device: b.device,
            n_gpu_layers: b.n_gpu_layers,
            n_cpu_moe: b.n_cpu_moe,
            split_mode: b.split_mode,
            main_gpu: b.main_gpu,
            tensor_split: b.tensor_split,
            override_tensor: b.override_tensor,
            fit_target: b.fit_target,
            fit_target_margin_mib: b.fit_target_margin_mib,
            ..*a
        }),
        a.temperature.text@ != "NaN"@,
        a.top_p.text@ != "NaN"@,
        a.min_p.text@ != "NaN"@,
        a.presence_penalty.text@ != "NaN"@,
        a.repeat_penalty.text@ != "NaN"@,
        a.draft_p_min is Some ==> a.draft_p_min->0.text@ != "NaN"@,
    ensures
        !spawn_changes(a, b),
{
}

/// The memory that a model takes is measured again exactly where its file, its
/// context or a type of its cache changes. What is known of the running model
/// is kept, and all else is as it is told.
pub proof fn law_a_changed_model_keeps_what_runs(existing: ModelConfig, new: ModelConfig)
    ensures
        ({
            let r = updated_model(existing, new);
            &&& r.state == existing.state
            &&& r.pid == existing.pid
            &&& r.last_used == existing.last_used
            &&& r.estimated_vram == (if parts(existing.model_path@) == parts(new.model_path@)
                && existing.context == new.context && existing.cache_type_k == new.cache_type_k
                && existing.cache_type_v == new.cache_type_v {
                existing.estimated_vram
            } else {
                0
            })
            &&& r == (ModelConfig {
                state: r.state,
                pid: r.pid,
                last_used: r.last_used,
                estimated_vram: r.estimated_vram,
                ..new
            })
        }),
{
}

/// A live model whose process would be started differently is stopped, and its
/// throughput is measured anew; any other change leaves every process alone.
pub proof fn law_a_change_stops_what_it_concerns(
    before: &Orchestrator,
    after: &Orchestrator,
    new: ModelConfig,
    now: u64,
    r: Result<ModelUpdate, MutationError>,
)
    requires
        before.updates(after, new, now, r),
    ensures
        r is Err ==> *after == *before,
        r is Ok ==> before.data.models@.dom().contains(new.id@),
        new.draft_model_id matches Some(d) && d@ == new.id@ ==> r is Err,
        !before.data.models@.dom().contains(new.id@) ==> r is Err,
        r matches Ok(u) ==> {
            let old = before.data.models@[new.id@];
            let concerned = (old.state is Running || old.state is Loading) && spawn_changes(
                &old,
                &new,
            );
            &&& u.reset_perf == spawn_changes(&old, &new)
            &&& !concerned ==> u.signal@.len() == 0 && after.process_manager.instances@
                == before.process_manager.instances@ && after.data.models@[new.id@].state
                == old.state
            &&& concerned ==> after.data.models@[new.id@].state is Idle
                && after.data.models@[new.id@].pid is None && u.signal@ == started_pids(
                before.process_manager.instances@,
                new.id@,
            )
            &&& after.data.models@[new.id@].name == new.name
            &&& after.data.models@[new.id@].context == new.context
            &&& after.dirty
        },
{
    assert(after.run_state().instances == after.process_manager.instances@);
    assert(after.run_state().models == after.data.models@);
}

pub proof fn lemma_filter_member<T>(s: Seq<T>, p: spec_fn(T) -> bool, x: T)
    ensures
        s.filter(p).contains(x) <==> s.contains(x) && p(x),
    decreases s.len(),
{
    reveal(Seq::filter);
    if s.len() > 0 {
        let front = s.drop_last();
        lemma_filter_member(front, p, x);
        let f = front.filter(p);
        if p(s.last()) {
            assert(s.filter(p) == f.push(s.last()));
            if f.contains(x) {
                let k = choose|k: int| 0 <= k < f.len() && f[k] == x;
                assert(s.filter(p)[k] == x);
            }
            assert(s.filter(p)[f.len() as int] == s.last());
            if s.filter(p).contains(x) {
                let k = choose|k: int| 0 <= k < s.filter(p).len() && s.filter(p)[k] == x;
                if k < f.len() {
                    assert(f[k] == x);
                }
            }
        }
        if front.contains(x) {
            let k = choose|k: int| 0 <= k < front.len() && front[k] == x;
            assert(s[k] == x);
        }
        if s.contains(x) {
            let k = choose|k: int| 0 <= k < s.len() && s[k] == x;
            if k < front.len() {
                assert(front[k] == x);
            }
        }
        assert(s[s.len() - 1] == s.last());
    }
}

/// The models that use another as their draft are all those that name it.
pub proof fn law_draft_users_are_all_that_name_it(
    models: Seq<ModelConfig>,
    draft: Seq<char>,
    i: int,
)
    requires
        0 <= i < models.len(),
    ensures
        models[i].draft_model_id matches Some(d) && d@ == draft ==> draft_users(
            models,
            draft,
        ).contains(models[i].id@),
        (forall|k: int|
            0 <= k < models.len() ==> option_text((#[trigger] models[k]).draft_model_id) != Some(
                draft,
            )) ==> draft_users(models, draft).len() == 0,
{
    let p = |m: ModelConfig| option_text(m.draft_model_id) == Some(draft);
    let f = models.filter(p);
    lemma_filter_member(models, p, models[i]);
    if p(models[i]) {
        assert(models.contains(models[i]));
        let k = choose|k: int| 0 <= k < f.len() && f[k] == models[i];
        assert(draft_users(models, draft)[k] == models[i].id@);
    }
    if f.len() > 0 {
        lemma_filter_member(models, p, f[0]);
        assert(f.contains(f[0]));
        let k = choose|k: int| 0 <= k < models.len() && models[k] == f[0];
        assert(option_text(models[k].draft_model_id) == Some(draft));
    }
}

/// The models that a change of a preset concerns are the live ones that use it.
pub proof fn law_preset_users_are_the_live_ones(
    models: Seq<ModelConfig>,
    preset: Seq<char>,
    i: int,
)
    requires
        0 <= i < models.len(),
    ensures
        models[i].binary_preset matches Some(p) && p@ == preset && (models[i].state is Running
            || models[i].state is Loading) ==> preset_users(models, preset).contains(models[i].id@),
        (forall|k: int|
            0 <= k < models.len() && option_text((#[trigger] models[k]).binary_preset) == Some(
                preset,
            ) ==> !(models[k].state is Running) && !(models[k].state is Loading))
            ==> preset_users(models, preset).len() == 0,
{
    let p = |m: ModelConfig| crate::orchestrator::crud::runs_preset(m, preset);
    let f = models.filter(p);
    lemma_filter_member(models, p, models[i]);
    if p(models[i]) {
        assert(models.contains(models[i]));
        let k = choose|k: int| 0 <= k < f.len() && f[k] == models[i];
        assert(preset_users(models, preset)[k] == models[i].id@);
    }
    if f.len() > 0 {
        lemma_filter_member(models, p, f[0]);
        assert(f.contains(f[0]));
        let k = choose|k: int| 0 <= k < models.len() && models[k] == f[0];
        assert(option_text(models[k].binary_preset) == Some(preset));
    }
}

/// A preset is changed exactly where it is known. Only where its binary becomes
/// another one do live models stop.
pub proof fn law_a_preset_stops_models_only_for_a_new_binary(
    before: &Orchestrator,
    after: &Orchestrator,
    preset: BinaryPreset,
    now: u64,
    r: Result<Vec<i32>, MutationError>,
)
    requires
        before.changes_preset(after, preset, now, r),
    ensures
        r is Ok <==> before.data.presets@.dom().contains(preset.id@),
        r is Err ==> *after == *before,
        r matches Ok(pids) ==> {
            &&& after.data.presets@ == before.data.presets@.insert(preset.id@, preset)
            &&& after.presets_dirty
            &&& parts(before.data.presets@[preset.id@].binary@) == parts(preset.binary@)
                ==> pids@.len() == 0 && after.run_state() == before.run_state()
            &&& parts(before.data.presets@[preset.id@].binary@) != parts(preset.binary@)
                ==> after.run_state() == before.run_state().stop_all(
                preset_users(before.data.models.records(), preset.id@),
                "binary preset changed"@,
                now,
            )
        },
{
}

/// A model is added exactly where its id is new and its draft, if it has one,
/// is another model that is known; and it is then there as it was given.
pub proof fn law_a_model_is_added_once(
    before: &Orchestrator,
    after: &Orchestrator,
    m: ModelConfig,
    r: Result<(), MutationError>,
)
    requires
        before.adds(after, m, r),
    ensures
        r is Ok <==> (!before.data.models@.dom().contains(m.id@) && (m.draft_model_id matches Some(d)
            ==> d@ != m.id@ && before.data.models@.dom().contains(d@))),
        r is Ok ==> after.data.models@.dom().contains(m.id@) && after.data.models@[m.id@] == m
            && after.dirty,
        r is Err ==> *after == *before,
        forall|x: Seq<char>|
            x != m.id@ && #[trigger] before.data.models@.dom().contains(x)
                ==> after.data.models@.dom().contains(x) && after.data.models@[x]
                == before.data.models@[x],
        before.data.models@.dom().contains(m.id@) ==> r matches Err(MutationError::Conflict(_)),
{
}

/// A model is removed exactly where it is known and no other uses it as its
/// draft. It is then gone with all its instances, no alias leads to it, and
/// every other model is as it was.
pub proof fn law_a_removed_model_is_gone(
    before: &Orchestrator,
    after: &Orchestrator,
    id: Seq<char>,
    now: u64,
    r: Result<Vec<i32>, MutationError>,
    other: Seq<char>,
)
    requires
        before.wf(),
        before.removes(after, id, now, r),
        other != id,
    ensures
        r is Ok ==> before.data.models@.dom().contains(id),
        r is Err ==> *after == *before,
        before.data.models@.dom().contains(id) && draft_users(
            before.data.models.records(),
            id,
        ).len() == 0 ==> r is Ok,
        draft_users(before.data.models.records(), id).len() > 0 ==> r is Err,
        r is Ok ==> {
            &&& !after.data.models@.dom().contains(id)
            &&& forall|i: InstanceInfo| #[trigger]
                after.process_manager.instances@.contains(i) ==> !serves(i, id)
            &&& before.data.models@.dom().contains(other) ==> after.data.models@.dom().contains(
                other,
            ) && after.data.models@[other] == before.data.models@[other]
            &&& forall|a: Seq<char>| #[trigger]
                after.data.aliases@.dom().contains(a) ==> after.data.aliases@[a].target@ != id
                    || id.len() == 0
            &&& after.data.aliases@.dom() == before.data.aliases@.dom()
            &&& r->Ok_0@ == started_pids(before.process_manager.instances@, id)
        },
{
    if r is Ok {
        let s = before.run_state();
        let stopped = s.stop(id, now);
        law_stopping_touches_one_model(s, id, now, other);
        assert(after.run_state().instances == after.process_manager.instances@);
        assert(after.run_state().models == after.data.models@);
        let p = |i: InstanceInfo| !serves(i, id);
        assert forall|i: InstanceInfo| #[trigger]
            after.process_manager.instances@.contains(i) implies !serves(i, id) by {
            lemma_filter_member(stopped.instances, p, i);
        }
        assert forall|a: Seq<char>| #[trigger]
            after.data.aliases@.dom().contains(a) implies after.data.aliases@[a].target@ != id
            || id.len() == 0 by {
            assert(before.data.aliases@.dom().contains(a));
        }
    }
}

// ----- stopping and recovering -----

/// A stopped model is idle and has no process; the processes to be ended are
/// those of its instances that were started here, each of them.
pub proof fn law_stopping_ends_its_processes(s: RunState, id: Seq<char>, now: u64, i: int)
    ensures
        s.models.dom().contains(id) ==> {
            &&& s.stop(id, now).models[id].state is Idle
            &&& s.stop(id, now).models[id].pid is None
        },
        0 <= i < s.instances.len() && s.instances[i].model_id@ == id && s.instances[i].started_here
            ==> started_pids(s.instances, id).contains(s.instances[i].pid),
        forall|pid: i32| #[trigger]
            started_pids(s.instances, id).contains(pid) ==> exists|k: int|
                0 <= k < s.instances.len() && (#[trigger] s.instances[k]).model_id@ == id
                    && s.instances[k].started_here && s.instances[k].pid == pid,
{
    let p = |x: InstanceInfo| serves(x, id) && x.started_here;
    let f = s.instances.filter(p);
    if 0 <= i < s.instances.len() && p(s.instances[i]) {
        lemma_filter_member(s.instances, p, s.instances[i]);
        assert(s.instances.contains(s.instances[i]));
        let k = choose|k: int| 0 <= k < f.len() && f[k] == s.instances[i];
        assert(started_pids(s.instances, id)[k] == s.instances[i].pid);
    }
    assert forall|pid: i32| #[trigger]
        started_pids(s.instances, id).contains(pid) implies exists|k: int|
        0 <= k < s.instances.len() && (#[trigger] s.instances[k]).model_id@ == id
            && s.instances[k].started_here && s.instances[k].pid == pid by {
        let all = started_pids(s.instances, id);
        let j = choose|j: int| 0 <= j < all.len() && all[j] == pid;
        assert(f.contains(f[j]));
        lemma_filter_member(s.instances, p, f[j]);
        let k = choose|k: int| 0 <= k < s.instances.len() && s.instances[k] == f[j];
        assert(serves(s.instances[k], id));
    }
}

pub proof fn lemma_at_pid(s: Seq<InstanceInfo>, pid: i32, from: int)
    requires
        0 <= from,
    ensures
        match at_pid(s, pid, from) {
            Some(i) => from <= i < s.len() && s[i].pid == pid,
            None => forall|i: int| from <= i < s.len() ==> (#[trigger] s[i]).pid != pid,
        },
        match at_child(s, pid, from) {
            Some(i) => from <= i < s.len() && s[i].pid == pid && s[i].started_here,
            None => forall|i: int|
                from <= i < s.len() && (#[trigger] s[i]).pid == pid ==> !s[i].started_here,
        },
    decreases s.len() - from,
{
    if from < s.len() {
        lemma_at_pid(s, pid, from + 1);
    }
}

/// A process that hangs is recycled wherever it is known: its instance is out of
/// service if it was started here, its model is idle once no instance is left,
/// and instances of other processes go on.
pub proof fn law_recycling_takes_one_process_out(
    s: RunState,
    pid: i32,
    reason: Seq<char>,
    now: u64,
    k: int,
    x: InstanceInfo,
)
    requires
        0 <= k < s.instances.len(),
        s.instances[k].pid == pid,
    ensures
        s.recovery(pid, reason) is Some,
        x.pid != pid ==> (s.recycle(pid, reason, now).instances.contains(x) <==> s.instances.contains(
            x,
        )),
        s.instances[k].started_here && (forall|i: int|
            0 <= i < s.instances.len() && (#[trigger] s.instances[i]).pid == pid ==> i == k) ==> {
            let id = s.instances[k].model_id@;
            let after = s.recycle(pid, reason, now);
            &&& !after.instances.contains(s.instances[k])
            &&& after.count(id) == 0 && s.models.dom().contains(id) ==> after.models[id].state is Idle
                && after.models[id].pid is None
            &&& after.count(id) > 0 ==> after.models == s.models
        },
        s.recovery(pid, reason)->0.signal <==> exists|i: int|
            0 <= i < s.instances.len() && (#[trigger] s.instances[i]).pid == pid
                && s.instances[i].started_here,
{
    lemma_at_pid(s.instances, pid, 0);
    let first = at_pid(s.instances, pid, 0)->0;
    if at_child(s.instances, pid, 0) is Some {
        let c = at_child(s.instances, pid, 0)->0;
        let id = s.instances[c].model_id@;
        let p = |i: InstanceInfo| !(serves(i, id) && i.pid == pid);
        assert(without(s.instances, id, pid) == s.instances.filter(p));
        lemma_filter_member(s.instances, p, x);
        assert forall|i: int|
            0 <= i < s.instances.len() && (#[trigger] s.instances[i]).pid == pid
                && s.instances[i].model_id@ == id implies !s.instances.filter(p).contains(
            s.instances[i],
        ) by {
            lemma_filter_member(s.instances, p, s.instances[i]);
        }
    }
}

/// A process that is not known is not recycled.
pub proof fn law_unknown_processes_are_left_alone(
    s: RunState,
    pid: i32,
    reason: Seq<char>,
    now: u64,
)
    requires
        forall|i: int| 0 <= i < s.instances.len() ==> (#[trigger] s.instances[i]).pid != pid,
    ensures
        s.recycle(pid, reason, now) == s,
        s.recovery(pid, reason) is None,
{
    lemma_at_pid(s.instances, pid, 0);
}

/// A process that died is forgotten, and no other is; its model is in the state
/// that is told exactly where no instance of it is left.
pub proof fn law_the_dead_are_buried(
    s: RunState,
    id: Seq<char>,
    pid: i32,
    state: ModelState,
    x: InstanceInfo,
    other: Seq<char>,
)
    requires
        s.models.dom().contains(id),
    ensures
        x.pid != pid ==> (s.bury(id, pid, state).instances.contains(x) <==> s.instances.contains(
            x,
        )),
        s.bury(id, pid, state).count(id) == 0 ==> s.bury(id, pid, state).models[id].state == state
            && s.bury(id, pid, state).models[id].pid is None,
        s.bury(id, pid, state).count(id) > 0 ==> s.bury(id, pid, state).models == s.models,
        other != id && s.models.dom().contains(other) ==> s.bury(id, pid, state).models[other]
            == s.models[other],
{
    lemma_at_pid(s.instances, pid, 0);
    let left = forgotten(s.instances, pid);
    let at = if at_child(s.instances, pid, 0) is Some {
        at_child(s.instances, pid, 0)
    } else {
        at_pid(s.instances, pid, 0)
    };
    if at is Some {
        let m = s.instances[at->0].model_id@;
        let p = |i: InstanceInfo| !(serves(i, m) && i.pid == pid);
        assert(left == s.instances.filter(p));
        lemma_filter_member(s.instances, p, x);
    }
}

/// What was running when the router ended no longer runs when it starts; an
/// error is kept.
pub proof fn law_nothing_runs_at_the_start(m: ModelConfig)
    ensures
        !(without_stale_state(m).state is Running),
        !(without_stale_state(m).state is Loading),
        m.state is Running || m.state is Loading ==> without_stale_state(m).state is Idle
            && without_stale_state(m).pid is None,
        m.state is Idle || m.state is Error ==> without_stale_state(m) == m,
        without_stale_state(m) == (ModelConfig {
            state: without_stale_state(m).state,
            pid: without_stale_state(m).pid,
            ..m
        }),
{
}

/// The newest event stands first, and the last two hundred are kept.
pub proof fn law_the_newest_events_are_kept(s: Seq<EventView>, e: EventView, i: int)
    requires
        s.len() <= 200,
    ensures
        noted(s, e)[0] == e,
        noted(s, e).len() == (if s.len() < 200 {
            s.len() + 1
        } else {
            200
        }),
        0 <= i < s.len() && i < 199 ==> noted(s, e)[i + 1] == s[i],
{
}

} // verus!
