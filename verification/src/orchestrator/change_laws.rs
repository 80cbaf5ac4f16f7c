//! What holds of every change to aliases and presets, and of what is counted of
//! the processes.
use vstd::prelude::*;
use vstd::string::*;

use crate::config::alias::ModelAlias;
use crate::orchestrator::aliases::{canonical_name, ends, AliasMap};
use crate::orchestrator::crud::{
    alias_fault, law_stopping_touches_one_model, tells_fault, unassigned, RunState,
};
use crate::orchestrator::engine::{AppData, EventLevel, Orchestrator};
use crate::orchestrator::errors::MutationError;
use crate::orchestrator::state_laws::{
    law_stopping_ends_its_processes, lemma_at_pid, lemma_filter_member,
};
use crate::orchestrator::upkeep::{
    dead_among, LivenessPlan, LivenessTracker, Recycled, SavePlan,
};
use crate::process::manager::{
    active_for, at_child, at_pid, forgotten, port_step, port_taken, serves, started_pids,
    system_step, InstanceInfo, PortStep, ProcessManager, Reservation,
};

verus! {

broadcast use vstd::string::group_string_axioms;

// ----- stopping several models -----

/// Of several models that are stopped each is idle afterwards and has no
/// instance left that was started here.
pub proof fn law_all_of_them_are_stopped(
    s: RunState,
    ids: Seq<Seq<char>>,
    why: Seq<char>,
    now: u64,
    i: int,
)
    requires
        0 <= i < ids.len(),
        s.models.dom().contains(ids[i]),
    ensures
        ({
            let after = s.stop_all(ids, why, now);
            &&& after.models.dom().contains(ids[i])
            &&& after.models[ids[i]].state is Idle
            &&& after.models[ids[i]].pid is None
            &&& forall|x: InstanceInfo| #[trigger]
                after.instances.contains(x) ==> !(x.model_id@ == ids[i] && x.started_here)
        }),
    decreases ids.len(),
{
    let v = ids[i];
    let w = ids.last();
    let front = ids.drop_last();
    let mid = s.stop_all(front, why, now);
    let told = mid.note(EventLevel::Info, "stopping "@ + w + ": "@ + why, now);
    lemma_models_stay(s, front, why, now, v);
    law_stopping_ends_its_processes(told, w, now, 0);
    if w == v {
        law_stopping_touches_one_model(told, w, now, v.push('a'));
    } else {
        assert(front[i] == v);
        law_all_of_them_are_stopped(s, front, why, now, i);
        law_stopping_touches_one_model(told, w, now, v);
        let after = s.stop_all(ids, why, now);
        assert forall|x: InstanceInfo| #[trigger] after.instances.contains(x) implies !(x.model_id@
            == v && x.started_here) by {
            if serves(x, v) {
                assert(told.stop(w, now).instances.contains(x) <==> told.instances.contains(x));
                assert(mid.instances.contains(x));
            }
        }
    }
}

proof fn lemma_models_stay(
    s: RunState,
    ids: Seq<Seq<char>>,
    why: Seq<char>,
    now: u64,
    v: Seq<char>,
)
    requires
        s.models.dom().contains(v),
    ensures
        s.stop_all(ids, why, now).models.dom().contains(v),
    decreases ids.len(),
{
    if ids.len() > 0 {
        lemma_models_stay(s, ids.drop_last(), why, now, v);
    }
}

/// A model that is not among those that are stopped keeps its state and its
/// instances.
pub proof fn law_the_others_go_on(
    s: RunState,
    ids: Seq<Seq<char>>,
    why: Seq<char>,
    now: u64,
    other: Seq<char>,
    x: InstanceInfo,
)
    requires
        !ids.contains(other),
        x.model_id@ == other,
    ensures
        s.models.dom().contains(other) ==> s.stop_all(ids, why, now).models.dom().contains(other)
            && s.stop_all(ids, why, now).models[other] == s.models[other],
        s.stop_all(ids, why, now).instances.contains(x) <==> s.instances.contains(x),
    decreases ids.len(),
{
    if ids.len() > 0 {
        let front = ids.drop_last();
        assert(ids.contains(ids.last()));
        assert(!front.contains(other)) by {
            if front.contains(other) {
                let k = choose|k: int| 0 <= k < front.len() && front[k] == other;
                assert(ids[k] == other);
            }
        }
        law_the_others_go_on(s, front, why, now, other, x);
        let mid = s.stop_all(front, why, now);
        let told = mid.note(EventLevel::Info, "stopping "@ + ids.last() + ": "@ + why, now);
        law_stopping_touches_one_model(told, ids.last(), now, other);
        assert(serves(x, other));
        assert(told.stop(ids.last(), now).instances.contains(x) <==> told.instances.contains(x));
    }
}

/// The processes that are ended are those of the models that are stopped.
pub proof fn law_their_processes_are_ended(
    s: RunState,
    ids: Seq<Seq<char>>,
    why: Seq<char>,
    now: u64,
    i: int,
    x: InstanceInfo,
)
    requires
        0 <= i < ids.len(),
        s.stop_all(ids.take(i), why, now).instances.contains(x),
        x.model_id@ == ids[i],
        x.started_here,
    ensures
        s.signals(ids, why, now).contains(x.pid),
    decreases ids.len(),
{
    let front = s.signals(ids.drop_last(), why, now);
    let all = s.signals(ids, why, now);
    if i < ids.len() - 1 {
        assert(ids.drop_last().take(i) =~= ids.take(i));
        assert(ids.drop_last()[i] == ids[i]);
        law_their_processes_are_ended(s, ids.drop_last(), why, now, i, x);
        let k = choose|k: int| 0 <= k < front.len() && front[k] == x.pid;
        assert(all[k] == x.pid);
    } else {
        assert(ids.take(i) =~= ids.drop_last());
        let mid = s.stop_all(ids.drop_last(), why, now);
        let k = choose|k: int| 0 <= k < mid.instances.len() && mid.instances[k] == x;
        law_stopping_ends_its_processes(mid, ids.last(), now, k);
        let pids = started_pids(mid.instances, ids.last());
        let j = choose|j: int| 0 <= j < pids.len() && pids[j] == x.pid;
        assert(all[front.len() + j] == x.pid);
    }
}

// ----- aliases -----

/// The name of an alias has one to sixty-four characters, all of them small
/// letters, digits, dots, underscores or dashes.
pub proof fn law_names_of_aliases(s: Seq<char>)
    ensures
        s.len() == 0 || s.len() > 64 ==> !canonical_name(s),
        canonical_name(s) ==> forall|i: int|
            0 <= i < s.len() ==> (('a' <= #[trigger] s[i] && s[i] <= 'z') || ('0' <= s[i] && s[i]
                <= '9') || s[i] == '.' || s[i] == '_' || s[i] == '-'),
        1 <= s.len() <= 64 && (forall|i: int|
            0 <= i < s.len() ==> (('a' <= #[trigger] s[i] && s[i] <= 'z') || ('0' <= s[i] && s[i]
                <= '9') || s[i] == '.' || s[i] == '_' || s[i] == '-')) ==> canonical_name(s),
{
}

/// An alias is admissible where its name is in order, no model goes by it, and
/// it leads to nothing, to a model, or to an alias from which the way ends. What
/// it is refused for is told.
pub proof fn law_admissible_aliases(data: &AppData, a: ModelAlias, e: MutationError)
    ensures
        ({
            let models = data.models@;
            let aliases = data.aliases@;
            let leads = a.target@.len() == 0 || (models.dom().contains(a.target@)
                && !aliases.dom().contains(a.target@)) || (aliases.dom().contains(a.target@)
                && ends(aliases.insert(a.alias@, a), a.alias@));
            &&& alias_fault(data, a) is None <==> canonical_name(a.alias@) && !models.dom().contains(
                a.alias@,
            ) && leads
            &&& alias_fault(data, a) is Some && tells_fault(e, alias_fault(data, a)->0, a) ==> {
                &&& !canonical_name(a.alias@) <==> e is AliasInvalid
                &&& canonical_name(a.alias@) && models.dom().contains(a.alias@)
                    <==> e is AliasShadowsModel
                &&& e is AliasTargetMissing ==> !models.dom().contains(a.target@)
                    && !aliases.dom().contains(a.target@)
                &&& e is AliasCycle ==> aliases.dom().contains(a.target@)
            }
        }),
{
}

/// An alias can be added once, and changed where it is there. It then leads
/// where it was said to lead, all other aliases lead where they led, and they are
/// stored; an alias that is refused changes nothing.
pub proof fn law_an_alias_is_added_once_and_changed_after(
    before: &Orchestrator,
    after: &Orchestrator,
    alias: ModelAlias,
    anew: bool,
    r: Result<(), MutationError>,
    other: Seq<char>,
)
    requires
        before.assigns(after, alias, anew, r),
    ensures
        r is Ok ==> (before.data.aliases@.dom().contains(alias.alias@) <==> !anew),
        r is Ok ==> after.data.aliases@.dom().contains(alias.alias@)
            && after.data.aliases@[alias.alias@] == alias && after.aliases_dirty,
        r is Err ==> *after == *before,
        other != alias.alias@ ==> {
            &&& after.data.aliases@.dom().contains(other) <==> before.data.aliases@.dom().contains(
                other,
            )
            &&& before.data.aliases@.dom().contains(other) ==> after.data.aliases@[other]
                == before.data.aliases@[other]
        },
        after.data.models == before.data.models,
        anew && before.data.aliases@.dom().contains(alias.alias@) ==> r matches Err(
            MutationError::AliasConflict(_),
        ),
        !anew && !before.data.aliases@.dom().contains(alias.alias@) ==> r matches Err(
            MutationError::AliasNotFound(_),
        ),
{
}

/// A removed alias is gone, and no alias leads to it; all others are still
/// there.
pub proof fn law_a_removed_alias_is_gone(
    before: &Orchestrator,
    after: &Orchestrator,
    name: Seq<char>,
    r: Result<(), MutationError>,
    other: Seq<char>,
)
    requires
        before.drops_alias(after, name, r),
        other != name,
    ensures
        r is Ok <==> before.data.aliases@.dom().contains(name),
        r is Err ==> *after == *before,
        r is Ok ==> {
            &&& !after.data.aliases@.dom().contains(name)
            &&& after.data.aliases@.dom().contains(other) <==> before.data.aliases@.dom().contains(
                other,
            )
            &&& before.data.aliases@.dom().contains(other) ==> {
                &&& before.data.aliases@[other].target@ == name
                    ==> after.data.aliases@[other].target@.len() == 0
                &&& before.data.aliases@[other].target@ != name ==> after.data.aliases@[other]
                    == before.data.aliases@[other]
            }
            &&& after.aliases_dirty
            &&& after.data.models == before.data.models
        },
{
}

/// Where a name goes, the aliases that led to it stay, unassigned, and all
/// others lead where they led.
pub proof fn law_aliases_of_what_is_gone_stay(
    before: AliasMap,
    after: AliasMap,
    name: Seq<char>,
    a: Seq<char>,
)
    requires
        unassigned(before, after, name),
        before.dom().contains(a),
    ensures
        after.dom().contains(a),
        after[a].alias == before[a].alias,
        before[a].target@ == name ==> after[a].target@.len() == 0,
        before[a].target@ != name ==> after[a].target == before[a].target,
{
}

// ----- processes -----

/// The dead are the processes of instances that are not alive, all of them, each
/// with its model.
pub proof fn law_the_dead_are_not_alive(
    s: Seq<InstanceInfo>,
    alive: Seq<i32>,
    id: String,
    pid: i32,
)
    ensures
        dead_among(s, alive).contains((id, pid)) <==> !alive.contains(pid) && exists|i: int|
            0 <= i < s.len() && (#[trigger] s[i]).model_id == id && s[i].pid == pid,
{
    let p = |i: InstanceInfo| !alive.contains(i.pid);
    let q = |i: InstanceInfo| (i.model_id, i.pid);
    let f = s.filter(p);
    let d = f.map_values(q);
    assert(dead_among(s, alive) == d);
    if d.contains((id, pid)) {
        let k = choose|k: int| 0 <= k < d.len() && d[k] == (id, pid);
        assert(f.contains(f[k]));
        lemma_filter_member(s, p, f[k]);
        let i = choose|i: int| 0 <= i < s.len() && s[i] == f[k];
        assert(s[i].model_id == id && s[i].pid == pid);
    }
    if !alive.contains(pid) && exists|i: int|
        0 <= i < s.len() && (#[trigger] s[i]).model_id == id && s[i].pid == pid {
        let i = choose|i: int|
            0 <= i < s.len() && (#[trigger] s[i]).model_id == id && s[i].pid == pid;
        assert(s.contains(s[i]));
        lemma_filter_member(s, p, s[i]);
        let k = choose|k: int| 0 <= k < f.len() && f[k] == s[i];
        assert(d[k] == (id, pid));
    }
}

proof fn lemma_recycling_adds_nothing(
    s: RunState,
    pids: Seq<i32>,
    n: int,
    reason: Seq<char>,
    now: u64,
    x: InstanceInfo,
)
    requires
        0 <= n <= pids.len(),
        s.recycle_all(pids, n, reason, now).instances.contains(x),
    ensures
        s.instances.contains(x),
    decreases n,
{
    if n > 0 {
        let mid = s.recycle_all(pids, n - 1, reason, now);
        let pid = pids[n - 1];
        if let Some(c) = at_child(mid.instances, pid, 0) {
            let id = mid.instances[c].model_id@;
            lemma_filter_member(
                mid.instances,
                |i: InstanceInfo| !(serves(i, id) && i.pid == pid),
                x,
            );
        }
        lemma_recycling_adds_nothing(s, pids, n - 1, reason, now, x);
    }
}

/// Where several processes are recycled, no instance is left of any of them that
/// was started here.
pub proof fn law_every_process_of_a_list_is_recycled(
    s: RunState,
    pids: Seq<i32>,
    n: int,
    reason: Seq<char>,
    now: u64,
    i: int,
    x: InstanceInfo,
)
    requires
        0 <= i < n <= pids.len(),
        forall|a: InstanceInfo, b: InstanceInfo|
            #![trigger s.instances.contains(a), s.instances.contains(b)]
            s.instances.contains(a) && s.instances.contains(b) && a.pid == b.pid ==> a == b,
        x.pid == pids[i],
        x.started_here,
    ensures
        !s.recycle_all(pids, n, reason, now).instances.contains(x),
    decreases n,
{
    let mid = s.recycle_all(pids, n - 1, reason, now);
    let pid = pids[n - 1];
    let after = s.recycle_all(pids, n, reason, now);
    if after.instances.contains(x) {
        lemma_recycling_adds_nothing(s, pids, n, reason, now, x);
        lemma_at_pid(mid.instances, pid, 0);
        if let Some(c) = at_child(mid.instances, pid, 0) {
            let id = mid.instances[c].model_id@;
            lemma_filter_member(
                mid.instances,
                |i: InstanceInfo| !(serves(i, id) && i.pid == pid),
                x,
            );
            if i == n - 1 {
                assert(mid.instances.contains(mid.instances[c]));
                lemma_recycling_adds_nothing(s, pids, n - 1, reason, now, mid.instances[c]);
                assert(mid.instances[c] == x);
            }
        } else if i == n - 1 {
            let k = choose|k: int| 0 <= k < after.instances.len() && after.instances[k] == x;
            assert(after.instances == mid.instances);
            assert(mid.instances[k].pid == pid);
        }
        if i < n - 1 {
            assert(mid.instances.contains(x));
            law_every_process_of_a_list_is_recycled(s, pids, n - 1, reason, now, i, x);
        }
    }
}

proof fn lemma_burying_adds_nothing(
    s: RunState,
    dead: Seq<(String, i32)>,
    messages: Seq<String>,
    n: int,
    x: InstanceInfo,
)
    requires
        0 <= n <= dead.len(),
        s.bury_all(dead, messages, n).instances.contains(x),
    ensures
        s.instances.contains(x),
    decreases n,
{
    if n > 0 {
        let mid = s.bury_all(dead, messages, n - 1);
        lemma_forgetting(mid.instances, dead[n - 1].1, x);
        lemma_burying_adds_nothing(s, dead, messages, n - 1, x);
    }
}

proof fn lemma_forgetting(s: Seq<InstanceInfo>, pid: i32, x: InstanceInfo)
    requires
        forgotten(s, pid).contains(x),
    ensures
        s.contains(x),
        x.pid == pid ==> exists|y: InstanceInfo| #[trigger] s.contains(y) && y.pid == pid && y != x,
{
    lemma_at_pid(s, pid, 0);
    let c = match at_child(s, pid, 0) {
        Some(c) => Some(c),
        None => at_pid(s, pid, 0),
    };
    if let Some(c) = c {
        let id = s[c].model_id@;
        lemma_filter_member(s, |i: InstanceInfo| !(serves(i, id) && i.pid == pid), x);
        assert(s.contains(s[c]));
        assert(x.pid == pid ==> s[c] != x);
    } else if x.pid == pid {
        let k = choose|k: int| 0 <= k < s.len() && s[k] == x;
        assert(s[k].pid == pid);
    }
}

/// No instance of a process that died is left once the dead are forgotten.
pub proof fn law_no_dead_process_is_left(
    s: RunState,
    dead: Seq<(String, i32)>,
    messages: Seq<String>,
    n: int,
    i: int,
    x: InstanceInfo,
)
    requires
        0 <= i < n <= dead.len(),
        forall|a: InstanceInfo, b: InstanceInfo|
            #![trigger s.instances.contains(a), s.instances.contains(b)]
            s.instances.contains(a) && s.instances.contains(b) && a.pid == b.pid ==> a == b,
        x.pid == dead[i].1,
    ensures
        !s.bury_all(dead, messages, n).instances.contains(x),
    decreases n,
{
    let mid = s.bury_all(dead, messages, n - 1);
    let pid = dead[n - 1].1;
    let after = s.bury_all(dead, messages, n);
    if after.instances.contains(x) {
        lemma_burying_adds_nothing(s, dead, messages, n, x);
        lemma_forgetting(mid.instances, pid, x);
        if i == n - 1 {
            let y = choose|y: InstanceInfo| #[trigger]
                mid.instances.contains(y) && y.pid == pid && y != x;
            lemma_burying_adds_nothing(s, dead, messages, n - 1, y);
        } else {
            law_no_dead_process_is_left(s, dead, messages, n - 1, i, x);
        }
    }
}

/// A process is recycled when it has stayed silent as often in a row as is set,
/// and not before; an answer makes the count begin anew. What other processes
/// did stays counted.
pub proof fn law_silence_in_a_row_is_counted(
    o: &Orchestrator,
    after: &Orchestrator,
    t: &LivenessTracker,
    then: &LivenessTracker,
    plan: &LivenessPlan,
    pid: i32,
    timed_out: bool,
    now: u64,
    r: Option<Recycled>,
    other: i32,
)
    requires
        o.hears_of(after, t, then, plan, pid, timed_out, now, r),
        t.count(pid) < plan.max_fail,
    ensures
        !timed_out ==> then.count(pid) == 0 && *after == *o && r is None,
        timed_out && t.count(pid) + 1 < plan.max_fail ==> then.count(pid) == t.count(pid) + 1
            && *after == *o && r is None,
        timed_out && t.count(pid) + 1 == plan.max_fail && (exists|i: int|
            0 <= i < o.process_manager.instances@.len() && (
            #[trigger] o.process_manager.instances@[i]).pid == pid) ==> r is Some && then.count(pid)
            == 0,
        other != pid ==> then.count(other) == t.count(other),
{
    lemma_at_pid(o.process_manager.instances@, pid, 0);
}

/// What has changed is stored, all of it and once: the models also where a
/// process died, the settings only where they are stored at all.
pub proof fn law_what_has_changed_is_stored_once(
    o: &Orchestrator,
    after: &Orchestrator,
    alive: Seq<i32>,
    r: SavePlan,
    i: int,
)
    requires
        o.stores(after, alive, r),
    ensures
        o.dirty ==> r.models is Some,
        0 <= i < o.process_manager.instances@.len() && !alive.contains(
            o.process_manager.instances@[i].pid,
        ) ==> r.models is Some,
        r.presets is Some <==> o.presets_dirty,
        r.aliases is Some <==> o.aliases_dirty,
        r.settings == (if o.settings_dirty && o.stores_settings {
            Some(o.settings)
        } else {
            None
        }),
        !after.dirty && !after.presets_dirty && !after.aliases_dirty && !after.settings_dirty,
{
    let s = o.process_manager.instances@;
    if 0 <= i < s.len() && !alive.contains(s[i].pid) {
        law_the_dead_are_not_alive(s, alive, s[i].model_id, s[i].pid);
        let dead = dead_among(s, alive);
        assert(dead.contains((s[i].model_id, s[i].pid)));
    }
}

/// The requests in flight to a model are those of all its instances together.
pub proof fn law_requests_in_flight_are_added_up(
    s: Seq<InstanceInfo>,
    id: Seq<char>,
    n: int,
)
    requires
        0 < n <= s.len(),
        active_for(s, id, n - 1) + s[n - 1].active <= usize::MAX,
    ensures
        active_for(s, id, 0) == 0,
        s[n - 1].model_id@ == id ==> active_for(s, id, n) == active_for(s, id, n - 1) + s[n
            - 1].active,
        s[n - 1].model_id@ != id ==> active_for(s, id, n) == active_for(s, id, n - 1),
{
}

/// How a model is served is told as it is counted.
pub proof fn law_the_runtime_tells_the_counts(pm: &ProcessManager, id: Seq<char>)
    ensures
        ({
            let s = pm.instances@;
            let p = pm.pending@;
            let r = pm.runtime(id);
            &&& r.instances == crate::process::manager::served_by(s, id, s.len() as int) as usize
            &&& r.pending == crate::process::manager::reserved_for(p, id, p.len() as int) as usize
            &&& r.active == active_for(s, id, s.len() as int)
        }),
{
}

/// Without a range of its own the router takes the first port from the system
/// that no pending process holds.
pub proof fn law_a_port_of_the_system_is_not_shared(
    s: Seq<Reservation>,
    answers: Seq<Option<u16>>,
    p: u16,
)
    requires
        answers.len() < 128,
        forall|i: int|
            0 <= i < answers.len() ==> (#[trigger] answers[i]) is Some && port_taken(
                s,
                answers[i]->0,
            ),
    ensures
        port_step(s, None, answers) == PortStep::AskSystem,
        !port_taken(s, p) ==> port_step(s, None, answers.push(Some(p))) == PortStep::UsePort(p),
        port_step(s, None, answers.push(None)) == PortStep::NoFreePort,
        port_taken(s, p) ==> port_step(s, None, answers.push(Some(p))) == (if answers.len() == 127 {
            PortStep::NoFreePort
        } else {
            PortStep::AskSystem
        }),
{
    lemma_all_taken(s, answers, answers, 0);
    lemma_all_taken(s, answers, answers.push(Some(p)), 0);
    lemma_all_taken(s, answers, answers.push(None), 0);
    reveal_with_fuel(system_step, 3);
}

proof fn lemma_all_taken(
    s: Seq<Reservation>,
    answers: Seq<Option<u16>>,
    more: Seq<Option<u16>>,
    from: int,
)
    requires
        0 <= from <= answers.len() < 128,
        answers.len() <= more.len(),
        forall|i: int| 0 <= i < answers.len() ==> #[trigger] more[i] == answers[i],
        forall|i: int|
            0 <= i < answers.len() ==> (#[trigger] answers[i]) is Some && port_taken(
                s,
                answers[i]->0,
            ),
    ensures
        system_step(s, more, from) == system_step(s, more, answers.len() as int),
    decreases answers.len() - from,
{
    if from < answers.len() {
        assert(more[from] == answers[from]);
        lemma_all_taken(s, answers, more, from + 1);
    }
}

} // verus!
