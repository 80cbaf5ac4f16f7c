//! Adding, changing and removing models, presets and aliases, and stopping
//! models.
use vstd::prelude::*;
use vstd::string::*;

use crate::config::alias::ModelAlias;
use crate::config::backend::BackendTags;
use crate::config::gpu_tags::{set_override, with_override, GpuTagOverride};
use crate::config::model::{
    equal_numbers, equal_options, option_number, same_option_number, ConfigError, ModelConfig,
    ModelState,
};
use crate::config::preset::BinaryPreset;
use crate::orchestrator::aliases::{
    acyclic, assignment_circles, canonical_name, ends, is_valid_alias_name,
    law_checked_assignment_keeps_acyclic, leads_on, lemma_fewer_links, lemma_short_way, AliasMap,
};
use crate::orchestrator::engine::{
    draft_known, event_views, noted, put_state, with_state, AppData, EventLevel, EventView,
    Orchestrator,
};
use crate::orchestrator::errors::{MutationError, StopError};
use crate::paths::{option_parts, parts, same_option_path, same_path};
use crate::process::manager::{
    after_stop, serves, served_by, started_pids, InstanceInfo, ProcessManager,
};
use crate::table::{lemma_keys, lemma_same_keys, Keyed, Table};
use crate::text::{option_text, same_option, same_text, same_texts, texts};

verus! {

broadcast use vstd::string::group_string_axioms;

// ----- what runs -----

/// The state of the models, the instances that serve them and the events.
pub struct RunState {
    pub models: Map<Seq<char>, ModelConfig>,
    pub instances: Seq<InstanceInfo>,
    pub events: Seq<EventView>,
}

impl RunState {
    /// With one more event.
    pub open spec fn note(self, level: EventLevel, message: Seq<char>, now: u64) -> RunState {
        RunState { events: noted(self.events, EventView { ts: now, level, message }), ..self }
    }

    /// How many instances a model has.
    pub open spec fn count(self, id: Seq<char>) -> nat {
        served_by(self.instances, id, self.instances.len() as int)
    }

    /// With the model in another state.
    pub open spec fn put(self, id: Seq<char>, state: ModelState, pid: Option<i32>) -> RunState {
        RunState { models: with_state(self.models, id, state, pid), ..self }
    }

    /// With the model stopped.
    pub open spec fn stop(self, id: Seq<char>, now: u64) -> RunState {
        let told = if self.count(id) > 0 {
            self.note(EventLevel::Info, "stopped "@ + id, now)
        } else {
            self
        };
        RunState { instances: after_stop(told.instances, id), ..told }.put(
            id,
            ModelState::Idle,
            None,
        )
    }

    /// With the model stopped for a reason that is told before.
    pub open spec fn stop_because(self, id: Seq<char>, why: Seq<char>, now: u64) -> RunState {
        self.note(EventLevel::Info, "stopping "@ + id + ": "@ + why, now).stop(id, now)
    }

    /// With the models stopped one after the other.
    pub open spec fn stop_all(self, ids: Seq<Seq<char>>, why: Seq<char>, now: u64) -> RunState
        decreases ids.len(),
    {
        if ids.len() == 0 {
            self
        } else {
            self.stop_all(ids.drop_last(), why, now).stop_because(ids.last(), why, now)
        }
    }

    /// The processes to be ended when the models are stopped one after the
    /// other.
    pub open spec fn signals(self, ids: Seq<Seq<char>>, why: Seq<char>, now: u64) -> Seq<i32>
        decreases ids.len(),
    {
        if ids.len() == 0 {
            Seq::empty()
        } else {
            self.signals(ids.drop_last(), why, now) + started_pids(
                self.stop_all(ids.drop_last(), why, now).instances,
                ids.last(),
            )
        }
    }
}

impl Orchestrator {
    /// What runs.
    pub open spec fn run_state(&self) -> RunState {
        RunState {
            models: self.data.models@,
            instances: self.process_manager.instances@,
            events: event_views(self.events@),
        }
    }

    /// Whether nothing differs but what runs, and what is still to be stored
    /// of the models.
    pub open spec fn same_but_run_state(&self, other: &Orchestrator) -> bool {
        *self == (Orchestrator {
            data: AppData { models: self.data.models, ..other.data },
            process_manager: ProcessManager {
                instances: self.process_manager.instances,
                ..other.process_manager
            },
            events: self.events,
            dirty: self.dirty,
            ..*other
        })
    }

    /// Stops a model and says which processes are to be ended.
    pub fn stop_model(&mut self, id: &str, now: u64) -> (r: Result<Vec<i32>, StopError>)
        requires
            old(self).wf(),
        ensures
            final(self).wf(),
            match r {
                Ok(pids) => {
                    &&& old(self).data.models@.dom().contains(id@)
                    &&& final(self).run_state() == old(self).run_state().stop(id@, now)
                    &&& final(self).same_but_run_state(old(self))
                    &&& final(self).dirty
                    &&& pids@ == started_pids(old(self).process_manager.instances@, id@)
                },
                Err(StopError::ModelNotFound(what)) => {
                    &&& !old(self).data.models@.dom().contains(id@)
                    &&& what@ == id@
                    &&& *final(self) == *old(self)
                },
            },
    {
        if !self.data.models.contains(id) {
            return Err(StopError::ModelNotFound(id.to_owned()));
        }
        if self.process_manager.instance_count(id) > 0 {
            self.record_event(EventLevel::Info, "stopped ".to_owned().concat(id), now);
        }
        let pids = self.process_manager.stop_model_instances(id);
        put_state(&mut self.data.models, id, ModelState::Idle, None);
        self.dirty = true;
        Ok(pids)
    }

    /// Stops a model that is known, and tells why before.
    pub(crate) fn stop_because(&mut self, id: &str, why: &str, now: u64) -> (r: Vec<i32>)
        requires
            old(self).wf(),
            old(self).data.models@.dom().contains(id@),
        ensures
            final(self).wf(),
            final(self).run_state() == old(self).run_state().stop_because(id@, why@, now),
            final(self).same_but_run_state(old(self)),
            final(self).dirty,
            r@ == started_pids(old(self).process_manager.instances@, id@),
    {
        self.record_event(
            EventLevel::Info,
            "stopping ".to_owned().concat(id).concat(": ").concat(why),
            now,
        );
        match self.stop_model(id, now) {
            Ok(pids) => pids,
            Err(_) => {
                assert(false);
                Vec::new()
            },
        }
    }
}

// ----- aliases -----

/// Why an alias is refused.
pub enum AliasFault {
    BadName,
    ShadowsModel,
    UnknownTarget,
    Circle,
}

/// Why an alias is refused, if it is.
pub open spec fn alias_fault(data: &AppData, a: ModelAlias) -> Option<AliasFault> {
    let models = data.models@;
    let aliases = data.aliases@;
    if !canonical_name(a.alias@) {
        Some(AliasFault::BadName)
    } else if models.dom().contains(a.alias@) {
        Some(AliasFault::ShadowsModel)
    } else if a.target@.len() == 0 {
        None
    } else if !models.dom().contains(a.target@) && !aliases.dom().contains(a.target@) {
        Some(AliasFault::UnknownTarget)
    } else if aliases.dom().contains(a.target@) && !ends(aliases.insert(a.alias@, a), a.alias@) {
        Some(AliasFault::Circle)
    } else {
        None
    }
}

/// Whether an error tells that fault of that alias.
pub open spec fn tells_fault(e: MutationError, f: AliasFault, a: ModelAlias) -> bool {
    match f {
        AliasFault::BadName => e matches MutationError::AliasInvalid(what) && what@
            == "alias must be 1–64 characters of lowercase letters, digits, '.', '_' or '-'"@,
        AliasFault::ShadowsModel => e == MutationError::AliasShadowsModel(a.alias),
        AliasFault::UnknownTarget => e == (MutationError::AliasTargetMissing {
            alias: a.alias,
            target: a.target,
        }),
        AliasFault::Circle => e == (MutationError::AliasCycle { alias: a.alias, target: a.target }),
    }
}

/// Checks an alias against the models and aliases. One without a target is
/// admissible: it can be assigned later.
pub fn validate_alias(data: &AppData, alias: &ModelAlias) -> (r: Result<(), MutationError>)
    requires
        data.wf(),
    ensures
        match r {
            Ok(_) => alias_fault(data, *alias) is None,
            Err(e) => alias_fault(data, *alias) matches Some(f) && tells_fault(e, f, *alias),
        },
{
    if !is_valid_alias_name(alias.alias.as_str()) {
        return Err(
            MutationError::AliasInvalid(
                "alias must be 1–64 characters of lowercase letters, digits, '.', '_' or '-'".to_owned(),
            ),
        );
    }
    if data.models.contains(alias.alias.as_str()) {
        return Err(MutationError::AliasShadowsModel(alias.alias.clone()));
    }
    if !alias.target.as_str().is_empty() {
        let is_model = data.models.contains(alias.target.as_str());
        let is_alias = data.aliases.contains(alias.target.as_str());
        if !is_model && !is_alias {
            return Err(
                MutationError::AliasTargetMissing {
                    alias: alias.alias.clone(),
                    target: alias.target.clone(),
                },
            );
        }
        if is_alias && assignment_circles(&data.aliases, alias) {
            return Err(
                MutationError::AliasCycle {
                    alias: alias.alias.clone(),
                    target: alias.target.clone(),
                },
            );
        }
    }
    Ok(())
}

/// An alias that is not refused makes no circle.
proof fn lemma_admissible_alias(data: &AppData, a: ModelAlias)
    requires
        alias_fault(data, a) is None,
    ensures
        acyclic(data.aliases@) ==> acyclic(data.aliases@.insert(a.alias@, a)),
{
    if acyclic(data.aliases@) {
        if a.target@.len() == 0 || !data.aliases@.dom().contains(a.target@) {
            lemma_short_way(data.aliases@, a);
        }
        law_checked_assignment_keeps_acyclic(data.aliases@, a);
    }
}

/// Whether `after` is `before` with nothing assigned where `name` was.
pub open spec fn unassigned(before: AliasMap, after: AliasMap, name: Seq<char>) -> bool {
    &&& after.dom() == before.dom()
    &&& forall|a: Seq<char>| #[trigger]
        before.dom().contains(a) ==> if before[a].target@ == name {
            after[a].alias == before[a].alias && after[a].target@.len() == 0
        } else {
            after[a] == before[a]
        }
}

/// Whether some alias leads to a name.
pub open spec fn is_target(m: AliasMap, name: Seq<char>) -> bool {
    exists|a: Seq<char>| #[trigger] m.dom().contains(a) && m[a].target@ == name
}

/// Unassigns every alias that leads to a name.
fn unassign(aliases: &mut Table<ModelAlias>, name: &str) -> (r: bool)
    requires
        old(aliases).wf(),
    ensures
        final(aliases).wf(),
        unassigned(old(aliases)@, final(aliases)@, name@),
        r == is_target(old(aliases)@, name@),
{
    let ghost before = aliases.records();
    let n = aliases.len();
    let mut any = false;
    let mut i: usize = 0;
    while i < n
        invariant
            i <= n,
            n == before.len(),
            before == old(aliases).records(),
            old(aliases).wf(),
            aliases.wf(),
            aliases.records().len() == n,
            any == exists|j: int| 0 <= j < i && (#[trigger] before[j]).target@ == name@,
            forall|j: int| i <= j < n ==> #[trigger] aliases.records()[j] == before[j],
            forall|j: int|
                #![trigger aliases.records()[j]]
                0 <= j < i ==> if before[j].target@ == name@ {
                    aliases.records()[j].alias == before[j].alias
                        && aliases.records()[j].target@.len() == 0
                } else {
                    aliases.records()[j] == before[j]
                },
        decreases n - i,
    {
        let ghost now = aliases.records();
        if same_text(aliases.at(i).target.as_str(), name) {
            let a = ModelAlias { alias: aliases.at(i).alias.clone(), target: String::new() };
            aliases.set(i, a);
            any = true;
        }
        i += 1;
    }
    proof {
        let after = aliases.records();
        assert forall|j: int| 0 <= j < before.len() implies (#[trigger] after[j]).key()
            == before[j].key() by {}
        lemma_same_keys(before, after);
        lemma_keys(before);
        let ob = old(aliases)@;
        let fb = aliases@;
        assert forall|a: Seq<char>| #[trigger] ob.dom().contains(a) implies if ob[a].target@
            == name@ {
            fb[a].alias == ob[a].alias && fb[a].target@.len() == 0
        } else {
            fb[a] == ob[a]
        } by {
            let p = choose|p: int|
                0 <= p < before.len() && #[trigger] before[p] == ob[a] && after[p] == fb[a]
                    && before[p].key() == a;
            assert(after[p] == fb[a]);
        }
        if any {
            let j = choose|j: int| 0 <= j < n && (#[trigger] before[j]).target@ == name@;
            crate::table::lemma_position(before, j);
            assert(ob.dom().contains(before[j].key()));
        }
        if is_target(ob, name@) {
            let a = choose|a: Seq<char>| #[trigger] ob.dom().contains(a) && ob[a].target@ == name@;
            let p = choose|p: int|
                0 <= p < before.len() && #[trigger] before[p] == ob[a] && after[p] == fb[a]
                    && before[p].key() == a;
            assert(before[p].target@ == name@);
        }
    }
    any
}

impl Orchestrator {
    /// Whether nothing differs but the aliases, and that they are to be stored.
    pub open spec fn same_but_aliases(&self, other: &Orchestrator) -> bool {
        *self == (Orchestrator {
            data: AppData { aliases: self.data.aliases, ..other.data },
            aliases_dirty: true,
            ..*other
        })
    }

    /// Whether `r` and the state after it are what becomes of an alias that is
    /// to be added, or changed where `anew` does not hold.
    pub open spec fn assigns(
        &self,
        after: &Orchestrator,
        alias: ModelAlias,
        anew: bool,
        r: Result<(), MutationError>,
    ) -> bool {
        if self.data.aliases@.dom().contains(alias.alias@) == anew {
            &&& r == Err::<(), _>(
                if anew {
                    MutationError::AliasConflict(alias.alias)
                } else {
                    MutationError::AliasNotFound(alias.alias)
                },
            )
            &&& *after == *self
        } else {
            match alias_fault(&self.data, alias) {
                Some(f) => {
                    &&& r matches Err(e) && tells_fault(e, f, alias)
                    &&& *after == *self
                },
                None => {
                    &&& r == Ok::<(), MutationError>(())
                    &&& after.data.aliases@ == self.data.aliases@.insert(alias.alias@, alias)
                    &&& after.same_but_aliases(self)
                },
            }
        }
    }

    /// Whether `r` and the state after it are what becomes of an alias that is
    /// to be removed.
    pub open spec fn drops_alias(
        &self,
        after: &Orchestrator,
        name: Seq<char>,
        r: Result<(), MutationError>,
    ) -> bool {
        if !self.data.aliases@.dom().contains(name) {
            &&& r matches Err(MutationError::AliasNotFound(what)) && what@ == name
            &&& *after == *self
        } else {
            &&& r == Ok::<(), MutationError>(())
            &&& unassigned(self.data.aliases@.remove(name), after.data.aliases@, name)
            &&& after.same_but_aliases(self)
        }
    }

    /// Adds an alias.
    pub fn add_alias(&mut self, alias: ModelAlias) -> (r: Result<(), MutationError>)
        requires
            old(self).wf(),
        ensures
            final(self).wf(),
            old(self).assigns(final(self), alias, true, r),
            if old(self).data.aliases@.dom().contains(alias.alias@) {
                r == Err::<(), _>(MutationError::AliasConflict(alias.alias)) && *final(self)
                    == *old(self)
            } else {
                match alias_fault(&old(self).data, alias) {
                    Some(f) => {
                        &&& r matches Err(e) && tells_fault(e, f, alias)
                        &&& *final(self) == *old(self)
                    },
                    None => {
                        &&& r == Ok::<(), MutationError>(())
                        &&& final(self).data.aliases@ == old(self).data.aliases@.insert(
                            alias.alias@,
                            alias,
                        )
                        &&& final(self).same_but_aliases(old(self))
                    },
                }
            },
            acyclic(old(self).data.aliases@) ==> acyclic(final(self).data.aliases@),
            old(self).data.targets_known() ==> final(self).data.targets_known(),
    {
        if self.data.aliases.contains(alias.alias.as_str()) {
            return Err(MutationError::AliasConflict(alias.alias));
        }
        match validate_alias(&self.data, &alias) {
            Err(e) => {
                return Err(e);
            },
            Ok(_) => {},
        }
        proof {
            lemma_admissible_alias(&self.data, alias);
        }
        self.data.aliases.insert(alias);
        self.aliases_dirty = true;
        Ok(())
    }

    /// Changes an alias.
    pub fn update_alias(&mut self, alias: ModelAlias) -> (r: Result<(), MutationError>)
        requires
            old(self).wf(),
        ensures
            final(self).wf(),
            old(self).assigns(final(self), alias, false, r),
            if !old(self).data.aliases@.dom().contains(alias.alias@) {
                r == Err::<(), _>(MutationError::AliasNotFound(alias.alias)) && *final(self)
                    == *old(self)
            } else {
                match alias_fault(&old(self).data, alias) {
                    Some(f) => {
                        &&& r matches Err(e) && tells_fault(e, f, alias)
                        &&& *final(self) == *old(self)
                    },
                    None => {
                        &&& r == Ok::<(), MutationError>(())
                        &&& final(self).data.aliases@ == old(self).data.aliases@.insert(
                            alias.alias@,
                            alias,
                        )
                        &&& final(self).same_but_aliases(old(self))
                    },
                }
            },
            acyclic(old(self).data.aliases@) ==> acyclic(final(self).data.aliases@),
            old(self).data.targets_known() ==> final(self).data.targets_known(),
    {
        if !self.data.aliases.contains(alias.alias.as_str()) {
            return Err(MutationError::AliasNotFound(alias.alias));
        }
        match validate_alias(&self.data, &alias) {
            Err(e) => {
                return Err(e);
            },
            Ok(_) => {},
        }
        proof {
            lemma_admissible_alias(&self.data, alias);
        }
        self.data.aliases.insert(alias);
        self.aliases_dirty = true;
        Ok(())
    }

    /// Removes an alias. Aliases that led to it stay, unassigned.
    pub fn remove_alias(&mut self, name: &str) -> (r: Result<(), MutationError>)
        requires
            old(self).wf(),
        ensures
            final(self).wf(),
            old(self).drops_alias(final(self), name@, r),
            if !old(self).data.aliases@.dom().contains(name@) {
                &&& r matches Err(MutationError::AliasNotFound(what)) && what@ == name@
                &&& *final(self) == *old(self)
            } else {
                &&& r == Ok::<(), MutationError>(())
                &&& unassigned(
                    old(self).data.aliases@.remove(name@),
                    final(self).data.aliases@,
                    name@,
                )
                &&& final(self).same_but_aliases(old(self))
            },
            acyclic(old(self).data.aliases@) ==> acyclic(final(self).data.aliases@),
            old(self).data.targets_known() ==> final(self).data.targets_known(),
    {
        let ghost before = self.data.aliases@;
        if !self.data.aliases.contains(name) {
            return Err(MutationError::AliasNotFound(name.to_owned()));
        }
        self.data.aliases.remove(name);
        let ghost mid = self.data.aliases@;
        unassign(&mut self.data.aliases, name);
        self.aliases_dirty = true;
        proof {
            let after = self.data.aliases@;
            assert forall|x: Seq<char>| #[trigger] leads_on(after, x) implies leads_on(before, x)
                && before[x].target@ == after[x].target@ by {
                assert(mid.dom().contains(x));
            }
            if acyclic(before) {
                lemma_fewer_links(before, after);
            }
            if old(self).data.targets_known() {
                assert forall|a: Seq<char>| #[trigger]
                    after.dom().contains(a) && after[a].target@.len()
                        > 0 implies self.data.models@.dom().contains(after[a].target@)
                    || after.dom().contains(after[a].target@) by {
                    assert(mid.dom().contains(a));
                    assert(before.dom().contains(a));
                }
            }
        }
        Ok(())
    }

    // ----- GPU tags -----

    /// Sets what the operator says of one GPU.
    pub fn set_gpu_tags(&mut self, pci_bus_id: &str, tags: BackendTags, now: u64) -> (r: Result<
        (),
        MutationError,
    >)
        requires
            old(self).wf(),
        ensures
            final(self).wf(),
            match old(self).gpu_tags {
                None => {
                    &&& r matches Err(MutationError::NotFound(what)) && what@ == "gpu tags store"@
                    &&& *final(self) == *old(self)
                },
                Some(list) => {
                    &&& r == Ok::<(), MutationError>(())
                    &&& final(self).gpu_tags matches Some(new)
                    &&& exists|o: GpuTagOverride|
                        new@ == #[trigger] with_override(list@, o) && o.pci_bus_id@ == pci_bus_id@
                            && o.tags == tags
                    &&& event_views(final(self).events@) == noted(
                        event_views(old(self).events@),
                        EventView {
                            ts: now,
                            level: EventLevel::Info,
                            message: "updated GPU tags for "@ + pci_bus_id@,
                        },
                    )
                    &&& *final(self) == (Orchestrator {
                        gpu_tags: final(self).gpu_tags,
                        events: final(self).events,
                        ..*old(self)
                    })
                },
            },
    {
        let o = GpuTagOverride { pci_bus_id: pci_bus_id.to_owned(), tags };
        let ghost ov = o;
        let new = match &self.gpu_tags {
            None => {
                return Err(MutationError::NotFound("gpu tags store".to_owned()));
            },
            Some(list) => set_override(list, o),
        };
        assert(new@ == with_override(self.gpu_tags->0@, ov));
        self.gpu_tags = Some(new);
        self.record_event(
            EventLevel::Info,
            "updated GPU tags for ".to_owned().concat(pci_bus_id),
            now,
        );
        Ok(())
    }

    // ----- presets -----

    /// Whether nothing differs but the presets, and that they are to be stored.
    pub open spec fn same_but_presets(&self, other: &Orchestrator) -> bool {
        *self == (Orchestrator {
            data: AppData { presets: self.data.presets, ..other.data },
            presets_dirty: true,
            ..*other
        })
    }

    /// Adds a preset.
    pub fn add_preset(&mut self, preset: BinaryPreset) -> (r: Result<(), MutationError>)
        requires
            old(self).wf(),
        ensures
            final(self).wf(),
            if old(self).data.presets@.dom().contains(preset.id@) {
                r == Err::<(), _>(MutationError::Conflict(preset.id)) && *final(self) == *old(self)
            } else {
                &&& r == Ok::<(), MutationError>(())
                &&& final(self).data.presets@ == old(self).data.presets@.insert(preset.id@, preset)
                &&& final(self).same_but_presets(old(self))
            },
    {
        if self.data.presets.contains(preset.id.as_str()) {
            return Err(MutationError::Conflict(preset.id));
        }
        self.data.presets.insert(preset);
        self.presets_dirty = true;
        Ok(())
    }

    /// Removes a preset.
    pub fn remove_preset(&mut self, id: &str) -> (r: Result<(), MutationError>)
        requires
            old(self).wf(),
        ensures
            final(self).wf(),
            if !old(self).data.presets@.dom().contains(id@) {
                &&& r matches Err(MutationError::NotFound(what)) && what@ == id@
                &&& *final(self) == *old(self)
            } else {
                &&& r == Ok::<(), MutationError>(())
                &&& final(self).data.presets@ == old(self).data.presets@.remove(id@)
                &&& final(self).same_but_presets(old(self))
            },
    {
        if !self.data.presets.contains(id) {
            return Err(MutationError::NotFound(id.to_owned()));
        }
        self.data.presets.remove(id);
        self.presets_dirty = true;
        Ok(())
    }
}

// ----- models -----

/// Whether two definitions start a different process.
pub open spec fn spawn_changes(a: &ModelConfig, b: &ModelConfig) -> bool {
    !({
        &&& a.weights_format == b.weights_format
        &&& option_text(a.binary_preset) == option_text(b.binary_preset)
        &&& parts(a.binary@) == parts(b.binary@)
        &&& parts(a.model_path@) == parts(b.model_path@)
        &&& option_parts(a.mmproj_path) == option_parts(b.mmproj_path)
        &&& texts(a.extra_args@) == texts(b.extra_args@)
        &&& a.context == b.context
        &&& equal_numbers(a.temperature@, b.temperature@)
        &&& equal_numbers(a.top_p@, b.top_p@)
        &&& a.top_k == b.top_k
        &&& equal_numbers(a.min_p@, b.min_p@)
        &&& equal_numbers(a.presence_penalty@, b.presence_penalty@)
        &&& equal_numbers(a.repeat_penalty@, b.repeat_penalty@)
        &&& a.flash_attn == b.flash_attn
        &&& a.mlock == b.mlock
        &&& a.no_mmap == b.no_mmap
        &&& a.parallel_slots == b.parallel_slots
        &&& a.cache_type_k == b.cache_type_k
        &&& a.cache_type_v == b.cache_type_v
        &&& a.threads == b.threads
        &&& a.cache_ram_mib == b.cache_ram_mib
        &&& a.reasoning_format == b.reasoning_format
        &&& a.reasoning_budget == b.reasoning_budget
        &&& option_text(a.chat_template_kwargs) == option_text(b.chat_template_kwargs)
        &&& option_text(a.draft_model_id) == option_text(b.draft_model_id)
        &&& a.mtp_tokens == b.mtp_tokens
        &&& a.draft_max == b.draft_max
        &&& a.draft_min == b.draft_min
        &&& equal_options(option_number(a.draft_p_min), option_number(b.draft_p_min))
        &&& a.ctx_checkpoints == b.ctx_checkpoints
        &&& a.checkpoint_min_step == b.checkpoint_min_step
        &&& a.checkpoint_every_n_tokens == b.checkpoint_every_n_tokens
    })
}

/// Whether two definitions start a different process.
pub fn spawn_config_changed(a: &ModelConfig, b: &ModelConfig) -> (r: bool)
    ensures
        r == spawn_changes(a, b),
{
    let files = a.weights_format == b.weights_format && same_option(
        &a.binary_preset,
        &b.binary_preset,
    ) && same_path(a.binary.as_str(), b.binary.as_str()) && same_path(
        a.model_path.as_str(),
        b.model_path.as_str(),
    ) && same_option_path(&a.mmproj_path, &b.mmproj_path) && same_texts(
        &a.extra_args,
        &b.extra_args,
    );
    let sampling = a.context == b.context && a.temperature.equals(&b.temperature)
        && a.top_p.equals(&b.top_p) && a.top_k == b.top_k && a.min_p.equals(&b.min_p)
        && a.presence_penalty.equals(&b.presence_penalty) && a.repeat_penalty.equals(
        &b.repeat_penalty,
    );
    let memory = a.flash_attn == b.flash_attn && a.mlock == b.mlock && a.no_mmap == b.no_mmap
        && a.parallel_slots == b.parallel_slots && a.cache_type_k == b.cache_type_k
        && a.cache_type_v == b.cache_type_v && a.threads == b.threads && a.cache_ram_mib
        == b.cache_ram_mib;
    let reasoning = a.reasoning_format == b.reasoning_format && a.reasoning_budget
        == b.reasoning_budget && same_option(&a.chat_template_kwargs, &b.chat_template_kwargs);
    let drafting = same_option(&a.draft_model_id, &b.draft_model_id) && a.mtp_tokens
        == b.mtp_tokens && a.draft_max == b.draft_max && a.draft_min == b.draft_min
        && same_option_number(&a.draft_p_min, &b.draft_p_min) && a.ctx_checkpoints
        == b.ctx_checkpoints && a.checkpoint_min_step == b.checkpoint_min_step
        && a.checkpoint_every_n_tokens == b.checkpoint_every_n_tokens;
    !(files && sampling && memory && reasoning && drafting)
}

/// Whether the memory that a model takes is to be measured again.
pub open spec fn estimate_is_void(a: &ModelConfig, b: &ModelConfig) -> bool {
    ||| parts(a.model_path@) != parts(b.model_path@)
    ||| a.context != b.context
    ||| a.cache_type_k != b.cache_type_k
    ||| a.cache_type_v != b.cache_type_v
}

/// The new definition with what is known of the running model.
pub open spec fn updated_model(existing: ModelConfig, new: ModelConfig) -> ModelConfig {
    ModelConfig {
        estimated_vram: if estimate_is_void(&existing, &new) {
            0
        } else {
            existing.estimated_vram
        },
        state: existing.state,
        pid: existing.pid,
        last_used: existing.last_used,
        ..new
    }
}

/// Whether a model refers to itself as its draft.
pub open spec fn drafts_self(m: ModelConfig) -> bool {
    m.draft_model_id matches Some(d) && d@ == m.id@
}

/// Whether a model refers to a draft that is not known.
pub open spec fn drafts_unknown(models: Map<Seq<char>, ModelConfig>, m: ModelConfig) -> bool {
    m.draft_model_id matches Some(d) && !models.dom().contains(d@)
}

/// Checks the draft that a model refers to.
pub fn validate_draft_reference(models: &Table<ModelConfig>, self_id: &str, draft_id: &str) -> (r:
    Result<(), MutationError>)
    requires
        models.wf(),
    ensures
        if draft_id@ == self_id@ {
            r == Err::<(), _>(MutationError::InvalidConfig(ConfigError::DraftSelfReference))
        } else if !models@.dom().contains(draft_id@) {
            r matches Err(MutationError::InvalidConfig(ConfigError::DraftNotFound { id })) && id@
                == draft_id@
        } else {
            r == Ok::<(), MutationError>(())
        },
{
    if same_text(draft_id, self_id) {
        return Err(MutationError::InvalidConfig(ConfigError::DraftSelfReference));
    }
    if !models.contains(draft_id) {
        return Err(
            MutationError::InvalidConfig(ConfigError::DraftNotFound { id: draft_id.to_owned() }),
        );
    }
    Ok(())
}

fn validate_draft(models: &Table<ModelConfig>, m: &ModelConfig) -> (r: Result<(), MutationError>)
    requires
        models.wf(),
    ensures
        if drafts_self(*m) {
            r == Err::<(), _>(MutationError::InvalidConfig(ConfigError::DraftSelfReference))
        } else if drafts_unknown(models@, *m) {
            r matches Err(MutationError::InvalidConfig(ConfigError::DraftNotFound { id })) && id@
                == m.draft_model_id->0@
        } else {
            r == Ok::<(), MutationError>(())
        },
{
    match &m.draft_model_id {
        Some(d) => validate_draft_reference(models, m.id.as_str(), d.as_str()),
        None => Ok(()),
    }
}

/// Whether a model is live and uses a preset.
pub open spec fn runs_preset(m: ModelConfig, preset: Seq<char>) -> bool {
    option_text(m.binary_preset) == Some(preset) && m.state.live()
}

/// The live models that use a preset.
pub open spec fn preset_users(models: Seq<ModelConfig>, preset: Seq<char>) -> Seq<Seq<char>> {
    models.filter(|m: ModelConfig| runs_preset(m, preset)).map_values(|m: ModelConfig| m.id@)
}

fn find_preset_users(models: &Table<ModelConfig>, preset: &str) -> (r: Vec<String>)
    requires
        models.wf(),
    ensures
        texts(r@) == preset_users(models.records(), preset@),
        forall|i: int| 0 <= i < r@.len() ==> models@.dom().contains((#[trigger] r@[i])@),
{
    let ghost all = models.records();
    let ghost p = |m: ModelConfig| runs_preset(m, preset@);
    let ghost f = |m: ModelConfig| m.id@;
    let mut r: Vec<String> = Vec::new();
    let mut i: usize = 0;
    assert(all.take(0).filter(p) =~= Seq::empty()) by {
        reveal(Seq::filter);
    }
    assert(texts(r@) =~= all.take(0).filter(p).map_values(f));
    while i < models.len()
        invariant
            i <= all.len(),
            all == models.records(),
            models.wf(),
            p == (|m: ModelConfig| runs_preset(m, preset@)),
            f == (|m: ModelConfig| m.id@),
            texts(r@) == all.take(i as int).filter(p).map_values(f),
            forall|i: int| 0 <= i < r@.len() ==> models@.dom().contains((#[trigger] r@[i])@),
        decreases all.len() - i,
    {
        proof {
            reveal(Seq::filter);
            assert(all.take(i + 1).drop_last() =~= all.take(i as int));
            crate::table::lemma_position(all, i as int);
        }
        let ghost before = r@;
        let m = models.at(i);
        let uses = match &m.binary_preset {
            Some(b) => same_text(b.as_str(), preset),
            None => false,
        };
        if uses && m.state.is_live() {
            r.push(m.id.clone());
            assert(texts(r@) =~= texts(before).push(m.id@));
            assert(all.take(i + 1).filter(p).map_values(f) =~= all.take(i as int).filter(
                p,
            ).map_values(f).push(m.id@));
        }
        i += 1;
    }
    assert(all.take(i as int) =~= all);
    r
}

/// The models that use another as their draft.
pub open spec fn draft_users(models: Seq<ModelConfig>, draft: Seq<char>) -> Seq<Seq<char>> {
    models.filter(|m: ModelConfig| option_text(m.draft_model_id) == Some(draft)).map_values(
        |m: ModelConfig| m.id@,
    )
}

fn find_draft_users(models: &Table<ModelConfig>, draft: &str) -> (r: Vec<String>)
    ensures
        texts(r@) == draft_users(models.records(), draft@),
        r@.len() == 0 ==> forall|i: int|
            0 <= i < models.records().len() ==> option_text(
                (#[trigger] models.records()[i]).draft_model_id,
            ) != Some(draft@),
{
    let ghost all = models.records();
    let ghost p = |m: ModelConfig| option_text(m.draft_model_id) == Some(draft@);
    let ghost f = |m: ModelConfig| m.id@;
    let mut r: Vec<String> = Vec::new();
    let mut i: usize = 0;
    assert(all.take(0).filter(p) =~= Seq::empty()) by {
        reveal(Seq::filter);
    }
    assert(texts(r@) =~= all.take(0).filter(p).map_values(f));
    while i < models.len()
        invariant
            i <= all.len(),
            all == models.records(),
            p == (|m: ModelConfig| option_text(m.draft_model_id) == Some(draft@)),
            f == (|m: ModelConfig| m.id@),
            texts(r@) == all.take(i as int).filter(p).map_values(f),
            r@.len() == 0 ==> forall|j: int|
                0 <= j < i ==> option_text((#[trigger] all[j]).draft_model_id) != Some(draft@),
        decreases all.len() - i,
    {
        proof {
            reveal(Seq::filter);
            assert(all.take(i + 1).drop_last() =~= all.take(i as int));
        }
        let ghost before = r@;
        let m = models.at(i);
        let uses = match &m.draft_model_id {
            Some(b) => same_text(b.as_str(), draft),
            None => false,
        };
        if uses {
            r.push(m.id.clone());
            assert(texts(r@) =~= texts(before).push(m.id@));
            assert(all.take(i + 1).filter(p).map_values(f) =~= all.take(i as int).filter(
                p,
            ).map_values(f).push(m.id@));
        }
        i += 1;
    }
    assert(all.take(i as int) =~= all);
    r
}

/// What is left to do after a model was changed.
#[derive(Debug)]
pub struct ModelUpdate {
    /// Whether what was measured of the model no longer holds.
    pub reset_perf: bool,
    /// The processes to be ended.
    pub signal: Vec<i32>,
}

impl Orchestrator {
    /// Whether `r` and the state after it are what becomes of changing a preset.
    pub open spec fn changes_preset(
        &self,
        after: &Orchestrator,
        preset: BinaryPreset,
        now: u64,
        r: Result<Vec<i32>, MutationError>,
    ) -> bool {
        if !self.data.presets@.dom().contains(preset.id@) {
            r == Err::<Vec<i32>, _>(MutationError::NotFound(preset.id)) && *after
                == *self
        } else {
            let ids = if parts(self.data.presets@[preset.id@].binary@) != parts(
                preset.binary@,
            ) {
                preset_users(self.data.models.records(), preset.id@)
            } else {
                Seq::empty()
            };
            let before = self.run_state();
            &&& r matches Ok(pids) && pids@ == before.signals(
                ids,
                "binary preset changed"@,
                now,
            )
            &&& after.data.presets@ == self.data.presets@.insert(preset.id@, preset)
            &&& after.run_state() == before.stop_all(ids, "binary preset changed"@, now)
            &&& *after == (Orchestrator {
                data: AppData {
                    models: after.data.models,
                    presets: after.data.presets,
                    ..self.data
                },
                process_manager: ProcessManager {
                    instances: after.process_manager.instances,
                    ..self.process_manager
                },
                events: after.events,
                presets_dirty: true,
                dirty: self.dirty || ids.len() > 0,
                ..*self
            })
        }
    }

    /// Changes a preset. Where its binary changes, live models that use it
    /// are stopped; the result names the processes to be ended.
    pub fn update_preset(&mut self, preset: BinaryPreset, now: u64) -> (r: Result<
        Vec<i32>,
        MutationError,
    >)
        requires
            old(self).wf(),
        ensures
            final(self).wf(),
            if !old(self).data.presets@.dom().contains(preset.id@) {
                r == Err::<Vec<i32>, _>(MutationError::NotFound(preset.id)) && *final(self)
                    == *old(self)
            } else {
                let ids = if parts(old(self).data.presets@[preset.id@].binary@) != parts(
                    preset.binary@,
                ) {
                    preset_users(old(self).data.models.records(), preset.id@)
                } else {
                    Seq::empty()
                };
                let before = old(self).run_state();
                &&& r matches Ok(pids) && pids@ == before.signals(
                    ids,
                    "binary preset changed"@,
                    now,
                )
                &&& final(self).data.presets@ == old(self).data.presets@.insert(preset.id@, preset)
                &&& final(self).run_state() == before.stop_all(ids, "binary preset changed"@, now)
                &&& *final(self) == (Orchestrator {
                    data: AppData {
                        models: final(self).data.models,
                        presets: final(self).data.presets,
                        ..old(self).data
                    },
                    process_manager: ProcessManager {
                        instances: final(self).process_manager.instances,
                        ..old(self).process_manager
                    },
                    events: final(self).events,
                    presets_dirty: true,
                    dirty: old(self).dirty || ids.len() > 0,
                    ..*old(self)
                })
            },
            old(self).changes_preset(final(self), preset, now, r),
    {
        let mut ids: Vec<String> = Vec::new();
        match self.data.presets.get(preset.id.as_str()) {
            None => {
                return Err(MutationError::NotFound(preset.id));
            },
            Some(existing) => {
                if !same_path(existing.binary.as_str(), preset.binary.as_str()) {
                    ids = find_preset_users(&self.data.models, preset.id.as_str());
                }
            },
        }
        let ghost all = texts(ids@);
        let ghost why = "binary preset changed"@;
        proof {
            if parts(old(self).data.presets@[preset.id@].binary@) == parts(preset.binary@) {
                assert(all =~= Seq::empty());
            }
        }
        self.data.presets.insert(preset);
        self.presets_dirty = true;
        let ghost mid = *self;
        let ghost before = old(self).run_state();
        let mut pids: Vec<i32> = Vec::new();
        let mut i: usize = 0;
        assert(all.take(0) =~= Seq::empty());
        assert(pids@ =~= before.signals(all.take(0), why, now));
        while i < ids.len()
            invariant
                i <= ids@.len(),
                all == texts(ids@),
                why == "binary preset changed"@,
                self.wf(),
                forall|j: int|
                    0 <= j < ids@.len() ==> self.data.models@.dom().contains((#[trigger] ids@[j])@),
                before == mid.run_state(),
                self.run_state() == before.stop_all(all.take(i as int), why, now),
                pids@ == before.signals(all.take(i as int), why, now),
                self.same_but_run_state(&mid),
                self.dirty == (mid.dirty || i > 0),
            decreases ids@.len() - i,
        {
            assert(all.take(i + 1).drop_last() =~= all.take(i as int));
            assert(all.take(i + 1).last() == ids@[i as int]@);
            let mut more = self.stop_because(ids[i].as_str(), "binary preset changed", now);
            pids.append(&mut more);
            i += 1;
        }
        assert(all.take(i as int) =~= all);
        Ok(pids)
    }

    /// Whether nothing differs but the models, and that they are to be stored.
    pub open spec fn same_but_models(&self, other: &Orchestrator) -> bool {
        *self == (Orchestrator {
            data: AppData { models: self.data.models, ..other.data },
            dirty: true,
            ..*other
        })
    }

    /// Whether `r` and the state after it are what becomes of adding a model.
    pub open spec fn adds(
        &self,
        after: &Orchestrator,
        model: ModelConfig,
        r: Result<(), MutationError>,
    ) -> bool {
        if self.data.models@.dom().contains(model.id@) {
            r == Err::<(), _>(MutationError::Conflict(model.id)) && *after == *self
        } else if drafts_self(model) {
            &&& r == Err::<(), _>(MutationError::InvalidConfig(ConfigError::DraftSelfReference))
            &&& *after == *self
        } else if drafts_unknown(self.data.models@, model) {
            &&& r matches Err(MutationError::InvalidConfig(ConfigError::DraftNotFound { id })) && id@
                == model.draft_model_id->0@
            &&& *after == *self
        } else {
            &&& r == Ok::<(), MutationError>(())
            &&& after.data.models@ == self.data.models@.insert(model.id@, model)
            &&& after.same_but_models(self)
        }
    }

    /// Adds a model.
    pub fn add_model(&mut self, model: ModelConfig) -> (r: Result<(), MutationError>)
        requires
            old(self).wf(),
        ensures
            final(self).wf(),
            old(self).adds(final(self), model, r),
            old(self).data.targets_known() ==> final(self).data.targets_known(),
            old(self).data.drafts_known() ==> final(self).data.drafts_known(),
    {
        if self.data.models.contains(model.id.as_str()) {
            return Err(MutationError::Conflict(model.id));
        }
        match validate_draft(&self.data.models, &model) {
            Err(e) => {
                return Err(e);
            },
            Ok(_) => {},
        }
        self.data.models.insert(model);
        self.dirty = true;
        Ok(())
    }

    /// Whether `r` and the state after it are what becomes of changing a model.
    pub open spec fn updates(
        &self,
        after: &Orchestrator,
        new: ModelConfig,
        now: u64,
        r: Result<ModelUpdate, MutationError>,
    ) -> bool {
        if drafts_self(new) {
            &&& r == Err::<ModelUpdate, _>(
                MutationError::InvalidConfig(ConfigError::DraftSelfReference),
            )
            &&& *after == *self
        } else if drafts_unknown(self.data.models@, new) {
            &&& r matches Err(MutationError::InvalidConfig(ConfigError::DraftNotFound { id }))
                && id@ == new.draft_model_id->0@
            &&& *after == *self
        } else if !self.data.models@.dom().contains(new.id@) {
            &&& r == Err::<ModelUpdate, _>(MutationError::NotFound(new.id))
            &&& *after == *self
        } else {
            let existing = self.data.models@[new.id@];
            let before = self.run_state();
            let changed = RunState {
                models: before.models.insert(new.id@, updated_model(existing, new)),
                ..before
            };
            let stops = existing.state.live() && spawn_changes(&existing, &new);
            &&& r matches Ok(u)
            &&& u.reset_perf == spawn_changes(&existing, &new)
            &&& u.signal@ == (if stops {
                started_pids(before.instances, new.id@)
            } else {
                Seq::empty()
            })
            &&& after.run_state() == (if stops {
                changed.stop_because(new.id@, "configuration changed"@, now)
            } else {
                changed
            })
            &&& after.same_but_run_state(self)
            &&& after.dirty
        }
    }

    /// Changes a model. What is known of the running model is kept. A live
    /// model whose process would now be started differently is stopped.
    pub fn update_model(&mut self, new: ModelConfig, now: u64) -> (r: Result<
        ModelUpdate,
        MutationError,
    >)
        requires
            old(self).wf(),
        ensures
            final(self).wf(),
            if drafts_self(new) {
                &&& r == Err::<ModelUpdate, _>(
                    MutationError::InvalidConfig(ConfigError::DraftSelfReference),
                )
                &&& *final(self) == *old(self)
            } else if drafts_unknown(old(self).data.models@, new) {
                &&& r matches Err(MutationError::InvalidConfig(ConfigError::DraftNotFound { id }))
                    && id@ == new.draft_model_id->0@
                &&& *final(self) == *old(self)
            } else if !old(self).data.models@.dom().contains(new.id@) {
                &&& r == Err::<ModelUpdate, _>(MutationError::NotFound(new.id))
                &&& *final(self) == *old(self)
            } else {
                let existing = old(self).data.models@[new.id@];
                let before = old(self).run_state();
                let changed = RunState {
                    models: before.models.insert(new.id@, updated_model(existing, new)),
                    ..before
                };
                let stops = existing.state.live() && spawn_changes(&existing, &new);
                &&& r matches Ok(u)
                &&& u.reset_perf == spawn_changes(&existing, &new)
                &&& u.signal@ == (if stops {
                    started_pids(before.instances, new.id@)
                } else {
                    Seq::empty()
                })
                &&& final(self).run_state() == (if stops {
                    changed.stop_because(new.id@, "configuration changed"@, now)
                } else {
                    changed
                })
                &&& final(self).same_but_run_state(old(self))
                &&& final(self).dirty
            },
            old(self).updates(final(self), new, now, r),
            old(self).data.targets_known() ==> final(self).data.targets_known(),
            old(self).data.drafts_known() ==> final(self).data.drafts_known(),
    {
        match validate_draft(&self.data.models, &new) {
            Err(e) => {
                return Err(e);
            },
            Ok(_) => {},
        }
        let (at, config_changed, stop_after) = match self.data.models.find(new.id.as_str()) {
            None => {
                return Err(MutationError::NotFound(new.id));
            },
            Some(i) => {
                let existing = self.data.models.at(i);
                let changed = spawn_config_changed(existing, &new);
                (i, changed, existing.state.is_live() && changed)
            },
        };
        let id = new.id.clone();
        let ghost existing = self.data.models@[new.id@];
        let ghost given = new;
        let mut updated = new;
        {
            let existing = self.data.models.at(at);
            let void = !same_path(existing.model_path.as_str(), updated.model_path.as_str())
                || existing.context
                != updated.context || existing.cache_type_k != updated.cache_type_k
                || existing.cache_type_v != updated.cache_type_v;
            if void {
                updated.estimated_vram = 0;
            } else {
                updated.estimated_vram = existing.estimated_vram;
            }
            updated.state = existing.state.clone();
            updated.pid = existing.pid;
            updated.last_used = existing.last_used;
        }
        assert(updated == updated_model(existing, given));
        self.data.models.set(at, updated);
        self.dirty = true;
        let mut signal: Vec<i32> = Vec::new();
        if stop_after {
            signal = self.stop_because(id.as_str(), "configuration changed", now);
        }
        Ok(ModelUpdate { reset_perf: config_changed, signal })
    }

    /// Whether `r` and the state after it are what becomes of removing a model.
    pub open spec fn removes(
        &self,
        after: &Orchestrator,
        id: Seq<char>,
        now: u64,
        r: Result<Vec<i32>, MutationError>,
    ) -> bool {
        if !self.data.models@.dom().contains(id) {
            &&& r matches Err(MutationError::NotFound(what)) && what@ == id
            &&& *after == *self
        } else if draft_users(self.data.models.records(), id).len() > 0 {
            &&& r matches Err(MutationError::DraftInUse { id: what, targets })
            &&& what@ == id
            &&& texts(targets@) == draft_users(self.data.models.records(), id)
            &&& *after == *self
        } else {
            let before = self.run_state();
            let stopped = before.stop(id, now);
            &&& r matches Ok(pids) && pids@ == started_pids(before.instances, id)
            &&& after.run_state() == (RunState {
                models: stopped.models.remove(id),
                instances: stopped.instances.filter(|i: InstanceInfo| !serves(i, id)),
                ..stopped
            })
            &&& unassigned(self.data.aliases@, after.data.aliases@, id)
            &&& *after == (Orchestrator {
                data: AppData {
                    models: after.data.models,
                    aliases: after.data.aliases,
                    ..self.data
                },
                process_manager: ProcessManager {
                    instances: after.process_manager.instances,
                    ..self.process_manager
                },
                events: after.events,
                dirty: true,
                aliases_dirty: self.aliases_dirty || is_target(self.data.aliases@, id),
                ..*self
            })
        }
    }

    /// Removes a model, and stops it before. Aliases that led to it stay,
    /// unassigned. A model that another uses as its draft is not removed.
    pub fn remove_model(&mut self, id: &str, now: u64) -> (r: Result<Vec<i32>, MutationError>)
        requires
            old(self).wf(),
        ensures
            final(self).wf(),
            old(self).removes(final(self), id@, now, r),
            acyclic(old(self).data.aliases@) ==> acyclic(final(self).data.aliases@),
            old(self).data.targets_known() ==> final(self).data.targets_known(),
            old(self).data.drafts_known() ==> final(self).data.drafts_known(),
    {
        let ghost aliases = self.data.aliases@;
        let ghost models = self.data.models@;
        let ghost records = self.data.models.records();
        if !self.data.models.contains(id) {
            return Err(MutationError::NotFound(id.to_owned()));
        }
        let users = find_draft_users(&self.data.models, id);
        assert(texts(users@).len() == users@.len());
        if users.len() > 0 {
            return Err(MutationError::DraftInUse { id: id.to_owned(), targets: users });
        }
        let pids = match self.stop_model(id, now) {
            Ok(pids) => pids,
            Err(_) => {
                assert(false);
                Vec::new()
            },
        };
        self.process_manager.drop_model(id);
        self.data.models.remove(id);
        if unassign(&mut self.data.aliases, id) {
            self.aliases_dirty = true;
        }
        self.dirty = true;
        proof {
            let after = self.data.aliases@;
            assert forall|x: Seq<char>| #[trigger] leads_on(after, x) implies leads_on(aliases, x)
                && aliases[x].target@ == after[x].target@ by {
                assert(aliases.dom().contains(x));
            }
            if acyclic(aliases) {
                lemma_fewer_links(aliases, after);
            }
            if old(self).data.targets_known() {
                assert forall|a: Seq<char>| #[trigger]
                    after.dom().contains(a) && after[a].target@.len()
                        > 0 implies self.data.models@.dom().contains(after[a].target@)
                    || after.dom().contains(after[a].target@) by {
                    assert(aliases.dom().contains(a));
                }
            }
            if old(self).data.drafts_known() {
                assert forall|k: Seq<char>| #[trigger]
                    self.data.models@.dom().contains(k) implies draft_known(
                    self.data.models@,
                    self.data.models@[k],
                    k,
                ) by {
                    assert(models.dom().contains(k));
                    assert(draft_known(models, models[k], k));
                    let p = crate::table::position_of(records, k);
                    assert(crate::table::has_key(records, k));
                    assert(records[p].key() == k);
                    assert(option_text(records[p].draft_model_id) != Some(id@));
                }
            }
        }
        Ok(pids)
    }
}

// ----- laws -----

/// Stopping a model leaves every other model and its instances alone, and
/// leaves no process of it that was started here.
pub proof fn law_stopping_touches_one_model(s: RunState, id: Seq<char>, now: u64, other: Seq<char>)
    requires
        other != id,
    ensures
        s.models.dom().contains(other) ==> s.stop(id, now).models.dom().contains(other)
            && s.stop(id, now).models[other] == s.models[other],
        forall|i: InstanceInfo|
            serves(i, other) ==> (#[trigger] s.stop(id, now).instances.contains(i)
                <==> s.instances.contains(i)),
        forall|i: InstanceInfo| #[trigger]
            s.stop(id, now).instances.contains(i) ==> !(serves(i, id) && i.started_here),
{
    let p = |i: InstanceInfo| !(serves(i, id) && i.started_here);
    let after = s.stop(id, now).instances;
    assert(after == s.instances.filter(p));
    assert forall|i: InstanceInfo| serves(i, other) implies (#[trigger] after.contains(i)
        <==> s.instances.contains(i)) by {
        lemma_filter_contains(s.instances, p, i);
    }
    assert forall|i: InstanceInfo| #[trigger] after.contains(i) implies !(serves(i, id)
        && i.started_here) by {
        lemma_filter_contains(s.instances, p, i);
    }
}

proof fn lemma_filter_contains(s: Seq<InstanceInfo>, p: spec_fn(InstanceInfo) -> bool, x: InstanceInfo)
    ensures
        s.filter(p).contains(x) <==> s.contains(x) && p(x),
    decreases s.len(),
{
    reveal(Seq::filter);
    if s.len() > 0 {
        let front = s.drop_last();
        lemma_filter_contains(front, p, x);
        assert(s =~= front.push(s.last()));
        let f = front.filter(p);
        if p(s.last()) {
            assert(s.filter(p) == f.push(s.last()));
            assert(f.push(s.last()).contains(x) <==> f.contains(x) || x == s.last()) by {
                if f.contains(x) {
                    let k = f.index_of(x);
                    assert(f.push(s.last())[k] == x);
                }
                if x == s.last() {
                    assert(f.push(s.last())[f.len() as int] == x);
                }
            }
        }
        assert(s.contains(x) <==> front.contains(x) || x == s.last()) by {
            if front.contains(x) {
                let k = front.index_of(x);
                assert(s[k] == x);
            }
            if x == s.last() {
                assert(s[s.len() - 1] == x);
            }
            if s.contains(x) {
                let k = s.index_of(x);
                if k < front.len() {
                    assert(front[k] == x);
                }
            }
        }
    }
}

} // verus!
