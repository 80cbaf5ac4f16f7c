//! Models, presets and aliases, and what is known of the processes behind
//! them.
use vstd::prelude::*;
use vstd::string::*;

use crate::config::alias::ModelAlias;
use crate::config::gpu_tags::GpuTagOverride;
use crate::config::migrate::{
    near_views, number_views, settings_change, with_mtp_default, with_settings,
};
use crate::config::model::{ModelConfig, ModelState, Number};
use crate::config::preset::BinaryPreset;
use crate::config::settings::{AppSettings, AppSettingsView, EnvVars};
use crate::orchestrator::aliases::{resolve_alias_chain, resolved_name};
use crate::order::{lemma_sorted_alike, sort_stable, sorted_by, text_le, text_leq};
use crate::process::manager::{parse_port_range, range_of, ProcessManager};
use crate::table::{last_by_key, lemma_update, Keyed, Table};
use crate::text::{parse_unsigned, unsigned_up_to};
use crate::vram::tracker::GpuInfo;

verus! {

broadcast use vstd::string::group_string_axioms;

/// How large a request body may be where nothing is set.
pub const DEFAULT_MAX_BODY_BYTES: usize = 1073741824;

/// How many instances a model may have where nothing is set: as many as there
/// is memory for.
pub const DEFAULT_MAX_INSTANCES_PER_MODEL: usize = usize::MAX;

/// How long a load waits for memory where nothing is set.
pub const DEFAULT_VRAM_WAIT_MS: u64 = 300000;

/// How many events are kept.
pub const MAX_EVENTS: usize = 200;

/// Models, GPUs, presets and aliases.
pub struct AppData {
    pub models: Table<ModelConfig>,
    pub gpus: Vec<GpuInfo>,
    pub presets: Table<BinaryPreset>,
    pub aliases: Table<ModelAlias>,
}

/// How important an event is.
#[derive(Debug, Clone, Copy, PartialEq, Eq, Structural)]
pub enum EventLevel {
    Info,
    Warn,
    Error,
}

impl EventLevel {
    /// The name of the level.
    pub open spec fn name(&self) -> Seq<char> {
        match self {
            EventLevel::Info => "info"@,
            EventLevel::Warn => "warn"@,
            EventLevel::Error => "error"@,
        }
    }

    /// The name of the level.
    pub fn as_str(&self) -> (r: &'static str)
        ensures
            r@ == self.name(),
    {
        match self {
            EventLevel::Info => "info",
            EventLevel::Warn => "warn",
            EventLevel::Error => "error",
        }
    }
}

/// Something that happened.
#[derive(Debug)]
pub struct AppEvent {
    /// Microseconds since the epoch.
    pub ts: u64,
    pub level: EventLevel,
    pub message: String,
}

/// The mathematical content of an `AppEvent`.
pub struct EventView {
    pub ts: u64,
    pub level: EventLevel,
    pub message: Seq<char>,
}

impl View for AppEvent {
    type V = EventView;

    open spec fn view(&self) -> EventView {
        EventView { ts: self.ts, level: self.level, message: self.message@ }
    }
}

impl Clone for AppEvent {
    fn clone(&self) -> (r: Self)
        ensures
            r == *self,
    {
        AppEvent { ts: self.ts, level: self.level, message: self.message.clone() }
    }
}

/// The events as values.
pub open spec fn event_views(s: Seq<AppEvent>) -> Seq<EventView> {
    s.map_values(|e: AppEvent| e@)
}

/// The events with one more before them; the oldest beyond the limit are lost.
pub open spec fn noted(s: Seq<EventView>, e: EventView) -> Seq<EventView> {
    let all = seq![e] + s;
    if all.len() > MAX_EVENTS {
        all.take(MAX_EVENTS as int)
    } else {
        all
    }
}

/// A model as it was stored, with the numbers that its raw arguments denote.
pub struct StoredModel {
    pub model: ModelConfig,
    /// For each raw argument the number that it denotes, if it denotes one.
    pub numbers: Vec<Option<Number>>,
    /// Pairs of numbers that lie within the tolerance of a penalty.
    pub near: Vec<(Number, Number)>,
}

/// The controller of everything.
pub struct Orchestrator {
    pub data: AppData,
    pub process_manager: ProcessManager,
    /// Memory promised to processes that do not hold it yet.
    pub reserved_vram: u64,
    /// What the operator set for single GPUs, where that is stored.
    pub gpu_tags: Option<Vec<GpuTagOverride>>,
    pub settings: AppSettings,
    /// Whether settings are stored.
    pub stores_settings: bool,
    /// What has changed since it was last stored.
    pub dirty: bool,
    pub presets_dirty: bool,
    pub aliases_dirty: bool,
    pub settings_dirty: bool,
    pub server_port: u16,
    pub max_body_bytes: usize,
    pub max_instances_per_model: usize,
    pub vram_wait_ms: u64,
    /// Newest first.
    pub events: Vec<AppEvent>,
}

impl AppData {
    /// Names are distinct within each table.
    pub open spec fn wf(&self) -> bool {
        &&& self.models.wf()
        &&& self.presets.wf()
        &&& self.aliases.wf()
    }

    /// Every assigned alias leads to a model or to another alias.
    pub open spec fn targets_known(&self) -> bool {
        forall|a: Seq<char>| #[trigger]
            self.aliases@.dom().contains(a) && self.aliases@[a].target@.len() > 0
                ==> self.models@.dom().contains(self.aliases@[a].target@)
                || self.aliases@.dom().contains(self.aliases@[a].target@)
    }

    /// Every draft that a model refers to is another model.
    pub open spec fn drafts_known(&self) -> bool {
        forall|id: Seq<char>| #[trigger]
            self.models@.dom().contains(id) ==> draft_known(self.models@, self.models@[id], id)
    }
}

/// Whether the draft that a model refers to is another model.
pub open spec fn draft_known(
    models: Map<Seq<char>, ModelConfig>,
    m: ModelConfig,
    id: Seq<char>,
) -> bool {
    match m.draft_model_id {
        Some(d) => d@ != id && models.dom().contains(d@),
        None => true,
    }
}

/// The models with one in another state.
pub open spec fn with_state(
    m: Map<Seq<char>, ModelConfig>,
    id: Seq<char>,
    state: ModelState,
    pid: Option<i32>,
) -> Map<Seq<char>, ModelConfig> {
    if m.dom().contains(id) {
        m.insert(id, ModelConfig { state, pid, ..m[id] })
    } else {
        m
    }
}

/// Puts a model into another state.
pub(crate) fn put_state(
    models: &mut Table<ModelConfig>,
    id: &str,
    state: ModelState,
    pid: Option<i32>,
)
    requires
        old(models).wf(),
    ensures
        final(models).wf(),
        final(models)@ == with_state(old(models)@, id@, state, pid),
{
    let ghost before = models.records();
    let ghost st = state;
    match models.find(id) {
        Some(i) => {
            let m = models.at_mut(i);
            m.state = state;
            m.pid = pid;
            proof {
                lemma_update(
                    before,
                    i as int,
                    ModelConfig { state: st, pid, ..before[i as int] },
                );
            }
        },
        None => {},
    }
}

/// A model as it is taken over at start-up: what was running no longer is.
pub open spec fn without_stale_state(m: ModelConfig) -> ModelConfig {
    if m.state.live() {
        ModelConfig { state: ModelState::Idle, pid: None, ..m }
    } else {
        m
    }
}

/// Whether `m` is the stored model with its raw arguments read.
pub open spec fn migrated(m: ModelConfig, stored: StoredModel) -> bool {
    &&& m.same_but_structured(&stored.model)
    &&& m.structured() == with_mtp_default(
        with_settings(
            stored.model.structured(),
            stored.model.raw_settings(number_views(stored.numbers@)),
            near_views(stored.near@),
        ),
        stored.model.drafts_itself(),
    )
}

/// Whether reading the raw arguments changes the stored model.
pub open spec fn migration_changes(stored: StoredModel) -> bool {
    let raw = stored.model.raw_settings(number_views(stored.numbers@));
    let near = near_views(stored.near@);
    settings_change(stored.model.structured(), raw, near) || (stored.model.drafts_itself()
        && with_settings(stored.model.structured(), raw, near).mtp_tokens is None)
}

/// Whether `m` is what the stored model is taken over as.
pub open spec fn taken_over(m: ModelConfig, stored: StoredModel) -> bool {
    exists|x: ModelConfig| #[trigger] migrated(x, stored) && m == without_stale_state(x)
}

/// A plain number in a variable.
pub open spec fn plain_number(env: &EnvVars, name: Seq<char>, max: nat) -> Option<nat> {
    match env.value(name) {
        Some(s) => unsigned_up_to(s, max),
        None => None,
    }
}

fn read_plain_number(env: &EnvVars, name: &str, max: u64) -> (r: Option<u64>)
    ensures
        match plain_number(env, name@, max as nat) {
            Some(n) => r == Some(n as u64),
            None => r is None,
        },
        r is Some ==> r->0 <= max,
{
    match env.get(name) {
        Some(s) => parse_unsigned(s.as_str(), max),
        None => None,
    }
}

/// The ports that the environment sets aside for processes.
pub open spec fn ports_set_aside(env: &EnvVars) -> Option<(nat, nat)> {
    match env.value("INFERENCE_ROUTER_BACKEND_PORT_RANGE"@) {
        Some(s) => range_of(s),
        None => None,
    }
}

/// The order of names.
pub open spec fn by_name<T: Keyed>() -> spec_fn(T, T) -> bool {
    |a: T, b: T| text_leq(a.key(), b.key())
}

impl Orchestrator {
    /// Every table and the process list is in order.
    pub open spec fn wf(&self) -> bool {
        &&& self.data.wf()
        &&& self.process_manager.wf()
        &&& self.events@.len() <= MAX_EVENTS
        &&& self.max_instances_per_model >= 1
    }

    /// A controller for what was stored, with settings from the environment
    /// that are not stored.
    pub fn new(
        models: Vec<StoredModel>,
        presets: Vec<BinaryPreset>,
        aliases: Vec<ModelAlias>,
        env: &EnvVars,
        server_port: u16,
    ) -> (r: Orchestrator)
        requires
            forall|i: int|
                0 <= i < models@.len() ==> (#[trigger] models@[i]).numbers@.len()
                    == models@[i].model.extra_args@.len(),
        ensures
            r.fresh(models@, presets@, aliases@, env, server_port),
            r.gpu_tags is None,
            !r.stores_settings,
            r.settings@ == AppSettingsView::asked(env),
    {
        let settings = AppSettings::from_env(env);
        Self::new_inner(models, presets, aliases, None, false, settings, env, server_port)
    }

    /// A controller for what was stored.
    pub fn new_with_settings_store(
        models: Vec<StoredModel>,
        presets: Vec<BinaryPreset>,
        aliases: Vec<ModelAlias>,
        settings: AppSettings,
        gpu_tags: Vec<GpuTagOverride>,
        env: &EnvVars,
        server_port: u16,
    ) -> (r: Orchestrator)
        requires
            forall|i: int|
                0 <= i < models@.len() ==> (#[trigger] models@[i]).numbers@.len()
                    == models@[i].model.extra_args@.len(),
        ensures
            r.fresh(models@, presets@, aliases@, env, server_port),
            r.gpu_tags == Some(gpu_tags),
            r.stores_settings,
            r.settings@ == settings@.clean(),
    {
        let settings = settings.sanitized();
        Self::new_inner(models, presets, aliases, Some(gpu_tags), true, settings, env, server_port)
    }

    /// What every new controller starts with.
    pub open spec fn fresh(
        &self,
        models: Seq<StoredModel>,
        presets: Seq<BinaryPreset>,
        aliases: Seq<ModelAlias>,
        env: &EnvVars,
        server_port: u16,
    ) -> bool {
        &&& self.wf()
        &&& exists|loaded: Seq<ModelConfig>|
            {
                &&& #[trigger] last_by_key(loaded) == self.data.models@
                &&& loaded.len() == models.len()
                &&& forall|i: int|
                    0 <= i < models.len() ==> taken_over(#[trigger] loaded[i], models[i])
            }
        &&& self.data.presets@ == last_by_key(presets)
        &&& self.data.aliases@ == last_by_key(aliases)
        &&& self.data.gpus@.len() == 0
        &&& self.process_manager.instances@.len() == 0
        &&& self.process_manager.pending@.len() == 0
        &&& match ports_set_aside(env) {
            Some(p) => self.process_manager.backend_port_range == Some((p.0 as u16, p.1 as u16)),
            None => self.process_manager.backend_port_range is None,
        }
        &&& self.reserved_vram == 0
        &&& self.dirty == exists|i: int|
            0 <= i < models.len() && migration_changes(#[trigger] models[i])
        &&& !self.presets_dirty
        &&& !self.aliases_dirty
        &&& !self.settings_dirty
        &&& self.server_port == server_port
        &&& self.max_body_bytes == (match plain_number(
            env,
            "INFERENCE_ROUTER_MAX_BODY_BYTES"@,
            usize::MAX as nat,
        ) {
            Some(n) => n,
            None => DEFAULT_MAX_BODY_BYTES as nat,
        })
        &&& self.max_instances_per_model == (match plain_number(
            env,
            "INFERENCE_ROUTER_MAX_INSTANCES_PER_MODEL"@,
            usize::MAX as nat,
        ) {
            Some(n) => if n >= 1 {
                n
            } else {
                1
            },
            None => DEFAULT_MAX_INSTANCES_PER_MODEL as nat,
        })
        &&& self.vram_wait_ms == (match plain_number(
            env,
            "INFERENCE_ROUTER_VRAM_WAIT_MS"@,
            u64::MAX as nat,
        ) {
            Some(n) => n,
            None => DEFAULT_VRAM_WAIT_MS as nat,
        })
        &&& self.events@.len() == 0
    }

    fn take_over(models: Vec<StoredModel>) -> (r: (Vec<ModelConfig>, bool))
        requires
            forall|i: int|
                0 <= i < models@.len() ==> (#[trigger] models@[i]).numbers@.len()
                    == models@[i].model.extra_args@.len(),
        ensures
            r.0@.len() == models@.len(),
            forall|i: int| 0 <= i < models@.len() ==> taken_over(#[trigger] r.0@[i], models@[i]),
            r.1 == exists|i: int| 0 <= i < models@.len() && migration_changes(#[trigger] models@[i]),
    {
        let ghost all = models@;
        let mut loaded: Vec<ModelConfig> = Vec::new();
        let mut changed = false;
        for stored in it: models
            invariant
                it.seq() == all,
                forall|i: int|
                    0 <= i < all.len() ==> (#[trigger] all[i]).numbers@.len()
                        == all[i].model.extra_args@.len(),
                loaded@.len() == it.index(),
                forall|i: int|
                    0 <= i < it.index() ==> taken_over(#[trigger] loaded@[i], all[i]),
                changed == exists|i: int|
                    0 <= i < it.index() && migration_changes(#[trigger] all[i]),
        {
            let ghost at = it.index() as int;
            let ghost before = loaded@;
            assert(all[at] == stored);
            let mut m = stored.model;
            if m.migrate_extra_args(&stored.numbers, &stored.near) {
                changed = true;
                assert(migration_changes(all[at]));
            }
            let ghost mid = m;
            assert(migrated(mid, all[at]));
            if m.state.is_live() {
                m.state = ModelState::Idle;
                m.pid = None;
            }
            assert(m == without_stale_state(mid));
            loaded.push(m);
            assert(taken_over(loaded@[at], all[at]));
            assert forall|i: int| 0 <= i < at + 1 implies taken_over(
                #[trigger] loaded@[i],
                all[i],
            ) by {
                if i < at {
                    assert(loaded@[i] == before[i]);
                }
            }
        }
        (loaded, changed)
    }

    fn new_inner(
        models: Vec<StoredModel>,
        presets: Vec<BinaryPreset>,
        aliases: Vec<ModelAlias>,
        gpu_tags: Option<Vec<GpuTagOverride>>,
        stores_settings: bool,
        settings: AppSettings,
        env: &EnvVars,
        server_port: u16,
    ) -> (r: Orchestrator)
        requires
            forall|i: int|
                0 <= i < models@.len() ==> (#[trigger] models@[i]).numbers@.len()
                    == models@[i].model.extra_args@.len(),
        ensures
            r.fresh(models@, presets@, aliases@, env, server_port),
            r.gpu_tags == gpu_tags,
            r.stores_settings == stores_settings,
            r.settings == settings,
    {
        let max_body_bytes: usize = match read_plain_number(
            env,
            "INFERENCE_ROUTER_MAX_BODY_BYTES",
            usize::MAX as u64,
        ) {
            Some(n) => n as usize,
            None => DEFAULT_MAX_BODY_BYTES,
        };
        let max_instances_per_model: usize = match read_plain_number(
            env,
            "INFERENCE_ROUTER_MAX_INSTANCES_PER_MODEL",
            usize::MAX as u64,
        ) {
            Some(n) => if n >= 1 {
                n as usize
            } else {
                1
            },
            None => DEFAULT_MAX_INSTANCES_PER_MODEL,
        };
        let vram_wait_ms: u64 = match read_plain_number(
            env,
            "INFERENCE_ROUTER_VRAM_WAIT_MS",
            u64::MAX,
        ) {
            Some(n) => n,
            None => DEFAULT_VRAM_WAIT_MS,
        };
        let ports = match env.get("INFERENCE_ROUTER_BACKEND_PORT_RANGE") {
            Some(s) => parse_port_range(s.as_str()),
            None => None,
        };
        let (loaded, changed) = Self::take_over(models);
        let ghost l = loaded@;
        let table = Table::from_list(loaded);
        assert(last_by_key(l) == table@);
        Orchestrator {
            data: AppData {
                models: table,
                gpus: Vec::new(),
                presets: Table::from_list(presets),
                aliases: Table::from_list(aliases),
            },
            process_manager: ProcessManager::new(ports),
            reserved_vram: 0,
            gpu_tags,
            settings,
            stores_settings,
            dirty: changed,
            presets_dirty: false,
            aliases_dirty: false,
            settings_dirty: false,
            server_port,
            max_body_bytes,
            max_instances_per_model,
            vram_wait_ms,
            events: Vec::new(),
        }
    }

    // ----- events -----

    /// Notes that something happened.
    pub fn record_event(&mut self, level: EventLevel, message: String, now: u64)
        requires
            old(self).wf(),
        ensures
            final(self).wf(),
            event_views(final(self).events@) == noted(
                event_views(old(self).events@),
                EventView { ts: now, level, message: message@ },
            ),
            *final(self) == (Orchestrator { events: final(self).events, ..*old(self) }),
    {
        let ghost before = self.events@;
        let e = AppEvent { ts: now, level, message };
        let ghost ev = e;
        self.events.insert(0, e);
        if self.events.len() > MAX_EVENTS {
            self.events.truncate(MAX_EVENTS);
        }
        assert(event_views(self.events@) =~= noted(event_views(before), ev@));
    }

    /// The events, newest first.
    pub fn recent_events(&self) -> (r: Vec<AppEvent>)
        ensures
            r@ == self.events@,
    {
        let r = self.events.clone();
        assert(r@ =~= self.events@);
        r
    }

    // ----- lists -----

    /// The models in the order of their ids.
    pub fn list_models(&self) -> (r: Vec<ModelConfig>)
        ensures
            r@.len() == self.data.models.records().len(),
            forall|i: int|
                0 <= i < r@.len() ==> (#[trigger] r@[i]).like(
                    &sorted_by(self.data.models.records(), by_name())[i],
                ),
    {
        let ghost all = self.data.models.records();
        let mut copies: Vec<ModelConfig> = Vec::new();
        let mut i: usize = 0;
        while i < self.data.models.len()
            invariant
                i <= all.len(),
                all == self.data.models.records(),
                copies@.len() == i,
                forall|j: int| 0 <= j < i ==> (#[trigger] copies@[j]).like(&all[j]),
            decreases all.len() - i,
        {
            copies.push(self.data.models.at(i).clone());
            i += 1;
        }
        let le = |a: &ModelConfig, b: &ModelConfig| -> (c: bool)
            ensures
                c == by_name()(*a, *b),
            { text_le(a.id.as_str(), b.id.as_str()) };
        proof {
            let alike = |a: ModelConfig, b: ModelConfig| a.like(&b);
            assert forall|j: int| 0 <= j < copies@.len() implies alike(
                #[trigger] copies@[j],
                all[j],
            ) by {
                assert(copies@[j].like(&all[j]));
            }
            lemma_sorted_alike(copies@, all, by_name(), alike);
            assert forall|j: int| 0 <= j < all.len() implies (#[trigger] sorted_by(
                copies@,
                by_name(),
            )[j]).like(&sorted_by(all, by_name())[j]) by {
                assert(alike(sorted_by(copies@, by_name())[j], sorted_by(all, by_name())[j]));
            }
        }
        sort_stable(copies, le, Ghost(by_name()))
    }

    /// The presets in the order of their ids.
    pub fn list_presets(&self) -> (r: Vec<BinaryPreset>)
        ensures
            r@.len() == self.data.presets.records().len(),
            forall|i: int|
                0 <= i < r@.len() ==> (#[trigger] r@[i]).like(
                    &sorted_by(self.data.presets.records(), by_name())[i],
                ),
    {
        let ghost all = self.data.presets.records();
        let mut copies: Vec<BinaryPreset> = Vec::new();
        let mut i: usize = 0;
        while i < self.data.presets.len()
            invariant
                i <= all.len(),
                all == self.data.presets.records(),
                copies@.len() == i,
                forall|j: int| 0 <= j < i ==> (#[trigger] copies@[j]).like(&all[j]),
            decreases all.len() - i,
        {
            copies.push(self.data.presets.at(i).clone());
            i += 1;
        }
        let le = |a: &BinaryPreset, b: &BinaryPreset| -> (c: bool)
            ensures
                c == by_name()(*a, *b),
            { text_le(a.id.as_str(), b.id.as_str()) };
        proof {
            let alike = |a: BinaryPreset, b: BinaryPreset| a.like(&b);
            assert forall|j: int| 0 <= j < copies@.len() implies alike(
                #[trigger] copies@[j],
                all[j],
            ) by {
                assert(copies@[j].like(&all[j]));
            }
            lemma_sorted_alike(copies@, all, by_name(), alike);
            assert forall|j: int| 0 <= j < all.len() implies (#[trigger] sorted_by(
                copies@,
                by_name(),
            )[j]).like(&sorted_by(all, by_name())[j]) by {
                assert(alike(sorted_by(copies@, by_name())[j], sorted_by(all, by_name())[j]));
            }
        }
        sort_stable(copies, le, Ghost(by_name()))
    }

    /// The aliases in the order of their names.
    pub fn list_aliases(&self) -> (r: Vec<ModelAlias>)
        ensures
            r@ == sorted_by(self.data.aliases.records(), by_name()),
    {
        let ghost all = self.data.aliases.records();
        let mut copies: Vec<ModelAlias> = Vec::new();
        let mut i: usize = 0;
        while i < self.data.aliases.len()
            invariant
                i <= all.len(),
                all == self.data.aliases.records(),
                copies@ == all.take(i as int),
            decreases all.len() - i,
        {
            copies.push(self.data.aliases.at(i).clone());
            assert(all.take(i + 1) =~= all.take(i as int).push(all[i as int]));
            i += 1;
        }
        assert(all.take(i as int) =~= all);
        let le = |a: &ModelAlias, b: &ModelAlias| -> (c: bool)
            ensures
                c == by_name()(*a, *b),
            { text_le(a.alias.as_str(), b.alias.as_str()) };
        sort_stable(copies, le, Ghost(by_name()))
    }

    /// The model that a requested name stands for.
    pub fn resolve_model_id(&self, name: &str) -> (r: String)
        requires
            self.wf(),
        ensures
            r@ == resolved_name(self.data.aliases@, name@),
    {
        resolve_alias_chain(&self.data.aliases, name)
    }

    /// Takes over what is known of the GPUs.
    pub fn set_gpus(&mut self, gpus: Vec<GpuInfo>)
        requires
            old(self).wf(),
        ensures
            final(self).wf(),
            *final(self) == (Orchestrator { data: AppData { gpus, ..old(self).data }, ..*old(self)
            }),
    {
        self.data.gpus = gpus;
    }

    // ----- use -----

    /// Whether `after` is the state once the use of a model was noted. A name
    /// that stands for no model changes nothing.
    pub open spec fn notes_use(&self, after: &Orchestrator, id: Seq<char>, now: u64) -> bool {
        if self.data.models@.dom().contains(id) {
            &&& after.data.models@ == self.data.models@.insert(
                id,
                ModelConfig { last_used: Some(now), ..self.data.models@[id] },
            )
            &&& *after == (Orchestrator {
                data: AppData { models: after.data.models, ..self.data },
                dirty: true,
                ..*self
            })
        } else {
            *after == *self
        }
    }

    /// Notes that a model was used.
    pub fn mark_used(&mut self, id: &str, now: u64)
        requires
            old(self).wf(),
        ensures
            final(self).wf(),
            old(self).notes_use(final(self), id@, now),
    {
        let ghost before = self.data.models.records();
        match self.data.models.find(id) {
            Some(i) => {
                let m = self.data.models.at_mut(i);
                m.last_used = Some(now);
                proof {
                    lemma_update(
                        before,
                        i as int,
                        ModelConfig { last_used: Some(now), ..before[i as int] },
                    );
                }
                self.dirty = true;
            },
            None => {},
        }
    }

    // ----- settings -----

    /// The settings.
    pub fn settings(&self) -> (r: AppSettings)
        ensures
            r == self.settings,
    {
        self.settings.clone()
    }

    /// Replaces the settings, with every value made admissible.
    pub fn update_settings(&mut self, settings: AppSettings)
        requires
            old(self).wf(),
        ensures
            final(self).wf(),
            final(self).settings@ == settings@.clean(),
            *final(self) == (Orchestrator {
                settings: final(self).settings,
                settings_dirty: true,
                ..*old(self)
            }),
    {
        self.settings = settings.sanitized();
        self.settings_dirty = true;
    }
}

} // verus!
