//! Application settings.
use vstd::prelude::*;
use vstd::string::*;

use crate::text::{
    blank, is_blank, lower, parse_unsigned, same_text, to_lower, trim, trim_text, unsigned_up_to,
};

verus! {

broadcast use vstd::string::group_string_axioms;

/// Environment variables, as read at start-up.
pub struct EnvVars {
    pub vars: Vec<(String, String)>,
}

impl EnvVars {
    /// The value of a variable.
    pub open spec fn value(&self, name: Seq<char>) -> Option<Seq<char>> {
        value_from(self.vars@, name)
    }

    /// The value of a variable.
    pub fn get(&self, name: &str) -> (r: Option<String>)
        ensures
            crate::text::option_text(r) == self.value(name@),
    {
        let mut i: usize = 0;
        assert(self.vars@.subrange(0, self.vars@.len() as int) =~= self.vars@);
        while i < self.vars.len()
            invariant
                i <= self.vars@.len(),
                value_from(self.vars@, name@) == value_from(
                    self.vars@.subrange(i as int, self.vars@.len() as int),
                    name@,
                ),
            decreases self.vars@.len() - i,
        {
            let ghost rest = self.vars@.subrange(i as int, self.vars@.len() as int);
            assert(rest[0] == self.vars@[i as int]);
            assert(rest.drop_first() =~= self.vars@.subrange(i + 1, self.vars@.len() as int));
            if same_text(self.vars[i].0.as_str(), name) {
                return Some(self.vars[i].1.clone());
            }
            i += 1;
        }
        None
    }
}

/// The value of the first variable of that name.
pub open spec fn value_from(vars: Seq<(String, String)>, name: Seq<char>) -> Option<Seq<char>>
    decreases vars.len(),
{
    if vars.len() == 0 {
        None
    } else if vars[0].0@ == name {
        Some(vars[0].1@)
    } else {
        value_from(vars.drop_first(), name)
    }
}

/// A switch: on, off, or not said.
pub open spec fn switch_of(v: Option<Seq<char>>) -> Option<bool> {
    match v {
        Some(s) => {
            let w = lower(trim(s));
            if w == "1"@ || w == "true"@ || w == "yes"@ || w == "on"@ {
                Some(true)
            } else if w == "0"@ || w == "false"@ || w == "no"@ || w == "off"@ {
                Some(false)
            } else {
                None
            }
        },
        None => None,
    }
}

/// A number up to `max`.
pub open spec fn number_of(v: Option<Seq<char>>, max: nat) -> Option<nat> {
    match v {
        Some(s) => unsigned_up_to(trim(s), max),
        None => None,
    }
}

/// A percentage between one and a hundred.
pub open spec fn percent_of_var(v: Option<Seq<char>>) -> Option<nat> {
    match number_of(v, 255) {
        Some(n) => if 1 <= n <= 100 {
            Some(n)
        } else {
            None
        },
        None => None,
    }
}

fn env_bool(env: &EnvVars, name: &str) -> (r: Option<bool>)
    ensures
        r == switch_of(env.value(name@)),
{
    match env.get(name) {
        Some(s) => {
            let t = trim_text(s.as_str());
            let w = to_lower(t.as_str());
            let w = w.as_str();
            if same_text(w, "1") || same_text(w, "true") || same_text(w, "yes") || same_text(
                w,
                "on",
            ) {
                Some(true)
            } else if same_text(w, "0") || same_text(w, "false") || same_text(w, "no") || same_text(
                w,
                "off",
            ) {
                Some(false)
            } else {
                None
            }
        },
        None => None,
    }
}

fn env_u64(env: &EnvVars, name: &str) -> (r: Option<u64>)
    ensures
        match number_of(env.value(name@), u64::MAX as nat) {
            Some(n) => r == Some(n as u64),
            None => r is None,
        },
{
    match env.get(name) {
        Some(s) => {
            let t = trim_text(s.as_str());
            parse_unsigned(t.as_str(), u64::MAX)
        },
        None => None,
    }
}

fn env_usize(env: &EnvVars, name: &str) -> (r: Option<usize>)
    ensures
        match number_of(env.value(name@), usize::MAX as nat) {
            Some(n) => r == Some(n as usize),
            None => r is None,
        },
{
    match env.get(name) {
        Some(s) => {
            let t = trim_text(s.as_str());
            match parse_unsigned(t.as_str(), usize::MAX as u64) {
                Some(n) => Some(n as usize),
                None => None,
            }
        },
        None => None,
    }
}

fn env_pct(env: &EnvVars, name: &str) -> (r: Option<u8>)
    ensures
        match percent_of_var(env.value(name@)) {
            Some(n) => r == Some(n as u8),
            None => r is None,
        },
{
    match env.get(name) {
        Some(s) => {
            let t = trim_text(s.as_str());
            match parse_unsigned(t.as_str(), 255) {
                Some(n) => if 1 <= n && n <= 100 {
                    Some(n as u8)
                } else {
                    None
                },
                None => None,
            }
        },
        None => None,
    }
}

/// What is set, or the default.
pub open spec fn or_default<T>(v: Option<T>, d: T) -> T {
    match v {
        Some(x) => x,
        None => d,
    }
}

fn switch_or(env: &EnvVars, name: &str, d: bool) -> (r: bool)
    ensures
        r == or_default(switch_of(env.value(name@)), d),
{
    match env_bool(env, name) {
        Some(v) => v,
        None => d,
    }
}

fn u64_or(env: &EnvVars, name: &str, d: u64) -> (r: u64)
    ensures
        r == or_default(number_of(env.value(name@), u64::MAX as nat), d as nat) as u64,
{
    match env_u64(env, name) {
        Some(v) => v,
        None => d,
    }
}

/// How many probes may fail in a row. Only the low 32 bits of the variable count.
fn failures_or(env: &EnvVars, d: u32) -> (r: u32)
    ensures
        r == (or_default(
            number_of(env.value("INFERENCE_ROUTER_LIVENESS_FAILURES"@), usize::MAX as nat),
            d as nat,
        ) as usize) as u32,
{
    match env_usize(env, "INFERENCE_ROUTER_LIVENESS_FAILURES") {
        Some(v) => #[verifier::truncate]
        (v as u32),
        None => d,
    }
}

fn text_value_or(env: &EnvVars, name: &str, d: &str) -> (r: String)
    ensures
        r@ == or_default(env.value(name@), d@),
{
    match env.get(name) {
        Some(v) => v,
        None => d.to_owned(),
    }
}

/// The value of a variable that is set and not blank.
fn filled_or(env: &EnvVars, name: &str, d: &str) -> (r: String)
    ensures
        r@ == text_or(or_default(env.value(name@), d@), d@),
{
    match env.get(name) {
        Some(v) => if blank(v.as_str()) {
            d.to_owned()
        } else {
            v
        },
        None => d.to_owned(),
    }
}

/// Which names the model list advertises. Aliases resolve in either case.
#[derive(Debug, Clone, Copy, PartialEq, Eq, Structural)]
pub enum ModelExposure {
    /// Every model and every alias.
    FullList,
    /// Aliases only.
    AliasesOnly,
}

impl Default for ModelExposure {
    fn default() -> (r: Self)
        ensures
            r == ModelExposure::FullList,
    {
        ModelExposure::FullList
    }
}

impl ModelExposure {
    pub fn from_env(env: &EnvVars) -> (r: ModelExposure)
        ensures
            r == (if switch_of(env.value("INFERENCE_ROUTER_EXPOSE_ALIASES_ONLY"@)) == Some(true) {
                ModelExposure::AliasesOnly
            } else {
                ModelExposure::FullList
            }),
    {
        match env_bool(env, "INFERENCE_ROUTER_EXPOSE_ALIASES_ONLY") {
            Some(b) => if b {
                ModelExposure::AliasesOnly
            } else {
                ModelExposure::FullList
            },
            None => ModelExposure::FullList,
        }
    }
}

/// What to do about a loop in a stream.
#[derive(Debug, Clone, Copy, PartialEq, Eq, Structural)]
pub enum StreamingLoopAction {
    /// Ask again with a corrective message.
    Heal,
    /// End the stream with an error.
    Abort,
    /// Note it and go on.
    Log,
}

impl Default for StreamingLoopAction {
    fn default() -> (r: Self)
        ensures
            r == StreamingLoopAction::Heal,
    {
        StreamingLoopAction::Heal
    }
}

/// The action that a word names; unknown words heal.
pub open spec fn action_of(s: Seq<char>) -> StreamingLoopAction {
    let w = lower(trim(s));
    if w == "abort"@ {
        StreamingLoopAction::Abort
    } else if w == "log"@ {
        StreamingLoopAction::Log
    } else {
        StreamingLoopAction::Heal
    }
}

fn read_action(s: &str) -> (r: StreamingLoopAction)
    ensures
        r == action_of(s@),
{
    let t = trim_text(s);
    let w = to_lower(t.as_str());
    if same_text(w.as_str(), "abort") {
        StreamingLoopAction::Abort
    } else if same_text(w.as_str(), "log") {
        StreamingLoopAction::Log
    } else {
        StreamingLoopAction::Heal
    }
}

/// Detection of loops within one stream.
#[derive(Debug, Clone, Copy, PartialEq, Eq, Structural)]
pub struct StreamingLoopSettings {
    pub enabled: bool,
    /// How much of the stream is looked at.
    pub window_bytes: usize,
    /// How many copies make a loop.
    pub repeats: usize,
    pub check_interval_ms: u64,
    pub max_retries: usize,
    pub action: StreamingLoopAction,
    /// Whether a retry carries what was already said.
    pub replay_partial: bool,
}

impl Default for StreamingLoopSettings {
    fn default() -> (r: Self)
        ensures
            r == (StreamingLoopSettings {
                enabled: true,
                window_bytes: 65536,
                repeats: 10,
                check_interval_ms: 5000,
                max_retries: 3,
                action: StreamingLoopAction::Heal,
                replay_partial: true,
            }),
    {
        StreamingLoopSettings {
            enabled: true,
            window_bytes: 65536,
            repeats: 10,
            check_interval_ms: 5000,
            max_retries: 3,
            action: StreamingLoopAction::Heal,
            replay_partial: true,
        }
    }
}

/// The greater of a value and its least admissible one.
pub open spec fn no_less(v: int, min: int) -> int {
    if v >= min {
        v
    } else {
        min
    }
}

impl StreamingLoopSettings {
    /// The settings with every value at its least admissible one or above.
    pub open spec fn clean(self) -> StreamingLoopSettings {
        StreamingLoopSettings {
            window_bytes: no_less(self.window_bytes as int, 1024) as usize,
            repeats: no_less(self.repeats as int, 2) as usize,
            check_interval_ms: no_less(self.check_interval_ms as int, 1) as u64,
            ..self
        }
    }

    /// What the environment asks for.
    pub open spec fn asked(env: &EnvVars) -> StreamingLoopSettings {
        StreamingLoopSettings {
            enabled: or_default(switch_of(env.value("INFERENCE_ROUTER_LOOP_ENABLED"@)), true),
            window_bytes: or_default(
                number_of(env.value("INFERENCE_ROUTER_LOOP_WINDOW"@), usize::MAX as nat),
                65536,
            ) as usize,
            repeats: or_default(
                number_of(env.value("INFERENCE_ROUTER_LOOP_REPEATS"@), usize::MAX as nat),
                10,
            ) as usize,
            check_interval_ms: or_default(
                number_of(env.value("INFERENCE_ROUTER_LOOP_CHECK_INTERVAL_MS"@), u64::MAX as nat),
                5000,
            ) as u64,
            max_retries: or_default(
                number_of(env.value("INFERENCE_ROUTER_LOOP_MAX_RETRIES"@), usize::MAX as nat),
                3,
            ) as usize,
            action: match env.value("INFERENCE_ROUTER_LOOP_ACTION"@) {
                Some(s) => action_of(s),
                None => StreamingLoopAction::Heal,
            },
            replay_partial: or_default(
                switch_of(env.value("INFERENCE_ROUTER_LOOP_REPLAY_PARTIAL"@)),
                true,
            ),
        }
    }

    /// Lifts every value to its least admissible one.
    pub fn sanitize(&mut self)
        ensures
            *final(self) == old(self).clean(),
    {
        if self.window_bytes < 1024 {
            self.window_bytes = 1024;
        }
        if self.repeats < 2 {
            self.repeats = 2;
        }
        if self.check_interval_ms < 1 {
            self.check_interval_ms = 1;
        }
    }

    pub fn from_env(env: &EnvVars) -> (r: StreamingLoopSettings)
        ensures
            r == Self::asked(env).clean(),
    {
        let mut cfg = StreamingLoopSettings::default();
        if let Some(v) = env_bool(env, "INFERENCE_ROUTER_LOOP_ENABLED") {
            cfg.enabled = v;
        }
        if let Some(v) = env_usize(env, "INFERENCE_ROUTER_LOOP_WINDOW") {
            cfg.window_bytes = v;
        }
        if let Some(v) = env_usize(env, "INFERENCE_ROUTER_LOOP_REPEATS") {
            cfg.repeats = v;
        }
        if let Some(v) = env_u64(env, "INFERENCE_ROUTER_LOOP_CHECK_INTERVAL_MS") {
            cfg.check_interval_ms = v;
        }
        if let Some(v) = env_usize(env, "INFERENCE_ROUTER_LOOP_MAX_RETRIES") {
            cfg.max_retries = v;
        }
        if let Some(v) = env_bool(env, "INFERENCE_ROUTER_LOOP_REPLAY_PARTIAL") {
            cfg.replay_partial = v;
        }
        if let Some(v) = env.get("INFERENCE_ROUTER_LOOP_ACTION") {
            cfg.action = read_action(v.as_str());
        }
        cfg.sanitize();
        cfg
    }
}

/// Detection of tool calls that repeat from turn to turn.
#[derive(Debug, Clone, Copy, PartialEq, Eq, Structural)]
pub struct ToolLoopSettings {
    pub enabled: bool,
    pub repeats: usize,
    /// How many of the last messages are looked at.
    pub window_messages: usize,
}

impl Default for ToolLoopSettings {
    fn default() -> (r: Self)
        ensures
            r == (ToolLoopSettings { enabled: true, repeats: 3, window_messages: 80 }),
    {
        ToolLoopSettings { enabled: true, repeats: 3, window_messages: 80 }
    }
}

impl ToolLoopSettings {
    /// The settings with every value at its least admissible one or above.
    pub open spec fn clean(self) -> ToolLoopSettings {
        ToolLoopSettings {
            repeats: no_less(self.repeats as int, 2) as usize,
            window_messages: no_less(self.window_messages as int, 2) as usize,
            ..self
        }
    }

    /// What the environment asks for.
    pub open spec fn asked(env: &EnvVars) -> ToolLoopSettings {
        ToolLoopSettings {
            enabled: or_default(switch_of(env.value("INFERENCE_ROUTER_TOOL_LOOP_ENABLED"@)), true),
            repeats: or_default(
                number_of(env.value("INFERENCE_ROUTER_TOOL_LOOP_REPEATS"@), usize::MAX as nat),
                3,
            ) as usize,
            window_messages: or_default(
                number_of(
                    env.value("INFERENCE_ROUTER_TOOL_LOOP_WINDOW_MESSAGES"@),
                    usize::MAX as nat,
                ),
                80,
            ) as usize,
        }
    }

    /// Lifts every value to its least admissible one.
    pub fn sanitize(&mut self)
        ensures
            *final(self) == old(self).clean(),
    {
        if self.repeats < 2 {
            self.repeats = 2;
        }
        if self.window_messages < 2 {
            self.window_messages = 2;
        }
    }

    pub fn from_env(env: &EnvVars) -> (r: ToolLoopSettings)
        ensures
            r == Self::asked(env).clean(),
    {
        let mut cfg = ToolLoopSettings::default();
        if let Some(v) = env_bool(env, "INFERENCE_ROUTER_TOOL_LOOP_ENABLED") {
            cfg.enabled = v;
        }
        if let Some(v) = env_usize(env, "INFERENCE_ROUTER_TOOL_LOOP_REPEATS") {
            cfg.repeats = v;
        }
        if let Some(v) = env_usize(env, "INFERENCE_ROUTER_TOOL_LOOP_WINDOW_MESSAGES") {
            cfg.window_messages = v;
        }
        cfg.sanitize();
        cfg
    }
}

/// Both loop guards.
#[derive(Debug, Clone, Copy, PartialEq, Eq, Structural)]
pub struct LoopGuardSettings {
    pub streaming: StreamingLoopSettings,
    pub tool: ToolLoopSettings,
}

impl Default for LoopGuardSettings {
    fn default() -> (r: Self)
        ensures
            r.streaming == (StreamingLoopSettings {
                enabled: true,
                window_bytes: 65536,
                repeats: 10,
                check_interval_ms: 5000,
                max_retries: 3,
                action: StreamingLoopAction::Heal,
                replay_partial: true,
            }),
            r.tool == (ToolLoopSettings { enabled: true, repeats: 3, window_messages: 80 }),
    {
        LoopGuardSettings {
            streaming: StreamingLoopSettings::default(),
            tool: ToolLoopSettings::default(),
        }
    }
}

impl LoopGuardSettings {
    /// The settings with every value at its least admissible one or above.
    pub open spec fn clean(self) -> LoopGuardSettings {
        LoopGuardSettings { streaming: self.streaming.clean(), tool: self.tool.clean() }
    }

    /// Lifts every value to its least admissible one.
    pub fn sanitize(&mut self)
        ensures
            *final(self) == old(self).clean(),
    {
        self.streaming.sanitize();
        self.tool.sanitize();
    }

    pub fn from_env(env: &EnvVars) -> (r: LoopGuardSettings)
        ensures
            r.streaming == StreamingLoopSettings::asked(env).clean(),
            r.tool == ToolLoopSettings::asked(env).clean(),
    {
        LoopGuardSettings {
            streaming: StreamingLoopSettings::from_env(env),
            tool: ToolLoopSettings::from_env(env),
        }
    }
}

/// Recovery of instances that are alive but no longer answer.
#[derive(Debug)]
pub struct WatchdogSettings {
    pub enabled: bool,
    /// How long a proxied request may stay silent. Zero switches this off.
    pub idle_timeout_secs: u64,
    pub engine_reset_watch: bool,
    pub engine_reset_poll_secs: u64,
    pub drm_root: String,
    /// Where core dumps are kept. Empty keeps none.
    pub devcoredump_capture_dir: String,
    pub liveness_enabled: bool,
    pub liveness_probe_path: String,
    pub liveness_interval_secs: u64,
    pub liveness_timeout_secs: u64,
    pub liveness_failures_to_recycle: u32,
    /// Told of every recovery. Empty tells nobody.
    pub notify_webhook_url: String,
}

/// The mathematical content of `WatchdogSettings`.
pub struct WatchdogView {
    pub enabled: bool,
    pub idle_timeout_secs: u64,
    pub engine_reset_watch: bool,
    pub engine_reset_poll_secs: u64,
    pub drm_root: Seq<char>,
    pub devcoredump_capture_dir: Seq<char>,
    pub liveness_enabled: bool,
    pub liveness_probe_path: Seq<char>,
    pub liveness_interval_secs: u64,
    pub liveness_timeout_secs: u64,
    pub liveness_failures_to_recycle: u32,
    pub notify_webhook_url: Seq<char>,
}

impl View for WatchdogSettings {
    type V = WatchdogView;

    open spec fn view(&self) -> WatchdogView {
        WatchdogView {
            enabled: self.enabled,
            idle_timeout_secs: self.idle_timeout_secs,
            engine_reset_watch: self.engine_reset_watch,
            engine_reset_poll_secs: self.engine_reset_poll_secs,
            drm_root: self.drm_root@,
            devcoredump_capture_dir: self.devcoredump_capture_dir@,
            liveness_enabled: self.liveness_enabled,
            liveness_probe_path: self.liveness_probe_path@,
            liveness_interval_secs: self.liveness_interval_secs,
            liveness_timeout_secs: self.liveness_timeout_secs,
            liveness_failures_to_recycle: self.liveness_failures_to_recycle,
            notify_webhook_url: self.notify_webhook_url@,
        }
    }
}

/// A text, or the default where it is blank.
pub open spec fn text_or(s: Seq<char>, d: Seq<char>) -> Seq<char> {
    if is_blank(s) {
        d
    } else {
        s
    }
}

impl WatchdogView {
    /// What applies where nothing is set.
    pub open spec fn standard() -> WatchdogView {
        WatchdogView {
            enabled: true,
            idle_timeout_secs: 900,
            engine_reset_watch: true,
            engine_reset_poll_secs: 3,
            drm_root: "/sys/class/drm"@,
            devcoredump_capture_dir: "~/gpu-hangs"@,
            liveness_enabled: true,
            liveness_probe_path: "/slots"@,
            liveness_interval_secs: 30,
            liveness_timeout_secs: 10,
            liveness_failures_to_recycle: 3,
            notify_webhook_url: ""@,
        }
    }

    /// The settings with every value admissible.
    pub open spec fn clean(self) -> WatchdogView {
        WatchdogView {
            drm_root: text_or(self.drm_root, "/sys/class/drm"@),
            liveness_probe_path: text_or(self.liveness_probe_path, "/slots"@),
            engine_reset_poll_secs: no_less(self.engine_reset_poll_secs as int, 1) as u64,
            liveness_interval_secs: no_less(self.liveness_interval_secs as int, 1) as u64,
            liveness_timeout_secs: no_less(self.liveness_timeout_secs as int, 1) as u64,
            liveness_failures_to_recycle: no_less(
                self.liveness_failures_to_recycle as int,
                1,
            ) as u32,
            ..self
        }
    }

    /// What the environment asks for.
    pub open spec fn asked(env: &EnvVars) -> WatchdogView {
        let d = Self::standard();
        WatchdogView {
            enabled: or_default(
                switch_of(env.value("INFERENCE_ROUTER_WATCHDOG_ENABLED"@)),
                d.enabled,
            ),
            idle_timeout_secs: or_default(
                number_of(env.value("INFERENCE_ROUTER_IDLE_TIMEOUT_SECS"@), u64::MAX as nat),
                900,
            ) as u64,
            engine_reset_watch: or_default(
                switch_of(env.value("INFERENCE_ROUTER_ENGINE_RESET_WATCH"@)),
                d.engine_reset_watch,
            ),
            engine_reset_poll_secs: or_default(
                number_of(env.value("INFERENCE_ROUTER_ENGINE_RESET_POLL_SECS"@), u64::MAX as nat),
                3,
            ) as u64,
            drm_root: text_or(
                or_default(env.value("INFERENCE_ROUTER_DRM_ROOT"@), d.drm_root),
                d.drm_root,
            ),
            devcoredump_capture_dir: or_default(
                env.value("INFERENCE_ROUTER_DEVCOREDUMP_CAPTURE_DIR"@),
                d.devcoredump_capture_dir,
            ),
            liveness_enabled: or_default(
                switch_of(env.value("INFERENCE_ROUTER_LIVENESS_ENABLED"@)),
                d.liveness_enabled,
            ),
            liveness_probe_path: text_or(
                or_default(
                    env.value("INFERENCE_ROUTER_LIVENESS_PROBE_PATH"@),
                    d.liveness_probe_path,
                ),
                d.liveness_probe_path,
            ),
            liveness_interval_secs: or_default(
                number_of(env.value("INFERENCE_ROUTER_LIVENESS_INTERVAL_SECS"@), u64::MAX as nat),
                30,
            ) as u64,
            liveness_timeout_secs: or_default(
                number_of(env.value("INFERENCE_ROUTER_LIVENESS_TIMEOUT_SECS"@), u64::MAX as nat),
                10,
            ) as u64,
            liveness_failures_to_recycle: (or_default(
                number_of(env.value("INFERENCE_ROUTER_LIVENESS_FAILURES"@), usize::MAX as nat),
                3,
            ) as usize) as u32,
            notify_webhook_url: or_default(
                env.value("INFERENCE_ROUTER_NOTIFY_WEBHOOK_URL"@),
                d.notify_webhook_url,
            ),
        }
    }
}

impl Default for WatchdogSettings {
    fn default() -> (r: Self)
        ensures
            r@ == WatchdogView::standard(),
    {
        WatchdogSettings {
            enabled: true,
            idle_timeout_secs: 900,
            engine_reset_watch: true,
            engine_reset_poll_secs: 3,
            drm_root: "/sys/class/drm".to_owned(),
            devcoredump_capture_dir: "~/gpu-hangs".to_owned(),
            liveness_enabled: true,
            liveness_probe_path: "/slots".to_owned(),
            liveness_interval_secs: 30,
            liveness_timeout_secs: 10,
            liveness_failures_to_recycle: 3,
            notify_webhook_url: "".to_owned(),
        }
    }
}

impl Clone for WatchdogSettings {
    fn clone(&self) -> (r: Self)
        ensures
            r == *self,
    {
        WatchdogSettings {
            enabled: self.enabled,
            idle_timeout_secs: self.idle_timeout_secs,
            engine_reset_watch: self.engine_reset_watch,
            engine_reset_poll_secs: self.engine_reset_poll_secs,
            drm_root: self.drm_root.clone(),
            devcoredump_capture_dir: self.devcoredump_capture_dir.clone(),
            liveness_enabled: self.liveness_enabled,
            liveness_probe_path: self.liveness_probe_path.clone(),
            liveness_interval_secs: self.liveness_interval_secs,
            liveness_timeout_secs: self.liveness_timeout_secs,
            liveness_failures_to_recycle: self.liveness_failures_to_recycle,
            notify_webhook_url: self.notify_webhook_url.clone(),
        }
    }
}

impl WatchdogSettings {
    /// How many seconds a proxied request may stay silent, if that is limited.
    pub fn idle_timeout(&self) -> (r: Option<u64>)
        ensures
            r == (if self.enabled && self.idle_timeout_secs > 0 {
                Some(self.idle_timeout_secs)
            } else {
                None
            }),
    {
        if self.enabled && self.idle_timeout_secs > 0 {
            Some(self.idle_timeout_secs)
        } else {
            None
        }
    }

    /// Makes every value admissible.
    pub fn sanitize(&mut self)
        ensures
            final(self)@ == old(self)@.clean(),
    {
        if blank(self.drm_root.as_str()) {
            self.drm_root = "/sys/class/drm".to_owned();
        }
        if blank(self.liveness_probe_path.as_str()) {
            self.liveness_probe_path = "/slots".to_owned();
        }
        if self.engine_reset_poll_secs < 1 {
            self.engine_reset_poll_secs = 1;
        }
        if self.liveness_interval_secs < 1 {
            self.liveness_interval_secs = 1;
        }
        if self.liveness_timeout_secs < 1 {
            self.liveness_timeout_secs = 1;
        }
        if self.liveness_failures_to_recycle < 1 {
            self.liveness_failures_to_recycle = 1;
        }
    }

    pub fn from_env(env: &EnvVars) -> (r: WatchdogSettings)
        ensures
            r@ == WatchdogView::asked(env).clean(),
    {
        let mut cfg = WatchdogSettings {
            enabled: switch_or(env, "INFERENCE_ROUTER_WATCHDOG_ENABLED", true),
            idle_timeout_secs: u64_or(env, "INFERENCE_ROUTER_IDLE_TIMEOUT_SECS", 900),
            engine_reset_watch: switch_or(env, "INFERENCE_ROUTER_ENGINE_RESET_WATCH", true),
            engine_reset_poll_secs: u64_or(env, "INFERENCE_ROUTER_ENGINE_RESET_POLL_SECS", 3),
            drm_root: filled_or(env, "INFERENCE_ROUTER_DRM_ROOT", "/sys/class/drm"),
            devcoredump_capture_dir: text_value_or(
                env,
                "INFERENCE_ROUTER_DEVCOREDUMP_CAPTURE_DIR",
                "~/gpu-hangs",
            ),
            liveness_enabled: switch_or(env, "INFERENCE_ROUTER_LIVENESS_ENABLED", true),
            liveness_probe_path: filled_or(env, "INFERENCE_ROUTER_LIVENESS_PROBE_PATH", "/slots"),
            liveness_interval_secs: u64_or(env, "INFERENCE_ROUTER_LIVENESS_INTERVAL_SECS", 30),
            liveness_timeout_secs: u64_or(env, "INFERENCE_ROUTER_LIVENESS_TIMEOUT_SECS", 10),
            liveness_failures_to_recycle: failures_or(env, 3),
            notify_webhook_url: text_value_or(env, "INFERENCE_ROUTER_NOTIFY_WEBHOOK_URL", ""),
        };
        cfg.sanitize();
        cfg
    }
}

/// The standard texts are not blank.
proof fn lemma_standard_texts()
    ensures
        !is_blank("/sys/class/drm"@),
        !is_blank("/slots"@),
        !is_blank("~/models"@),
{
    reveal_strlit("/sys/class/drm");
    reveal_strlit("/slots");
    reveal_strlit("~/models");
    assert("/sys/class/drm"@[0] == '/' && "/sys/class/drm"@.last() == 'm');
    assert("/slots"@[0] == '/' && "/slots"@.last() == 's');
    assert("~/models"@[0] == '~' && "~/models"@.last() == 's');
}

/// Settings of the whole application.
#[derive(Debug)]
pub struct AppSettings {
    /// Folder that the dashboard scans for models.
    pub models_folder: String,
    pub loop_guards: LoopGuardSettings,
    pub model_exposure: ModelExposure,
    /// Percent of a GPU's memory that may be filled.
    pub gpu_vram_cap_pct: u8,
    /// The same for a GPU with a monitor.
    pub display_gpu_vram_cap_pct: u8,
    pub watchdog: WatchdogSettings,
}

/// The mathematical content of `AppSettings`.
pub struct AppSettingsView {
    pub models_folder: Seq<char>,
    pub loop_guards: LoopGuardSettings,
    pub model_exposure: ModelExposure,
    pub gpu_vram_cap_pct: u8,
    pub display_gpu_vram_cap_pct: u8,
    pub watchdog: WatchdogView,
}

impl View for AppSettings {
    type V = AppSettingsView;

    open spec fn view(&self) -> AppSettingsView {
        AppSettingsView {
            models_folder: self.models_folder@,
            loop_guards: self.loop_guards,
            model_exposure: self.model_exposure,
            gpu_vram_cap_pct: self.gpu_vram_cap_pct,
            display_gpu_vram_cap_pct: self.display_gpu_vram_cap_pct,
            watchdog: self.watchdog@,
        }
    }
}

/// A percentage between one and a hundred.
pub open spec fn admissible_pct(p: u8) -> u8 {
    if p < 1 {
        1
    } else if p > 100 {
        100
    } else {
        p
    }
}

impl AppSettingsView {
    /// What the environment asks for.
    pub open spec fn asked(env: &EnvVars) -> AppSettingsView {
        AppSettingsView {
            models_folder: text_or(
                or_default(env.value("INFERENCE_ROUTER_MODELS_FOLDER"@), "~/models"@),
                "~/models"@,
            ),
            loop_guards: LoopGuardSettings {
                streaming: StreamingLoopSettings::asked(env).clean(),
                tool: ToolLoopSettings::asked(env).clean(),
            },
            model_exposure: if switch_of(env.value("INFERENCE_ROUTER_EXPOSE_ALIASES_ONLY"@))
                == Some(true) {
                ModelExposure::AliasesOnly
            } else {
                ModelExposure::FullList
            },
            gpu_vram_cap_pct: or_default(
                percent_of_var(env.value("INFERENCE_ROUTER_GPU_VRAM_CAP_PCT"@)),
                98,
            ) as u8,
            display_gpu_vram_cap_pct: or_default(
                percent_of_var(env.value("INFERENCE_ROUTER_DISPLAY_VRAM_CAP_PCT"@)),
                80,
            ) as u8,
            watchdog: WatchdogView::asked(env).clean(),
        }
    }

    /// The settings with every value admissible.
    pub open spec fn clean(self) -> AppSettingsView {
        AppSettingsView {
            models_folder: text_or(self.models_folder, "~/models"@),
            loop_guards: self.loop_guards.clean(),
            model_exposure: self.model_exposure,
            gpu_vram_cap_pct: admissible_pct(self.gpu_vram_cap_pct),
            display_gpu_vram_cap_pct: admissible_pct(self.display_gpu_vram_cap_pct),
            watchdog: self.watchdog.clean(),
        }
    }
}

impl Clone for AppSettings {
    fn clone(&self) -> (r: Self)
        ensures
            r == *self,
    {
        AppSettings {
            models_folder: self.models_folder.clone(),
            loop_guards: self.loop_guards,
            model_exposure: self.model_exposure,
            gpu_vram_cap_pct: self.gpu_vram_cap_pct,
            display_gpu_vram_cap_pct: self.display_gpu_vram_cap_pct,
            watchdog: self.watchdog.clone(),
        }
    }
}

impl Default for AppSettings {
    fn default() -> (r: Self)
        ensures
            r.models_folder@ == "~/models"@,
            r.loop_guards.streaming == (StreamingLoopSettings {
                enabled: true,
                window_bytes: 65536,
                repeats: 10,
                check_interval_ms: 5000,
                max_retries: 3,
                action: StreamingLoopAction::Heal,
                replay_partial: true,
            }),
            r.loop_guards.tool == (ToolLoopSettings {
                enabled: true,
                repeats: 3,
                window_messages: 80,
            }),
            r.model_exposure == ModelExposure::FullList,
            r.gpu_vram_cap_pct == 98,
            r.display_gpu_vram_cap_pct == 80,
            r.watchdog@ == WatchdogView::standard(),
    {
        AppSettings {
            models_folder: default_models_folder(),
            loop_guards: LoopGuardSettings::default(),
            model_exposure: ModelExposure::FullList,
            gpu_vram_cap_pct: 98,
            display_gpu_vram_cap_pct: 80,
            watchdog: WatchdogSettings::default(),
        }
    }
}

/// The folder that is scanned where none is set.
pub fn default_models_folder() -> (r: String)
    ensures
        r@ == "~/models"@,
{
    "~/models".to_owned()
}

fn clamp_percent(p: u8) -> (r: u8)
    ensures
        r == admissible_pct(p),
{
    if p < 1 {
        1
    } else if p > 100 {
        100
    } else {
        p
    }
}

impl AppSettings {
    /// The settings with every value admissible.
    pub fn sanitized(self) -> (r: AppSettings)
        ensures
            r@ == self@.clean(),
    {
        let mut s = self;
        if blank(s.models_folder.as_str()) {
            s.models_folder = default_models_folder();
        }
        s.gpu_vram_cap_pct = clamp_percent(s.gpu_vram_cap_pct);
        s.display_gpu_vram_cap_pct = clamp_percent(s.display_gpu_vram_cap_pct);
        s.loop_guards.sanitize();
        s.watchdog.sanitize();
        s
    }

    /// The settings that the environment asks for.
    pub fn from_env(env: &EnvVars) -> (r: AppSettings)
        ensures
            r@ == AppSettingsView::asked(env),
    {
        let folder = filled_or(env, "INFERENCE_ROUTER_MODELS_FOLDER", "~/models");
        let gpu_cap: u8 = match env_pct(env, "INFERENCE_ROUTER_GPU_VRAM_CAP_PCT") {
            Some(p) => p,
            None => 98,
        };
        let display_cap: u8 = match env_pct(env, "INFERENCE_ROUTER_DISPLAY_VRAM_CAP_PCT") {
            Some(p) => p,
            None => 80,
        };
        AppSettings {
            models_folder: folder,
            loop_guards: LoopGuardSettings::from_env(env),
            model_exposure: ModelExposure::from_env(env),
            gpu_vram_cap_pct: gpu_cap,
            display_gpu_vram_cap_pct: display_cap,
            watchdog: WatchdogSettings::from_env(env),
        }
    }
}

/// Settings that were made admissible once stay as they are.
pub proof fn law_sanitizing_is_idempotent(s: AppSettingsView)
    ensures
        s.clean().clean() == s.clean(),
{
    lemma_standard_texts();
}

} // verus!
