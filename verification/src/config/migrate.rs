//! Reads structured settings out of raw command line arguments.
//!
//! Recognised flag-value pairs are copied into the structured fields. The raw
//! arguments are the user's and stay as they are.
use vstd::prelude::*;
use vstd::string::*;

use crate::config::model::{
    option_number, ModelConfig, Number, NumberView, ReasoningFormat,
};
use crate::text::{
    option_text, parse_i32, parse_unsigned, same_text, signed_between, texts, unsigned_up_to,
};

verus! {

broadcast use vstd::string::group_string_axioms;

/// One recognised flag-value pair.
pub enum Setting {
    Threads(i32),
    CacheRam(i32),
    Reasoning(ReasoningFormat),
    ReasoningBudget(i32),
    PresencePenalty(Number),
    RepeatPenalty(Number),
    ChatTemplateKwargs(String),
    Mmproj(String),
    /// Names the draft kind; it carries no value of its own.
    SpecType,
    MtpTokens(u32),
    DraftMax(u32),
    DraftMin(u32),
    DraftPMin(Number),
    CtxCheckpoints(u32),
    CheckpointMinStep(i32),
    CheckpointEveryNTokens(i32),
}

/// The mathematical content of a `Setting`.
pub enum SettingView {
    Threads(i32),
    CacheRam(i32),
    Reasoning(ReasoningFormat),
    ReasoningBudget(i32),
    PresencePenalty(NumberView),
    RepeatPenalty(NumberView),
    ChatTemplateKwargs(Seq<char>),
    Mmproj(Seq<char>),
    SpecType,
    MtpTokens(u32),
    DraftMax(u32),
    DraftMin(u32),
    DraftPMin(NumberView),
    CtxCheckpoints(u32),
    CheckpointMinStep(i32),
    CheckpointEveryNTokens(i32),
}

impl View for Setting {
    type V = SettingView;

    open spec fn view(&self) -> SettingView {
        match self {
            Setting::Threads(n) => SettingView::Threads(*n),
            Setting::CacheRam(n) => SettingView::CacheRam(*n),
            Setting::Reasoning(f) => SettingView::Reasoning(*f),
            Setting::ReasoningBudget(n) => SettingView::ReasoningBudget(*n),
            Setting::PresencePenalty(n) => SettingView::PresencePenalty(n@),
            Setting::RepeatPenalty(n) => SettingView::RepeatPenalty(n@),
            Setting::ChatTemplateKwargs(t) => SettingView::ChatTemplateKwargs(t@),
            Setting::Mmproj(t) => SettingView::Mmproj(t@),
            Setting::SpecType => SettingView::SpecType,
            Setting::MtpTokens(n) => SettingView::MtpTokens(*n),
            Setting::DraftMax(n) => SettingView::DraftMax(*n),
            Setting::DraftMin(n) => SettingView::DraftMin(*n),
            Setting::DraftPMin(n) => SettingView::DraftPMin(n@),
            Setting::CtxCheckpoints(n) => SettingView::CtxCheckpoints(*n),
            Setting::CheckpointMinStep(n) => SettingView::CheckpointMinStep(*n),
            Setting::CheckpointEveryNTokens(n) => SettingView::CheckpointEveryNTokens(*n),
        }
    }
}

/// The structured fields that a migration can fill.
pub struct Structured {
    pub threads: Option<i32>,
    pub cache_ram_mib: Option<i32>,
    pub reasoning_format: Option<ReasoningFormat>,
    pub reasoning_budget: Option<i32>,
    pub presence_penalty: NumberView,
    pub repeat_penalty: NumberView,
    pub chat_template_kwargs: Option<Seq<char>>,
    pub mmproj_path: Option<Seq<char>>,
    pub mtp_tokens: Option<u32>,
    pub draft_max: Option<u32>,
    pub draft_min: Option<u32>,
    pub draft_p_min: Option<NumberView>,
    pub ctx_checkpoints: Option<u32>,
    pub checkpoint_min_step: Option<i32>,
    pub checkpoint_every_n_tokens: Option<i32>,
}

/// A thirty-two bit signed number, where the text denotes one.
pub open spec fn i32_value(s: Seq<char>) -> Option<i32> {
    match signed_between(s, i32::MIN as int, i32::MAX as int) {
        Some(n) => Some(n as i32),
        None => None,
    }
}

/// A thirty-two bit unsigned number, where the text denotes one.
pub open spec fn u32_value(s: Seq<char>) -> Option<u32> {
    match unsigned_up_to(s, u32::MAX as nat) {
        Some(n) => Some(n as u32),
        None => None,
    }
}

/// What a flag with its value sets. `number` is the value read as a decimal
/// number; `mtp` says that drafting uses the model's own heads.
pub open spec fn setting_of(
    flag: Seq<char>,
    value: Seq<char>,
    number: Option<NumberView>,
    mtp: bool,
    has_draft: bool,
) -> Option<SettingView> {
    if flag == "--threads"@ || flag == "-t"@ {
        match i32_value(value) {
            Some(n) => Some(SettingView::Threads(n)),
            None => None,
        }
    } else if flag == "--cache-ram"@ || flag == "-cram"@ {
        match i32_value(value) {
            Some(n) => Some(SettingView::CacheRam(n)),
            None => None,
        }
    } else if flag == "--reasoning-format"@ {
        match ReasoningFormat::of_cli(value) {
            Some(f) => Some(SettingView::Reasoning(f)),
            None => None,
        }
    } else if flag == "--reasoning-budget"@ {
        match i32_value(value) {
            Some(n) => Some(SettingView::ReasoningBudget(n)),
            None => None,
        }
    } else if flag == "--presence-penalty"@ {
        match number {
            Some(n) => Some(SettingView::PresencePenalty(n)),
            None => None,
        }
    } else if flag == "--repeat-penalty"@ {
        match number {
            Some(n) => Some(SettingView::RepeatPenalty(n)),
            None => None,
        }
    } else if flag == "--chat-template-kwargs"@ {
        Some(SettingView::ChatTemplateKwargs(value))
    } else if flag == "--mmproj"@ || flag == "-mm"@ {
        Some(SettingView::Mmproj(value))
    } else if flag == "--spec-type"@ {
        if value == "draft-mtp"@ && !has_draft {
            Some(SettingView::SpecType)
        } else {
            None
        }
    } else if flag == "--spec-draft-n-max"@ {
        match u32_value(value) {
            Some(n) => Some(
                if mtp {
                    SettingView::MtpTokens(n)
                } else {
                    SettingView::DraftMax(n)
                },
            ),
            None => None,
        }
    } else if flag == "--draft-max"@ || flag == "--draft"@ || flag == "--draft-n"@ {
        match u32_value(value) {
            Some(n) => Some(SettingView::DraftMax(n)),
            None => None,
        }
    } else if flag == "--spec-draft-n-min"@ || flag == "--draft-min"@ || flag == "--draft-n-min"@ {
        match u32_value(value) {
            Some(n) => Some(SettingView::DraftMin(n)),
            None => None,
        }
    } else if flag == "--spec-draft-p-min"@ || flag == "--draft-p-min"@ {
        match number {
            Some(n) => Some(SettingView::DraftPMin(n)),
            None => None,
        }
    } else if flag == "--ctx-checkpoints"@ || flag == "-ctxcp"@ || flag == "--swa-checkpoints"@ {
        match u32_value(value) {
            Some(n) => Some(SettingView::CtxCheckpoints(n)),
            None => None,
        }
    } else if flag == "--checkpoint-min-step"@ {
        match i32_value(value) {
            Some(n) => Some(SettingView::CheckpointMinStep(n)),
            None => None,
        }
    } else if flag == "--checkpoint-every-n-tokens"@ || flag == "-cpent"@ {
        match i32_value(value) {
            Some(n) => Some(SettingView::CheckpointEveryNTokens(n)),
            None => None,
        }
    } else {
        None
    }
}

/// The recognised pairs from position `i` on. A recognised pair takes two
/// arguments; any other argument is passed over.
pub open spec fn settings_from(
    args: Seq<Seq<char>>,
    numbers: Seq<Option<NumberView>>,
    mtp: bool,
    has_draft: bool,
    i: int,
) -> Seq<SettingView>
    decreases args.len() - i,
{
    if i + 1 >= args.len() {
        Seq::empty()
    } else {
        match setting_of(args[i], args[i + 1], numbers[i + 1], mtp, has_draft) {
            Some(x) => seq![x] + settings_from(args, numbers, mtp, has_draft, i + 2),
            None => settings_from(args, numbers, mtp, has_draft, i + 1),
        }
    }
}

/// A value that is set is kept; an absent one is filled.
pub open spec fn fill<T>(present: Option<T>, value: T) -> Option<T> {
    if present is Some {
        present
    } else {
        Some(value)
    }
}

/// Pairs of numbers: in each the second lies so near to the first that it does
/// not replace it.
pub type Near = Seq<(NumberView, NumberView)>;

/// A number that is set is kept where the new one lies near to it.
pub open spec fn replaced(present: NumberView, value: NumberView, near: Near) -> NumberView {
    if near.contains((present, value)) {
        present
    } else {
        value
    }
}

/// The fields after one setting. Penalties take the new value unless it lies
/// near to the one that they have; every other field keeps a value that it has.
pub open spec fn with_setting(s: Structured, x: SettingView, near: Near) -> Structured {
    match x {
        SettingView::Threads(n) => Structured { threads: fill(s.threads, n), ..s },
        SettingView::CacheRam(n) => Structured { cache_ram_mib: fill(s.cache_ram_mib, n), ..s },
        SettingView::Reasoning(f) => Structured {
            reasoning_format: fill(s.reasoning_format, f),
            ..s
        },
        SettingView::ReasoningBudget(n) => Structured {
            reasoning_budget: fill(s.reasoning_budget, n),
            ..s
        },
        SettingView::PresencePenalty(n) => Structured {
            presence_penalty: replaced(s.presence_penalty, n, near),
            ..s
        },
        SettingView::RepeatPenalty(n) => Structured {
            repeat_penalty: replaced(s.repeat_penalty, n, near),
            ..s
        },
        SettingView::ChatTemplateKwargs(t) => Structured {
            chat_template_kwargs: fill(s.chat_template_kwargs, t),
            ..s
        },
        SettingView::Mmproj(t) => Structured { mmproj_path: fill(s.mmproj_path, t), ..s },
        SettingView::SpecType => s,
        SettingView::MtpTokens(n) => Structured { mtp_tokens: fill(s.mtp_tokens, n), ..s },
        SettingView::DraftMax(n) => Structured { draft_max: fill(s.draft_max, n), ..s },
        SettingView::DraftMin(n) => Structured { draft_min: fill(s.draft_min, n), ..s },
        SettingView::DraftPMin(n) => Structured { draft_p_min: fill(s.draft_p_min, n), ..s },
        SettingView::CtxCheckpoints(n) => Structured {
            ctx_checkpoints: fill(s.ctx_checkpoints, n),
            ..s
        },
        SettingView::CheckpointMinStep(n) => Structured {
            checkpoint_min_step: fill(s.checkpoint_min_step, n),
            ..s
        },
        SettingView::CheckpointEveryNTokens(n) => Structured {
            checkpoint_every_n_tokens: fill(s.checkpoint_every_n_tokens, n),
            ..s
        },
    }
}

/// The fields after all settings, in order.
pub open spec fn with_settings(s: Structured, xs: Seq<SettingView>, near: Near) -> Structured
    decreases xs.len(),
{
    if xs.len() == 0 {
        s
    } else {
        with_setting(with_settings(s, xs.drop_last(), near), xs.last(), near)
    }
}

/// Whether any of the settings, applied in order, changes a field.
pub open spec fn settings_change(s: Structured, xs: Seq<SettingView>, near: Near) -> bool {
    exists|i: int|
        0 <= i < xs.len() && #[trigger] with_settings(s, xs.take(i + 1), near) != with_settings(
            s,
            xs.take(i),
            near,
        )
}

/// Whether the arguments name drafting with the model's own heads.
pub open spec fn names_mtp(args: Seq<Seq<char>>) -> bool {
    ||| exists|i: int|
        0 <= i < args.len() - 1 && #[trigger] args[i] == "--spec-type"@ && args[i + 1]
            == "draft-mtp"@
    ||| exists|i: int| 0 <= i < args.len() && #[trigger] args[i] == "--spec-type=draft-mtp"@
}

/// Drafting with the model's own heads uses three tokens unless told otherwise.
pub open spec fn with_mtp_default(s: Structured, mtp: bool) -> Structured {
    if mtp && s.mtp_tokens is None {
        Structured { mtp_tokens: Some(3u32), ..s }
    } else {
        s
    }
}

/// The numbers read from the arguments.
pub open spec fn number_views(v: Seq<Option<Number>>) -> Seq<Option<NumberView>> {
    v.map_values(|n: Option<Number>| option_number(n))
}

/// The pairs of numbers as values.
pub open spec fn near_views(v: Seq<(Number, Number)>) -> Near {
    v.map_values(|p: (Number, Number)| (p.0@, p.1@))
}

impl ModelConfig {
    /// The fields that a migration can fill.
    pub open spec fn structured(&self) -> Structured {
        Structured {
            threads: self.threads,
            cache_ram_mib: self.cache_ram_mib,
            reasoning_format: self.reasoning_format,
            reasoning_budget: self.reasoning_budget,
            presence_penalty: self.presence_penalty@,
            repeat_penalty: self.repeat_penalty@,
            chat_template_kwargs: option_text(self.chat_template_kwargs),
            mmproj_path: option_text(self.mmproj_path),
            mtp_tokens: self.mtp_tokens,
            draft_max: self.draft_max,
            draft_min: self.draft_min,
            draft_p_min: option_number(self.draft_p_min),
            ctx_checkpoints: self.ctx_checkpoints,
            checkpoint_min_step: self.checkpoint_min_step,
            checkpoint_every_n_tokens: self.checkpoint_every_n_tokens,
        }
    }

    /// Whether all other fields are those of `other`.
    pub open spec fn same_but_structured(&self, other: &ModelConfig) -> bool {
        *self == (ModelConfig {
            threads: self.threads,
            cache_ram_mib: self.cache_ram_mib,
            reasoning_format: self.reasoning_format,
            reasoning_budget: self.reasoning_budget,
            presence_penalty: self.presence_penalty,
            repeat_penalty: self.repeat_penalty,
            chat_template_kwargs: self.chat_template_kwargs,
            mmproj_path: self.mmproj_path,
            mtp_tokens: self.mtp_tokens,
            draft_max: self.draft_max,
            draft_min: self.draft_min,
            draft_p_min: self.draft_p_min,
            ctx_checkpoints: self.ctx_checkpoints,
            checkpoint_min_step: self.checkpoint_min_step,
            checkpoint_every_n_tokens: self.checkpoint_every_n_tokens,
            ..*other
        })
    }

    /// Whether the arguments ask for drafting with the model's own heads and
    /// no draft model stands against it.
    pub open spec fn drafts_itself(&self) -> bool {
        names_mtp(texts(self.extra_args@)) && self.draft_model_id is None
    }

    /// The settings that the raw arguments hold.
    pub open spec fn raw_settings(&self, numbers: Seq<Option<NumberView>>) -> Seq<SettingView> {
        settings_from(
            texts(self.extra_args@),
            numbers,
            self.drafts_itself(),
            self.draft_model_id is Some,
            0,
        )
    }

    /// Copies the settings in the raw arguments into the structured fields and
    /// says whether a field changed. `numbers` holds, for each raw argument,
    /// the decimal number that it denotes, if any. `near` holds the pairs of
    /// numbers that lie within the tolerance of a penalty.
    pub fn migrate_extra_args(
        &mut self,
        numbers: &Vec<Option<Number>>,
        near: &Vec<(Number, Number)>,
    ) -> (changed: bool)
        requires
            numbers@.len() == old(self).extra_args@.len(),
        ensures
            final(self).same_but_structured(old(self)),
            final(self).structured() == with_mtp_default(
                with_settings(
                    old(self).structured(),
                    old(self).raw_settings(number_views(numbers@)),
                    near_views(near@),
                ),
                old(self).drafts_itself(),
            ),
            changed == (settings_change(
                old(self).structured(),
                old(self).raw_settings(number_views(numbers@)),
                near_views(near@),
            ) || (old(self).drafts_itself() && with_settings(
                old(self).structured(),
                old(self).raw_settings(number_views(numbers@)),
                near_views(near@),
            ).mtp_tokens is None)),
    {
        let ghost start = *self;
        let ghost args = texts(self.extra_args@);
        let ghost nv = near_views(near@);
        let ghost nums = number_views(numbers@);
        let mtp = arguments_name_mtp(&self.extra_args) && self.draft_model_id.is_none();
        let has_draft = self.draft_model_id.is_some();
        let ghost all = settings_from(args, nums, mtp, has_draft, 0);
        let mut changed = false;
        let mut i: usize = 0;
        let ghost mut seen: Seq<SettingView> = Seq::empty();
        proof {
            assert(seen + settings_from(args, nums, mtp, has_draft, 0) =~= all);
            assert(with_settings(start.structured(), seen, nv) == self.structured());
        }
        let n = self.extra_args.len();
        while n - i >= 2
            invariant
                i <= n,
                n == self.extra_args@.len(),
                numbers@.len() == self.extra_args@.len(),
                args == texts(self.extra_args@),
                nums == number_views(numbers@),
                nv == near_views(near@),
                self.same_but_structured(&start),
                args == texts(start.extra_args@),
                mtp == start.drafts_itself(),
                has_draft == (start.draft_model_id is Some),
                all == settings_from(args, nums, mtp, has_draft, 0),
                seen + settings_from(args, nums, mtp, has_draft, i as int) == all,
                self.structured() == with_settings(start.structured(), seen, nv),
                changed == settings_change(start.structured(), seen, nv),
            decreases n - i,
        {
            let value = &self.extra_args[i + 1];
            match read_setting(&self.extra_args[i], value, &numbers[i + 1], mtp, has_draft) {
                Some(x) => {
                    let ghost before = seen;
                    let ghost s0 = self.structured();
                    let c = self.apply_setting(x, near);
                    proof {
                        seen = seen.push(x@);
                        assert(seen.drop_last() =~= before);
                        assert(seen + settings_from(args, nums, mtp, has_draft, i + 2) =~= before + (
                        seq![x@] + settings_from(args, nums, mtp, has_draft, i + 2)));
                        lemma_settings_change_push(start.structured(), before, x@, nv);
                    }
                    changed = changed || c;
                    i += 2;
                },
                None => {
                    i += 1;
                },
            }
        }
        proof {
            assert(settings_from(args, nums, mtp, has_draft, i as int) =~= Seq::empty());
            assert(seen =~= all);
        }
        if mtp && self.mtp_tokens.is_none() {
            self.mtp_tokens = Some(3);
            changed = true;
        }
        changed
    }

    /// Puts one setting into its field and says whether the field changed.
    fn apply_setting(&mut self, x: Setting, near: &Vec<(Number, Number)>) -> (changed: bool)
        ensures
            final(self).same_but_structured(old(self)),
            final(self).structured() == with_setting(
                old(self).structured(),
                x@,
                near_views(near@),
            ),
            changed == (final(self).structured() != old(self).structured()),
    {
        match x {
            Setting::Threads(n) => {
                let fresh = self.threads.is_none();
                if fresh {
                    self.threads = Some(n);
                }
                fresh
            },
            Setting::CacheRam(n) => {
                let fresh = self.cache_ram_mib.is_none();
                if fresh {
                    self.cache_ram_mib = Some(n);
                }
                fresh
            },
            Setting::Reasoning(f) => {
                let fresh = self.reasoning_format.is_none();
                if fresh {
                    self.reasoning_format = Some(f);
                }
                fresh
            },
            Setting::ReasoningBudget(n) => {
                let fresh = self.reasoning_budget.is_none();
                if fresh {
                    self.reasoning_budget = Some(n);
                }
                fresh
            },
            Setting::PresencePenalty(n) => {
                let differs = !self.presence_penalty.same(&n) && !lie_near(
                    near,
                    &self.presence_penalty,
                    &n,
                );
                if differs {
                    self.presence_penalty = n;
                }
                differs
            },
            Setting::RepeatPenalty(n) => {
                let differs = !self.repeat_penalty.same(&n) && !lie_near(
                    near,
                    &self.repeat_penalty,
                    &n,
                );
                if differs {
                    self.repeat_penalty = n;
                }
                differs
            },
            Setting::ChatTemplateKwargs(t) => {
                let fresh = self.chat_template_kwargs.is_none();
                if fresh {
                    self.chat_template_kwargs = Some(t);
                }
                fresh
            },
            Setting::Mmproj(t) => {
                let fresh = self.mmproj_path.is_none();
                if fresh {
                    self.mmproj_path = Some(t);
                }
                fresh
            },
            Setting::SpecType => false,
            Setting::MtpTokens(n) => {
                let fresh = self.mtp_tokens.is_none();
                if fresh {
                    self.mtp_tokens = Some(n);
                }
                fresh
            },
            Setting::DraftMax(n) => {
                let fresh = self.draft_max.is_none();
                if fresh {
                    self.draft_max = Some(n);
                }
                fresh
            },
            Setting::DraftMin(n) => {
                let fresh = self.draft_min.is_none();
                if fresh {
                    self.draft_min = Some(n);
                }
                fresh
            },
            Setting::DraftPMin(n) => {
                let fresh = self.draft_p_min.is_none();
                if fresh {
                    self.draft_p_min = Some(n);
                }
                fresh
            },
            Setting::CtxCheckpoints(n) => {
                let fresh = self.ctx_checkpoints.is_none();
                if fresh {
                    self.ctx_checkpoints = Some(n);
                }
                fresh
            },
            Setting::CheckpointMinStep(n) => {
                let fresh = self.checkpoint_min_step.is_none();
                if fresh {
                    self.checkpoint_min_step = Some(n);
                }
                fresh
            },
            Setting::CheckpointEveryNTokens(n) => {
                let fresh = self.checkpoint_every_n_tokens.is_none();
                if fresh {
                    self.checkpoint_every_n_tokens = Some(n);
                }
                fresh
            },
        }
    }
}

/// Whether the second number lies near to the first.
fn lie_near(near: &Vec<(Number, Number)>, a: &Number, b: &Number) -> (r: bool)
    ensures
        r == near_views(near@).contains((a@, b@)),
{
    let ghost all = near_views(near@);
    let mut i: usize = 0;
    while i < near.len()
        invariant
            i <= near@.len() == all.len(),
            all == near_views(near@),
            forall|j: int| 0 <= j < i ==> #[trigger] all[j] != (a@, b@),
        decreases near@.len() - i,
    {
        assert(all[i as int] == (near@[i as int].0@, near@[i as int].1@));
        if near[i].0.same(a) && near[i].1.same(b) {
            return true;
        }
        i += 1;
    }
    false
}

/// What a flag with its value sets.
fn read_setting(
    flag: &String,
    value: &String,
    number: &Option<Number>,
    mtp: bool,
    has_draft: bool,
) -> (r: Option<Setting>)
    ensures
        match r {
            Some(x) => setting_of(flag@, value@, option_number(*number), mtp, has_draft) == Some(
                x@,
            ),
            None => setting_of(flag@, value@, option_number(*number), mtp, has_draft) is None,
        },
{
    let f = flag.as_str();
    let v = value.as_str();
    if same_text(f, "--threads") || same_text(f, "-t") {
        match parse_i32(v) {
            Some(n) => Some(Setting::Threads(n)),
            None => None,
        }
    } else if same_text(f, "--cache-ram") || same_text(f, "-cram") {
        match parse_i32(v) {
            Some(n) => Some(Setting::CacheRam(n)),
            None => None,
        }
    } else if same_text(f, "--reasoning-format") {
        match ReasoningFormat::from_cli(v) {
            Some(x) => Some(Setting::Reasoning(x)),
            None => None,
        }
    } else if same_text(f, "--reasoning-budget") {
        match parse_i32(v) {
            Some(n) => Some(Setting::ReasoningBudget(n)),
            None => None,
        }
    } else if same_text(f, "--presence-penalty") {
        match number {
            Some(n) => Some(Setting::PresencePenalty(n.clone())),
            None => None,
        }
    } else if same_text(f, "--repeat-penalty") {
        match number {
            Some(n) => Some(Setting::RepeatPenalty(n.clone())),
            None => None,
        }
    } else if same_text(f, "--chat-template-kwargs") {
        Some(Setting::ChatTemplateKwargs(value.clone()))
    } else if same_text(f, "--mmproj") || same_text(f, "-mm") {
        Some(Setting::Mmproj(value.clone()))
    } else if same_text(f, "--spec-type") {
        if same_text(v, "draft-mtp") && !has_draft {
            Some(Setting::SpecType)
        } else {
            None
        }
    } else if same_text(f, "--spec-draft-n-max") {
        match read_u32(v) {
            Some(n) => Some(
                if mtp {
                    Setting::MtpTokens(n)
                } else {
                    Setting::DraftMax(n)
                },
            ),
            None => None,
        }
    } else if same_text(f, "--draft-max") || same_text(f, "--draft") || same_text(f, "--draft-n") {
        match read_u32(v) {
            Some(n) => Some(Setting::DraftMax(n)),
            None => None,
        }
    } else if same_text(f, "--spec-draft-n-min") || same_text(f, "--draft-min") || same_text(
        f,
        "--draft-n-min",
    ) {
        match read_u32(v) {
            Some(n) => Some(Setting::DraftMin(n)),
            None => None,
        }
    } else if same_text(f, "--spec-draft-p-min") || same_text(f, "--draft-p-min") {
        match number {
            Some(n) => Some(Setting::DraftPMin(n.clone())),
            None => None,
        }
    } else if same_text(f, "--ctx-checkpoints") || same_text(f, "-ctxcp") || same_text(
        f,
        "--swa-checkpoints",
    ) {
        match read_u32(v) {
            Some(n) => Some(Setting::CtxCheckpoints(n)),
            None => None,
        }
    } else if same_text(f, "--checkpoint-min-step") {
        match parse_i32(v) {
            Some(n) => Some(Setting::CheckpointMinStep(n)),
            None => None,
        }
    } else if same_text(f, "--checkpoint-every-n-tokens") || same_text(f, "-cpent") {
        match parse_i32(v) {
            Some(n) => Some(Setting::CheckpointEveryNTokens(n)),
            None => None,
        }
    } else {
        None
    }
}

/// Reads a thirty-two bit unsigned number.
fn read_u32(s: &str) -> (r: Option<u32>)
    ensures
        r == u32_value(s@),
{
    match parse_unsigned(s, 4294967295) {
        Some(n) => Some(n as u32),
        None => None,
    }
}

/// Whether the arguments name drafting with the model's own heads.
fn arguments_name_mtp(args: &Vec<String>) -> (r: bool)
    ensures
        r == names_mtp(texts(args@)),
{
    let ghost t = texts(args@);
    let mut i: usize = 0;
    while i < args.len()
        invariant
            i <= args@.len(),
            t == texts(args@),
            forall|j: int| 0 <= j < i ==> #[trigger] t[j] != "--spec-type=draft-mtp"@,
            forall|j: int|
                0 <= j < i && j < t.len() - 1 && #[trigger] t[j] == "--spec-type"@ ==> t[j + 1]
                    != "draft-mtp"@,
        decreases args@.len() - i,
    {
        assert(t[i as int] == args@[i as int]@);
        if same_text(args[i].as_str(), "--spec-type=draft-mtp") {
            return true;
        }
        if i < args.len() - 1 && same_text(args[i].as_str(), "--spec-type") && same_text(
            args[i + 1].as_str(),
            "draft-mtp",
        ) {
            assert(t[i as int] == "--spec-type"@ && t[i + 1] == "draft-mtp"@);
            return true;
        }
        i += 1;
    }
    false
}

proof fn lemma_settings_change_push(
    s: Structured,
    xs: Seq<SettingView>,
    x: SettingView,
    near: Near,
)
    ensures
        settings_change(s, xs.push(x), near) == (settings_change(s, xs, near) || with_settings(
            s,
            xs.push(x),
            near,
        ) != with_settings(s, xs, near)),
{
    let ys = xs.push(x);
    assert(ys.take(ys.len() as int) =~= ys);
    assert(ys.take(xs.len() as int) =~= xs);
    if settings_change(s, xs, near) {
        let i = choose|i: int|
            0 <= i < xs.len() && #[trigger] with_settings(s, xs.take(i + 1), near) != with_settings(
                s,
                xs.take(i),
                near,
            );
        assert(xs.take(i + 1) =~= ys.take(i + 1));
        assert(xs.take(i) =~= ys.take(i));
        assert(with_settings(s, ys.take(i + 1), near) != with_settings(s, ys.take(i), near));
    }
    if with_settings(s, ys, near) != with_settings(s, xs, near) {
        let i = xs.len() as int;
        assert(with_settings(s, ys.take(i + 1), near) != with_settings(s, ys.take(i), near));
    }
    if settings_change(s, ys, near) {
        let i = choose|i: int|
            0 <= i < ys.len() && #[trigger] with_settings(s, ys.take(i + 1), near) != with_settings(
                s,
                ys.take(i),
                near,
            );
        if i < xs.len() {
            assert(xs.take(i + 1) =~= ys.take(i + 1));
            assert(xs.take(i) =~= ys.take(i));
            assert(with_settings(s, xs.take(i + 1), near) != with_settings(s, xs.take(i), near));
        }
    }
}

/// Whether two settings do not ask for different penalties.
pub open spec fn compatible(x: SettingView, y: SettingView) -> bool {
    &&& x is PresencePenalty && y is PresencePenalty ==> x == y
    &&& x is RepeatPenalty && y is RepeatPenalty ==> x == y
}

/// Whether no penalty is asked for with two different values.
pub open spec fn penalties_agree(xs: Seq<SettingView>) -> bool {
    forall|i: int, j: int|
        0 <= i < xs.len() && 0 <= j < xs.len() ==> #[trigger] compatible(xs[i], xs[j])
}

proof fn lemma_absorbs(s: Structured, xs: Seq<SettingView>, x: SettingView, near: Near)
    requires
        with_setting(s, x, near) == s,
        forall|i: int| 0 <= i < xs.len() ==> compatible(x, #[trigger] xs[i]),
    ensures
        with_setting(with_settings(s, xs, near), x, near) == with_settings(s, xs, near),
    decreases xs.len(),
{
    if xs.len() > 0 {
        assert forall|i: int| 0 <= i < xs.drop_last().len() implies compatible(
            x,
            #[trigger] xs.drop_last()[i],
        ) by {
            assert(xs.drop_last()[i] == xs[i]);
        }
        lemma_absorbs(s, xs.drop_last(), x, near);
        assert(compatible(x, xs[xs.len() - 1]));
    }
}

proof fn lemma_settings_split(s: Structured, xs: Seq<SettingView>, i: int, near: Near)
    requires
        0 <= i <= xs.len(),
    ensures
        with_settings(s, xs, near) == with_settings(
            with_settings(s, xs.take(i), near),
            xs.subrange(i, xs.len() as int),
            near,
        ),
    decreases xs.len(),
{
    if i == xs.len() {
        assert(xs.take(i) =~= xs);
        assert(xs.subrange(i, xs.len() as int) =~= Seq::<SettingView>::empty());
    } else {
        lemma_settings_split(s, xs.drop_last(), i, near);
        assert(xs.drop_last().take(i) =~= xs.take(i));
        assert(xs.subrange(i, xs.len() as int).drop_last() =~= xs.drop_last().subrange(
            i,
            xs.len() - 1,
        ));
    }
}

/// A second migration of the same arguments finds nothing left to do, unless
/// the arguments ask for one penalty with two different values.
pub proof fn law_migration_is_idempotent(
    s: Structured,
    xs: Seq<SettingView>,
    mtp: bool,
    near: Near,
)
    requires
        penalties_agree(xs),
    ensures
        ({
            let t = with_mtp_default(with_settings(s, xs, near), mtp);
            &&& with_mtp_default(with_settings(t, xs, near), mtp) == t
            &&& !settings_change(t, xs, near)
            &&& !(mtp && with_settings(t, xs, near).mtp_tokens is None)
        }),
{
    let u = with_settings(s, xs, near);
    let t = with_mtp_default(u, mtp);
    assert forall|i: int| 0 <= i < xs.len() implies with_setting(t, #[trigger] xs[i], near)
        == t by {
        let before = with_settings(s, xs.take(i), near);
        let after = with_settings(s, xs.take(i + 1), near);
        assert(xs.take(i + 1).drop_last() =~= xs.take(i));
        assert(after == with_setting(before, xs[i], near));
        let rest = xs.subrange(i + 1, xs.len() as int);
        assert forall|j: int| 0 <= j < rest.len() implies compatible(xs[i], #[trigger] rest[j]) by {
            assert(compatible(xs[i], xs[i + 1 + j]));
        }
        lemma_absorbs(after, rest, xs[i], near);
        lemma_settings_split(s, xs, i + 1, near);
        assert(with_setting(u, xs[i], near) == u);
    }
    lemma_all_absorbed(t, xs, near);
    assert forall|i: int| 0 <= i < xs.len() implies #[trigger] with_settings(
        t,
        xs.take(i + 1),
        near,
    ) == with_settings(t, xs.take(i), near) by {
        lemma_all_absorbed(t, xs.take(i + 1), near);
        lemma_all_absorbed(t, xs.take(i), near);
    }
}

proof fn lemma_all_absorbed(t: Structured, xs: Seq<SettingView>, near: Near)
    requires
        forall|i: int| 0 <= i < xs.len() ==> with_setting(t, #[trigger] xs[i], near) == t,
    ensures
        with_settings(t, xs, near) == t,
    decreases xs.len(),
{
    if xs.len() > 0 {
        assert forall|i: int| 0 <= i < xs.drop_last().len() implies with_setting(
            t,
            #[trigger] xs.drop_last()[i],
            near,
        ) == t by {
            assert(xs.drop_last()[i] == xs[i]);
        }
        lemma_all_absorbed(t, xs.drop_last(), near);
        assert(with_setting(t, xs[xs.len() - 1], near) == t);
    }
}

/// A value that the user set in a structured field survives every migration.
pub proof fn law_migration_keeps_structured_values(
    s: Structured,
    xs: Seq<SettingView>,
    near: Near,
)
    ensures
        ({
            let t = with_settings(s, xs, near);
            &&& s.threads is Some ==> t.threads == s.threads
            &&& s.cache_ram_mib is Some ==> t.cache_ram_mib == s.cache_ram_mib
            &&& s.reasoning_format is Some ==> t.reasoning_format == s.reasoning_format
            &&& s.reasoning_budget is Some ==> t.reasoning_budget == s.reasoning_budget
            &&& s.chat_template_kwargs is Some ==> t.chat_template_kwargs == s.chat_template_kwargs
            &&& s.mmproj_path is Some ==> t.mmproj_path == s.mmproj_path
            &&& s.mtp_tokens is Some ==> t.mtp_tokens == s.mtp_tokens
            &&& s.draft_max is Some ==> t.draft_max == s.draft_max
            &&& s.draft_min is Some ==> t.draft_min == s.draft_min
            &&& s.draft_p_min is Some ==> t.draft_p_min == s.draft_p_min
            &&& s.ctx_checkpoints is Some ==> t.ctx_checkpoints == s.ctx_checkpoints
            &&& s.checkpoint_min_step is Some ==> t.checkpoint_min_step == s.checkpoint_min_step
            &&& s.checkpoint_every_n_tokens is Some ==> t.checkpoint_every_n_tokens
                == s.checkpoint_every_n_tokens
        }),
    decreases xs.len(),
{
    if xs.len() > 0 {
        law_migration_keeps_structured_values(s, xs.drop_last(), near);
    }
}

/// A number that tells the flags apart.
spec fn stamp(s: Seq<char>) -> int {
    let n = s.len() as int;
    n * 4294967296 + (s[n - 1] as int) * 16777216 + (s[(2 * n) / 3] as int) * 65536 + (s[n / 5] as int)
        * 256 + (s[(3 * n) / 4] as int)
}

proof fn lemma_stamps()
    ensures
        stamp("--threads"@) == 40590454113,
        stamp("-t"@) == 10543705460,
        stamp("--cache-ram"@) == 49076331378,
        stamp("-cram"@) == 23309935457,
        stamp("--reasoning-budget"@) == 79262016885,
        stamp("--checkpoint-min-step"@) == 92080268654,
        stamp("--checkpoint-every-n-tokens"@) == 117896471341,
        stamp("-cpent"@) == 27723195246,
        stamp("--draft-max"@) == 49260881005,
        stamp("--draft"@) == 32017296742,
        stamp("--draft-n"@) == 40507813236,
        stamp("--spec-draft-n-min"@) == 79157882990,
        stamp("--draft-min"@) == 49093108845,
        stamp("--draft-n-min"@) == 57687303213,
        stamp("--ctx-checkpoints"@) == 74951193711,
        stamp("-ctxcp"@) == 27655365475,
        stamp("--swa-checkpoints"@) == 74951194479,
        stamp("--presence-penalty"@) == 79346102894,
        stamp("--repeat-penalty"@) == 70756164961,
        stamp("--spec-draft-p-min"@) == 79157882992,
        stamp("--draft-p-min"@) == 57687434285,
        stamp("--chat-template-kwargs"@) == 96425304427,
        stamp("--mmproj"@) == 36145605999,
        stamp("-mm"@) == 14720773485,
        stamp("--reasoning-format"@) == 79262279023,
        stamp("--spec-type"@) == 48946770809,
        stamp("--spec-draft-n-max"@) == 79325655150,
{
    reveal_strlit("--threads");
    reveal_strlit("-t");
    reveal_strlit("--cache-ram");
    reveal_strlit("-cram");
    reveal_strlit("--reasoning-budget");
    reveal_strlit("--checkpoint-min-step");
    reveal_strlit("--checkpoint-every-n-tokens");
    reveal_strlit("-cpent");
    reveal_strlit("--draft-max");
    reveal_strlit("--draft");
    reveal_strlit("--draft-n");
    reveal_strlit("--spec-draft-n-min");
    reveal_strlit("--draft-min");
    reveal_strlit("--draft-n-min");
    reveal_strlit("--ctx-checkpoints");
    reveal_strlit("-ctxcp");
    reveal_strlit("--swa-checkpoints");
    reveal_strlit("--presence-penalty");
    reveal_strlit("--repeat-penalty");
    reveal_strlit("--spec-draft-p-min");
    reveal_strlit("--draft-p-min");
    reveal_strlit("--chat-template-kwargs");
    reveal_strlit("--mmproj");
    reveal_strlit("-mm");
    reveal_strlit("--reasoning-format");
    reveal_strlit("--spec-type");
    reveal_strlit("--spec-draft-n-max");
}

/// Each flag that is known sets what it is for, from its own value alone, and
/// sets nothing where the value does not denote what the setting takes.
pub proof fn law_each_flag_sets_its_own_setting(
    value: Seq<char>,
    number: Option<NumberView>,
    mtp: bool,
    has_draft: bool,
)
    ensures
        setting_of("--threads"@, value, number, mtp, has_draft)
            == (match signed_between(value, -2147483648, 2147483647) {
            Some(n) => Some(SettingView::Threads(n as i32)),
            None => None,
        }),
        setting_of("-t"@, value, number, mtp, has_draft)
            == (match signed_between(value, -2147483648, 2147483647) {
            Some(n) => Some(SettingView::Threads(n as i32)),
            None => None,
        }),
        setting_of("--cache-ram"@, value, number, mtp, has_draft)
            == (match signed_between(value, -2147483648, 2147483647) {
            Some(n) => Some(SettingView::CacheRam(n as i32)),
            None => None,
        }),
        setting_of("-cram"@, value, number, mtp, has_draft)
            == (match signed_between(value, -2147483648, 2147483647) {
            Some(n) => Some(SettingView::CacheRam(n as i32)),
            None => None,
        }),
        setting_of("--reasoning-budget"@, value, number, mtp, has_draft)
            == (match signed_between(value, -2147483648, 2147483647) {
            Some(n) => Some(SettingView::ReasoningBudget(n as i32)),
            None => None,
        }),
        setting_of("--checkpoint-min-step"@, value, number, mtp, has_draft)
            == (match signed_between(value, -2147483648, 2147483647) {
            Some(n) => Some(SettingView::CheckpointMinStep(n as i32)),
            None => None,
        }),
        setting_of("--checkpoint-every-n-tokens"@, value, number, mtp, has_draft)
            == (match signed_between(value, -2147483648, 2147483647) {
            Some(n) => Some(SettingView::CheckpointEveryNTokens(n as i32)),
            None => None,
        }),
        setting_of("-cpent"@, value, number, mtp, has_draft)
            == (match signed_between(value, -2147483648, 2147483647) {
            Some(n) => Some(SettingView::CheckpointEveryNTokens(n as i32)),
            None => None,
        }),
        setting_of("--draft-max"@, value, number, mtp, has_draft)
            == (match unsigned_up_to(value, 4294967295) {
            Some(n) => Some(SettingView::DraftMax(n as u32)),
            None => None,
        }),
        setting_of("--draft"@, value, number, mtp, has_draft)
            == (match unsigned_up_to(value, 4294967295) {
            Some(n) => Some(SettingView::DraftMax(n as u32)),
            None => None,
        }),
        setting_of("--draft-n"@, value, number, mtp, has_draft)
            == (match unsigned_up_to(value, 4294967295) {
            Some(n) => Some(SettingView::DraftMax(n as u32)),
            None => None,
        }),
        setting_of("--spec-draft-n-min"@, value, number, mtp, has_draft)
            == (match unsigned_up_to(value, 4294967295) {
            Some(n) => Some(SettingView::DraftMin(n as u32)),
            None => None,
        }),
        setting_of("--draft-min"@, value, number, mtp, has_draft)
            == (match unsigned_up_to(value, 4294967295) {
            Some(n) => Some(SettingView::DraftMin(n as u32)),
            None => None,
        }),
        setting_of("--draft-n-min"@, value, number, mtp, has_draft)
            == (match unsigned_up_to(value, 4294967295) {
            Some(n) => Some(SettingView::DraftMin(n as u32)),
            None => None,
        }),
        setting_of("--ctx-checkpoints"@, value, number, mtp, has_draft)
            == (match unsigned_up_to(value, 4294967295) {
            Some(n) => Some(SettingView::CtxCheckpoints(n as u32)),
            None => None,
        }),
        setting_of("-ctxcp"@, value, number, mtp, has_draft)
            == (match unsigned_up_to(value, 4294967295) {
            Some(n) => Some(SettingView::CtxCheckpoints(n as u32)),
            None => None,
        }),
        setting_of("--swa-checkpoints"@, value, number, mtp, has_draft)
            == (match unsigned_up_to(value, 4294967295) {
            Some(n) => Some(SettingView::CtxCheckpoints(n as u32)),
            None => None,
        }),
        setting_of("--presence-penalty"@, value, number, mtp, has_draft) == (match number {
            Some(n) => Some(SettingView::PresencePenalty(n)),
            None => None,
        }),
        setting_of("--repeat-penalty"@, value, number, mtp, has_draft) == (match number {
            Some(n) => Some(SettingView::RepeatPenalty(n)),
            None => None,
        }),
        setting_of("--spec-draft-p-min"@, value, number, mtp, has_draft) == (match number {
            Some(n) => Some(SettingView::DraftPMin(n)),
            None => None,
        }),
        setting_of("--draft-p-min"@, value, number, mtp, has_draft) == (match number {
            Some(n) => Some(SettingView::DraftPMin(n)),
            None => None,
        }),
        setting_of("--chat-template-kwargs"@, value, number, mtp, has_draft)
            == Some(SettingView::ChatTemplateKwargs(value)),
        setting_of("--mmproj"@, value, number, mtp, has_draft) == Some(SettingView::Mmproj(value)),
        setting_of("-mm"@, value, number, mtp, has_draft) == Some(SettingView::Mmproj(value)),
        setting_of("--spec-draft-n-max"@, value, number, mtp, has_draft)
            == (match unsigned_up_to(value, 4294967295) {
            Some(n) => Some(
                if mtp {
                    SettingView::MtpTokens(n as u32)
                } else {
                    SettingView::DraftMax(n as u32)
                },
            ),
            None => None,
        }),
        setting_of("--spec-type"@, value, number, mtp, has_draft)
            == (if value == "draft-mtp"@ && !has_draft {
            Some(SettingView::SpecType)
        } else {
            None
        }),
        value == "none"@ ==> setting_of("--reasoning-format"@, value, number, mtp, has_draft)
            == Some(SettingView::Reasoning(ReasoningFormat::NoFormat)),
        value == "auto"@ ==> setting_of("--reasoning-format"@, value, number, mtp, has_draft)
            == Some(SettingView::Reasoning(ReasoningFormat::Auto)),
        value == "deepseek"@ ==> setting_of("--reasoning-format"@, value, number, mtp, has_draft)
            == Some(SettingView::Reasoning(ReasoningFormat::Deepseek)),
        value == "deepseek-legacy"@ ==> setting_of("--reasoning-format"@, value, number, mtp, has_draft)
            == Some(SettingView::Reasoning(ReasoningFormat::DeepseekLegacy)),
{
    lemma_stamps();
    reveal_strlit("none");
    reveal_strlit("auto");
    reveal_strlit("deepseek");
    reveal_strlit("deepseek-legacy");
}

/// A setting fills its own field where that is empty, keeps it where it is set,
/// and touches no other field. A penalty is replaced unless the new one lies
/// near to it.
pub proof fn law_a_setting_touches_its_own_field(s: Structured, x: SettingView, near: Near)
    ensures
        ({
            let t = with_setting(s, x, near);
            &&& (if x is Threads && s.threads is None {
                t.threads == Some(x->Threads_0)
            } else {
                t.threads == s.threads
            })
            &&& (if x is CacheRam && s.cache_ram_mib is None {
                t.cache_ram_mib == Some(x->CacheRam_0)
            } else {
                t.cache_ram_mib == s.cache_ram_mib
            })
            &&& (if x is Reasoning && s.reasoning_format is None {
                t.reasoning_format == Some(x->Reasoning_0)
            } else {
                t.reasoning_format == s.reasoning_format
            })
            &&& (if x is ReasoningBudget && s.reasoning_budget is None {
                t.reasoning_budget == Some(x->ReasoningBudget_0)
            } else {
                t.reasoning_budget == s.reasoning_budget
            })
            &&& (if x is ChatTemplateKwargs && s.chat_template_kwargs is None {
                t.chat_template_kwargs == Some(x->ChatTemplateKwargs_0)
            } else {
                t.chat_template_kwargs == s.chat_template_kwargs
            })
            &&& (if x is Mmproj && s.mmproj_path is None {
                t.mmproj_path == Some(x->Mmproj_0)
            } else {
                t.mmproj_path == s.mmproj_path
            })
            &&& (if x is MtpTokens && s.mtp_tokens is None {
                t.mtp_tokens == Some(x->MtpTokens_0)
            } else {
                t.mtp_tokens == s.mtp_tokens
            })
            &&& (if x is DraftMax && s.draft_max is None {
                t.draft_max == Some(x->DraftMax_0)
            } else {
                t.draft_max == s.draft_max
            })
            &&& (if x is DraftMin && s.draft_min is None {
                t.draft_min == Some(x->DraftMin_0)
            } else {
                t.draft_min == s.draft_min
            })
            &&& (if x is DraftPMin && s.draft_p_min is None {
                t.draft_p_min == Some(x->DraftPMin_0)
            } else {
                t.draft_p_min == s.draft_p_min
            })
            &&& (if x is CtxCheckpoints && s.ctx_checkpoints is None {
                t.ctx_checkpoints == Some(x->CtxCheckpoints_0)
            } else {
                t.ctx_checkpoints == s.ctx_checkpoints
            })
            &&& (if x is CheckpointMinStep && s.checkpoint_min_step is None {
                t.checkpoint_min_step == Some(x->CheckpointMinStep_0)
            } else {
                t.checkpoint_min_step == s.checkpoint_min_step
            })
            &&& (if x is CheckpointEveryNTokens && s.checkpoint_every_n_tokens is None {
                t.checkpoint_every_n_tokens == Some(x->CheckpointEveryNTokens_0)
            } else {
                t.checkpoint_every_n_tokens == s.checkpoint_every_n_tokens
            })
            &&& (if x is PresencePenalty && !near.contains((s.presence_penalty, x->PresencePenalty_0)) {
                t.presence_penalty == x->PresencePenalty_0
            } else {
                t.presence_penalty == s.presence_penalty
            })
            &&& (if x is RepeatPenalty && !near.contains((s.repeat_penalty, x->RepeatPenalty_0)) {
                t.repeat_penalty == x->RepeatPenalty_0
            } else {
                t.repeat_penalty == s.repeat_penalty
            })
        }),
{
}

/// The raw arguments are read from the front to the back: a known flag with its
/// value is one setting, and anything else is passed over by itself.
pub proof fn law_arguments_are_read_in_order(
    args: Seq<Seq<char>>,
    numbers: Seq<Option<NumberView>>,
    mtp: bool,
    has_draft: bool,
    i: int,
)
    requires
        0 <= i,
        i + 1 < args.len(),
        numbers.len() == args.len(),
    ensures
        ({
            let all = settings_from(args, numbers, mtp, has_draft, i);
            match setting_of(args[i], args[i + 1], numbers[i + 1], mtp, has_draft) {
                Some(x) => all.len() > 0 && all[0] == x && all.drop_first() == settings_from(
                    args,
                    numbers,
                    mtp,
                    has_draft,
                    i + 2,
                ),
                None => all == settings_from(args, numbers, mtp, has_draft, i + 1),
            }
        }),
        settings_from(args, numbers, mtp, has_draft, args.len() - 1).len() == 0,
{
    let all = settings_from(args, numbers, mtp, has_draft, i);
    match setting_of(args[i], args[i + 1], numbers[i + 1], mtp, has_draft) {
        Some(x) => {
            assert(all.drop_first() =~= settings_from(args, numbers, mtp, has_draft, i + 2));
        },
        None => {},
    }
}

/// Drafting with the model's own heads counts with three tokens where nothing
/// else is said, and is asked for by either way of writing the flag.
pub proof fn law_own_heads_draft_three_tokens(s: Structured, args: Seq<Seq<char>>, i: int)
    requires
        0 <= i < args.len(),
    ensures
        with_mtp_default(s, true).mtp_tokens == (if s.mtp_tokens is Some {
            s.mtp_tokens
        } else {
            Some(3u32)
        }),
        with_mtp_default(s, false) == s,
        args[i] == "--spec-type=draft-mtp"@ ==> names_mtp(args),
        i + 1 < args.len() && args[i] == "--spec-type"@ && args[i + 1] == "draft-mtp"@ ==> names_mtp(
            args,
        ),
{
}

} // verus!
