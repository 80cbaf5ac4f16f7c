//! Model definitions.
use vstd::prelude::*;
use vstd::string::*;

use crate::table::Keyed;
use crate::text::same_text;

verus! {

broadcast use vstd::string::group_string_axioms;

/// A decimal number as it stands in configuration and on command lines: its
/// shortest decimal text, and whether it is greater than zero.
pub struct Number {
    pub text: String,
    pub positive: bool,
}

/// The mathematical content of a `Number`.
pub struct NumberView {
    pub text: Seq<char>,
    pub positive: bool,
}

impl View for Number {
    type V = NumberView;

    open spec fn view(&self) -> NumberView {
        NumberView { text: self.text@, positive: self.positive }
    }
}

impl Clone for Number {
    fn clone(&self) -> (r: Self)
        ensures
            r == *self,
    {
        Number { text: self.text.clone(), positive: self.positive }
    }
}

impl Number {
    /// A number with the given text.
    pub fn new(text: &str, positive: bool) -> (r: Number)
        ensures
            r@ == (NumberView { text: text@, positive }),
    {
        Number { text: text.to_owned(), positive }
    }

    /// Whether two numbers are the same.
    pub fn same(&self, other: &Number) -> (r: bool)
        ensures
            r == (self@ == other@),
    {
        self.text == other.text && self.positive == other.positive
    }
}

/// The content of an optional number.
pub open spec fn option_number(n: Option<Number>) -> Option<NumberView> {
    match n {
        Some(x) => Some(x@),
        None => None,
    }
}

/// Whether a number is zero, with or without a sign.
pub open spec fn is_zero(n: NumberView) -> bool {
    n.text == "0"@ || n.text == "-0"@
}

/// Whether two numbers are equal. Zero has two signs, and what is no number
/// equals nothing.
pub open spec fn equal_numbers(a: NumberView, b: NumberView) -> bool {
    a.text != "NaN"@ && (a == b || is_zero(a) && is_zero(b))
}

impl Number {
    fn zero(&self) -> (r: bool)
        ensures
            r == is_zero(self@),
    {
        same_text(self.text.as_str(), "0") || same_text(self.text.as_str(), "-0")
    }

    /// Whether two numbers are equal.
    pub fn equals(&self, other: &Number) -> (r: bool)
        ensures
            r == equal_numbers(self@, other@),
    {
        !same_text(self.text.as_str(), "NaN") && (self.same(other) || self.zero() && other.zero())
    }
}

/// Whether two optional numbers are both absent or equal.
pub open spec fn equal_options(a: Option<NumberView>, b: Option<NumberView>) -> bool {
    match (a, b) {
        (Some(x), Some(y)) => equal_numbers(x, y),
        (None, None) => true,
        _ => false,
    }
}

/// Whether two optional numbers are both absent or equal.
pub fn same_option_number(a: &Option<Number>, b: &Option<Number>) -> (r: bool)
    ensures
        r == equal_options(option_number(*a), option_number(*b)),
{
    match (a, b) {
        (Some(x), Some(y)) => x.equals(y),
        (None, None) => true,
        _ => false,
    }
}

pub fn default_temperature() -> (r: Number)
    ensures
        r@ == (NumberView { text: "0.6"@, positive: true }),
{
    Number::new("0.6", true)
}

pub fn default_top_p() -> (r: Number)
    ensures
        r@ == (NumberView { text: "0.95"@, positive: true }),
{
    Number::new("0.95", true)
}

pub fn default_top_k() -> (r: i32)
    ensures
        r == 40,
{
    40
}

pub fn default_min_p() -> (r: Number)
    ensures
        r@ == (NumberView { text: "0"@, positive: false }),
{
    Number::new("0", false)
}

pub fn default_presence_penalty() -> (r: Number)
    ensures
        r@ == (NumberView { text: "0"@, positive: false }),
{
    Number::new("0", false)
}

pub fn default_repeat_penalty() -> (r: Number)
    ensures
        r@ == (NumberView { text: "1"@, positive: true }),
{
    Number::new("1", true)
}

/// Weights file format. It decides the command line of the backend.
#[derive(Debug, Clone, Copy, PartialEq, Eq, Structural)]
pub enum WeightsFormat {
    /// A single file for llama.cpp.
    Gguf,
    /// A directory for vLLM.
    Safetensors,
}

impl Default for WeightsFormat {
    fn default() -> (r: Self)
        ensures
            r == WeightsFormat::Gguf,
    {
        WeightsFormat::Gguf
    }
}

/// Runtime state of a model.
#[derive(Debug)]
pub enum ModelState {
    Idle,
    Loading,
    Running,
    Error(String),
}

impl Default for ModelState {
    fn default() -> (r: Self)
        ensures
            r == ModelState::Idle,
    {
        ModelState::Idle
    }
}

impl Clone for ModelState {
    fn clone(&self) -> (r: Self)
        ensures
            r == *self,
    {
        match self {
            ModelState::Idle => ModelState::Idle,
            ModelState::Loading => ModelState::Loading,
            ModelState::Running => ModelState::Running,
            ModelState::Error(m) => ModelState::Error(m.clone()),
        }
    }
}

impl ModelState {
    /// Whether a backend process may exist for a model in this state.
    pub open spec fn live(&self) -> bool {
        *self is Running || *self is Loading
    }

    /// Whether a backend process may exist for a model in this state.
    pub fn is_live(&self) -> (r: bool)
        ensures
            r == self.live(),
    {
        match self {
            ModelState::Running => true,
            ModelState::Loading => true,
            _ => false,
        }
    }

    /// Whether the model serves requests.
    pub fn is_running(&self) -> (r: bool)
        ensures
            r == (*self is Running),
    {
        match self {
            ModelState::Running => true,
            _ => false,
        }
    }
}

/// How llama.cpp splits a model across several GPUs.
#[derive(Debug, Clone, Copy, PartialEq, Eq, Structural)]
pub enum SplitMode {
    /// A single GPU.
    NoSplit,
    Layer,
    Row,
    Tensor,
}

/// How thought tags are returned in a response.
#[derive(Debug, Clone, Copy, PartialEq, Eq, Structural)]
pub enum ReasoningFormat {
    /// Thought tags are left in the text.
    NoFormat,
    Auto,
    Deepseek,
    DeepseekLegacy,
}

impl ReasoningFormat {
    /// The word for this format on the command line.
    pub open spec fn arg(&self) -> Seq<char> {
        match self {
            ReasoningFormat::NoFormat => "none"@,
            ReasoningFormat::Auto => "auto"@,
            ReasoningFormat::Deepseek => "deepseek"@,
            ReasoningFormat::DeepseekLegacy => "deepseek-legacy"@,
        }
    }

    /// The format that a command line word names.
    pub open spec fn of_cli(s: Seq<char>) -> Option<ReasoningFormat> {
        if s == "none"@ {
            Some(ReasoningFormat::NoFormat)
        } else if s == "auto"@ {
            Some(ReasoningFormat::Auto)
        } else if s == "deepseek"@ {
            Some(ReasoningFormat::Deepseek)
        } else if s == "deepseek-legacy"@ {
            Some(ReasoningFormat::DeepseekLegacy)
        } else {
            None
        }
    }

    /// The word for this format on the command line.
    pub fn as_arg(&self) -> (r: &'static str)
        ensures
            r@ == self.arg(),
    {
        match self {
            ReasoningFormat::NoFormat => "none",
            ReasoningFormat::Auto => "auto",
            ReasoningFormat::Deepseek => "deepseek",
            ReasoningFormat::DeepseekLegacy => "deepseek-legacy",
        }
    }

    /// The format that a command line word names.
    pub fn from_cli(s: &str) -> (r: Option<ReasoningFormat>)
        ensures
            r == Self::of_cli(s@),
    {
        if same_text(s, "none") {
            Some(ReasoningFormat::NoFormat)
        } else if same_text(s, "auto") {
            Some(ReasoningFormat::Auto)
        } else if same_text(s, "deepseek") {
            Some(ReasoningFormat::Deepseek)
        } else if same_text(s, "deepseek-legacy") {
            Some(ReasoningFormat::DeepseekLegacy)
        } else {
            None
        }
    }
}

/// Every format is found again under its command line word.
pub proof fn law_reasoning_format_round_trip(f: ReasoningFormat)
    ensures
        ReasoningFormat::of_cli(f.arg()) == Some(f),
{
    reveal_strlit("none");
    reveal_strlit("auto");
    reveal_strlit("deepseek");
    reveal_strlit("deepseek-legacy");
    assert("none"@[0] == 'n' && "auto"@[0] == 'a');
    assert("deepseek"@[0] == 'd' && "deepseek-legacy"@[0] == 'd');
    assert("deepseek"@.len() == 8 && "deepseek-legacy"@.len() == 15);
}

/// Quantization of the key-value cache.
#[derive(Debug, Clone, Copy, PartialEq, Eq, Structural)]
pub enum CacheType {
    F16,
    Q8_0,
    Q4_0,
}

impl Default for CacheType {
    fn default() -> (r: Self)
        ensures
            r == CacheType::F16,
    {
        CacheType::F16
    }
}

impl CacheType {
    /// The word for this type on the command line.
    pub open spec fn arg(&self) -> Seq<char> {
        match self {
            CacheType::F16 => "f16"@,
            CacheType::Q8_0 => "q8_0"@,
            CacheType::Q4_0 => "q4_0"@,
        }
    }

    /// The word for this type on the command line.
    pub fn as_arg(&self) -> (r: &'static str)
        ensures
            r@ == self.arg(),
    {
        match self {
            CacheType::F16 => "f16",
            CacheType::Q8_0 => "q8_0",
            CacheType::Q4_0 => "q4_0",
        }
    }
}

/// Metadata of a GGUF file, as far as it is kept with a model.
#[derive(Debug)]
pub struct GgufMeta {
    pub max_context: u32,
    pub n_layers: u32,
    pub n_embd: u32,
    pub n_head: u32,
    pub n_head_kv: u32,
    pub key_length: u32,
    pub key_length_swa: u32,
    pub full_kv_heads: u32,
    pub swa_kv_heads: u32,
    pub kv_heads_total: u32,
    pub sliding_window: u32,
    pub file_size: u64,
    pub quant_label: Option<String>,
    pub expert_count: Option<u32>,
    pub expert_used_count: Option<u32>,
    pub suggested_id: String,
    pub suggested_name: String,
}

impl Clone for GgufMeta {
    fn clone(&self) -> (r: Self)
        ensures
            r == *self,
    {
        GgufMeta {
            quant_label: self.quant_label.clone(),
            suggested_id: self.suggested_id.clone(),
            suggested_name: self.suggested_name.clone(),
            max_context: self.max_context,
            n_layers: self.n_layers,
            n_embd: self.n_embd,
            n_head: self.n_head,
            n_head_kv: self.n_head_kv,
            key_length: self.key_length,
            key_length_swa: self.key_length_swa,
            full_kv_heads: self.full_kv_heads,
            swa_kv_heads: self.swa_kv_heads,
            kv_heads_total: self.kv_heads_total,
            sliding_window: self.sliding_window,
            file_size: self.file_size,
            expert_count: self.expert_count,
            expert_used_count: self.expert_used_count,
        }
    }
}

/// One configured model. Paths are held as text.
pub struct ModelConfig {
    pub id: String,
    pub name: String,
    pub profile: Option<String>,
    pub weights_format: WeightsFormat,
    /// Looked up in the presets at spawn time; where absent, `binary` is used.
    pub binary_preset: Option<String>,
    pub binary: String,
    pub model_path: String,
    pub mmproj_path: Option<String>,
    /// Owned by the user; appended to the command line as they stand.
    pub extra_args: Vec<String>,
    pub context: u32,
    pub temperature: Number,
    pub top_p: Number,
    pub top_k: i32,
    pub min_p: Number,
    pub presence_penalty: Number,
    pub repeat_penalty: Number,
    pub flash_attn: bool,
    /// Set at load time from the fit probe.
    pub n_gpu_layers: Option<u32>,
    pub n_cpu_moe: Option<u32>,
    /// Set at load time from the fit probe.
    pub override_tensor: Option<String>,
    /// Set at load time for servers that fit themselves.
    pub fit_target: Option<String>,
    pub fit_target_margin_mib: Option<u32>,
    pub mlock: bool,
    pub no_mmap: bool,
    pub parallel_slots: Option<u32>,
    pub cache_type_k: Option<CacheType>,
    pub cache_type_v: Option<CacheType>,
    pub split_mode: Option<SplitMode>,
    pub main_gpu: Option<u32>,
    /// Set at load time from the fit probe.
    pub tensor_split: Option<String>,
    pub threads: Option<i32>,
    pub cache_ram_mib: Option<i32>,
    pub reasoning_format: Option<ReasoningFormat>,
    pub reasoning_budget: Option<i32>,
    pub chat_template_kwargs: Option<String>,
    /// Set at load time from the chosen GPUs.
    pub device: Option<String>,
    /// Another model used as a draft for speculative decoding.
    pub draft_model_id: Option<String>,
    pub mtp_tokens: Option<u32>,
    pub draft_max: Option<u32>,
    pub draft_min: Option<u32>,
    pub draft_p_min: Option<Number>,
    pub ctx_checkpoints: Option<u32>,
    pub checkpoint_min_step: Option<i32>,
    pub checkpoint_every_n_tokens: Option<i32>,
    pub state: ModelState,
    pub pid: Option<i32>,
    pub estimated_vram: u64,
    /// Microseconds since the epoch.
    pub last_used: Option<u64>,
    pub gguf_meta: Option<GgufMeta>,
}

/// The texts of a list of strings, cloned.
pub fn clone_texts(v: &Vec<String>) -> (r: Vec<String>)
    ensures
        r@ == v@,
{
    let r = v.clone();
    assert(r@ =~= v@);
    r
}

impl ModelConfig {
    /// Whether two definitions hold the same values.
    pub open spec fn like(&self, other: &ModelConfig) -> bool {
        &&& self.extra_args@ == other.extra_args@
        &&& *self == (ModelConfig { extra_args: self.extra_args, ..*other })
    }
}

impl Clone for ModelConfig {
    fn clone(&self) -> (r: Self)
        ensures
            r.like(self),
    {
        ModelConfig {
            id: self.id.clone(),
            name: self.name.clone(),
            profile: self.profile.clone(),
            weights_format: self.weights_format,
            binary_preset: self.binary_preset.clone(),
            binary: self.binary.clone(),
            model_path: self.model_path.clone(),
            mmproj_path: self.mmproj_path.clone(),
            extra_args: clone_texts(&self.extra_args),
            context: self.context,
            temperature: self.temperature.clone(),
            top_p: self.top_p.clone(),
            top_k: self.top_k,
            min_p: self.min_p.clone(),
            presence_penalty: self.presence_penalty.clone(),
            repeat_penalty: self.repeat_penalty.clone(),
            flash_attn: self.flash_attn,
            n_gpu_layers: self.n_gpu_layers,
            n_cpu_moe: self.n_cpu_moe,
            override_tensor: self.override_tensor.clone(),
            fit_target: self.fit_target.clone(),
            fit_target_margin_mib: self.fit_target_margin_mib,
            mlock: self.mlock,
            no_mmap: self.no_mmap,
            parallel_slots: self.parallel_slots,
            cache_type_k: self.cache_type_k,
            cache_type_v: self.cache_type_v,
            split_mode: self.split_mode,
            main_gpu: self.main_gpu,
            tensor_split: self.tensor_split.clone(),
            threads: self.threads,
            cache_ram_mib: self.cache_ram_mib,
            reasoning_format: self.reasoning_format,
            reasoning_budget: self.reasoning_budget,
            chat_template_kwargs: self.chat_template_kwargs.clone(),
            device: self.device.clone(),
            draft_model_id: self.draft_model_id.clone(),
            mtp_tokens: self.mtp_tokens,
            draft_max: self.draft_max,
            draft_min: self.draft_min,
            draft_p_min: self.draft_p_min.clone(),
            ctx_checkpoints: self.ctx_checkpoints,
            checkpoint_min_step: self.checkpoint_min_step,
            checkpoint_every_n_tokens: self.checkpoint_every_n_tokens,
            state: self.state.clone(),
            pid: self.pid,
            estimated_vram: self.estimated_vram,
            last_used: self.last_used,
            gguf_meta: self.gguf_meta.clone(),
        }
    }
}

impl Keyed for ModelConfig {
    open spec fn key(&self) -> Seq<char> {
        self.id@
    }

    fn name_of(&self) -> (r: &String) {
        &self.id
    }
}

/// Whether a model is blank: GGUF, with llama.cpp's sampling defaults.
pub open spec fn is_blank(m: ModelConfig) -> bool {
    &&& m.id@ == ""@
    &&& m.name@ == ""@
    &&& m.binary@ == ""@
    &&& m.model_path@ == ""@
    &&& m.extra_args@.len() == 0
    &&& m.temperature@ == (NumberView { text: "0.6"@, positive: true })
    &&& m.top_p@ == (NumberView { text: "0.95"@, positive: true })
    &&& m.min_p@ == (NumberView { text: "0"@, positive: false })
    &&& m.presence_penalty@ == (NumberView { text: "0"@, positive: false })
    &&& m.repeat_penalty@ == (NumberView { text: "1"@, positive: true })
    &&& m == (ModelConfig {
        profile: None,
        weights_format: WeightsFormat::Gguf,
        binary_preset: None,
        mmproj_path: None,
        context: 4096,
        top_k: 40,
        flash_attn: false,
        n_gpu_layers: None,
        n_cpu_moe: None,
        override_tensor: None,
        fit_target: None,
        fit_target_margin_mib: None,
        mlock: false,
        no_mmap: false,
        parallel_slots: None,
        cache_type_k: None,
        cache_type_v: None,
        split_mode: None,
        main_gpu: None,
        tensor_split: None,
        threads: None,
        cache_ram_mib: None,
        reasoning_format: None,
        reasoning_budget: None,
        chat_template_kwargs: None,
        device: None,
        draft_model_id: None,
        mtp_tokens: None,
        draft_max: None,
        draft_min: None,
        draft_p_min: None,
        ctx_checkpoints: None,
        checkpoint_min_step: None,
        checkpoint_every_n_tokens: None,
        state: ModelState::Idle,
        pid: None,
        estimated_vram: 0,
        last_used: None,
        gguf_meta: None,
        ..m
    })
}

impl Default for ModelConfig {
    /// A blank GGUF model with llama.cpp's sampling defaults.
    fn default() -> (r: Self)
        ensures
            is_blank(r),
    {
        proof {
            reveal_strlit("");
            assert(""@ =~= Seq::<char>::empty());
        }
        ModelConfig {
            id: String::new(),
            name: String::new(),
            profile: None,
            weights_format: WeightsFormat::Gguf,
            binary_preset: None,
            binary: String::new(),
            model_path: String::new(),
            mmproj_path: None,
            extra_args: Vec::new(),
            context: 4096,
            temperature: default_temperature(),
            top_p: default_top_p(),
            top_k: default_top_k(),
            min_p: default_min_p(),
            presence_penalty: default_presence_penalty(),
            repeat_penalty: default_repeat_penalty(),
            flash_attn: false,
            n_gpu_layers: None,
            n_cpu_moe: None,
            override_tensor: None,
            fit_target: None,
            fit_target_margin_mib: None,
            mlock: false,
            no_mmap: false,
            parallel_slots: None,
            cache_type_k: None,
            cache_type_v: None,
            split_mode: None,
            main_gpu: None,
            tensor_split: None,
            threads: None,
            cache_ram_mib: None,
            reasoning_format: None,
            reasoning_budget: None,
            chat_template_kwargs: None,
            device: None,
            draft_model_id: None,
            mtp_tokens: None,
            draft_max: None,
            draft_min: None,
            draft_p_min: None,
            ctx_checkpoints: None,
            checkpoint_min_step: None,
            checkpoint_every_n_tokens: None,
            state: ModelState::Idle,
            pid: None,
            estimated_vram: 0,
            last_used: None,
            gguf_meta: None,
        }
    }
}

/// Why a model definition is refused.
#[derive(Debug)]
pub enum ConfigError {
    DraftNotFound { id: String },
    DraftSelfReference,
}

/// The sum of file sizes, held at the greatest value where it would exceed it.
pub fn saturating_sum_bytes(sizes: &[u64]) -> (r: u64)
    ensures
        r == (if size_sum(sizes@) <= u64::MAX {
            size_sum(sizes@)
        } else {
            u64::MAX as int
        }),
{
    let mut total: u64 = 0;
    let mut i: usize = 0;
    while i < sizes.len()
        invariant
            i <= sizes@.len(),
            total == (if size_sum(sizes@.take(i as int)) <= u64::MAX {
                size_sum(sizes@.take(i as int))
            } else {
                u64::MAX as int
            }),
        decreases sizes@.len() - i,
    {
        assert(sizes@.take(i + 1).drop_last() =~= sizes@.take(i as int));
        total = total.saturating_add(sizes[i]);
        i += 1;
    }
    assert(sizes@.take(i as int) =~= sizes@);
    total
}

/// The sum of a list of sizes.
pub open spec fn size_sum(s: Seq<u64>) -> int
    decreases s.len(),
{
    if s.len() == 0 {
        0
    } else {
        size_sum(s.drop_last()) + s.last()
    }
}

} // verus!
