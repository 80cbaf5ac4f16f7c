//! Command lines of inference servers.
use vstd::prelude::*;
use vstd::string::*;

use crate::config::model::{CacheType, ModelConfig, Number, ReasoningFormat, WeightsFormat};
use crate::text::{
    after_prefix, decimal, decimal_int, decimal_text, decimal_text_signed, option_text, same_text,
    same_text_ignoring_case, same_ignoring_case, strip_prefix_text, texts,
};

verus! {

broadcast use vstd::string::group_string_axioms;

/// A list of arguments as texts.
pub type Args = Seq<Seq<char>>;

/// The list with a lone flag at its end, where `on`.
pub open spec fn with_switch(a: Args, on: bool, flag: Seq<char>) -> Args {
    if on {
        a.push(flag)
    } else {
        a
    }
}

/// The list with a flag and its value at its end.
pub open spec fn with_flag(a: Args, flag: Seq<char>, value: Seq<char>) -> Args {
    a.push(flag).push(value)
}

/// The list with a flag and its value at its end, where there is a value.
pub open spec fn with_option(a: Args, flag: Seq<char>, value: Option<Seq<char>>) -> Args {
    match value {
        Some(v) => with_flag(a, flag, v),
        None => a,
    }
}

pub open spec fn u32_text(n: Option<u32>) -> Option<Seq<char>> {
    match n {
        Some(x) => Some(decimal(x as nat)),
        None => None,
    }
}

pub open spec fn i32_text(n: Option<i32>) -> Option<Seq<char>> {
    match n {
        Some(x) => Some(decimal_int(x as int)),
        None => None,
    }
}

pub open spec fn cache_text(c: Option<CacheType>) -> Option<Seq<char>> {
    match c {
        Some(x) => Some(x.arg()),
        None => None,
    }
}

pub open spec fn reasoning_text(f: Option<ReasoningFormat>) -> Option<Seq<char>> {
    match f {
        Some(x) => Some(x.arg()),
        None => None,
    }
}

pub open spec fn number_text(n: Option<Number>) -> Option<Seq<char>> {
    match n {
        Some(x) => Some(x.text@),
        None => None,
    }
}

/// Whether the fit probe has settled where the layers go.
pub open spec fn has_fitted_placement(m: &ModelConfig) -> bool {
    m.n_gpu_layers is Some || m.tensor_split is Some || m.override_tensor is Some
}

/// What is served, where, and how it samples.
pub open spec fn sampling_args(m: &ModelConfig, port: u16) -> Args {
    let a = with_flag(Seq::empty(), "-m"@, m.model_path@);
    let a = with_flag(a, "-c"@, decimal(m.context as nat));
    let a = with_flag(a, "--port"@, decimal(port as nat));
    let a = with_flag(a, "--temp"@, m.temperature.text@);
    let a = with_flag(a, "--top-p"@, m.top_p.text@);
    let a = with_flag(a, "--top-k"@, decimal_int(m.top_k as int));
    let a = with_option(
        a,
        "--min-p"@,
        if m.min_p.positive {
            Some(m.min_p.text@)
        } else {
            None
        },
    );
    let a = with_flag(a, "--presence-penalty"@, m.presence_penalty.text@);
    with_flag(a, "--repeat-penalty"@, m.repeat_penalty.text@)
}

/// Memory and placement.
pub open spec fn with_placement_args(a: Args, m: &ModelConfig) -> Args {
    let a = with_flag(
        a,
        "--flash-attn"@,
        if m.flash_attn {
            "on"@
        } else {
            "off"@
        },
    );
    let a = with_option(a, "-ngl"@, u32_text(m.n_gpu_layers));
    let a = with_option(a, "--override-tensor"@, option_text(m.override_tensor));
    let a = with_switch(a, m.mlock, "--mlock"@);
    let a = with_switch(a, m.no_mmap, "--no-mmap"@);
    let a = with_option(a, "--parallel"@, u32_text(m.parallel_slots));
    let a = with_option(a, "--cache-type-k"@, cache_text(m.cache_type_k));
    let a = with_option(a, "--cache-type-v"@, cache_text(m.cache_type_v));
    let a = with_option(a, "--tensor-split"@, option_text(m.tensor_split));
    let a = with_option(a, "--device"@, option_text(m.device));
    let a = with_option(a, "--fit-target"@, option_text(m.fit_target));
    with_option(
        a,
        "--fit"@,
        if has_fitted_placement(m) {
            Some("off"@)
        } else {
            None
        },
    )
}

/// Threads, caches, reasoning and templates.
pub open spec fn with_runtime_args(a: Args, m: &ModelConfig) -> Args {
    let a = with_option(a, "--threads"@, i32_text(m.threads));
    let a = with_option(a, "--cache-ram"@, i32_text(m.cache_ram_mib));
    let a = with_option(a, "--reasoning-format"@, reasoning_text(m.reasoning_format));
    let a = with_option(a, "--reasoning-budget"@, i32_text(m.reasoning_budget));
    let a = with_option(a, "--chat-template-kwargs"@, option_text(m.chat_template_kwargs));
    with_option(a, "--mmproj"@, option_text(m.mmproj_path))
}

/// Speculative decoding with the model's own heads.
pub open spec fn with_mtp_args(a: Args, m: &ModelConfig, draft: Option<&ModelConfig>) -> Args {
    if draft is None && m.draft_model_id is None && m.mtp_tokens is Some && m.mtp_tokens->0 > 0 {
        with_flag(
            with_flag(a, "--spec-type"@, "draft-mtp"@),
            "--spec-draft-n-max"@,
            decimal(m.mtp_tokens->0 as nat),
        )
    } else {
        a
    }
}

/// Speculative decoding with a draft model.
pub open spec fn with_draft_args(a: Args, m: &ModelConfig, draft: Option<&ModelConfig>) -> Args {
    match draft {
        Some(d) => {
            let a = with_flag(a, "-md"@, d.model_path@);
            let a = with_option(a, "-ngld"@, u32_text(d.n_gpu_layers));
            let a = with_option(a, "-devd"@, option_text(d.device));
            let a = with_option(a, "-ctkd"@, cache_text(d.cache_type_k));
            let a = with_option(a, "-ctvd"@, cache_text(d.cache_type_v));
            let a = with_option(a, "--spec-draft-n-max"@, u32_text(m.draft_max));
            let a = with_option(a, "--spec-draft-n-min"@, u32_text(m.draft_min));
            let a = with_option(a, "--spec-draft-p-min"@, number_text(m.draft_p_min));
            let a = with_option(a, "--ctx-checkpoints"@, u32_text(m.ctx_checkpoints));
            with_option(a, "--checkpoint-min-step"@, i32_text(m.checkpoint_min_step))
        },
        None => a,
    }
}

/// The arguments that the structured fields stand for.
pub open spec fn structured_args(m: &ModelConfig, draft: Option<&ModelConfig>, port: u16) -> Args {
    match m.weights_format {
        WeightsFormat::Gguf => {
            let a = sampling_args(m, port);
            let a = with_placement_args(a, m);
            let a = with_runtime_args(a, m);
            let a = with_mtp_args(a, m, draft);
            with_draft_args(a, m, draft)
        },
        WeightsFormat::Safetensors => {
            let a = with_flag(Seq::empty(), "--model"@, m.model_path@);
            let a = with_flag(a, "--port"@, decimal(port as nat));
            with_flag(a, "--max-model-len"@, decimal(m.context as nat))
        },
    }
}

proof fn lemma_texts_push(v: Seq<String>, s: String)
    ensures
        texts(v.push(s)) == texts(v).push(s@),
{
    assert(texts(v.push(s)) =~= texts(v).push(s@));
}

fn push_word(args: &mut Vec<String>, word: &str)
    ensures
        texts(final(args)@) == texts(old(args)@).push(word@),
{
    let w = word.to_owned();
    proof {
        lemma_texts_push(args@, w);
    }
    args.push(w);
}

fn push_switch(args: &mut Vec<String>, on: bool, flag: &str)
    ensures
        texts(final(args)@) == with_switch(texts(old(args)@), on, flag@),
{
    if on {
        push_word(args, flag);
    }
}

fn push_flag(args: &mut Vec<String>, flag: &str, value: &str)
    ensures
        texts(final(args)@) == with_flag(texts(old(args)@), flag@, value@),
{
    push_word(args, flag);
    push_word(args, value);
}

fn push_text(args: &mut Vec<String>, flag: &str, value: &Option<String>)
    ensures
        texts(final(args)@) == with_option(texts(old(args)@), flag@, option_text(*value)),
{
    match value {
        Some(v) => push_flag(args, flag, v.as_str()),
        None => {},
    }
}

fn push_u32(args: &mut Vec<String>, flag: &str, value: Option<u32>)
    ensures
        texts(final(args)@) == with_option(texts(old(args)@), flag@, u32_text(value)),
{
    match value {
        Some(n) => {
            let t = decimal_text(n as u64);
            push_flag(args, flag, t.as_str());
        },
        None => {},
    }
}

fn push_i32(args: &mut Vec<String>, flag: &str, value: Option<i32>)
    ensures
        texts(final(args)@) == with_option(texts(old(args)@), flag@, i32_text(value)),
{
    match value {
        Some(n) => {
            let t = decimal_text_signed(n as i64);
            push_flag(args, flag, t.as_str());
        },
        None => {},
    }
}

fn push_cache(args: &mut Vec<String>, flag: &str, value: Option<CacheType>)
    ensures
        texts(final(args)@) == with_option(texts(old(args)@), flag@, cache_text(value)),
{
    match value {
        Some(c) => push_flag(args, flag, c.as_arg()),
        None => {},
    }
}

fn push_number(args: &mut Vec<String>, flag: &str, value: &Option<Number>)
    ensures
        texts(final(args)@) == with_option(texts(old(args)@), flag@, number_text(*value)),
{
    match value {
        Some(n) => push_flag(args, flag, n.text.as_str()),
        None => {},
    }
}

fn push_sampling_args(args: &mut Vec<String>, m: &ModelConfig, port: u16)
    requires
        old(args)@.len() == 0,
    ensures
        texts(final(args)@) == sampling_args(m, port),
{
    assert(texts(args@) =~= Seq::empty());
    let context = decimal_text(m.context as u64);
    let port_text = decimal_text(port as u64);
    let top_k = decimal_text_signed(m.top_k as i64);
    push_flag(args, "-m", m.model_path.as_str());
    push_flag(args, "-c", context.as_str());
    push_flag(args, "--port", port_text.as_str());
    push_flag(args, "--temp", m.temperature.text.as_str());
    push_flag(args, "--top-p", m.top_p.text.as_str());
    push_flag(args, "--top-k", top_k.as_str());
    if m.min_p.positive {
        push_flag(args, "--min-p", m.min_p.text.as_str());
    }
    push_flag(args, "--presence-penalty", m.presence_penalty.text.as_str());
    push_flag(args, "--repeat-penalty", m.repeat_penalty.text.as_str());
}

fn push_placement_args(args: &mut Vec<String>, m: &ModelConfig)
    ensures
        texts(final(args)@) == with_placement_args(texts(old(args)@), m),
{
    push_flag(
        args,
        "--flash-attn",
        if m.flash_attn {
            "on"
        } else {
            "off"
        },
    );
    push_u32(args, "-ngl", m.n_gpu_layers);
    push_text(args, "--override-tensor", &m.override_tensor);
    push_switch(args, m.mlock, "--mlock");
    push_switch(args, m.no_mmap, "--no-mmap");
    push_u32(args, "--parallel", m.parallel_slots);
    push_cache(args, "--cache-type-k", m.cache_type_k);
    push_cache(args, "--cache-type-v", m.cache_type_v);
    push_text(args, "--tensor-split", &m.tensor_split);
    push_text(args, "--device", &m.device);
    push_text(args, "--fit-target", &m.fit_target);
    if gguf_has_fitted_placement(m) {
        push_flag(args, "--fit", "off");
    }
}

fn push_runtime_args(args: &mut Vec<String>, m: &ModelConfig)
    ensures
        texts(final(args)@) == with_runtime_args(texts(old(args)@), m),
{
    push_i32(args, "--threads", m.threads);
    push_i32(args, "--cache-ram", m.cache_ram_mib);
    match m.reasoning_format {
        Some(f) => push_flag(args, "--reasoning-format", f.as_arg()),
        None => {},
    }
    push_i32(args, "--reasoning-budget", m.reasoning_budget);
    push_text(args, "--chat-template-kwargs", &m.chat_template_kwargs);
    push_text(args, "--mmproj", &m.mmproj_path);
}

fn push_mtp_args(args: &mut Vec<String>, m: &ModelConfig, draft: Option<&ModelConfig>)
    ensures
        texts(final(args)@) == with_mtp_args(texts(old(args)@), m, draft),
{
    if draft.is_none() && m.draft_model_id.is_none() {
        match m.mtp_tokens {
            Some(n) => {
                if n > 0 {
                    let t = decimal_text(n as u64);
                    push_flag(args, "--spec-type", "draft-mtp");
                    push_flag(args, "--spec-draft-n-max", t.as_str());
                }
            },
            None => {},
        }
    }
}

fn push_draft_args(args: &mut Vec<String>, m: &ModelConfig, draft: Option<&ModelConfig>)
    ensures
        texts(final(args)@) == with_draft_args(texts(old(args)@), m, draft),
{
    match draft {
        Some(d) => {
            push_flag(args, "-md", d.model_path.as_str());
            push_u32(args, "-ngld", d.n_gpu_layers);
            push_text(args, "-devd", &d.device);
            push_cache(args, "-ctkd", d.cache_type_k);
            push_cache(args, "-ctvd", d.cache_type_v);
            push_u32(args, "--spec-draft-n-max", m.draft_max);
            push_u32(args, "--spec-draft-n-min", m.draft_min);
            push_number(args, "--spec-draft-p-min", &m.draft_p_min);
            push_u32(args, "--ctx-checkpoints", m.ctx_checkpoints);
            push_i32(args, "--checkpoint-min-step", m.checkpoint_min_step);
        },
        None => {},
    }
}

/// The command line of a backend: what the structured fields stand for, and
/// then the user's own arguments as they stand.
pub fn build_command_args(m: &ModelConfig, draft: Option<&ModelConfig>, port: u16) -> (args: Vec<
    String,
>)
    ensures
        texts(args@) == structured_args(m, draft, port) + texts(m.extra_args@),
{
    let mut args: Vec<String> = Vec::new();
    match m.weights_format {
        WeightsFormat::Gguf => {
            push_sampling_args(&mut args, m, port);
            push_placement_args(&mut args, m);
            push_runtime_args(&mut args, m);
            push_mtp_args(&mut args, m, draft);
            push_draft_args(&mut args, m, draft);
        },
        WeightsFormat::Safetensors => {
            assert(texts(args@) =~= Seq::empty());
            let context = decimal_text(m.context as u64);
            let port_text = decimal_text(port as u64);
            push_flag(&mut args, "--model", m.model_path.as_str());
            push_flag(&mut args, "--port", port_text.as_str());
            push_flag(&mut args, "--max-model-len", context.as_str());
        },
    }
    let ghost head = texts(args@);
    let ghost tail = texts(m.extra_args@);
    let mut i: usize = 0;
    assert(head + tail.take(0) =~= head);
    while i < m.extra_args.len()
        invariant
            i <= m.extra_args@.len(),
            tail == texts(m.extra_args@),
            texts(args@) == head + tail.take(i as int),
        decreases m.extra_args@.len() - i,
    {
        push_word(&mut args, m.extra_args[i].as_str());
        assert(head + tail.take(i + 1) =~= (head + tail.take(i as int)).push(tail[i as int]));
        i += 1;
    }
    assert(tail.take(i as int) =~= tail);
    args
}

/// Whether the fit probe has settled where the layers go.
pub fn gguf_has_fitted_placement(m: &ModelConfig) -> (r: bool)
    ensures
        r == has_fitted_placement(m),
{
    m.n_gpu_layers.is_some() || m.tensor_split.is_some() || m.override_tensor.is_some()
}

/// The value of a flag that stands at position `i`, either as the next
/// argument or behind an equals sign.
pub open spec fn flag_value(args: Args, i: int, flag: Seq<char>) -> Option<Seq<char>> {
    if args[i] == flag {
        if i + 1 < args.len() {
            Some(args[i + 1])
        } else {
            None
        }
    } else {
        after_prefix(args[i], flag.push('='))
    }
}

/// The number of layers asked for at position `i`.
pub open spec fn layers_at(args: Args, i: int) -> Option<Seq<char>> {
    if flag_value(args, i, "-ngl"@) is Some {
        flag_value(args, i, "-ngl"@)
    } else if flag_value(args, i, "--gpu-layers"@) is Some {
        flag_value(args, i, "--gpu-layers"@)
    } else {
        flag_value(args, i, "--n-gpu-layers"@)
    }
}

/// The devices asked for at position `i`.
pub open spec fn devices_at(args: Args, i: int) -> Option<Seq<char>> {
    if flag_value(args, i, "--device"@) is Some {
        flag_value(args, i, "--device"@)
    } else {
        flag_value(args, i, "-dev"@)
    }
}

/// The last choice among the first `n` arguments. The number of layers counts
/// before the devices.
pub open spec fn last_layers(args: Args, n: int) -> Option<Seq<char>>
    decreases n,
{
    if n <= 0 {
        None
    } else if layers_at(args, n - 1) is Some {
        layers_at(args, n - 1)
    } else {
        last_layers(args, n - 1)
    }
}

pub open spec fn last_devices(args: Args, n: int) -> Option<Seq<char>>
    decreases n,
{
    if n <= 0 {
        None
    } else if devices_at(args, n - 1) is Some {
        devices_at(args, n - 1)
    } else {
        last_devices(args, n - 1)
    }
}

/// Whether a backend with this command line holds GPU memory. A server for
/// safetensors always does. For GGUF the last number of layers decides, and
/// without one the last device list.
pub open spec fn uses_gpu(m: &ModelConfig, args: Args) -> bool {
    ||| m.weights_format == WeightsFormat::Safetensors
    ||| match last_layers(args, args.len() as int) {
        Some(n) => n != "0"@,
        None => match last_devices(args, args.len() as int) {
            Some(d) => !same_ignoring_case(d, "none"@),
            None => false,
        },
    }
}

fn value_at(args: &Vec<String>, i: usize, flag: &str, flag_eq: &str) -> (r: Option<String>)
    requires
        i < args@.len(),
        flag_eq@ == flag@.push('='),
    ensures
        option_text(r) == flag_value(texts(args@), i as int, flag@),
{
    if same_text(args[i].as_str(), flag) {
        if i < args.len() - 1 {
            Some(args[i + 1].clone())
        } else {
            None
        }
    } else {
        strip_prefix_text(args[i].as_str(), flag_eq)
    }
}

fn read_layers(args: &Vec<String>, i: usize) -> (r: Option<String>)
    requires
        i < args@.len(),
    ensures
        option_text(r) == layers_at(texts(args@), i as int),
{
    proof {
        reveal_strlit("-ngl");
        reveal_strlit("-ngl=");
        reveal_strlit("--gpu-layers");
        reveal_strlit("--gpu-layers=");
        reveal_strlit("--n-gpu-layers");
        reveal_strlit("--n-gpu-layers=");
        assert("-ngl="@ =~= "-ngl"@.push('='));
        assert("--gpu-layers="@ =~= "--gpu-layers"@.push('='));
        assert("--n-gpu-layers="@ =~= "--n-gpu-layers"@.push('='));
    }
    let a = value_at(args, i, "-ngl", "-ngl=");
    if a.is_some() {
        return a;
    }
    let b = value_at(args, i, "--gpu-layers", "--gpu-layers=");
    if b.is_some() {
        return b;
    }
    value_at(args, i, "--n-gpu-layers", "--n-gpu-layers=")
}

fn read_devices(args: &Vec<String>, i: usize) -> (r: Option<String>)
    requires
        i < args@.len(),
    ensures
        option_text(r) == devices_at(texts(args@), i as int),
{
    proof {
        reveal_strlit("--device");
        reveal_strlit("--device=");
        reveal_strlit("-dev");
        reveal_strlit("-dev=");
        assert("--device="@ =~= "--device"@.push('='));
        assert("-dev="@ =~= "-dev"@.push('='));
    }
    let a = value_at(args, i, "--device", "--device=");
    if a.is_some() {
        return a;
    }
    value_at(args, i, "-dev", "-dev=")
}

/// Whether a backend with this command line holds GPU memory.
pub fn instance_uses_gpu(m: &ModelConfig, args: &Vec<String>) -> (r: bool)
    ensures
        r == uses_gpu(m, texts(args@)),
{
    match m.weights_format {
        WeightsFormat::Safetensors => {
            return true;
        },
        WeightsFormat::Gguf => {},
    }
    let ghost all = texts(args@);
    let mut layers: Option<String> = None;
    let mut devices: Option<String> = None;
    let mut i: usize = 0;
    while i < args.len()
        invariant
            i <= args@.len(),
            all == texts(args@),
            option_text(layers) == last_layers(all, i as int),
            option_text(devices) == last_devices(all, i as int),
        decreases args@.len() - i,
    {
        let l = read_layers(args, i);
        if l.is_some() {
            layers = l;
        }
        let d = read_devices(args, i);
        if d.is_some() {
            devices = d;
        }
        i += 1;
    }
    match layers {
        Some(n) => !same_text(n.as_str(), "0"),
        None => match devices {
            Some(d) => !same_text_ignoring_case(d.as_str(), "none"),
            None => false,
        },
    }
}

/// The user's own arguments stand last, unchanged and in their order, so that
/// they override whatever the structured fields said before.
pub proof fn law_extra_args_stand_last(m: &ModelConfig, draft: Option<&ModelConfig>, port: u16)
    ensures
        ({
            let all = structured_args(m, draft, port) + texts(m.extra_args@);
            let n = texts(m.extra_args@).len();
            all.subrange(all.len() - n, all.len() as int) == texts(m.extra_args@)
        }),
{
    let all = structured_args(m, draft, port) + texts(m.extra_args@);
    let n = texts(m.extra_args@).len();
    assert(all.subrange(all.len() - n, all.len() as int) =~= texts(m.extra_args@));
}

// ----- reading a command line -----

/// Whether an argument is a flag that takes no value.
pub open spec fn is_switch(s: Seq<char>) -> bool {
    s == "--mlock"@ || s == "--no-mmap"@
}

/// What a command line says under a flag, read from position `i` on as a server
/// reads it: a flag and its value, then the next flag. Of a flag that occurs
/// twice the first counts; a flag that takes no value says the empty text.
pub open spec fn told(a: Args, flag: Seq<char>, i: int) -> Option<Seq<char>>
    decreases a.len() - i,
{
    if i < 0 || i >= a.len() {
        None
    } else if is_switch(a[i]) {
        if a[i] == flag {
            Some(Seq::<char>::empty())
        } else {
            told(a, flag, i + 1)
        }
    } else if i + 1 >= a.len() {
        None
    } else if a[i] == flag {
        Some(a[i + 1])
    } else {
        told(a, flag, i + 2)
    }
}

/// Whether every flag from position `i` on has its value.
pub open spec fn is_whole(a: Args, i: int) -> bool
    decreases a.len() - i,
{
    if i < 0 || i >= a.len() {
        i == a.len()
    } else if is_switch(a[i]) {
        is_whole(a, i + 1)
    } else {
        i + 2 <= a.len() && is_whole(a, i + 2)
    }
}

/// The first of two values that there is.
pub open spec fn either(a: Option<Seq<char>>, b: Option<Seq<char>>) -> Option<Seq<char>> {
    if a is Some {
        a
    } else {
        b
    }
}

proof fn lemma_told_prefix(a: Args, b: Args, flag: Seq<char>, i: int)
    requires
        0 <= i <= a.len(),
        is_whole(a, i),
    ensures
        told(a + b, flag, i) == either(told(a, flag, i), told(a + b, flag, a.len() as int)),
        is_whole(a + b, i) == is_whole(a + b, a.len() as int),
    decreases a.len() - i,
{
    if i < a.len() {
        assert((a + b)[i] == a[i]);
        if is_switch(a[i]) {
            lemma_told_prefix(a, b, flag, i + 1);
        } else {
            assert((a + b)[i + 1] == a[i + 1]);
            lemma_told_prefix(a, b, flag, i + 2);
        }
    }
}

proof fn lemma_told_flag(a: Args, f: Seq<char>, v: Seq<char>)
    requires
        is_whole(a, 0),
        !is_switch(f),
    ensures
        is_whole(with_flag(a, f, v), 0),
        forall|g: Seq<char>| #[trigger]
            told(with_flag(a, f, v), g, 0) == either(
                told(a, g, 0),
                if g == f {
                    Some(v)
                } else {
                    None
                },
            ),
{
    let b = seq![f, v];
    let ab = with_flag(a, f, v);
    assert(ab =~= a + b);
    assert(ab[a.len() as int] == f && ab[a.len() as int + 1] == v);
    assert forall|g: Seq<char>| #[trigger]
        told(ab, g, 0) == either(
            told(a, g, 0),
            if g == f {
                Some(v)
            } else {
                None
            },
        ) by {
        lemma_told_prefix(a, b, g, 0);
        assert(told(ab, g, a.len() as int + 2) is None);
    }
    lemma_told_prefix(a, b, f, 0);
    assert(is_whole(ab, a.len() as int + 2));
}

proof fn lemma_told_option(a: Args, f: Seq<char>, v: Option<Seq<char>>)
    requires
        is_whole(a, 0),
        !is_switch(f),
    ensures
        is_whole(with_option(a, f, v), 0),
        forall|g: Seq<char>| #[trigger]
            told(with_option(a, f, v), g, 0) == either(
                told(a, g, 0),
                if g == f {
                    v
                } else {
                    None
                },
            ),
{
    if v is Some {
        lemma_told_flag(a, f, v->0);
    }
}

proof fn lemma_told_switch(a: Args, on: bool, f: Seq<char>)
    requires
        is_whole(a, 0),
        is_switch(f),
    ensures
        is_whole(with_switch(a, on, f), 0),
        forall|g: Seq<char>| #[trigger]
            told(with_switch(a, on, f), g, 0) == either(
                told(a, g, 0),
                if on && g == f {
                    Some(Seq::<char>::empty())
                } else {
                    None
                },
            ),
{
    if on {
        let b = seq![f];
        let ab = with_switch(a, on, f);
        assert(ab =~= a + b);
        assert(ab[a.len() as int] == f);
        assert forall|g: Seq<char>| #[trigger]
            told(ab, g, 0) == either(
                told(a, g, 0),
                if g == f {
                    Some(Seq::<char>::empty())
                } else {
                    None
                },
            ) by {
            lemma_told_prefix(a, b, g, 0);
            assert(told(ab, g, a.len() as int + 1) is None);
        }
        lemma_told_prefix(a, b, f, 0);
        assert(is_whole(ab, a.len() as int + 1));
    }
}

/// A number that tells the flags apart.
spec fn stamp(s: Seq<char>) -> int {
    let n = s.len() as int;
    n * 16777216 + (s[n - 1] as int) * 65536 + (s[n / 2] as int) * 256 + (s[(3 * n) / 4] as int)
}

proof fn lemma_stamps()
    ensures
        stamp("-m"@) == 40725869,
        stamp("-c"@) == 40067939,
        stamp("--port"@) == 108294002,
        stamp("--temp"@) == 108029293,
        stamp("--top-p"@) == 124809005,
        stamp("--top-k"@) == 124481325,
        stamp("--min-p"@) == 124807469,
        stamp("--presence-penalty"@) == 309945710,
        stamp("--repeat-penalty"@) == 276376929,
        stamp("--flash-attn"@) == 208562292,
        stamp("-ngl"@) == 74213228,
        stamp("--override-tensor"@) == 292709477,
        stamp("--mlock"@) == 124480611,
        stamp("--no-mmap"@) == 158346605,
        stamp("--parallel"@) == 174874988,
        stamp("--cache-type-k"@) == 241905008,
        stamp("--cache-type-v"@) == 242625904,
        stamp("--tensor-split"@) == 242512496,
        stamp("--device"@) == 140867171,
        stamp("--fit-target"@) == 208958567,
        stamp("--fit"@) == 91514473,
        stamp("--threads"@) == 158560865,
        stamp("--cache-ram"@) == 191719538,
        stamp("--reasoning-format"@) == 309620335,
        stamp("--reasoning-budget"@) == 309620341,
        stamp("--chat-template-kwargs"@) == 376663147,
        stamp("--mmproj"@) == 141193327,
        stamp("--spec-type"@) == 191193977,
        stamp("--spec-draft-n-max"@) == 309879150,
        stamp("-md"@) == 56913252,
        stamp("-ngld"@) == 90466156,
        stamp("-devd"@) == 90465654,
        stamp("-ctkd"@) == 90469483,
        stamp("-ctvd"@) == 90469494,
        stamp("--spec-draft-n-min"@) == 309223790,
        stamp("--spec-draft-p-min"@) == 309223792,
        stamp("--ctx-checkpoints"@) == 292775279,
        stamp("--checkpoint-min-step"@) == 359689838,
        stamp("--model"@) == 124546917,
        stamp("--max-model-len"@) == 258895661,
{
    reveal_strlit("-m");
    reveal_strlit("-c");
    reveal_strlit("--port");
    reveal_strlit("--temp");
    reveal_strlit("--top-p");
    reveal_strlit("--top-k");
    reveal_strlit("--min-p");
    reveal_strlit("--presence-penalty");
    reveal_strlit("--repeat-penalty");
    reveal_strlit("--flash-attn");
    reveal_strlit("-ngl");
    reveal_strlit("--override-tensor");
    reveal_strlit("--mlock");
    reveal_strlit("--no-mmap");
    reveal_strlit("--parallel");
    reveal_strlit("--cache-type-k");
    reveal_strlit("--cache-type-v");
    reveal_strlit("--tensor-split");
    reveal_strlit("--device");
    reveal_strlit("--fit-target");
    reveal_strlit("--fit");
    reveal_strlit("--threads");
    reveal_strlit("--cache-ram");
    reveal_strlit("--reasoning-format");
    reveal_strlit("--reasoning-budget");
    reveal_strlit("--chat-template-kwargs");
    reveal_strlit("--mmproj");
    reveal_strlit("--spec-type");
    reveal_strlit("--spec-draft-n-max");
    reveal_strlit("-md");
    reveal_strlit("-ngld");
    reveal_strlit("-devd");
    reveal_strlit("-ctkd");
    reveal_strlit("-ctvd");
    reveal_strlit("--spec-draft-n-min");
    reveal_strlit("--spec-draft-p-min");
    reveal_strlit("--ctx-checkpoints");
    reveal_strlit("--checkpoint-min-step");
    reveal_strlit("--model");
    reveal_strlit("--max-model-len");
}

#[verifier::opaque]
spec fn sampling_says(m: &ModelConfig, port: u16, g: Seq<char>) -> Option<Seq<char>> {
    either(
        if g == "-m"@ { Some(m.model_path@) } else { None }, either(
        if g == "-c"@ { Some(decimal(m.context as nat)) } else { None }, either(
        if g == "--port"@ { Some(decimal(port as nat)) } else { None }, either(
        if g == "--temp"@ { Some(m.temperature.text@) } else { None }, either(
        if g == "--top-p"@ { Some(m.top_p.text@) } else { None }, either(
        if g == "--top-k"@ { Some(decimal_int(m.top_k as int)) } else { None }, either(
        if g == "--min-p"@ { (if m.min_p.positive { Some(m.min_p.text@) } else { None }) } else { None }, either(
        if g == "--presence-penalty"@ { Some(m.presence_penalty.text@) } else { None }, either(
        if g == "--repeat-penalty"@ { Some(m.repeat_penalty.text@) } else { None }, None)))))))))
}

#[verifier::rlimit(60)]
proof fn lemma_told_sampling(a: Args, m: &ModelConfig, port: u16)
    requires
        is_whole(a, 0),
        a.len() == 0,
    ensures
        is_whole(sampling_args(m, port), 0),
        forall|g: Seq<char>| #[trigger]
            told(sampling_args(m, port), g, 0) == either(told(a, g, 0), sampling_says(m, port, g)),
{
    reveal(sampling_says);
    lemma_stamps();
    lemma_told_flag(a, "-m"@, m.model_path@);
    let a1 = with_flag(a, "-m"@, m.model_path@);
    lemma_told_flag(a1, "-c"@, decimal(m.context as nat));
    let a2 = with_flag(a1, "-c"@, decimal(m.context as nat));
    lemma_told_flag(a2, "--port"@, decimal(port as nat));
    let a3 = with_flag(a2, "--port"@, decimal(port as nat));
    lemma_told_flag(a3, "--temp"@, m.temperature.text@);
    let a4 = with_flag(a3, "--temp"@, m.temperature.text@);
    lemma_told_flag(a4, "--top-p"@, m.top_p.text@);
    let a5 = with_flag(a4, "--top-p"@, m.top_p.text@);
    lemma_told_flag(a5, "--top-k"@, decimal_int(m.top_k as int));
    let a6 = with_flag(a5, "--top-k"@, decimal_int(m.top_k as int));
    lemma_told_option(a6, "--min-p"@, (if m.min_p.positive { Some(m.min_p.text@) } else { None }));
    let a7 = with_option(a6, "--min-p"@, (if m.min_p.positive { Some(m.min_p.text@) } else { None }));
    lemma_told_flag(a7, "--presence-penalty"@, m.presence_penalty.text@);
    let a8 = with_flag(a7, "--presence-penalty"@, m.presence_penalty.text@);
    lemma_told_flag(a8, "--repeat-penalty"@, m.repeat_penalty.text@);
    let a9 = with_flag(a8, "--repeat-penalty"@, m.repeat_penalty.text@);
    assert(sampling_args(m, port) == a9);
}

#[verifier::opaque]
spec fn placement_says(m: &ModelConfig, g: Seq<char>) -> Option<Seq<char>> {
    either(
        if g == "--flash-attn"@ { Some(if m.flash_attn { "on"@ } else { "off"@ }) } else { None }, either(
        if g == "-ngl"@ { u32_text(m.n_gpu_layers) } else { None }, either(
        if g == "--override-tensor"@ { option_text(m.override_tensor) } else { None }, either(
        if g == "--mlock"@ { (if m.mlock { Some(Seq::<char>::empty()) } else { None }) } else { None }, either(
        if g == "--no-mmap"@ { (if m.no_mmap { Some(Seq::<char>::empty()) } else { None }) } else { None }, either(
        if g == "--parallel"@ { u32_text(m.parallel_slots) } else { None }, either(
        if g == "--cache-type-k"@ { cache_text(m.cache_type_k) } else { None }, either(
        if g == "--cache-type-v"@ { cache_text(m.cache_type_v) } else { None }, either(
        if g == "--tensor-split"@ { option_text(m.tensor_split) } else { None }, either(
        if g == "--device"@ { option_text(m.device) } else { None }, either(
        if g == "--fit-target"@ { option_text(m.fit_target) } else { None }, either(
        if g == "--fit"@ { (if has_fitted_placement(m) { Some("off"@) } else { None }) } else { None }, None))))))))))))
}

#[verifier::rlimit(60)]
proof fn lemma_told_placement(a: Args, m: &ModelConfig)
    requires
        is_whole(a, 0),
    ensures
        is_whole(with_placement_args(a, m), 0),
        forall|g: Seq<char>| #[trigger]
            told(with_placement_args(a, m), g, 0) == either(told(a, g, 0), placement_says(m, g)),
{
    reveal(placement_says);
    lemma_stamps();
    lemma_told_flag(a, "--flash-attn"@, if m.flash_attn { "on"@ } else { "off"@ });
    let a1 = with_flag(a, "--flash-attn"@, if m.flash_attn { "on"@ } else { "off"@ });
    lemma_told_option(a1, "-ngl"@, u32_text(m.n_gpu_layers));
    let a2 = with_option(a1, "-ngl"@, u32_text(m.n_gpu_layers));
    lemma_told_option(a2, "--override-tensor"@, option_text(m.override_tensor));
    let a3 = with_option(a2, "--override-tensor"@, option_text(m.override_tensor));
    lemma_told_switch(a3, m.mlock, "--mlock"@);
    let a4 = with_switch(a3, m.mlock, "--mlock"@);
    lemma_told_switch(a4, m.no_mmap, "--no-mmap"@);
    let a5 = with_switch(a4, m.no_mmap, "--no-mmap"@);
    lemma_told_option(a5, "--parallel"@, u32_text(m.parallel_slots));
    let a6 = with_option(a5, "--parallel"@, u32_text(m.parallel_slots));
    lemma_told_option(a6, "--cache-type-k"@, cache_text(m.cache_type_k));
    let a7 = with_option(a6, "--cache-type-k"@, cache_text(m.cache_type_k));
    lemma_told_option(a7, "--cache-type-v"@, cache_text(m.cache_type_v));
    let a8 = with_option(a7, "--cache-type-v"@, cache_text(m.cache_type_v));
    lemma_told_option(a8, "--tensor-split"@, option_text(m.tensor_split));
    let a9 = with_option(a8, "--tensor-split"@, option_text(m.tensor_split));
    lemma_told_option(a9, "--device"@, option_text(m.device));
    let a10 = with_option(a9, "--device"@, option_text(m.device));
    lemma_told_option(a10, "--fit-target"@, option_text(m.fit_target));
    let a11 = with_option(a10, "--fit-target"@, option_text(m.fit_target));
    lemma_told_option(a11, "--fit"@, (if has_fitted_placement(m) { Some("off"@) } else { None }));
    let a12 = with_option(a11, "--fit"@, (if has_fitted_placement(m) { Some("off"@) } else { None }));
    assert(with_placement_args(a, m) == a12);
}

#[verifier::opaque]
spec fn runtime_says(m: &ModelConfig, g: Seq<char>) -> Option<Seq<char>> {
    either(
        if g == "--threads"@ { i32_text(m.threads) } else { None }, either(
        if g == "--cache-ram"@ { i32_text(m.cache_ram_mib) } else { None }, either(
        if g == "--reasoning-format"@ { reasoning_text(m.reasoning_format) } else { None }, either(
        if g == "--reasoning-budget"@ { i32_text(m.reasoning_budget) } else { None }, either(
        if g == "--chat-template-kwargs"@ { option_text(m.chat_template_kwargs) } else { None }, either(
        if g == "--mmproj"@ { option_text(m.mmproj_path) } else { None }, None))))))
}

#[verifier::rlimit(60)]
proof fn lemma_told_runtime(a: Args, m: &ModelConfig)
    requires
        is_whole(a, 0),
    ensures
        is_whole(with_runtime_args(a, m), 0),
        forall|g: Seq<char>| #[trigger]
            told(with_runtime_args(a, m), g, 0) == either(told(a, g, 0), runtime_says(m, g)),
{
    reveal(runtime_says);
    lemma_stamps();
    lemma_told_option(a, "--threads"@, i32_text(m.threads));
    let a1 = with_option(a, "--threads"@, i32_text(m.threads));
    lemma_told_option(a1, "--cache-ram"@, i32_text(m.cache_ram_mib));
    let a2 = with_option(a1, "--cache-ram"@, i32_text(m.cache_ram_mib));
    lemma_told_option(a2, "--reasoning-format"@, reasoning_text(m.reasoning_format));
    let a3 = with_option(a2, "--reasoning-format"@, reasoning_text(m.reasoning_format));
    lemma_told_option(a3, "--reasoning-budget"@, i32_text(m.reasoning_budget));
    let a4 = with_option(a3, "--reasoning-budget"@, i32_text(m.reasoning_budget));
    lemma_told_option(a4, "--chat-template-kwargs"@, option_text(m.chat_template_kwargs));
    let a5 = with_option(a4, "--chat-template-kwargs"@, option_text(m.chat_template_kwargs));
    lemma_told_option(a5, "--mmproj"@, option_text(m.mmproj_path));
    let a6 = with_option(a5, "--mmproj"@, option_text(m.mmproj_path));
    assert(with_runtime_args(a, m) == a6);
}

#[verifier::opaque]
spec fn mtp_says(m: &ModelConfig, g: Seq<char>) -> Option<Seq<char>> {
    either(
        if g == "--spec-type"@ { Some("draft-mtp"@) } else { None }, either(
        if g == "--spec-draft-n-max"@ { Some(decimal(m.mtp_tokens->0 as nat)) } else { None }, None))
}

#[verifier::rlimit(60)]
proof fn lemma_told_mtp(a: Args, m: &ModelConfig, draft: Option<&ModelConfig>)
    requires
        is_whole(a, 0),
        draft is None && m.draft_model_id is None && m.mtp_tokens is Some && m.mtp_tokens->0 > 0,
    ensures
        is_whole(with_mtp_args(a, m, draft), 0),
        forall|g: Seq<char>| #[trigger]
            told(with_mtp_args(a, m, draft), g, 0) == either(told(a, g, 0), mtp_says(m, g)),
{
    reveal(mtp_says);
    lemma_stamps();
    lemma_told_flag(a, "--spec-type"@, "draft-mtp"@);
    let a1 = with_flag(a, "--spec-type"@, "draft-mtp"@);
    lemma_told_flag(a1, "--spec-draft-n-max"@, decimal(m.mtp_tokens->0 as nat));
    let a2 = with_flag(a1, "--spec-draft-n-max"@, decimal(m.mtp_tokens->0 as nat));
    assert(with_mtp_args(a, m, draft) == a2);
}

#[verifier::opaque]
spec fn draft_says(m: &ModelConfig, d: &ModelConfig, g: Seq<char>) -> Option<Seq<char>> {
    either(
        if g == "-md"@ { Some(d.model_path@) } else { None }, either(
        if g == "-ngld"@ { u32_text(d.n_gpu_layers) } else { None }, either(
        if g == "-devd"@ { option_text(d.device) } else { None }, either(
        if g == "-ctkd"@ { cache_text(d.cache_type_k) } else { None }, either(
        if g == "-ctvd"@ { cache_text(d.cache_type_v) } else { None }, either(
        if g == "--spec-draft-n-max"@ { u32_text(m.draft_max) } else { None }, either(
        if g == "--spec-draft-n-min"@ { u32_text(m.draft_min) } else { None }, either(
        if g == "--spec-draft-p-min"@ { number_text(m.draft_p_min) } else { None }, either(
        if g == "--ctx-checkpoints"@ { u32_text(m.ctx_checkpoints) } else { None }, either(
        if g == "--checkpoint-min-step"@ { i32_text(m.checkpoint_min_step) } else { None }, None))))))))))
}

#[verifier::rlimit(60)]
proof fn lemma_told_draft(a: Args, m: &ModelConfig, d: &ModelConfig)
    requires
        is_whole(a, 0),
    ensures
        is_whole(with_draft_args(a, m, Some(d)), 0),
        forall|g: Seq<char>| #[trigger]
            told(with_draft_args(a, m, Some(d)), g, 0) == either(told(a, g, 0), draft_says(m, d, g)),
{
    reveal(draft_says);
    lemma_stamps();
    lemma_told_flag(a, "-md"@, d.model_path@);
    let a1 = with_flag(a, "-md"@, d.model_path@);
    lemma_told_option(a1, "-ngld"@, u32_text(d.n_gpu_layers));
    let a2 = with_option(a1, "-ngld"@, u32_text(d.n_gpu_layers));
    lemma_told_option(a2, "-devd"@, option_text(d.device));
    let a3 = with_option(a2, "-devd"@, option_text(d.device));
    lemma_told_option(a3, "-ctkd"@, cache_text(d.cache_type_k));
    let a4 = with_option(a3, "-ctkd"@, cache_text(d.cache_type_k));
    lemma_told_option(a4, "-ctvd"@, cache_text(d.cache_type_v));
    let a5 = with_option(a4, "-ctvd"@, cache_text(d.cache_type_v));
    lemma_told_option(a5, "--spec-draft-n-max"@, u32_text(m.draft_max));
    let a6 = with_option(a5, "--spec-draft-n-max"@, u32_text(m.draft_max));
    lemma_told_option(a6, "--spec-draft-n-min"@, u32_text(m.draft_min));
    let a7 = with_option(a6, "--spec-draft-n-min"@, u32_text(m.draft_min));
    lemma_told_option(a7, "--spec-draft-p-min"@, number_text(m.draft_p_min));
    let a8 = with_option(a7, "--spec-draft-p-min"@, number_text(m.draft_p_min));
    lemma_told_option(a8, "--ctx-checkpoints"@, u32_text(m.ctx_checkpoints));
    let a9 = with_option(a8, "--ctx-checkpoints"@, u32_text(m.ctx_checkpoints));
    lemma_told_option(a9, "--checkpoint-min-step"@, i32_text(m.checkpoint_min_step));
    let a10 = with_option(a9, "--checkpoint-min-step"@, i32_text(m.checkpoint_min_step));
    assert(with_draft_args(a, m, Some(d)) == a10);
}

/// The command line of a server for GGUF says under each flag what the one
/// setting says that the flag is for, and does not hold the flag where the
/// setting is absent.
pub proof fn law_each_flag_carries_its_setting(
    m: &ModelConfig,
    draft: Option<&ModelConfig>,
    port: u16,
)
    requires
        m.weights_format == WeightsFormat::Gguf,
    ensures
        ({
            let a = structured_args(m, draft, port);
            &&& is_whole(a, 0)
            &&& told(a, "-m"@, 0) == Some(m.model_path@)
            &&& told(a, "-c"@, 0) == Some(decimal(m.context as nat))
            &&& told(a, "--port"@, 0) == Some(decimal(port as nat))
            &&& told(a, "--temp"@, 0) == Some(m.temperature.text@)
            &&& told(a, "--top-p"@, 0) == Some(m.top_p.text@)
            &&& told(a, "--top-k"@, 0) == Some(decimal_int(m.top_k as int))
            &&& told(a, "--min-p"@, 0) == (if m.min_p.positive {
                Some(m.min_p.text@)
            } else {
                None
            })
            &&& told(a, "--presence-penalty"@, 0) == Some(m.presence_penalty.text@)
            &&& told(a, "--repeat-penalty"@, 0) == Some(m.repeat_penalty.text@)
            &&& told(a, "--flash-attn"@, 0) == Some(if m.flash_attn { "on"@ } else { "off"@ })
            &&& told(a, "-ngl"@, 0) == (match m.n_gpu_layers {
                Some(n) => Some(decimal(n as nat)),
                None => None,
            })
            &&& told(a, "--override-tensor"@, 0) == (match m.override_tensor {
                Some(n) => Some(n@),
                None => None,
            })
            &&& told(a, "--mlock"@, 0) == (if m.mlock { Some(Seq::<char>::empty()) } else { None })
            &&& told(a, "--no-mmap"@, 0) == (if m.no_mmap {
                Some(Seq::<char>::empty())
            } else {
                None
            })
            &&& told(a, "--parallel"@, 0) == (match m.parallel_slots {
                Some(n) => Some(decimal(n as nat)),
                None => None,
            })
            &&& told(a, "--cache-type-k"@, 0) == (match m.cache_type_k {
                Some(CacheType::F16) => Some("f16"@),
                Some(CacheType::Q8_0) => Some("q8_0"@),
                Some(CacheType::Q4_0) => Some("q4_0"@),
                None => None,
            })
            &&& told(a, "--cache-type-v"@, 0) == (match m.cache_type_v {
                Some(CacheType::F16) => Some("f16"@),
                Some(CacheType::Q8_0) => Some("q8_0"@),
                Some(CacheType::Q4_0) => Some("q4_0"@),
                None => None,
            })
            &&& told(a, "--tensor-split"@, 0) == (match m.tensor_split {
                Some(n) => Some(n@),
                None => None,
            })
            &&& told(a, "--device"@, 0) == (match m.device { Some(n) => Some(n@), None => None })
            &&& told(a, "--fit-target"@, 0) == (match m.fit_target {
                Some(n) => Some(n@),
                None => None,
            })
            &&& told(a, "--fit"@, 0) == (if m.n_gpu_layers is Some
                || m.tensor_split is Some || m.override_tensor is Some {
                Some("off"@)
            } else {
                None
            })
            &&& told(a, "--threads"@, 0) == (match m.threads {
                Some(n) => Some(decimal_int(n as int)),
                None => None,
            })
            &&& told(a, "--cache-ram"@, 0) == (match m.cache_ram_mib {
                Some(n) => Some(decimal_int(n as int)),
                None => None,
            })
            &&& told(a, "--reasoning-format"@, 0) == (match m.reasoning_format {
                Some(ReasoningFormat::NoFormat) => Some("none"@),
                Some(ReasoningFormat::Auto) => Some("auto"@),
                Some(ReasoningFormat::Deepseek) => Some("deepseek"@),
                Some(ReasoningFormat::DeepseekLegacy) => Some("deepseek-legacy"@),
                None => None,
            })
            &&& told(a, "--reasoning-budget"@, 0) == (match m.reasoning_budget {
                Some(n) => Some(decimal_int(n as int)),
                None => None,
            })
            &&& told(a, "--chat-template-kwargs"@, 0) == (match m.chat_template_kwargs {
                Some(n) => Some(n@),
                None => None,
            })
            &&& told(a, "--mmproj"@, 0) == (match m.mmproj_path {
                Some(n) => Some(n@),
                None => None,
            })
        }),
{
    lemma_told_parts(m, draft, port);
    reveal(sampling_says);
    reveal(placement_says);
    reveal(runtime_says);
    reveal(mtp_says);
    reveal(draft_says);
    lemma_stamps();
}

/// Speculative decoding uses the draft model with its own placement, or the
/// model's own heads where no draft is configured, or nothing.
pub proof fn law_drafting_flags(m: &ModelConfig, draft: Option<&ModelConfig>, port: u16)
    requires
        m.weights_format == WeightsFormat::Gguf,
    ensures
        ({
            let a = structured_args(m, draft, port);
            match draft {
                Some(d) => {
            &&& told(a, "--spec-type"@, 0) is None
            &&& told(a, "-md"@, 0) == Some(d.model_path@)
            &&& told(a, "-ngld"@, 0) == (match d.n_gpu_layers {
                Some(n) => Some(decimal(n as nat)),
                None => None,
            })
            &&& told(a, "-devd"@, 0) == (match d.device { Some(n) => Some(n@), None => None })
            &&& told(a, "-ctkd"@, 0) == (match d.cache_type_k {
                Some(CacheType::F16) => Some("f16"@),
                Some(CacheType::Q8_0) => Some("q8_0"@),
                Some(CacheType::Q4_0) => Some("q4_0"@),
                None => None,
            })
            &&& told(a, "-ctvd"@, 0) == (match d.cache_type_v {
                Some(CacheType::F16) => Some("f16"@),
                Some(CacheType::Q8_0) => Some("q8_0"@),
                Some(CacheType::Q4_0) => Some("q4_0"@),
                None => None,
            })
            &&& told(a, "--spec-draft-n-max"@, 0) == (match m.draft_max {
                Some(n) => Some(decimal(n as nat)),
                None => None,
            })
            &&& told(a, "--spec-draft-n-min"@, 0) == (match m.draft_min {
                Some(n) => Some(decimal(n as nat)),
                None => None,
            })
            &&& told(a, "--spec-draft-p-min"@, 0) == (match m.draft_p_min {
                Some(n) => Some(n.text@),
                None => None,
            })
            &&& told(a, "--ctx-checkpoints"@, 0) == (match m.ctx_checkpoints {
                Some(n) => Some(decimal(n as nat)),
                None => None,
            })
            &&& told(a, "--checkpoint-min-step"@, 0) == (match m.checkpoint_min_step {
                Some(n) => Some(decimal_int(n as int)),
                None => None,
            })
                },
                None => {
            &&& told(a, "--spec-type"@, 0) == (if m.draft_model_id is None
                && m.mtp_tokens is Some && m.mtp_tokens->0 > 0 {
                Some("draft-mtp"@)
            } else {
                None
            })
            &&& told(a, "--spec-draft-n-max"@, 0) == (if m.draft_model_id is None
                && m.mtp_tokens is Some && m.mtp_tokens->0 > 0 {
                Some(decimal(m.mtp_tokens->0 as nat))
            } else {
                None
            })
            &&& told(a, "-md"@, 0) is None
            &&& told(a, "-ngld"@, 0) is None
            &&& told(a, "-devd"@, 0) is None
            &&& told(a, "-ctkd"@, 0) is None
            &&& told(a, "-ctvd"@, 0) is None
            &&& told(a, "--spec-draft-n-min"@, 0) is None
            &&& told(a, "--spec-draft-p-min"@, 0) is None
            &&& told(a, "--ctx-checkpoints"@, 0) is None
            &&& told(a, "--checkpoint-min-step"@, 0) is None
                },
            }
        }),
{
    lemma_told_parts(m, draft, port);
    reveal(sampling_says);
    reveal(placement_says);
    reveal(runtime_says);
    reveal(mtp_says);
    reveal(draft_says);
    lemma_stamps();
}

/// The command line of a server for safetensors holds the model, the port and
/// the length of the context, and nothing else.
pub proof fn law_safetensors_flags(m: &ModelConfig, draft: Option<&ModelConfig>, port: u16)
    requires
        m.weights_format == WeightsFormat::Safetensors,
    ensures
        ({
            let a = structured_args(m, draft, port);
            &&& a.len() == 6
            &&& told(a, "--model"@, 0) == Some(m.model_path@)
            &&& told(a, "--port"@, 0) == Some(decimal(port as nat))
            &&& told(a, "--max-model-len"@, 0) == Some(decimal(m.context as nat))
        }),
{
    lemma_stamps();
    let e: Args = Seq::empty();
    lemma_told_flag(e, "--model"@, m.model_path@);
    let a = with_flag(e, "--model"@, m.model_path@);
    lemma_told_flag(a, "--port"@, decimal(port as nat));
    let b = with_flag(a, "--port"@, decimal(port as nat));
    lemma_told_flag(b, "--max-model-len"@, decimal(m.context as nat));
}

proof fn lemma_told_parts(m: &ModelConfig, draft: Option<&ModelConfig>, port: u16)
    requires
        m.weights_format == WeightsFormat::Gguf,
    ensures
        is_whole(structured_args(m, draft, port), 0),
        forall|g: Seq<char>| #[trigger]
            told(structured_args(m, draft, port), g, 0) == either(
                sampling_says(m, port, g),
                either(
                    placement_says(m, g),
                    either(
                        runtime_says(m, g),
                        match draft {
                            Some(d) => draft_says(m, d, g),
                            None => if m.draft_model_id is None && m.mtp_tokens is Some
                                && m.mtp_tokens->0 > 0 {
                                mtp_says(m, g)
                            } else {
                                None
                            },
                        },
                    ),
                ),
            ),
{
    let e: Args = Seq::empty();
    lemma_told_sampling(e, m, port);
    let a = sampling_args(m, port);
    lemma_told_placement(a, m);
    let b = with_placement_args(a, m);
    lemma_told_runtime(b, m);
    let c = with_runtime_args(b, m);
    if draft is None && m.draft_model_id is None && m.mtp_tokens is Some && m.mtp_tokens->0 > 0 {
        lemma_told_mtp(c, m, draft);
    }
    match draft {
        Some(d) => {
            lemma_told_draft(c, m, d);
        },
        None => {},
    }
    assert forall|g: Seq<char>| told(e, g, 0) is None by {}
}

} // verus!
