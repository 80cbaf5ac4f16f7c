//! What holds of all ports and of all command lines.
use vstd::prelude::*;
use vstd::string::*;

use crate::config::model::{ModelConfig, WeightsFormat};
use crate::process::argv::{devices_at, flag_value, last_layers, layers_at, uses_gpu, Args};
use crate::process::manager::{
    is_idle, port_step, port_taken, ports_to_try, range_of, range_step, InstanceInfo, PortStep,
    Reservation,
};
use crate::text::{cut_once, trim, unsigned_up_to};

verus! {

broadcast use vstd::string::group_string_axioms;

// ----- ports -----

/// The ports that are tried are all those between the bounds, both included,
/// that no pending process holds, from the lowest up.
pub proof fn law_every_free_port_is_tried(s: Seq<Reservation>, start: int, end: int)
    requires
        0 <= start,
        end <= u16::MAX,
    ensures
        forall|p: u16| #[trigger]
            ports_to_try(s, start, end).contains(p) <==> (start <= p <= end && forall|i: int|
                0 <= i < s.len() ==> (#[trigger] s[i]).port != p),
        forall|i: int, j: int|
            0 <= i < j < ports_to_try(s, start, end).len() ==> #[trigger] ports_to_try(s, start, end)[i]
                < #[trigger] ports_to_try(s, start, end)[j],
    decreases end - start + 1,
{
    if start <= end {
        law_every_free_port_is_tried(s, start, end - 1);
        let front = ports_to_try(s, start, end - 1);
        let all = ports_to_try(s, start, end);
        assert forall|p: u16| #[trigger]
            all.contains(p) <==> (start <= p <= end && forall|i: int|
                0 <= i < s.len() ==> (#[trigger] s[i]).port != p) by {
            if front.contains(p) {
                let k = choose|k: int| 0 <= k < front.len() && front[k] == p;
                assert(all[k] == p);
            }
            if all.len() > front.len() {
                assert(all[front.len() as int] == end as u16);
            }
            if all.contains(p) {
                let k = choose|k: int| 0 <= k < all.len() && all[k] == p;
                if k < front.len() {
                    assert(front[k] == p);
                }
            }
            assert(port_taken(s, end as u16) <==> exists|i: int|
                0 <= i < s.len() && #[trigger] s[i].port == end as u16);
        }
        assert forall|i: int, j: int| 0 <= i < j < all.len() implies #[trigger] all[i]
            < #[trigger] all[j] by {
            assert(all[i] == front[i]);
            if j < front.len() {
                assert(all[j] == front[j]);
            } else {
                assert(front.contains(front[i]));
            }
        }
    }
}

proof fn lemma_range(open: Seq<u16>, answers: Seq<Option<u16>>, i: int)
    requires
        0 <= i,
        forall|k: int| 0 <= k < i && k < answers.len() ==> #[trigger] answers[k] is None,
    ensures
        match range_step(open, answers, i) {
            PortStep::NoFreePort => answers.len() >= open.len() && forall|k: int|
                0 <= k < open.len() && k < answers.len() && k >= i ==> #[trigger] answers[k] is None,
            PortStep::TryPort(p) => answers.len() < open.len() && i <= answers.len() ==> p
                == open[answers.len() as int],
            PortStep::UsePort(p) => exists|k: int|
                i <= k < open.len() && k < answers.len() && p == open[k] && (
                #[trigger] answers[k]) is Some && forall|j: int|
                    i <= j < k ==> #[trigger] answers[j] is None,
            PortStep::AskSystem => false,
        } || i > answers.len(),
    decreases open.len() - i,
{
    if i < open.len() && i < answers.len() && answers[i] is None {
        lemma_range(open, answers, i + 1);
        match range_step(open, answers, i + 1) {
            PortStep::UsePort(p) => {
                let k = choose|k: int|
                    i + 1 <= k < open.len() && k < answers.len() && p == open[k] && (
                    #[trigger] answers[k]) is Some && forall|j: int|
                        i + 1 <= j < k ==> #[trigger] answers[j] is None;
                assert(answers[k] is Some);
            },
            _ => {},
        }
    } else if i < open.len() && i < answers.len() {
        assert(answers[i] is Some);
    }
}

/// Of the ports in a range the first one is used that could be opened; each is
/// tried once, in order; and there is none only where none could be opened.
pub proof fn law_the_first_port_that_opens_is_used(
    s: Seq<Reservation>,
    range: (u16, u16),
    answers: Seq<Option<u16>>,
)
    ensures
        ({
            let open = ports_to_try(s, range.0 as int, range.1 as int);
            match port_step(s, Some(range), answers) {
                PortStep::NoFreePort => answers.len() >= open.len() && forall|k: int|
                    0 <= k < open.len() ==> #[trigger] answers[k] is None,
                PortStep::TryPort(p) => answers.len() < open.len() ==> p
                    == open[answers.len() as int],
                PortStep::UsePort(p) => exists|k: int|
                    0 <= k < open.len() && k < answers.len() && p == open[k] && (
                    #[trigger] answers[k]) is Some && forall|j: int|
                        0 <= j < k ==> #[trigger] answers[j] is None,
                PortStep::AskSystem => false,
            }
        }),
{
    lemma_range(ports_to_try(s, range.0 as int, range.1 as int), answers, 0);
}

/// A range names both of its ends, the lower one first.
pub proof fn law_a_range_has_two_ends(raw: Seq<char>)
    ensures
        range_of(raw) matches Some(r) ==> {
            &&& r.0 <= r.1 <= u16::MAX
            &&& cut_once(raw, seq!['-']) matches Some(p)
            &&& unsigned_up_to(trim(p.0), 65535) == Some(r.0)
            &&& unsigned_up_to(trim(p.1), 65535) == Some(r.1)
        },
{
}

/// A model is idle exactly where it has an instance and none of its instances
/// has a request.
pub proof fn law_a_busy_instance_keeps_a_model_busy(s: Seq<InstanceInfo>, id: Seq<char>, i: int)
    requires
        0 <= i < s.len(),
        s[i].model_id@ == id,
    ensures
        s[i].active > 0 ==> !is_idle(s, id),
        (forall|k: int| 0 <= k < s.len() && (#[trigger] s[k]).model_id@ == id ==> s[k].active == 0)
            ==> is_idle(s, id),
{
}

// ----- GPU memory -----

proof fn lemma_last_layers(args: Args, n: int, i: int)
    requires
        0 <= i < n <= args.len(),
        layers_at(args, i) is Some,
        forall|k: int| i < k < n ==> layers_at(args, k) is None,
    ensures
        last_layers(args, n) == layers_at(args, i),
    decreases n,
{
    if i < n - 1 {
        assert(layers_at(args, n - 1) is None);
        lemma_last_layers(args, n - 1, i);
    }
}

/// A server for safetensors always holds GPU memory. For GGUF the last number
/// of layers decides: it holds none exactly where that is zero.
pub proof fn law_the_last_number_of_layers_decides(m: &ModelConfig, args: Args, i: int)
    requires
        0 <= i < args.len(),
        layers_at(args, i) is Some,
        forall|k: int| i < k < args.len() ==> layers_at(args, k) is None,
    ensures
        m.weights_format == WeightsFormat::Safetensors ==> uses_gpu(m, args),
        m.weights_format == WeightsFormat::Gguf ==> (uses_gpu(m, args) <==> layers_at(args, i)->0
            != "0"@),
{
    lemma_last_layers(args, args.len() as int, i);
}

/// The number of layers is what stands behind one of three flags, or behind
/// the equals sign of one; the devices stand behind one of two.
pub proof fn law_layers_and_devices_stand_behind_their_flags(args: Args, i: int)
    requires
        0 <= i,
        i + 1 < args.len(),
    ensures
        args[i] == "-ngl"@ ==> layers_at(args, i) == Some(args[i + 1]),
        args[i] == "--gpu-layers"@ && flag_value(args, i, "-ngl"@) is None ==> layers_at(args, i)
            == Some(args[i + 1]),
        args[i] == "--n-gpu-layers"@ && flag_value(args, i, "-ngl"@) is None && flag_value(
            args,
            i,
            "--gpu-layers"@,
        ) is None ==> layers_at(args, i) == Some(args[i + 1]),
        args[i] == "--device"@ ==> devices_at(args, i) == Some(args[i + 1]),
{
}

} // verus!
