//! How much memory the router and its servers may take together.
use vstd::prelude::*;
use vstd::string::*;

use crate::config::settings::EnvVars;
use crate::text::{
    after_last, after_last_text, after_prefix, decimal, decimal_text, ends_with_text, has_suffix,
    lines, option_text, parse_unsigned, split_lines, split_words, strip_prefix_text, texts, trim,
    trim_text, trim_trailing, unsigned_up_to, without_trailing, words,
};
use crate::GIB;

verus! {

broadcast use vstd::string::group_string_axioms;

/// The memory that is left to the rest of the system.
pub const DEFAULT_SYSTEM_RESERVE_BYTES: u64 = 25769803776;

/// The limits of a control group.
#[derive(Debug, Clone, Copy, PartialEq, Eq, Structural)]
pub struct MemoryCap {
    /// The memory that can never be exceeded.
    pub max: u64,
    /// The memory from which on the kernel takes memory back.
    pub high: u64,
}

/// The reserve that the environment asks for, in gibibytes.
pub open spec fn reserve_gib(env: EnvVars) -> Option<nat> {
    match env.value("INFERENCE_ROUTER_SYSTEM_RESERVE_GIB"@) {
        Some(v) => unsigned_up_to(trim(v), u64::MAX as nat),
        None => None,
    }
}

/// The reserve that the environment asks for, in gibibytes.
pub fn asked_reserve(env: &EnvVars) -> (r: Option<u64>)
    ensures
        match reserve_gib(*env) {
            Some(n) => r == Some(n as u64) && n <= u64::MAX,
            None => r is None,
        },
{
    match env.get("INFERENCE_ROUTER_SYSTEM_RESERVE_GIB") {
        Some(v) => parse_unsigned(trim_text(v.as_str()).as_str(), u64::MAX),
        None => None,
    }
}

/// The reserve in bytes: what the environment asks for, or the default.
pub fn configured_reserve_bytes(env: &EnvVars) -> (r: u64)
    requires
        reserve_gib(*env) is Some ==> reserve_gib(*env)->0 * GIB <= u64::MAX,
    ensures
        r == (match reserve_gib(*env) {
            Some(n) => n * GIB,
            None => DEFAULT_SYSTEM_RESERVE_BYTES as int,
        }),
{
    match asked_reserve(env) {
        Some(n) => n * GIB,
        None => DEFAULT_SYSTEM_RESERVE_BYTES,
    }
}

/// The limits that leave exactly the reserve. There are none where less than
/// two gibibytes would be left for the servers.
pub open spec fn cap_for(total: int, reserve: int) -> Option<MemoryCap> {
    let max = total - reserve;
    let share = max / 20;
    if max < 2 * GIB {
        None
    } else {
        let buffer = if share < 2 * GIB {
            share
        } else {
            2 * GIB
        };
        Some(MemoryCap { max: max as u64, high: (max - buffer) as u64 })
    }
}

/// The limits that leave exactly the reserve.
pub fn compute_cap(total_bytes: u64, reserve_bytes: u64) -> (r: Option<MemoryCap>)
    ensures
        r == cap_for(total_bytes as int, reserve_bytes as int),
        r matches Some(cap) ==> GIB <= cap.high <= cap.max,
{
    if total_bytes < reserve_bytes {
        return None;
    }
    let max = total_bytes - reserve_bytes;
    if max < 2 * GIB {
        return None;
    }
    let share = max / 20;
    let buffer = if share < 2 * GIB {
        share
    } else {
        2 * GIB
    };
    Some(MemoryCap { max, high: max - buffer })
}

/// The first line from `i` on that tells the memory of the machine.
pub open spec fn total_line(l: Seq<Seq<char>>, i: int) -> Option<Seq<char>>
    decreases l.len() - i,
{
    if i < 0 || i >= l.len() {
        None
    } else {
        match after_prefix(l[i], "MemTotal:"@) {
            Some(rest) => Some(rest),
            None => total_line(l, i + 1),
        }
    }
}

/// The memory of the machine in kibibytes, as the kernel tells it.
pub open spec fn mem_total(meminfo: Seq<char>) -> Option<nat> {
    match total_line(lines(meminfo), 0) {
        Some(rest) => if words(rest).len() > 0 {
            unsigned_up_to(words(rest)[0], u64::MAX as nat)
        } else {
            None
        },
        None => None,
    }
}

/// The memory of the machine in kibibytes.
pub fn mem_total_kib(meminfo: &str) -> (r: Option<u64>)
    ensures
        match mem_total(meminfo@) {
            Some(n) => r == Some(n as u64) && n <= u64::MAX,
            None => r is None,
        },
{
    let l = split_lines(meminfo);
    let ghost all = lines(meminfo@);
    let mut i: usize = 0;
    assert(all.len() == l@.len());
    while i < l.len()
        invariant
            i <= l@.len(),
            texts(l@) == all,
            all.len() == l@.len(),
            all == lines(meminfo@),
            total_line(all, 0) == total_line(all, i as int),
        decreases l@.len() - i,
    {
        assert(all[i as int] == l@[i as int]@);
        match strip_prefix_text(l[i].as_str(), "MemTotal:") {
            Some(rest) => {
                let w = split_words(rest.as_str());
                assert(words(rest@).len() == w@.len());
                if w.len() == 0 {
                    return None;
                }
                assert(words(rest@)[0] == w@[0]@);
                return parse_unsigned(w[0].as_str(), u64::MAX);
            },
            None => {},
        }
        i += 1;
    }
    None
}

/// The memory of the machine in bytes.
pub fn parse_mem_total(meminfo: &str) -> (r: Option<u64>)
    requires
        mem_total(meminfo@) is Some ==> mem_total(meminfo@)->0 * 1024 <= u64::MAX,
    ensures
        match mem_total(meminfo@) {
            Some(n) => r == Some((n * 1024) as u64),
            None => r is None,
        },
{
    match mem_total_kib(meminfo) {
        Some(n) => Some(n * 1024),
        None => None,
    }
}

/// The last part of the path of a control group.
pub open spec fn group_leaf(line: Seq<char>) -> Seq<char> {
    after_last(without_trailing(after_last(line, "::"@), '/'), "/"@)
}

/// The unit of systemd that a process runs in, by the first line of its list
/// of control groups.
pub open spec fn unit_of(groups: Seq<char>) -> Option<Seq<char>> {
    let l = lines(groups);
    if l.len() == 0 {
        None
    } else {
        let leaf = group_leaf(l[0]);
        if has_suffix(leaf, ".service"@) || has_suffix(leaf, ".scope"@) {
            Some(leaf)
        } else {
            None
        }
    }
}

/// The unit of systemd that a process runs in.
pub fn parse_systemd_unit(proc_self_cgroup: &str) -> (r: Option<String>)
    ensures
        option_text(r) == unit_of(proc_self_cgroup@),
{
    let l = split_lines(proc_self_cgroup);
    assert(lines(proc_self_cgroup@).len() == l@.len());
    if l.len() == 0 {
        return None;
    }
    assert(lines(proc_self_cgroup@)[0] == l@[0]@);
    let path = after_last_text(l[0].as_str(), "::");
    let bare = trim_trailing(path.as_str(), '/');
    let leaf = after_last_text(bare.as_str(), "/");
    if ends_with_text(leaf.as_str(), ".service") || ends_with_text(leaf.as_str(), ".scope") {
        Some(leaf)
    } else {
        None
    }
}

// ----- applying the limits -----

/// What is to be done about the memory of the router and its servers.
#[derive(Debug)]
pub enum CapPlan {
    /// It is not known how much memory there is.
    NoTotal,
    /// There is too little to leave the reserve.
    TooSmall,
    /// The router does not run in a unit of systemd.
    NoUnit,
    /// Run `systemctl` with these arguments.
    Apply { cap: MemoryCap, arguments: Vec<String> },
}

/// The arguments of `systemctl` that set the limits of a unit. Swap is not
/// limited.
pub open spec fn cap_line(unit: Seq<char>, cap: MemoryCap) -> Seq<Seq<char>> {
    seq![
        "--user"@,
        "set-property"@,
        unit,
        "MemoryMax="@ + decimal(cap.max as nat),
        "MemoryHigh="@ + decimal(cap.high as nat),
        "MemorySwapMax=infinity"@,
    ]
}

fn cap_arguments(unit: String, cap: MemoryCap) -> (r: Vec<String>)
    ensures
        texts(r@) == cap_line(unit@, cap),
{
    let ghost u = unit@;
    let mut r: Vec<String> = Vec::new();
    r.push("--user".to_owned());
    r.push("set-property".to_owned());
    r.push(unit);
    r.push("MemoryMax=".to_owned().concat(decimal_text(cap.max).as_str()));
    r.push("MemoryHigh=".to_owned().concat(decimal_text(cap.high).as_str()));
    r.push("MemorySwapMax=infinity".to_owned());
    assert(texts(r@) =~= cap_line(u, cap));
    r
}

/// The memory that a report tells, if there is a report.
pub open spec fn reported_total(meminfo: Option<&str>) -> Option<nat> {
    match meminfo {
        Some(m) => mem_total(m@),
        None => None,
    }
}

/// The unit that a list of control groups tells, if there is one.
pub open spec fn reported_unit(groups: Option<&str>) -> Option<Seq<char>> {
    match groups {
        Some(g) => unit_of(g@),
        None => None,
    }
}

/// What is to be done about the memory, after the report of the memory and the
/// list of control groups.
pub fn plan_cap(meminfo: Option<&str>, groups: Option<&str>, reserve: u64) -> (r: CapPlan)
    requires
        reported_total(meminfo) matches Some(n) ==> n * 1024 <= u64::MAX,
    ensures
        match reported_total(meminfo) {
            None => r is NoTotal,
            Some(n) => match cap_for((n * 1024) as int, reserve as int) {
                None => r is TooSmall,
                Some(c) => match reported_unit(groups) {
                    None => r is NoUnit,
                    Some(unit) => r matches CapPlan::Apply { cap, arguments } && cap == c && texts(
                        arguments@,
                    ) == cap_line(unit, c),
                },
            },
        },
{
    let total = match meminfo {
        Some(m) => parse_mem_total(m),
        None => None,
    };
    match total {
        None => CapPlan::NoTotal,
        Some(n) => match compute_cap(n, reserve) {
            None => CapPlan::TooSmall,
            Some(cap) => {
                let unit = match groups {
                    Some(g) => parse_systemd_unit(g),
                    None => None,
                };
                match unit {
                    None => CapPlan::NoUnit,
                    Some(u) => CapPlan::Apply { cap, arguments: cap_arguments(u, cap) },
                }
            },
        },
    }
}

/// However much memory there is, the limit and the reserve together are the
/// whole of it, and memory is reclaimed before the limit is reached.
pub proof fn law_the_reserve_stays_free(total: u64, reserve: u64)
    ensures
        cap_for(total as int, reserve as int) matches Some(cap) ==> {
            &&& cap.max + reserve == total
            &&& cap.max - 2 * GIB <= cap.high < cap.max
        },
        cap_for(total as int, reserve as int) is None <==> total < reserve + 2 * GIB,
{
}

} // verus!
