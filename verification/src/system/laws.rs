//! What holds of every report of the machine.
use vstd::prelude::*;
use vstd::string::*;

use crate::system::gpu_watchdog::{fresh, names_card, DumpView};
use crate::system::memcap::{
    cap_for, cap_line, group_leaf, mem_total, total_line, unit_of, MemoryCap,
};
use crate::system::stats::{
    cpu_sample, cpu_sensor, cpu_use, first_cpu_like, first_named, is_named, leading_number,
    looks_like_cpu, memory_bytes, memory_from, memory_kib, numbers, sum_of, CpuSample, Sensor,
};
use crate::text::{
    after_prefix, decimal, has_infix, has_prefix, has_suffix, last_at, lines, occurs_at, trim,
    unsigned_up_to, words, words_of,
};
use crate::text_laws::lemma_last;
use crate::GIB;

verus! {

broadcast use vstd::string::group_string_axioms;

// ----- processor times -----

/// Where every word is a number, the numbers are those of the words.
proof fn lemma_numbers(w: Seq<Seq<char>>, i: int, n: int)
    requires
        0 <= i <= n <= w.len(),
        forall|k: int|
            i <= k < n ==> unsigned_up_to(#[trigger] w[k], u64::MAX as nat) is Some,
    ensures
        numbers(w, i, n).len() == n - i,
        forall|k: int|
            0 <= k < n - i ==> Some(#[trigger] numbers(w, i, n)[k]) == unsigned_up_to(
                w[i + k],
                u64::MAX as nat,
            ),
    decreases n - i,
{
    if i < n {
        assert(unsigned_up_to(w[n - 1], u64::MAX as nat) is Some);
        lemma_numbers(w, i, n - 1);
        let front = numbers(w, i, n - 1);
        assert forall|k: int| 0 <= k < n - i implies Some(#[trigger] numbers(w, i, n)[k])
            == unsigned_up_to(w[i + k], u64::MAX as nat) by {
            if k < front.len() {
                assert(numbers(w, i, n)[k] == front[k]);
            }
        }
    }
}

/// In a report with ten or more times the whole is the sum of the first ten,
/// and the time without work is the fourth, idle, and the fifth, waiting.
pub proof fn law_waiting_is_no_work(stat: Seq<char>, w: Seq<Seq<char>>, t: Seq<nat>)
    requires
        lines(stat).len() > 0,
        has_prefix(lines(stat)[0], "cpu "@),
        w == words_of(lines(stat)[0], true),
        w.len() >= 11,
        t.len() == 10,
        forall|k: int|
            0 <= k < 10 ==> unsigned_up_to(w[k + 1], u64::MAX as nat) == Some(#[trigger] t[k]),
    ensures
        cpu_sample(stat) matches Some(s) && s.total == (t[0] + t[1] + t[2] + t[3] + t[4] + t[5]
            + t[6] + t[7] + t[8] + t[9]) as u128 && s.idle == (t[3] + t[4]) as u128,
{
    assert forall|k: int| 1 <= k < 11 implies unsigned_up_to(
        #[trigger] w[k],
        u64::MAX as nat,
    ) is Some by {
        assert(unsigned_up_to(w[k - 1 + 1], u64::MAX as nat) == Some(t[k - 1]));
    }
    lemma_numbers(w, 1, 11);
    let s = numbers(w, 1, 11);
    assert forall|k: int| 0 <= k < 10 implies s[k] == t[k] by {
        assert(Some(s[k]) == unsigned_up_to(w[1 + k], u64::MAX as nat));
        assert(unsigned_up_to(w[k + 1], u64::MAX as nat) == Some(t[k]));
    }
    assert(s =~= t);
    reveal_with_fuel(sum_of, 11);
    assert(t.drop_last() =~= t.take(9));
    assert(t.take(9).drop_last() =~= t.take(8));
    assert(t.take(8).drop_last() =~= t.take(7));
    assert(t.take(7).drop_last() =~= t.take(6));
    assert(t.take(6).drop_last() =~= t.take(5));
    assert(t.take(5).drop_last() =~= t.take(4));
    assert(t.take(4).drop_last() =~= t.take(3));
    assert(t.take(3).drop_last() =~= t.take(2));
    assert(t.take(2).drop_last() =~= t.take(1));
    assert(t.take(1).drop_last() =~= t.take(0));
    assert(sum_of(t) == t[0] + t[1] + t[2] + t[3] + t[4] + t[5] + t[6] + t[7] + t[8] + t[9]);
}

/// Between two reports the time is split into work and idling, and nothing else.
pub proof fn law_time_is_work_or_idling(p: CpuSample, n: CpuSample)
    requires
        p.total <= n.total,
        p.idle <= n.idle,
        n.idle - p.idle <= n.total - p.total,
    ensures
        cpu_use(Some(p), n).total == n.total - p.total,
        cpu_use(Some(p), n).busy + (n.idle - p.idle) == n.total - p.total,
        cpu_use(None, n).busy == 0 && cpu_use(None, n).total == 0,
{
}

// ----- memory -----

proof fn lemma_memory(l: Seq<Seq<char>>, i: int, j: int, k: int, t: nat, a: nat)
    requires
        0 <= i < l.len(),
        0 <= j < l.len(),
        i != j,
        0 <= k <= l.len(),
        after_prefix(l[i], "MemTotal:"@) is Some,
        after_prefix(l[j], "MemAvailable:"@) is Some,
        leading_number(after_prefix(l[i], "MemTotal:"@)->0) > 0,
        leading_number(after_prefix(l[j], "MemAvailable:"@)->0) > 0,
        forall|x: int|
            0 <= x < l.len() && x != i ==> after_prefix(#[trigger] l[x], "MemTotal:"@) is None,
        forall|x: int|
            0 <= x < l.len() && x != j ==> after_prefix(#[trigger] l[x], "MemAvailable:"@) is None,
        t == (if k > i {
            leading_number(after_prefix(l[i], "MemTotal:"@)->0)
        } else {
            0
        }),
        a == (if k > j {
            leading_number(after_prefix(l[j], "MemAvailable:"@)->0)
        } else {
            0
        }),
    ensures
        memory_from(l, k, t, a) == (
            leading_number(after_prefix(l[i], "MemTotal:"@)->0),
            leading_number(after_prefix(l[j], "MemAvailable:"@)->0),
        ),
    decreases l.len() - k,
{
    if k < l.len() {
        assert(k != i ==> after_prefix(l[k], "MemTotal:"@) is None);
        assert(k != j ==> after_prefix(l[k], "MemAvailable:"@) is None);
        let total = if k == i {
            leading_number(after_prefix(l[i], "MemTotal:"@)->0)
        } else {
            t
        };
        let avail = if k == j {
            leading_number(after_prefix(l[j], "MemAvailable:"@)->0)
        } else {
            a
        };
        lemma_memory(l, i, j, k + 1, total, avail);
    }
}

/// Memory that is available is not in use, and the rest of it is, in whichever
/// order the report tells them.
pub proof fn law_memory_is_used_or_available(meminfo: Seq<char>, i: int, j: int)
    requires
        0 <= i < lines(meminfo).len(),
        0 <= j < lines(meminfo).len(),
        i != j,
        after_prefix(lines(meminfo)[i], "MemTotal:"@) is Some,
        after_prefix(lines(meminfo)[j], "MemAvailable:"@) is Some,
        leading_number(after_prefix(lines(meminfo)[i], "MemTotal:"@)->0) > 0,
        leading_number(after_prefix(lines(meminfo)[j], "MemAvailable:"@)->0) > 0,
        forall|x: int|
            0 <= x < lines(meminfo).len() && x != i ==> after_prefix(
                #[trigger] lines(meminfo)[x],
                "MemTotal:"@,
            ) is None,
        forall|x: int|
            0 <= x < lines(meminfo).len() && x != j ==> after_prefix(
                #[trigger] lines(meminfo)[x],
                "MemAvailable:"@,
            ) is None,
    ensures
        ({
            let total = leading_number(after_prefix(lines(meminfo)[i], "MemTotal:"@)->0);
            let avail = leading_number(after_prefix(lines(meminfo)[j], "MemAvailable:"@)->0);
            &&& memory_bytes(Some(meminfo)).1 == total * 1024
            &&& avail <= total ==> memory_bytes(Some(meminfo)).0 + avail * 1024 == total * 1024
            &&& avail > total ==> memory_bytes(Some(meminfo)).0 == 0
        }),
{
    let l = lines(meminfo);
    let total = leading_number(after_prefix(l[i], "MemTotal:"@)->0);
    let avail = leading_number(after_prefix(l[j], "MemAvailable:"@)->0);
    lemma_memory(l, i, j, 0, 0, 0);
    assert(memory_kib(meminfo).1 == total);
    if avail <= total {
        assert((total - avail) * 1024 + avail * 1024 == total * 1024) by (nonlinear_arith);
    }
}

// ----- temperature -----

proof fn lemma_first_named(s: Seq<Sensor>, name: Seq<char>, from: int)
    requires
        0 <= from <= s.len(),
    ensures
        match first_named(s, name, from) {
            Some(i) => from <= i < s.len() && is_named(s[i], name),
            None => forall|i: int| from <= i < s.len() ==> !is_named(#[trigger] s[i], name),
        },
    decreases s.len() - from,
{
    if from < s.len() {
        lemma_first_named(s, name, from + 1);
    }
}

proof fn lemma_first_cpu_like(s: Seq<Sensor>, from: int)
    requires
        0 <= from <= s.len(),
    ensures
        match first_cpu_like(s, from) {
            Some(i) => from <= i < s.len() && looks_like_cpu(s[i]),
            None => forall|i: int| from <= i < s.len() ==> !looks_like_cpu(#[trigger] s[i]),
        },
    decreases s.len() - from,
{
    if from < s.len() {
        lemma_first_cpu_like(s, from + 1);
    }
}

/// The sensor of the processor has a temperature and a name. Where there is one
/// of the name `k10temp`, it is one of those, else one of the name `coretemp`,
/// and otherwise one whose name holds a word for a processor; where there is any
/// of these, one is found.
pub proof fn law_the_sensor_of_the_processor(s: Seq<Sensor>, i: int)
    requires
        0 <= i < s.len(),
        s[i].has_temp,
        s[i].name is Some,
    ensures
        ({
            let name = trim((s[i].name->0)@);
            let known = name == "k10temp"@ || name == "coretemp"@ || has_infix(name, "cpu"@)
                || has_infix(name, "pkg"@) || has_infix(name, "zenpower"@);
            known ==> {
                &&& cpu_sensor(s) matches Some(j)
                &&& 0 <= j < s.len()
                &&& s[j].has_temp
                &&& s[j].name is Some
                &&& name == "k10temp"@ ==> trim((s[j].name->0)@) == "k10temp"@
                &&& name == "coretemp"@ ==> trim((s[j].name->0)@) == "k10temp"@ || trim(
                    (s[j].name->0)@,
                ) == "coretemp"@
            }
        }),
{
    lemma_first_named(s, "k10temp"@, 0);
    lemma_first_named(s, "coretemp"@, 0);
    lemma_first_cpu_like(s, 0);
    assert(is_named(s[i], "k10temp"@) <==> trim((s[i].name->0)@) == "k10temp"@);
    assert(is_named(s[i], "coretemp"@) <==> trim((s[i].name->0)@) == "coretemp"@);
}

// ----- limits -----

/// The kernel begins to reclaim a twentieth of the limit before it is reached,
/// but never earlier than two gibibytes before.
pub proof fn law_reclaiming_begins_before_the_limit(total: u64, reserve: u64)
    ensures
        cap_for(total as int, reserve as int) matches Some(cap) ==> {
            &&& cap.max - cap.high == cap.max / 20 || cap.max - cap.high == 2 * GIB
            &&& cap.max - cap.high <= cap.max / 20
            &&& cap.max - cap.high <= 2 * GIB
            &&& cap.max + reserve == total
        },
{
}

/// The memory of the machine is the number on the first line that tells it.
pub proof fn law_the_first_line_tells_the_memory(meminfo: Seq<char>, i: int)
    requires
        0 <= i < lines(meminfo).len(),
        has_prefix(lines(meminfo)[i], "MemTotal:"@),
        forall|j: int| 0 <= j < i ==> !has_prefix(#[trigger] lines(meminfo)[j], "MemTotal:"@),
    ensures
        ({
            let rest = lines(meminfo)[i].skip("MemTotal:"@.len() as int);
            &&& words(rest).len() > 0 ==> mem_total(meminfo) == unsigned_up_to(
                words(rest)[0],
                u64::MAX as nat,
            )
            &&& words(rest).len() == 0 ==> mem_total(meminfo) is None
        }),
{
    let l = lines(meminfo);
    lemma_total_line(l, 0, i);
    assert(l[i].skip("MemTotal:"@.len() as int) =~= l[i].subrange(
        "MemTotal:"@.len() as int,
        l[i].len() as int,
    ));
}

proof fn lemma_total_line(l: Seq<Seq<char>>, from: int, i: int)
    requires
        0 <= from <= i < l.len(),
        has_prefix(l[i], "MemTotal:"@),
        forall|j: int| from <= j < i ==> !has_prefix(#[trigger] l[j], "MemTotal:"@),
    ensures
        total_line(l, from) == after_prefix(l[i], "MemTotal:"@),
    decreases i - from,
{
    if from < i {
        assert(!has_prefix(l[from], "MemTotal:"@));
        lemma_total_line(l, from + 1, i);
    }
}

/// The router runs in the unit at the end of the path on the first line, where
/// that is a service or a scope.
pub proof fn law_the_unit_stands_at_the_end_of_the_path(groups: Seq<char>)
    requires
        lines(groups).len() > 0,
    ensures
        ({
            let leaf = group_leaf(lines(groups)[0]);
            &&& has_suffix(leaf, ".service"@) || has_suffix(leaf, ".scope"@) ==> unit_of(groups)
                == Some(leaf)
            &&& !has_suffix(leaf, ".service"@) && !has_suffix(leaf, ".scope"@) ==> unit_of(
                groups,
            ) is None
        }),
{
}

/// The last part of the path of a group is what stands behind its last slash,
/// whatever hierarchy is named before it.
pub proof fn law_a_leaf_stands_behind_the_last_slash(
    hierarchy: Seq<char>,
    path: Seq<char>,
    leaf: Seq<char>,
)
    requires
        leaf.len() > 0,
        !leaf.contains('/'),
        !path.contains(':'),
        !leaf.contains(':'),
    ensures
        group_leaf(hierarchy + "::"@ + path + "/"@ + leaf) == leaf,
{
    reveal_strlit("::");
    reveal_strlit("/");
    let line = hierarchy + "::"@ + path + "/"@ + leaf;
    let n = hierarchy.len() as int;
    let rest = path + "/"@ + leaf;
    lemma_last(line, "::"@, line.len() as int);
    assert(line.subrange(n, n + 2) =~= "::"@);
    assert(occurs_at(line, "::"@, n));
    let i = last_at(line, "::"@, line.len() as int)->0;
    if i > n {
        assert(line.subrange(i, i + 2)[1] == line[i + 1]);
        assert("::"@[1] == ':');
        assert(line[i + 1] == rest[i + 1 - n - 2]);
        let k = i - n - 1;
        if k < path.len() {
            assert(path[k] == ':');
            assert(path.contains(':'));
        } else if k == path.len() {
            assert("/"@[0] == '/');
        } else {
            assert(leaf[k - path.len() - 1] == ':');
            assert(leaf.contains(':'));
        }
    }
    assert(line.skip(n + 2) =~= rest);
    assert(rest.last() == leaf.last());
    assert(leaf[leaf.len() - 1] == leaf.last());
    assert(leaf.last() != '/') by {
        if leaf.last() == '/' {
            assert(leaf.contains('/'));
        }
    }
    let m = path.len() as int;
    lemma_last(rest, "/"@, rest.len() as int);
    assert(rest.subrange(m, m + 1) =~= "/"@);
    assert(occurs_at(rest, "/"@, m));
    let j = last_at(rest, "/"@, rest.len() as int)->0;
    if j > m {
        assert(rest.subrange(j, j + 1)[0] == rest[j]);
        assert(leaf[j - m - 1] == '/');
        assert(leaf.contains('/'));
    }
    assert(rest.skip(m + 1) =~= leaf);
}

/// The limits of a unit are set for that unit, each under its own name, and swap
/// is left without one.
pub proof fn law_limits_are_set_under_their_names(unit: Seq<char>, cap: MemoryCap)
    ensures
        cap_line(unit, cap).take(3) == seq!["--user"@, "set-property"@, unit],
        cap_line(unit, cap).contains("MemoryMax="@ + decimal(cap.max as nat)),
        cap_line(unit, cap).contains("MemoryHigh="@ + decimal(cap.high as nat)),
        cap_line(unit, cap).contains("MemorySwapMax=infinity"@),
        cap_line(unit, cap).len() == 6,
{
    let l = cap_line(unit, cap);
    assert(l.take(3) =~= seq!["--user"@, "set-property"@, unit]);
    assert(l[3] == "MemoryMax="@ + decimal(cap.max as nat));
    assert(l[4] == "MemoryHigh="@ + decimal(cap.high as nat));
    assert(l[5] == "MemorySwapMax=infinity"@);
}

// ----- dumps -----

/// Every dump that was not dealt with is dealt with now, and none that was.
pub proof fn law_every_new_dump_is_handled(known: Seq<DumpView>, s: Seq<DumpView>, n: int, d: DumpView)
    requires
        0 <= n <= s.len(),
    ensures
        fresh(known, s, n).contains(d) <==> s.take(n).contains(d) && !known.contains(d),
        forall|a: int, b: int|
            0 <= a < b < fresh(known, s, n).len() ==> #[trigger] fresh(known, s, n)[a]
                != #[trigger] fresh(known, s, n)[b],
    decreases n,
{
    if n > 0 {
        law_every_new_dump_is_handled(known, s, n - 1, d);
        let front = fresh(known, s, n - 1);
        let all = fresh(known, s, n);
        let before = s.take(n - 1);
        let now = s.take(n);
        assert(now =~= before.push(s[n - 1]));
        if before.contains(d) {
            let k = choose|k: int| 0 <= k < before.len() && before[k] == d;
            assert(now[k] == d);
        }
        if now.contains(d) && d != s[n - 1] {
            let k = choose|k: int| 0 <= k < now.len() && now[k] == d;
            assert(before[k] == d);
        }
        assert(now[n - 1] == s[n - 1]);
        if all.len() > front.len() {
            assert(all[front.len() as int] == s[n - 1]);
            if front.contains(d) {
                let k = choose|k: int| 0 <= k < front.len() && front[k] == d;
                assert(all[k] == d);
            }
            if all.contains(d) && d != s[n - 1] {
                let k = choose|k: int| 0 <= k < all.len() && all[k] == d;
                assert(front[k] == d);
            }
            assert forall|a: int, b: int| 0 <= a < b < all.len() implies #[trigger] all[a]
                != #[trigger] all[b] by {
                if b == front.len() {
                    assert(front.contains(front[a]));
                } else {
                    assert(front[a] != front[b]);
                }
            }
        }
    }
}

/// A card is told from its connectors by its name.
pub proof fn law_connectors_are_no_cards(rest: Seq<char>)
    ensures
        names_card("card"@ + rest) <==> !has_infix("card"@ + rest, "-"@),
{
    assert(("card"@ + rest).subrange(0, "card"@.len() as int) =~= "card"@);
}

} // verus!
