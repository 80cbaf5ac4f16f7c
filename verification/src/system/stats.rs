//! The load of the machine, its memory and its temperature.
use vstd::prelude::*;
use vstd::string::*;

use crate::text::{
    after_prefix, contains_text, has_infix, has_prefix, lines, parse_i64, parse_unsigned, same_text,
    signed_between, split_gaps, split_lines, starts_with_text, strip_prefix_text, texts, trim,
    trim_text, unsigned_up_to, words_of,
};

verus! {

broadcast use vstd::string::group_string_axioms;

/// The processor times since the machine was started.
#[derive(Debug, Clone, Copy, PartialEq, Eq, Structural)]
pub struct CpuSample {
    pub total: u128,
    pub idle: u128,
}

/// How much of a stretch of processor time was spent on work.
#[derive(Debug, Clone, Copy, PartialEq, Eq, Structural)]
pub struct CpuUse {
    pub busy: u128,
    pub total: u128,
}

/// A bound on the processor times that the kernel can report.
pub const MOST_TIME: u128 = 184467440737095516150;

/// The load of the machine, its memory in bytes and its temperature in
/// thousandths of a degree.
#[derive(Debug, Clone, Copy, PartialEq, Eq, Structural)]
pub struct SystemStats {
    pub cpu: CpuUse,
    pub ram_used: u64,
    pub ram_total: u64,
    pub cpu_temp_milli: Option<i64>,
}

/// The numbers among the words from `i` up to `n`.
pub open spec fn numbers(w: Seq<Seq<char>>, i: int, n: int) -> Seq<nat>
    decreases n - i,
{
    if n <= i {
        Seq::empty()
    } else {
        match unsigned_up_to(w[n - 1], u64::MAX as nat) {
            Some(v) => numbers(w, i, n - 1).push(v),
            None => numbers(w, i, n - 1),
        }
    }
}

/// The sum of some numbers.
pub open spec fn sum_of(s: Seq<nat>) -> nat
    decreases s.len(),
{
    if s.len() == 0 {
        0
    } else {
        sum_of(s.drop_last()) + s.last()
    }
}

/// The times in the first line of the kernel's report: at most ten, of which
/// the fourth was spent idle and the fifth waiting.
pub open spec fn cpu_times(stat: Seq<char>) -> Option<Seq<nat>> {
    let l = lines(stat);
    if l.len() == 0 || !has_prefix(l[0], "cpu "@) {
        None
    } else {
        let w = words_of(l[0], true);
        let n = if w.len() < 11 {
            w.len() as int
        } else {
            11
        };
        let times = numbers(w, 1, n);
        if times.len() < 4 {
            None
        } else {
            Some(times)
        }
    }
}

/// The sample that the kernel's report gives.
pub open spec fn cpu_sample(stat: Seq<char>) -> Option<CpuSample> {
    match cpu_times(stat) {
        Some(times) => Some(
            CpuSample {
                total: sum_of(times) as u128,
                idle: (times[3] + (if times.len() > 4 {
                    times[4]
                } else {
                    0
                })) as u128,
            },
        ),
        None => None,
    }
}

/// The sample that the kernel's report gives.
pub fn read_cpu_sample(stat: &str) -> (r: Option<CpuSample>)
    ensures
        r == cpu_sample(stat@),
        r is Some ==> r->0.total <= MOST_TIME,
{
    let l = split_lines(stat);
    assert(lines(stat@).len() == l@.len());
    if l.len() == 0 {
        return None;
    }
    assert(lines(stat@)[0] == l@[0]@);
    if !starts_with_text(l[0].as_str(), "cpu ") {
        return None;
    }
    let w = split_gaps(l[0].as_str(), true);
    let ghost all = words_of(l@[0]@, true);
    assert(all.len() == w@.len());
    let n: usize = if w.len() < 11 {
        w.len()
    } else {
        11
    };
    let mut times: Vec<u64> = Vec::new();
    let mut total: u128 = 0;
    let ghost mut seen: Seq<nat> = Seq::empty();
    let mut i: usize = 1;
    assert(numbers(all, 1, 1) =~= Seq::empty());
    while i < n
        invariant
            n <= w@.len(),
            n <= 11,
            1 <= i,
            i <= n || n <= 1,
            n <= 1 ==> i == 1,
            texts(w@) == all,
            seen == numbers(all, 1, i as int),
            seen.len() <= i - 1,
            times@.len() == seen.len(),
            forall|j: int| 0 <= j < times@.len() ==> (#[trigger] times@[j]) as nat == seen[j],
            total == sum_of(seen),
            total <= (i - 1) * 0xffff_ffff_ffff_ffff,
        decreases n - i,
    {
        assert(all[i as int] == w@[i as int]@);
        match parse_unsigned(w[i].as_str(), u64::MAX) {
            Some(v) => {
                let ghost next = seen.push(v as nat);
                assert(next.drop_last() =~= seen);
                times.push(v);
                total = total + v as u128;
                proof {
                    seen = next;
                }
            },
            None => {},
        }
        i += 1;
    }
    assert(n <= 1 ==> numbers(all, 1, n as int) =~= Seq::empty());
    assert(seen == numbers(all, 1, n as int));
    if times.len() < 4 {
        return None;
    }
    let wait: u64 = if times.len() > 4 {
        times[4]
    } else {
        0
    };
    Some(CpuSample { total, idle: times[3] as u128 + wait as u128 })
}

/// The difference of two numbers, or zero.
pub open spec fn gain(a: u128, b: u128) -> u128 {
    if a >= b {
        (a - b) as u128
    } else {
        0
    }
}

/// What was spent between two samples.
pub open spec fn cpu_use(prev: Option<CpuSample>, next: CpuSample) -> CpuUse {
    match prev {
        Some(p) => {
            let total = gain(next.total, p.total);
            CpuUse { busy: gain(total, gain(next.idle, p.idle)), total }
        },
        None => CpuUse { busy: 0, total: 0 },
    }
}

fn gained(a: u128, b: u128) -> (r: u128)
    ensures
        r == gain(a, b),
{
    if a >= b {
        a - b
    } else {
        0
    }
}

/// A number at the beginning of a text, or zero.
pub open spec fn leading_number(s: Seq<char>) -> nat {
    let w = words_of(s, true);
    if w.len() == 0 {
        0
    } else {
        match unsigned_up_to(w[0], u64::MAX as nat) {
            Some(n) => n,
            None => 0,
        }
    }
}

/// A number at the beginning of a text, or zero.
pub fn parse_kb(rest: &str) -> (r: u64)
    ensures
        r == leading_number(rest@),
{
    let w = split_gaps(rest, true);
    assert(words_of(rest@, true).len() == w@.len());
    if w.len() == 0 {
        return 0;
    }
    assert(words_of(rest@, true)[0] == w@[0]@);
    match parse_unsigned(w[0].as_str(), u64::MAX) {
        Some(n) => n,
        None => 0,
    }
}

/// The total and the available memory in kibibytes that the lines from `i` on
/// tell, up to the line after which both are known.
pub open spec fn memory_from(l: Seq<Seq<char>>, i: int, total: nat, avail: nat) -> (nat, nat)
    decreases l.len() - i,
{
    if i < 0 || i >= l.len() {
        (total, avail)
    } else {
        let (t, a) = match after_prefix(l[i], "MemTotal:"@) {
            Some(rest) => (leading_number(rest), avail),
            None => match after_prefix(l[i], "MemAvailable:"@) {
                Some(rest) => (total, leading_number(rest)),
                None => (total, avail),
            },
        };
        if t != 0 && a != 0 {
            (t, a)
        } else {
            memory_from(l, i + 1, t, a)
        }
    }
}

/// The used and the total memory in kibibytes.
pub open spec fn memory_kib(meminfo: Seq<char>) -> (nat, nat) {
    let (total, avail) = memory_from(lines(meminfo), 0, 0, 0);
    (
        if total >= avail {
            (total - avail) as nat
        } else {
            0
        },
        total,
    )
}

/// The used and the total memory in kibibytes.
pub fn read_memory_kib(meminfo: &str) -> (r: (u64, u64))
    ensures
        r.0 == memory_kib(meminfo@).0,
        r.1 == memory_kib(meminfo@).1,
        r.0 <= r.1,
{
    let l = split_lines(meminfo);
    let ghost all = lines(meminfo@);
    assert(all.len() == l@.len());
    let mut total: u64 = 0;
    let mut avail: u64 = 0;
    let mut i: usize = 0;
    while i < l.len()
        invariant
            i <= l@.len(),
            texts(l@) == all,
            all.len() == l@.len(),
            memory_from(all, 0, 0, 0) == memory_from(all, i as int, total as nat, avail as nat),
        ensures
            memory_from(all, 0, 0, 0) == (total as nat, avail as nat),
        decreases l@.len() - i,
    {
        assert(all[i as int] == l@[i as int]@);
        match strip_prefix_text(l[i].as_str(), "MemTotal:") {
            Some(rest) => {
                total = parse_kb(rest.as_str());
            },
            None => {
                match strip_prefix_text(l[i].as_str(), "MemAvailable:") {
                    Some(rest) => {
                        avail = parse_kb(rest.as_str());
                    },
                    None => {},
                }
            },
        }
        if total != 0 && avail != 0 {
            break;
        }
        i += 1;
    }
    (total.saturating_sub(avail), total)
}

/// The used and the total memory in bytes; zero where the kernel tells nothing.
pub open spec fn memory_bytes(meminfo: Option<Seq<char>>) -> (int, int) {
    match meminfo {
        Some(text) => ((memory_kib(text).0 * 1024) as int, (memory_kib(text).1 * 1024) as int),
        None => (0, 0),
    }
}

/// The text behind a reference.
pub open spec fn text_of(s: Option<&str>) -> Option<Seq<char>> {
    match s {
        Some(t) => Some(t@),
        None => None,
    }
}

/// The used and the total memory in bytes; zero where the kernel tells nothing.
pub fn read_meminfo(meminfo: Option<&str>) -> (r: (u64, u64))
    requires
        memory_bytes(text_of(meminfo)).1 <= u64::MAX,
    ensures
        r.0 == memory_bytes(text_of(meminfo)).0,
        r.1 == memory_bytes(text_of(meminfo)).1,
{
    match meminfo {
        Some(text) => {
            let (used, total) = read_memory_kib(text);
            (used * 1024, total * 1024)
        },
        None => (0, 0),
    }
}

/// A temperature in thousandths of a degree.
pub open spec fn temp_milli(text: Seq<char>) -> Option<i64> {
    match signed_between(trim(text), i64::MIN as int, i64::MAX as int) {
        Some(n) => Some(n as i64),
        None => None,
    }
}

/// A temperature in thousandths of a degree.
pub fn read_temp_milli(text: &str) -> (r: Option<i64>)
    ensures
        r == temp_milli(text@),
{
    parse_i64(trim_text(text).as_str())
}

/// A sensor of the machine.
#[derive(Debug)]
pub struct Sensor {
    /// What its name file holds, if it can be read.
    pub name: Option<String>,
    /// Whether it has a first temperature.
    pub has_temp: bool,
}

/// Whether a sensor has a first temperature and that name.
pub open spec fn is_named(s: Sensor, name: Seq<char>) -> bool {
    s.has_temp && match s.name {
        Some(n) => trim(n@) == name,
        None => false,
    }
}

/// Whether a sensor has a first temperature and a name that looks like that of
/// a processor.
pub open spec fn looks_like_cpu(s: Sensor) -> bool {
    s.has_temp && match s.name {
        Some(n) => has_infix(trim(n@), "cpu"@) || has_infix(trim(n@), "pkg"@) || has_infix(
            trim(n@),
            "zenpower"@,
        ),
        None => false,
    }
}

fn named(s: &Sensor, name: &str) -> (r: bool)
    ensures
        r == is_named(*s, name@),
{
    s.has_temp && match &s.name {
        Some(n) => same_text(trim_text(n.as_str()).as_str(), name),
        None => false,
    }
}

fn cpu_like(s: &Sensor) -> (r: bool)
    ensures
        r == looks_like_cpu(*s),
{
    s.has_temp && match &s.name {
        Some(n) => {
            let t = trim_text(n.as_str());
            contains_text(t.as_str(), "cpu") || contains_text(t.as_str(), "pkg") || contains_text(
                t.as_str(),
                "zenpower",
            )
        },
        None => false,
    }
}

/// The first sensor of that name, from `i` on.
pub open spec fn first_named(s: Seq<Sensor>, name: Seq<char>, i: int) -> Option<int>
    decreases s.len() - i,
{
    if i < 0 || i >= s.len() {
        None
    } else if is_named(s[i], name) {
        Some(i)
    } else {
        first_named(s, name, i + 1)
    }
}

/// The first sensor that looks like that of a processor, from `i` on.
pub open spec fn first_cpu_like(s: Seq<Sensor>, i: int) -> Option<int>
    decreases s.len() - i,
{
    if i < 0 || i >= s.len() {
        None
    } else if looks_like_cpu(s[i]) {
        Some(i)
    } else {
        first_cpu_like(s, i + 1)
    }
}

/// The sensor of the processor: `k10temp` before `coretemp` before any that
/// looks like one.
pub open spec fn cpu_sensor(s: Seq<Sensor>) -> Option<int> {
    match first_named(s, "k10temp"@, 0) {
        Some(i) => Some(i),
        None => match first_named(s, "coretemp"@, 0) {
            Some(i) => Some(i),
            None => first_cpu_like(s, 0),
        },
    }
}

fn find_named(s: &Vec<Sensor>, name: &str) -> (r: Option<usize>)
    ensures
        match r {
            Some(i) => i < s@.len() && first_named(s@, name@, 0) == Some(i as int),
            None => first_named(s@, name@, 0) is None,
        },
{
    let mut i: usize = 0;
    while i < s.len()
        invariant
            i <= s@.len(),
            first_named(s@, name@, 0) == first_named(s@, name@, i as int),
        decreases s@.len() - i,
    {
        if named(&s[i], name) {
            return Some(i);
        }
        i += 1;
    }
    None
}

/// The sensor of the processor among those of the machine.
pub fn pick_cpu_sensor(s: &Vec<Sensor>) -> (r: Option<usize>)
    ensures
        match r {
            Some(i) => i < s@.len() && cpu_sensor(s@) == Some(i as int),
            None => cpu_sensor(s@) is None,
        },
{
    match find_named(s, "k10temp") {
        Some(i) => {
            return Some(i);
        },
        None => {},
    }
    match find_named(s, "coretemp") {
        Some(i) => {
            return Some(i);
        },
        None => {},
    }
    let mut i: usize = 0;
    while i < s.len()
        invariant
            i <= s@.len(),
            cpu_sensor(s@) == first_cpu_like(s@, i as int),
        decreases s@.len() - i,
    {
        if cpu_like(&s[i]) {
            return Some(i);
        }
        i += 1;
    }
    None
}

/// Remembers the last processor times, against which the next are held.
#[derive(Debug)]
pub struct SystemTracker {
    pub prev_cpu: Option<CpuSample>,
}

impl Default for SystemTracker {
    fn default() -> (r: Self)
        ensures
            r.prev_cpu is None,
    {
        SystemTracker { prev_cpu: None }
    }
}

impl SystemTracker {
    /// What was spent since the last sample. A report that cannot be read
    /// counts for nothing.
    pub fn sample_cpu(&mut self, stat: Option<&str>) -> (r: CpuUse)
        ensures
            match text_of(stat) {
                Some(text) => match cpu_sample(text) {
                    Some(next) => final(self).prev_cpu == Some(next) && r == cpu_use(
                        old(self).prev_cpu,
                        next,
                    ),
                    None => *final(self) == *old(self) && r == (CpuUse { busy: 0, total: 0 }),
                },
                None => *final(self) == *old(self) && r == (CpuUse { busy: 0, total: 0 }),
            },
            r.busy <= r.total <= MOST_TIME,
    {
        let sample = match stat {
            Some(text) => read_cpu_sample(text),
            None => None,
        };
        match sample {
            Some(next) => {
                let spent = match self.prev_cpu {
                    Some(p) => {
                        let total = gained(next.total, p.total);
                        CpuUse { busy: gained(total, gained(next.idle, p.idle)), total }
                    },
                    None => CpuUse { busy: 0, total: 0 },
                };
                self.prev_cpu = Some(next);
                spent
            },
            None => CpuUse { busy: 0, total: 0 },
        }
    }

    /// The state of the machine, from the reports of the kernel: processor
    /// times, memory, and the temperature of the sensor of the processor.
    pub fn sample_from(
        &mut self,
        stat: Option<&str>,
        meminfo: Option<&str>,
        temp: Option<&str>,
    ) -> (r: SystemStats)
        requires
            memory_bytes(text_of(meminfo)).1 <= u64::MAX,
        ensures
            match text_of(stat) {
                Some(text) => match cpu_sample(text) {
                    Some(next) => final(self).prev_cpu == Some(next) && r.cpu == cpu_use(
                        old(self).prev_cpu,
                        next,
                    ),
                    None => *final(self) == *old(self) && r.cpu == (CpuUse { busy: 0, total: 0 }),
                },
                None => *final(self) == *old(self) && r.cpu == (CpuUse { busy: 0, total: 0 }),
            },
            r.cpu.busy <= r.cpu.total <= MOST_TIME,
            r.ram_used == memory_bytes(text_of(meminfo)).0,
            r.ram_total == memory_bytes(text_of(meminfo)).1,
            r.cpu_temp_milli == (match text_of(temp) {
                Some(t) => temp_milli(t),
                None => None,
            }),
    {
        let cpu = self.sample_cpu(stat);
        let (ram_used, ram_total) = read_meminfo(meminfo);
        let cpu_temp_milli = match temp {
            Some(t) => read_temp_milli(t),
            None => None,
        };
        SystemStats { cpu, ram_used, ram_total, cpu_temp_milli }
    }
}

/// No more than the whole of the time is spent on work.
pub proof fn law_load_is_at_most_everything(prev: Option<CpuSample>, next: CpuSample)
    ensures
        cpu_use(prev, next).busy <= cpu_use(prev, next).total,
{
}

} // verus!
