//! Finds K-fold tandem repetition of bytes at the end of a rolling buffer.
//!
//! A loop is K byte-identical copies of some block, standing at the very end
//! of the buffer. Detection is exact. One scan computes the Z-function of the
//! reversed buffer in linear time: copies at the end of the buffer are copies
//! at the start of its reversal, and there `z[p] >= (K - 1) * p` says that K
//! blocks of length `p` agree.
use vstd::prelude::*;

verus! {

/// The length of the longest common prefix of `s` and its suffix at `i`.
pub open spec fn match_len(s: Seq<u8>, i: int) -> nat {
    match_len_from(s, i, 0)
}

/// How many positions from `k` on agree between `s` and its suffix at `i`,
/// added to `k`.
pub open spec fn match_len_from(s: Seq<u8>, i: int, k: nat) -> nat
    decreases s.len() - k,
{
    if i + k < s.len() && k < s.len() && s[k as int] == s[i + k] {
        match_len_from(s, i, k + 1)
    } else {
        k
    }
}

/// Whether the last `k * p` bytes are `k` copies of the last `p` bytes.
pub open spec fn tandem(buf: Seq<u8>, p: int, k: int) -> bool {
    &&& p >= 1
    &&& k * p <= buf.len()
    &&& forall|c: int|
        0 <= c < k ==> #[trigger] block(buf, p, c) == buf.subrange(buf.len() - p, buf.len() as int)
}

/// The block of `p` bytes that ends `c` blocks before the end.
pub open spec fn block(buf: Seq<u8>, p: int, c: int) -> Seq<u8> {
    buf.subrange(buf.len() - (c + 1) * p, buf.len() - c * p)
}

/// The last `n` bytes, or all where there are fewer.
pub open spec fn keep_last(s: Seq<u8>, n: nat) -> Seq<u8> {
    if s.len() <= n {
        s
    } else {
        s.subrange(s.len() - n, s.len() as int)
    }
}

proof fn lemma_match_len_from(s: Seq<u8>, i: int, k: nat)
    requires
        0 <= i,
        i + k <= s.len(),
    ensures
        k <= match_len_from(s, i, k),
        i + match_len_from(s, i, k) <= s.len(),
        forall|j: int| k <= j < match_len_from(s, i, k) ==> #[trigger] s[j] == s[i + j],
        i + match_len_from(s, i, k) < s.len() ==> s[match_len_from(s, i, k) as int] != s[i
            + match_len_from(s, i, k)],
    decreases s.len() - k,
{
    if i + k < s.len() && k < s.len() && s[k as int] == s[i + k] {
        lemma_match_len_from(s, i, k + 1);
    }
}

/// A length up to which everything agrees, with a mismatch or the end behind
/// it, is the matching length.
proof fn lemma_match_len_is(s: Seq<u8>, i: int, m: int)
    requires
        0 <= i,
        0 <= m,
        i + m <= s.len(),
        forall|j: int| 0 <= j < m ==> #[trigger] s[j] == s[i + j],
        i + m < s.len() ==> s[m] != s[i + m],
    ensures
        match_len(s, i) == m,
{
    lemma_match_len_from(s, i, 0);
    let r = match_len(s, i) as int;
    if r < m {
        assert(s[r] == s[i + r]);
    } else if m < r {
        assert(s[m] == s[i + m]);
    }
}

/// For each position, how far the suffix there agrees with the whole.
pub fn z_function(s: &[u8]) -> (z: Vec<usize>)
    ensures
        z@.len() == s@.len(),
        forall|i: int| 0 <= i < s@.len() ==> z@[i] == match_len(s@, i),
{
    let n: usize = s.len();
    let mut z: Vec<usize> = Vec::new();
    if n == 0 {
        return z;
    }
    proof {
        lemma_match_len_is(s@, 0, n as int);
    }
    z.push(n);
    let mut l: usize = 0;
    let mut r: usize = 0;
    let mut i: usize = 1;
    while i < n
        invariant
            1 <= i <= n,
            n == s@.len(),
            z@.len() == i,
            l <= r <= n,
            l < i,
            r > 0 ==> l > 0,
            forall|k: int| 0 <= k < i ==> z@[k] == match_len(s@, k),
            forall|k: int| l <= k < r ==> #[trigger] s@[k] == s@[k - l],
        decreases n - i,
    {
        let mut m: usize = 0;
        if i < r {
            let a = z[i - l];
            let b = r - i;
            m = if a < b {
                a
            } else {
                b
            };
            proof {
                lemma_match_len_from(s@, i - l, 0);
                assert forall|j: int| 0 <= j < m implies #[trigger] s@[j] == s@[i + j] by {
                    assert(s@[j] == s@[i - l + j]);
                    assert(s@[(i + j) - l] == s@[i + j]);
                }
            }
        }
        while i + m < n && s[m] == s[i + m]
            invariant
                1 <= i < n,
                n == s@.len(),
                i + m <= n,
                forall|j: int| 0 <= j < m ==> #[trigger] s@[j] == s@[i + j],
            decreases n - m,
        {
            m += 1;
        }
        proof {
            lemma_match_len_is(s@, i as int, m as int);
        }
        z.push(m);
        if i + m > r {
            l = i;
            r = i + m;
        }
        i += 1;
    }
    z
}

/// Agreement at distance `p` over `(k - 1) * p` positions of the reversal is
/// `k`-fold repetition at the end of the buffer.
proof fn lemma_tandem_iff(buf: Seq<u8>, rev: Seq<u8>, p: int, k: int)
    requires
        p >= 1,
        k >= 2,
        k * p <= buf.len(),
        rev == buf.reverse(),
    ensures
        tandem(buf, p, k) <==> match_len(rev, p) >= (k - 1) * p,
{
    let n = buf.len();
    assert((k - 1) * p + p == k * p) by (nonlinear_arith);
    lemma_match_len_from(rev, p, 0);
    if match_len(rev, p) >= (k - 1) * p {
        assert forall|c: int| 0 <= c < k implies #[trigger] block(buf, p, c) == buf.subrange(
            n - p,
            n as int,
        ) by {
            lemma_copies(buf, rev, p, k, c);
        }
    }
    if tandem(buf, p, k) && match_len(rev, p) < (k - 1) * p {
        let m = match_len(rev, p) as int;
        // rev[m] != rev[p + m], though both positions lie in the repetition
        let c = m / p;
        let o = m % p;
        assert(m == c * p + o && 0 <= o < p) by (nonlinear_arith)
            requires
                c == m / p,
                o == m % p,
                p >= 1,
        ;
        assert(c < k - 1) by (nonlinear_arith)
            requires
                m == c * p + o,
                0 <= o,
                m < (k - 1) * p,
                p >= 1,
        ;
        assert(0 <= c) by (nonlinear_arith)
            requires
                m == c * p + o,
                0 <= m,
                o < p,
                p >= 1,
        ;
        assert((c + 1) * p == c * p + p) by (nonlinear_arith);
        assert((c + 2) * p == c * p + 2 * p) by (nonlinear_arith);
        assert((c + 2) * p <= k * p) by (nonlinear_arith)
            requires
                c + 2 <= k,
                p >= 1,
        ;
        assert(0 <= c * p) by (nonlinear_arith)
            requires
                0 <= c,
                p >= 1,
        ;
        let b0 = block(buf, p, c);
        let b1 = block(buf, p, c + 1);
        assert(b0[p - 1 - o] == buf[n - 1 - m]);
        assert(b1[p - 1 - o] == buf[n - 1 - (m + p)]);
        assert(rev[m] == buf[n - 1 - m]);
        assert(rev[p + m] == buf[n - 1 - (m + p)]);
        assert(false);
    }
}

proof fn lemma_copies(buf: Seq<u8>, rev: Seq<u8>, p: int, k: int, c: int)
    requires
        p >= 1,
        k >= 2,
        k * p <= buf.len(),
        rev == buf.reverse(),
        match_len(rev, p) >= (k - 1) * p,
        0 <= c < k,
    ensures
        block(buf, p, c) == buf.subrange(buf.len() - p, buf.len() as int),
    decreases c,
{
    let n = buf.len();
    assert((c + 1) * p == c * p + p) by (nonlinear_arith);
    assert((c + 1) * p <= k * p) by (nonlinear_arith)
        requires
            c + 1 <= k,
            p >= 1,
    ;
    assert(0 <= c * p) by (nonlinear_arith)
        requires
            0 <= c,
            p >= 1,
    ;
    lemma_match_len_from(rev, p, 0);
    if c == 0 {
        assert((0 + 1) * p == p && 0 * p == 0);
        assert(block(buf, p, 0) =~= buf.subrange(n - p, n as int));
    } else {
        lemma_copies(buf, rev, p, k, c - 1);
        assert((c - 1) * p == c * p - p) by (nonlinear_arith);
        assert(c * p <= (k - 1) * p) by (nonlinear_arith)
            requires
                c <= k - 1,
                p >= 1,
        ;
        let b0 = block(buf, p, c - 1);
        let b1 = block(buf, p, c);
        assert((c - 1 + 1) * p == c * p);
        assert forall|j: int| 0 <= j < p implies b1[j] == b0[j] by {
            let m = (c - 1) * p + (p - 1 - j);
            assert(rev[m] == rev[p + m]);
            assert(rev[m] == buf[n - 1 - m]);
            assert(rev[p + m] == buf[n - 1 - (p + m)]);
        }
        assert(b1 =~= b0);
    }
}

/// Accumulates bytes into a capped rolling buffer and finds the smallest
/// repetition period at its end.
pub struct Detector {
    buf: Vec<u8>,
    max_bytes: usize,
    repeats: usize,
}

impl View for Detector {
    type V = Seq<u8>;

    /// The bytes held, oldest first.
    closed spec fn view(&self) -> Seq<u8> {
        self.buf@
    }
}

impl Detector {
    /// The greatest number of bytes held.
    pub closed spec fn limit(&self) -> nat {
        self.max_bytes as nat
    }

    /// The number of copies that make a loop.
    pub closed spec fn copies(&self) -> nat {
        self.repeats as nat
    }

    /// A detector holds no more than its limit, and a loop has two copies at least.
    pub open spec fn wf(&self) -> bool {
        &&& self.limit() >= 1
        &&& self.copies() >= 2
        &&& self@.len() <= self.limit()
    }

    /// A detector that holds at most `max_bytes` and reports a loop at
    /// `repeats` copies. A limit of zero counts as one, fewer than two copies
    /// as two.
    pub fn new(max_bytes: usize, repeats: usize) -> (d: Detector)
        ensures
            d.wf(),
            d@ == Seq::<u8>::empty(),
            d.limit() == (if max_bytes >= 1 {
                max_bytes as nat
            } else {
                1
            }),
            d.copies() == (if repeats >= 2 {
                repeats as nat
            } else {
                2
            }),
    {
        Detector {
            buf: Vec::new(),
            max_bytes: if max_bytes >= 1 {
                max_bytes
            } else {
                1
            },
            repeats: if repeats >= 2 {
                repeats
            } else {
                2
            },
        }
    }

    /// Adds bytes at the end and drops the oldest beyond the limit.
    pub fn append(&mut self, p: &[u8])
        requires
            old(self).wf(),
        ensures
            final(self).wf(),
            final(self).limit() == old(self).limit(),
            final(self).copies() == old(self).copies(),
            final(self)@ == keep_last(old(self)@ + p@, old(self).limit()),
    {
        let ghost before = self.buf@;
        if p.len() >= self.max_bytes {
            let start = p.len() - self.max_bytes;
            let mut next: Vec<u8> = Vec::new();
            copy_bytes(&mut next, p, start);
            self.buf = next;
            assert(self.buf@ =~= keep_last(before + p@, self.max_bytes as nat));
            return;
        }
        if p.len() <= self.max_bytes - self.buf.len() {
            copy_bytes(&mut self.buf, p, 0);
            assert(self.buf@ =~= keep_last(before + p@, self.max_bytes as nat));
            return;
        }
        let excess = p.len() - (self.max_bytes - self.buf.len());
        let mut next: Vec<u8> = Vec::new();
        copy_bytes(&mut next, &self.buf, excess);
        copy_bytes(&mut next, p, 0);
        self.buf = next;
        assert(self.buf@ =~= keep_last(before + p@, self.max_bytes as nat));
    }

    /// Empties the buffer.
    pub fn reset(&mut self)
        requires
            old(self).wf(),
        ensures
            final(self).wf(),
            final(self)@ == Seq::<u8>::empty(),
            final(self).limit() == old(self).limit(),
            final(self).copies() == old(self).copies(),
    {
        self.buf.clear();
    }

    /// The number of bytes held.
    pub fn len(&self) -> (n: usize)
        ensures
            n == self@.len(),
    {
        self.buf.len()
    }

    /// The smallest period of a loop at the end of the buffer, or zero where
    /// there is no loop.
    pub fn scan(&self) -> (p: usize)
        requires
            self.wf(),
        ensures
            p == 0 ==> forall|q: int| !tandem(self@, q, self.copies() as int),
            p > 0 ==> {
                &&& tandem(self@, p as int, self.copies() as int)
                &&& forall|q: int| q < p ==> !tandem(self@, q, self.copies() as int)
            },
    {
        let n = self.buf.len();
        let k = self.repeats;
        if n < k {
            assert forall|q: int| !tandem(self@, q, k as int) by {
                if q >= 1 {
                    assert(k * q >= k) by (nonlinear_arith)
                        requires
                            q >= 1,
                            k >= 0,
                    ;
                }
            }
            return 0;
        }
        let rev = reversed(&self.buf);
        let z = z_function(&rev);
        let max_p = n / k;
        let needed = k - 1;
        assert(max_p * k <= n) by (nonlinear_arith)
            requires
                max_p == n / k,
                k >= 2,
        ;
        let mut p: usize = 1;
        while p <= max_p
            invariant
                1 <= p <= max_p + 1,
                n == self.buf@.len(),
                k == self.repeats,
                k >= 2,
                needed == k - 1,
                max_p == n / k,
                max_p * k <= n,
                rev@ == self.buf@.reverse(),
                z@.len() == rev@.len(),
                forall|i: int| 0 <= i < rev@.len() ==> z@[i] == match_len(rev@, i),
                forall|q: int| q < p ==> !tandem(self@, q, k as int),
            decreases max_p + 1 - p,
        {
            assert(k * p <= n) by (nonlinear_arith)
                requires
                    p <= max_p,
                    max_p * k <= n,
                    k >= 2,
            ;
            assert(p < k * p) by (nonlinear_arith)
                requires
                    p >= 1,
                    k >= 2,
            ;
            assert(needed * p <= n) by (nonlinear_arith)
                requires
                    needed == k - 1,
                    k * p <= n,
                    p >= 1,
            ;
            proof {
                lemma_tandem_iff(self@, rev@, p as int, k as int);
            }
            if z[p] >= needed * p {
                return p;
            }
            p += 1;
        }
        assert forall|q: int| !tandem(self@, q, k as int) by {
            if q > max_p {
                assert(k * q > n) by (nonlinear_arith)
                    requires
                        q >= max_p + 1,
                        max_p == n / k,
                        k >= 2,
                        n >= 0,
                ;
            }
        }
        0
    }

    /// How many copies of the last `period` bytes stand at the end, without a
    /// gap between them.
    pub fn loop_extent(&self, period: usize) -> (k: usize)
        requires
            self.wf(),
        ensures
            period == 0 || period > self@.len() ==> k == 0,
            1 <= period <= self@.len() ==> {
                &&& k >= 1
                &&& tandem(self@, period as int, k as int)
                &&& !tandem(self@, period as int, k + 1)
            },
    {
        if period == 0 {
            return 0;
        }
        let n = self.buf.len();
        if n < period {
            return 0;
        }
        let mut k: usize = 0;
        let mut left: usize = n;
        assert(0 * period == 0) by (nonlinear_arith);
        while left >= period
            invariant
                1 <= period <= n,
                n == self.buf@.len(),
                left == n - k * period,
                0 <= k * period <= n,
                k <= n,
                tandem(self@, period as int, k as int),
                left < period ==> k >= 1 && !tandem(self@, period as int, k + 1),
            ensures
                k >= 1,
                tandem(self@, period as int, k as int),
                !tandem(self@, period as int, k + 1),
            decreases left,
        {
            let start = left - period;
            assert((k + 1) * period == k * period + period) by (nonlinear_arith);
            let ghost b = block(self@, period as int, k as int);
            if !same_run(&self.buf, start, n - period, period) {
                proof {
                    assert(b == self@.subrange(start as int, start + period));
                    assert(!tandem(self@, period as int, k + 1));
                    if k == 0 {
                        assert(b =~= self@.subrange(n - period, n as int));
                    }
                }
                break;
            }
            proof {
                assert(b == self@.subrange(n - period, n as int));
                assert forall|c: int| 0 <= c < k + 1 implies #[trigger] block(
                    self@,
                    period as int,
                    c,
                ) == self@.subrange(n - period, n as int) by {
                    if c < k {
                    }
                }
                assert(k + 1 <= n) by (nonlinear_arith)
                    requires
                        (k + 1) * period <= n,
                        period >= 1,
                ;
            }
            k += 1;
            left = start;
            proof {
                if left < period {
                    assert((k + 1) * period == k * period + period) by (nonlinear_arith);
                    assert(!tandem(self@, period as int, k + 1));
                }
            }
        }
        k
    }

    /// The start of the last `period` bytes, cut to `max_bytes` where that is
    /// positive.
    pub fn snippet(&self, period: usize, max_bytes: usize) -> (r: Vec<u8>)
        ensures
            period == 0 || period > self@.len() ==> r@ == Seq::<u8>::empty(),
            1 <= period <= self@.len() ==> r@ == self@.subrange(
                self@.len() - period,
                self@.len() - period + (if 0 < max_bytes < period {
                    max_bytes as int
                } else {
                    period as int
                }),
            ),
    {
        let n = self.buf.len();
        let mut r: Vec<u8> = Vec::new();
        if period == 0 || period > n {
            return r;
        }
        let start = n - period;
        let end = if max_bytes > 0 && period > max_bytes {
            start + max_bytes
        } else {
            n
        };
        let mut i: usize = start;
        while i < end
            invariant
                start <= i <= end <= n,
                n == self.buf@.len(),
                r@ == self.buf@.subrange(start as int, i as int),
            decreases end - i,
        {
            r.push(self.buf[i]);
            assert(self.buf@.subrange(start as int, i + 1) =~= self.buf@.subrange(
                start as int,
                i as int,
            ).push(self.buf@[i as int]));
            i += 1;
        }
        r
    }
}

/// Appends the bytes of `p` from `start` on.
fn copy_bytes(out: &mut Vec<u8>, p: &[u8], start: usize)
    requires
        start <= p@.len(),
    ensures
        final(out)@ == old(out)@ + p@.subrange(start as int, p@.len() as int),
{
    let ghost before = out@;
    let mut i: usize = start;
    assert(out@ =~= before + p@.subrange(start as int, start as int));
    while i < p.len()
        invariant
            start <= i <= p@.len(),
            out@ == before + p@.subrange(start as int, i as int),
        decreases p@.len() - i,
    {
        out.push(p[i]);
        assert(out@ =~= before + p@.subrange(start as int, i + 1));
        i += 1;
    }
}

/// The bytes in reverse order.
fn reversed(p: &[u8]) -> (r: Vec<u8>)
    ensures
        r@ == p@.reverse(),
{
    let n = p.len();
    let mut r: Vec<u8> = Vec::new();
    let mut i: usize = 0;
    while i < n
        invariant
            i <= n,
            n == p@.len(),
            r@.len() == i,
            forall|j: int| 0 <= j < i ==> r@[j] == p@[n - 1 - j],
        decreases n - i,
    {
        r.push(p[n - 1 - i]);
        i += 1;
    }
    assert(r@ =~= p@.reverse());
    r
}

/// Whether the bytes `j` places behind two positions agree.
spec fn agree(p: Seq<u8>, a: int, b: int, j: int) -> bool {
    p[a + j] == p[b + j]
}

/// Whether `len` bytes agree at two positions.
fn same_run(p: &[u8], a: usize, b: usize, len: usize) -> (r: bool)
    requires
        a + len <= p@.len(),
        b + len <= p@.len(),
    ensures
        r == (p@.subrange(a as int, a + len) == p@.subrange(b as int, b + len)),
{
    let n = p.len();
    let mut i: usize = 0;
    while i < len
        invariant
            i <= len,
            n == p@.len(),
            a + len <= n,
            b + len <= n,
            forall|j: int| 0 <= j < i ==> #[trigger] agree(p@, a as int, b as int, j),
        decreases len - i,
    {
        if p[a + i] != p[b + i] {
            assert(p@.subrange(a as int, a + len)[i as int] != p@.subrange(
                b as int,
                b + len,
            )[i as int]);
            return false;
        }
        assert(agree(p@, a as int, b as int, i as int));
        i += 1;
    }
    assert forall|j: int| 0 <= j < len implies #[trigger] p@.subrange(a as int, a + len)[j]
        == p@.subrange(b as int, b + len)[j] by {
        assert(agree(p@, a as int, b as int, j));
    }
    assert(p@.subrange(a as int, a + len) =~= p@.subrange(b as int, b + len));
    true
}

/// Splitting the input over several calls changes nothing: appending `a` and
/// then `b` leaves what appending both at once leaves.
pub proof fn law_append_is_chunk_independent(held: Seq<u8>, a: Seq<u8>, b: Seq<u8>, limit: nat)
    ensures
        keep_last(keep_last(held + a, limit) + b, limit) == keep_last(held + (a + b), limit),
{
    assert(held + (a + b) =~= (held + a) + b);
    assert(keep_last(keep_last(held + a, limit) + b, limit) =~= keep_last((held + a) + b, limit));
}

} // verus!
