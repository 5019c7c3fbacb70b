//! Distance-3 planar surface code: nine data channels, four weight-4
//! stabilizers, and a bounded-weight decoder on the final syndrome.
use vstd::prelude::*;
use crate::tally::{count_set, count_true, lemma_count_all_false, lemma_count_true_bound, TrialOutcome};

verus! {

/// Channel `q` lies in the support of stabilizer `s`. The supports are
/// `{0,1,3,4}`, `{1,2,4,5}`, `{3,4,6,7}` and `{4,5,7,8}`.
pub open spec fn in_support(s: int, q: int) -> bool {
    ||| (s == 0 && (q == 0 || q == 1 || q == 3 || q == 4))
    ||| (s == 1 && (q == 1 || q == 2 || q == 4 || q == 5))
    ||| (s == 2 && (q == 3 || q == 4 || q == 6 || q == 7))
    ||| (s == 3 && (q == 4 || q == 5 || q == 7 || q == 8))
}

/// Parity of each stabilizer over the true-state vector `z`.
pub open spec fn syndrome_of(z: Seq<bool>) -> Seq<bool> {
    seq![
        z[0] ^ z[1] ^ z[3] ^ z[4],
        z[1] ^ z[2] ^ z[4] ^ z[5],
        z[3] ^ z[4] ^ z[6] ^ z[7],
        z[4] ^ z[5] ^ z[7] ^ z[8],
    ]
}

/// The syndrome that a flip of channel `q` alone produces.
pub open spec fn signature(q: int) -> Seq<bool> {
    Seq::new(4, |s: int| in_support(s, q))
}

/// The syndrome that flips of channels `a` and `b` produce together.
pub open spec fn pair_signature(a: int, b: int) -> Seq<bool> {
    Seq::new(4, |s: int| in_support(s, a) != in_support(s, b))
}

pub open spec fn differs(x: bool, y: bool) -> nat {
    if x != y {
        1
    } else {
        0
    }
}

/// Hamming distance between two four-bit syndromes.
pub open spec fn mismatches(a: Seq<bool>, b: Seq<bool>) -> nat {
    differs(a[0], b[0]) + differs(a[1], b[1]) + differs(a[2], b[2]) + differs(a[3], b[3])
}

pub open spec fn single_fits(synd: Seq<bool>, q: int) -> bool {
    mismatches(signature(q), synd) == 0
}

pub open spec fn pair_fits(synd: Seq<bool>, a: int, b: int) -> bool {
    mismatches(pair_signature(a, b), synd) == 0
}

pub open spec fn nonzero(synd: Seq<bool>) -> bool {
    synd[0] || synd[1] || synd[2] || synd[3]
}

/// `(a, b)` comes before `(c, d)` in the order in which pairs are searched.
pub open spec fn pair_before(a: int, b: int, c: int, d: int) -> bool {
    a < c || (a == c && b < d)
}

/// `c` is the correction chosen for the syndrome `synd`: nothing for a
/// zero syndrome; else the first channel whose signature is `synd`; else the
/// first pair `q1 < q2` whose combined signature is `synd`; else the first
/// channel whose signature is nearest to `synd`.
pub open spec fn is_decoding(synd: Seq<bool>, c: Seq<usize>) -> bool {
    if !nonzero(synd) {
        c.len() == 0
    } else if exists|q: int| 0 <= q < 9 && single_fits(synd, q) {
        &&& c.len() == 1
        &&& c[0] < 9
        &&& single_fits(synd, c[0] as int)
        &&& forall|q: int| 0 <= q < c[0] ==> !single_fits(synd, q)
    } else if exists|a: int, b: int| 0 <= a < b < 9 && pair_fits(synd, a, b) {
        &&& c.len() == 2
        &&& c[0] < c[1] < 9
        &&& pair_fits(synd, c[0] as int, c[1] as int)
        &&& forall|a: int, b: int|
            0 <= a < b < 9 && pair_before(a, b, c[0] as int, c[1] as int) ==> !pair_fits(synd, a, b)
    } else {
        &&& c.len() == 1
        &&& c[0] < 9
        &&& forall|q: int| 0 <= q < 9 ==> mismatches(#[trigger] signature(q), synd) >= mismatches(signature(c[0] as int), synd)
        &&& forall|q: int| 0 <= q < c[0] ==> mismatches(#[trigger] signature(q), synd) > mismatches(signature(c[0] as int), synd)
    }
}

/// `z` with every channel listed in `c` flipped.
pub open spec fn corrected(z: Seq<bool>, c: Seq<usize>) -> Seq<bool> {
    Seq::new(z.len(), |i: int| z[i] != c.contains(i as usize))
}

/// Parity of the logical operator `{1, 4, 7}`.
pub open spec fn logical_flip(z: Seq<bool>) -> bool {
    z[1] ^ z[4] ^ z[7]
}

/// Whether channel `q` lies in the support of stabilizer `s`.
fn support_contains(s: usize, q: usize) -> (r: bool)
    ensures
        r == in_support(s as int, q as int),
{
    if s == 0 {
        q == 0 || q == 1 || q == 3 || q == 4
    } else if s == 1 {
        q == 1 || q == 2 || q == 4 || q == 5
    } else if s == 2 {
        q == 3 || q == 4 || q == 6 || q == 7
    } else if s == 3 {
        q == 4 || q == 5 || q == 7 || q == 8
    } else {
        false
    }
}

/// Stabilizer parities of the true-state vector `z`.
pub fn stabilizer_syndrome(z: &[bool; 9]) -> (r: [bool; 4])
    ensures
        r@ == syndrome_of(z@),
{
    let r = [
        z[0] ^ z[1] ^ z[3] ^ z[4],
        z[1] ^ z[2] ^ z[4] ^ z[5],
        z[3] ^ z[4] ^ z[6] ^ z[7],
        z[4] ^ z[5] ^ z[7] ^ z[8],
    ];
    assert(r@ =~= syndrome_of(z@));
    r
}

/// Bit `s` of the signature of channel `q`, or of the pair `q`, `q2`
/// when `pair` is set.
fn signature_bit(s: usize, q: usize, q2: usize, pair: bool) -> (r: bool)
    ensures
        !pair ==> r == in_support(s as int, q as int),
        pair ==> r == (in_support(s as int, q as int) != in_support(s as int, q2 as int)),
{
    if pair {
        support_contains(s, q) != support_contains(s, q2)
    } else {
        support_contains(s, q)
    }
}

fn differs_exec(x: bool, y: bool) -> (r: usize)
    ensures
        r == differs(x, y),
{
    if x != y {
        1
    } else {
        0
    }
}

/// Hamming distance between the signature of channel `q` (or of the pair
/// `q`, `q2` when `pair` is set) and `synd`.
fn distance_to(synd: &[bool; 4], q: usize, q2: usize, pair: bool) -> (r: usize)
    ensures
        !pair ==> r == mismatches(signature(q as int), synd@),
        pair ==> r == mismatches(pair_signature(q as int, q2 as int), synd@),
        r <= 4,
{
    let d0 = differs_exec(signature_bit(0, q, q2, pair), synd[0]);
    let d1 = differs_exec(signature_bit(1, q, q2, pair), synd[1]);
    let d2 = differs_exec(signature_bit(2, q, q2, pair), synd[2]);
    let d3 = differs_exec(signature_bit(3, q, q2, pair), synd[3]);
    d0 + d1 + d2 + d3
}

/// The correction for a final syndrome: no channel for a zero syndrome,
/// else the first single channel that explains it exactly, else the first
/// pair that does, else the single channel nearest to it. Error patterns of
/// weight above two receive this best-effort single-channel correction.
pub fn decode_syndrome(synd: &[bool; 4]) -> (r: Vec<usize>)
    ensures
        is_decoding(synd@, r@),
{
    if !(synd[0] || synd[1] || synd[2] || synd[3]) {
        return Vec::new();
    }
    let mut best_q: usize = 0;
    let mut best_d: usize = 5;
    let mut q: usize = 0;
    while q < 9
        invariant
            q <= 9,
            q == 0 ==> best_d == 5,
            q > 0 ==> best_q < q && best_d == mismatches(signature(best_q as int), synd@),
            forall|p: int| 0 <= p < q ==> mismatches(#[trigger] signature(p), synd@) >= best_d,
            forall|p: int| 0 <= p < best_q ==> mismatches(#[trigger] signature(p), synd@) > best_d,
        decreases 9 - q,
    {
        let d = distance_to(synd, q, 0, false);
        if d < best_d {
            best_d = d;
            best_q = q;
        }
        q = q + 1;
    }
    if best_d == 0 {
        let mut r: Vec<usize> = Vec::new();
        r.push(best_q);
        proof {
            assert(single_fits(synd@, best_q as int));
            assert(r@[0] == best_q);
        }
        return r;
    }
    let mut q1: usize = 0;
    while q1 < 9
        invariant
            q1 <= 9,
            best_q < 9,
            best_d > 0,
            best_d == mismatches(signature(best_q as int), synd@),
            forall|p: int| 0 <= p < 9 ==> mismatches(#[trigger] signature(p), synd@) >= best_d,
            forall|p: int| 0 <= p < best_q ==> mismatches(#[trigger] signature(p), synd@) > best_d,
            forall|a: int, b: int| 0 <= a < b < 9 && a < q1 ==> !pair_fits(synd@, a, b),
        decreases 9 - q1,
    {
        let mut q2: usize = q1 + 1;
        while q2 < 9
            invariant
                q1 < 9,
                q1 + 1 <= q2 <= 9,
                forall|a: int, b: int| 0 <= a < b < 9 && a < q1 ==> !pair_fits(synd@, a, b),
                forall|b: int| q1 < b < q2 ==> !pair_fits(synd@, q1 as int, b),
                best_d > 0,
                forall|p: int| 0 <= p < 9 ==> mismatches(#[trigger] signature(p), synd@) >= best_d,
            decreases 9 - q2,
        {
            if distance_to(synd, q1, q2, true) == 0 {
                let mut r: Vec<usize> = Vec::new();
                r.push(q1);
                r.push(q2);
                proof {
                    assert(!(exists|p: int| 0 <= p < 9 && single_fits(synd@, p)));
                    assert(pair_fits(synd@, q1 as int, q2 as int));
                    assert(r@[0] == q1 && r@[1] == q2);
                }
                return r;
            }
            q2 = q2 + 1;
        }
        q1 = q1 + 1;
    }
    let mut r: Vec<usize> = Vec::new();
    r.push(best_q);
    proof {
        assert(!(exists|p: int| 0 <= p < 9 && single_fits(synd@, p)));
        assert(!(exists|a: int, b: int| 0 <= a < b < 9 && pair_fits(synd@, a, b)));
    }
    r
}

/// Decoding is a function of the syndrome: at most one correction meets
/// `is_decoding` for a given four-bit syndrome.
pub proof fn lemma_decoding_unique(synd: Seq<bool>, c1: Seq<usize>, c2: Seq<usize>)
    requires
        synd.len() == 4,
        is_decoding(synd, c1),
        is_decoding(synd, c2),
    ensures
        c1 == c2,
{
    if !nonzero(synd) {
        assert(c1 =~= c2);
    } else if exists|q: int| 0 <= q < 9 && single_fits(synd, q) {
        if c1[0] < c2[0] {
            assert(!single_fits(synd, c1[0] as int));
        } else if c2[0] < c1[0] {
            assert(!single_fits(synd, c2[0] as int));
        }
        assert(c1 =~= c2);
    } else if exists|a: int, b: int| 0 <= a < b < 9 && pair_fits(synd, a, b) {
        if pair_before(c1[0] as int, c1[1] as int, c2[0] as int, c2[1] as int) {
            assert(!pair_fits(synd, c1[0] as int, c1[1] as int));
        } else if pair_before(c2[0] as int, c2[1] as int, c1[0] as int, c1[1] as int) {
            assert(!pair_fits(synd, c2[0] as int, c2[1] as int));
        }
        assert(c1 =~= c2);
    } else {
        let m1 = mismatches(signature(c1[0] as int), synd);
        let m2 = mismatches(signature(c2[0] as int), synd);
        assert(m1 >= m2 && m2 >= m1);
        if c1[0] < c2[0] {
            assert(m1 > m2);
        } else if c2[0] < c1[0] {
            assert(m2 > m1);
        }
        assert(c1 =~= c2);
    }
}

/// Whether `c` lists channel `i`.
fn lists(c: &Vec<usize>, i: usize) -> (r: bool)
    ensures
        r == c@.contains(i),
{
    let n = c.len();
    let mut k: usize = 0;
    while k < n
        invariant
            n == c@.len(),
            k <= n,
            forall|j: int| 0 <= j < k ==> c@[j] != i,
        decreases n - k,
    {
        if c[k] == i {
            return true;
        }
        k = k + 1;
    }
    false
}

/// `z` with every channel listed in `c` flipped.
pub fn apply_correction(z: &[bool; 9], c: &Vec<usize>) -> (r: [bool; 9])
    ensures
        r@ == corrected(z@, c@),
{
    let mut r = *z;
    let mut i: usize = 0;
    while i < 9
        invariant
            i <= 9,
            r@.len() == 9,
            forall|j: int| 0 <= j < i ==> r@[j] == (z@[j] != c@.contains(j as usize)),
            forall|j: int| i <= j < 9 ==> r@[j] == z@[j],
        decreases 9 - i,
    {
        let flip = lists(c, i);
        r[i] = z[i] != flip;
        i = i + 1;
    }
    assert(r@ =~= corrected(z@, c@));
    r
}

/// Parity of the logical operator `{1, 4, 7}` over `z`.
pub fn logical_parity(z: &[bool; 9]) -> (r: bool)
    ensures
        r == logical_flip(z@),
{
    z[1] ^ z[4] ^ z[7]
}

/// Whether the decoded final state of a trial carries a logical flip:
/// decode the final syndrome, apply the correction, read the logical
/// operator.
pub fn logical_failure(z: &[bool; 9], final_syndrome: &[bool; 4]) -> (r: bool)
    ensures
        forall|c: Seq<usize>| is_decoding(final_syndrome@, c) ==> r == logical_flip(corrected(z@, c)),
{
    let c = decode_syndrome(final_syndrome);
    let fixed = apply_correction(z, &c);
    let r = logical_parity(&fixed);
    proof {
        assert forall|c2: Seq<usize>| is_decoding(final_syndrome@, c2) implies r == logical_flip(
            corrected(z@, c2),
        ) by {
            lemma_decoding_unique(final_syndrome@, c@, c2);
        }
    }
    r
}

/// One surface-code Monte-Carlo trial: the hidden true state of the nine
/// data channels, the syndrome measured in the latest cycle, and the flips
/// counted so far. Only the final cycle's syndrome is decoded.
pub struct SurfaceTrial {
    pub state: [bool; 9],
    pub last_syndrome: [bool; 4],
    pub cycles_done: usize,
    pub num_cycles: usize,
    pub physical_flips: usize,
}

/// `next` is `prev` after one cycle with the given channel flips and
/// measurement flips.
pub open spec fn surface_cycle(prev: SurfaceTrial, next: SurfaceTrial, flips: Seq<bool>, meas_flips: Seq<bool>) -> bool {
    &&& next.state@ == Seq::new(9, |i: int| prev.state@[i] != flips[i])
    &&& next.last_syndrome@ == Seq::new(4, |s: int| syndrome_of(next.state@)[s] != meas_flips[s])
    &&& next.physical_flips == prev.physical_flips + count_true(flips)
    &&& next.cycles_done == prev.cycles_done + 1
    &&& next.num_cycles == prev.num_cycles
}

impl SurfaceTrial {
    /// No channel has flipped and the latest syndrome reads all zero.
    pub open spec fn is_quiet(&self) -> bool {
        &&& self.physical_flips == 0
        &&& forall|i: int| 0 <= i < 9 ==> !self.state@[i]
        &&& forall|s: int| 0 <= s < 4 ==> !self.last_syndrome@[s]
    }

    pub open spec fn wf(&self) -> bool {
        &&& self.cycles_done <= self.num_cycles
        &&& 9 * self.num_cycles <= usize::MAX
        &&& self.physical_flips <= 9 * self.cycles_done
    }

    /// A trial of `num_cycles` cycles with every channel in its initial
    /// state and an all-zero syndrome.
    pub fn new(num_cycles: usize) -> (r: SurfaceTrial)
        requires
            9 * num_cycles <= usize::MAX,
        ensures
            r.wf(),
            r.is_quiet(),
            forall|i: int| 0 <= i < 9 ==> !r.state@[i],
            forall|s: int| 0 <= s < 4 ==> !r.last_syndrome@[s],
            r.cycles_done == 0,
            r.num_cycles == num_cycles,
            r.physical_flips == 0,
    {
        SurfaceTrial {
            state: [false; 9],
            last_syndrome: [false; 4],
            cycles_done: 0,
            num_cycles,
            physical_flips: 0,
        }
    }

    /// Records one cycle: channel `q` flips its true state where `flips[q]`
    /// holds, then each stabilizer is measured, its reading inverted where
    /// `meas_flips[s]` holds.
    pub fn record_cycle(&mut self, flips: &[bool; 9], meas_flips: &[bool; 4])
        requires
            old(self).wf(),
            old(self).cycles_done < old(self).num_cycles,
        ensures
            final(self).wf(),
            surface_cycle(*old(self), *final(self), flips@, meas_flips@),
    {
        let z = self.state;
        let next = [
            z[0] != flips[0],
            z[1] != flips[1],
            z[2] != flips[2],
            z[3] != flips[3],
            z[4] != flips[4],
            z[5] != flips[5],
            z[6] != flips[6],
            z[7] != flips[7],
            z[8] != flips[8],
        ];
        let synd = stabilizer_syndrome(&next);
        let measured = [
            synd[0] != meas_flips[0],
            synd[1] != meas_flips[1],
            synd[2] != meas_flips[2],
            synd[3] != meas_flips[3],
        ];
        let n = count_set(flips.as_slice());
        proof {
            assert(n <= 9) by {
                lemma_count_true_bound(flips@);
            }
            let c = self.cycles_done as int;
            assert(9 * c + 9 == 9 * (c + 1));
        }
        self.state = next;
        self.last_syndrome = measured;
        self.physical_flips = self.physical_flips + n;
        self.cycles_done = self.cycles_done + 1;
        assert(self.state@ =~= Seq::new(9, |i: int| z@[i] != flips@[i]));
        assert(self.last_syndrome@ =~= Seq::new(4, |s: int| syndrome_of(self.state@)[s] != meas_flips@[s]));
    }

    /// The trial's contribution to the run: its flip count, and whether the
    /// decoded final state carries a logical flip.
    pub fn outcome(&self) -> (r: TrialOutcome)
        ensures
            r.physical_flips == self.physical_flips,
            forall|c: Seq<usize>|
                is_decoding(self.last_syndrome@, c) ==> r.logical_failed == logical_flip(corrected(self.state@, c)),
    {
        TrialOutcome {
            logical_failed: logical_failure(&self.state, &self.last_syndrome),
            physical_flips: self.physical_flips,
        }
    }
}

/// A trial in which no channel flips reads an all-zero syndrome, gets no
/// correction and never fails.
pub proof fn lemma_quiet_surface_state(z: Seq<bool>)
    requires
        z.len() == 9,
        forall|i: int| 0 <= i < 9 ==> !z[i],
    ensures
        !nonzero(syndrome_of(z)),
        is_decoding(syndrome_of(z), Seq::<usize>::empty()),
        forall|c: Seq<usize>| is_decoding(syndrome_of(z), c) ==> !logical_flip(corrected(z, c)),
{
    assert forall|c: Seq<usize>| is_decoding(syndrome_of(z), c) implies !logical_flip(corrected(z, c)) by {
        assert(c.len() == 0);
        assert(!c.contains(1usize) && !c.contains(4usize) && !c.contains(7usize));
    }
}

/// With no channel flip and no measurement error, a quiet trial stays
/// quiet through a cycle, and a quiet trial ends with no physical flip and
/// no logical failure.
pub proof fn lemma_noiseless_surface_trial(
    prev: SurfaceTrial,
    next: SurfaceTrial,
    flips: Seq<bool>,
    meas_flips: Seq<bool>,
    o: TrialOutcome,
)
    requires
        prev.is_quiet(),
        flips.len() == 9,
        meas_flips.len() == 4,
        forall|i: int| 0 <= i < 9 ==> !flips[i],
        forall|s: int| 0 <= s < 4 ==> !meas_flips[s],
        surface_cycle(prev, next, flips, meas_flips),
        o.physical_flips == next.physical_flips,
        forall|c: Seq<usize>|
            is_decoding(next.last_syndrome@, c) ==> o.logical_failed == logical_flip(corrected(next.state@, c)),
    ensures
        next.is_quiet(),
        o.physical_flips == 0,
        !o.logical_failed,
{
    lemma_count_all_false(flips);
    assert(next.state@[0] == (prev.state@[0] != flips[0]));
    lemma_quiet_surface_state(next.state@);
    assert(syndrome_of(next.state@) =~= next.last_syndrome@);
}

/// The state in which channel `q` alone has flipped.
pub open spec fn unit_state(q: int) -> Seq<bool> {
    Seq::new(9, |i: int| i == q)
}

/// Every single-channel flip is corrected: with a faithful final syndrome
/// the decoder names exactly the flipped channel, and the corrected state
/// carries no logical flip.
pub proof fn lemma_single_flip_corrected(q: int)
    requires
        0 <= q < 9,
    ensures
        forall|c: Seq<usize>|
            is_decoding(syndrome_of(unit_state(q)), c) ==> c == seq![q as usize] && !logical_flip(
                corrected(unit_state(q), c),
            ),
{
    let z = unit_state(q);
    let synd = syndrome_of(z);
    assert(single_fits(synd, q));
    assert forall|p: int| 0 <= p < 9 && p != q implies !single_fits(synd, p) by {
        assert(mismatches(signature(p), synd) > 0);
    }
    assert forall|c: Seq<usize>| is_decoding(synd, c) implies c == seq![q as usize] && !logical_flip(
        corrected(z, c),
    ) by {
        assert(c[0] == q as usize);
        assert(c =~= seq![q as usize]);
        let fixed = corrected(z, c);
        assert(c.contains(q as usize));
        assert forall|i: int| 0 <= i < 9 implies !fixed[i] by {
            if i != q {
                assert(!c.contains(i as usize));
            }
        }
    }
}

} // verus!
