//! Pulse sequences mapped into one measurement cycle, and the sign that a
//! decoupling sequence gives each sample of a cycle.
use vstd::prelude::*;

verus! {

/// `t` is the position inside a cycle of length `cycle_len` of some pulse.
pub open spec fn is_cycle_offset(pulses: Seq<usize>, cycle_len: nat, t: int) -> bool {
    exists|i: int| 0 <= i < pulses.len() && pulses[i] as int % cycle_len as int == t
}

/// Number of distinct pulse offsets among the first `n` samples of a cycle.
pub open spec fn flips_before(pulses: Seq<usize>, cycle_len: nat, n: nat) -> nat
    decreases n,
{
    if n == 0 {
        0
    } else {
        flips_before(pulses, cycle_len, (n - 1) as nat) + if is_cycle_offset(pulses, cycle_len, n - 1) {
            1nat
        } else {
            0nat
        }
    }
}

/// The accumulated phase takes sample `t` with a negative sign: an odd
/// number of sign flips lie at or before it.
pub open spec fn negated_at(pulses: Seq<usize>, cycle_len: nat, t: int) -> bool {
    flips_before(pulses, cycle_len, (t + 1) as nat) % 2 == 1
}

pub open spec fn strictly_increasing(s: Seq<usize>) -> bool {
    forall|i: int, j: int| 0 <= i < j < s.len() ==> s[i] < s[j]
}

/// For each sample of a cycle, whether some pulse falls on it.
fn pulse_mask(pulses: &Vec<usize>, cycle_len: usize) -> (mask: Vec<bool>)
    requires
        cycle_len > 0,
    ensures
        mask@.len() == cycle_len,
        forall|t: int| 0 <= t < cycle_len ==> (mask@[t] <==> is_cycle_offset(pulses@, cycle_len as nat, t)),
{
    let mut mask: Vec<bool> = Vec::new();
    let mut k: usize = 0;
    while k < cycle_len
        invariant
            k <= cycle_len,
            mask@.len() == k,
            forall|t: int| 0 <= t < k ==> !mask@[t],
        decreases cycle_len - k,
    {
        mask.push(false);
        k = k + 1;
    }
    let n = pulses.len();
    let mut i: usize = 0;
    while i < n
        invariant
            n == pulses@.len(),
            i <= n,
            cycle_len > 0,
            mask@.len() == cycle_len,
            forall|t: int|
                0 <= t < cycle_len ==> (mask@[t] <==> exists|j: int| 0 <= j < i && pulses@[j] as int % cycle_len as int == t),
        decreases n - i,
    {
        let o = pulses[i] % cycle_len;
        mask.set(o, true);
        proof {
            assert forall|t: int| 0 <= t < cycle_len implies (mask@[t] <==> exists|j: int|
                0 <= j < i + 1 && pulses@[j] as int % cycle_len as int == t) by {
                if t == o as int {
                    assert(pulses@[i as int] as int % cycle_len as int == t);
                } else {
                    if exists|j: int| 0 <= j < i + 1 && pulses@[j] as int % cycle_len as int == t {
                        let j = choose|j: int| 0 <= j < i + 1 && pulses@[j] as int % cycle_len as int == t;
                        assert(j != i);
                    }
                }
            }
        }
        i = i + 1;
    }
    mask
}

/// The distinct positions inside a cycle of length `cycle_len` at which a
/// pulse of `pulses` falls (each pulse index taken modulo the cycle length),
/// in ascending order.
pub fn cycle_offsets(pulses: &Vec<usize>, cycle_len: usize) -> (r: Vec<usize>)
    requires
        cycle_len > 0,
    ensures
        strictly_increasing(r@),
        forall|i: int| 0 <= i < r@.len() ==> r@[i] < cycle_len,
        forall|t: int| 0 <= t < cycle_len ==> (r@.contains(t as usize) <==> is_cycle_offset(pulses@, cycle_len as nat, t)),
{
    let mask = pulse_mask(pulses, cycle_len);
    let mut r: Vec<usize> = Vec::new();
    let mut t: usize = 0;
    while t < cycle_len
        invariant
            t <= cycle_len,
            mask@.len() == cycle_len,
            strictly_increasing(r@),
            forall|i: int| 0 <= i < r@.len() ==> r@[i] < t,
            forall|u: int| 0 <= u < t ==> (r@.contains(u as usize) <==> mask@[u]),
            forall|u: int| 0 <= u < cycle_len ==> (mask@[u] <==> is_cycle_offset(pulses@, cycle_len as nat, u)),
        decreases cycle_len - t,
    {
        let ghost before = r@;
        if mask[t] {
            r.push(t);
            proof {
                assert forall|u: int| 0 <= u < t + 1 implies (r@.contains(u as usize) <==> mask@[u]) by {
                    if u < t {
                        if r@.contains(u as usize) {
                            let k = choose|k: int| 0 <= k < r@.len() && r@[k] == u as usize;
                            assert(k < before.len());
                            assert(before.contains(u as usize));
                        }
                        if before.contains(u as usize) {
                            let k = choose|k: int| 0 <= k < before.len() && before[k] == u as usize;
                            assert(r@[k] == u as usize);
                        }
                    } else {
                        assert(r@[before.len() as int] == t);
                    }
                }
            }
        } else {
            proof {
                assert(!r@.contains(t)) by {
                    if r@.contains(t) {
                        let k = choose|k: int| 0 <= k < r@.len() && r@[k] == t;
                    }
                }
            }
        }
        t = t + 1;
    }
    assert forall|u: int| 0 <= u < cycle_len implies (r@.contains(u as usize) <==> is_cycle_offset(
        pulses@,
        cycle_len as nat,
        u,
    )) by {
        assert(r@.contains(u as usize) <==> mask@[u]);
    }
    r
}

/// For each sample of a cycle of length `cycle_len`, whether the decoupling
/// sequence `pulses` has turned its sign negative. The sign flips at every
/// distinct pulse offset, before the sample at that offset is taken.
pub fn sign_schedule(pulses: &Vec<usize>, cycle_len: usize) -> (r: Vec<bool>)
    requires
        cycle_len > 0,
    ensures
        r@.len() == cycle_len,
        forall|t: int| 0 <= t < cycle_len ==> r@[t] == negated_at(pulses@, cycle_len as nat, t),
{
    let mask = pulse_mask(pulses, cycle_len);
    let mut r: Vec<bool> = Vec::new();
    let mut negated = false;
    let mut t: usize = 0;
    while t < cycle_len
        invariant
            t <= cycle_len,
            mask@.len() == cycle_len,
            forall|u: int| 0 <= u < cycle_len ==> (mask@[u] <==> is_cycle_offset(pulses@, cycle_len as nat, u)),
            r@.len() == t,
            negated == (flips_before(pulses@, cycle_len as nat, t as nat) % 2 == 1),
            forall|u: int| 0 <= u < t ==> r@[u] == negated_at(pulses@, cycle_len as nat, u),
        decreases cycle_len - t,
    {
        if mask[t] {
            negated = !negated;
        }
        proof {
            assert(flips_before(pulses@, cycle_len as nat, (t + 1) as nat) == flips_before(
                pulses@,
                cycle_len as nat,
                t as nat,
            ) + if is_cycle_offset(pulses@, cycle_len as nat, t as int) {
                1nat
            } else {
                0nat
            });
        }
        r.push(negated);
        t = t + 1;
    }
    r
}

/// A pulse sequence over `steps` samples: ascending, without repeats,
/// every index inside `[0, steps)`.
pub open spec fn is_pulse_sequence_spec(seq: Seq<usize>, steps: nat) -> bool {
    &&& strictly_increasing(seq)
    &&& forall|i: int| 0 <= i < seq.len() ==> seq[i] < steps
}

/// Whether `seq` is a well-formed pulse sequence over `steps` samples.
pub fn is_pulse_sequence(seq: &Vec<usize>, steps: usize) -> (r: bool)
    ensures
        r == is_pulse_sequence_spec(seq@, steps as nat),
{
    let n = seq.len();
    let mut i: usize = 0;
    while i < n
        invariant
            n == seq@.len(),
            i <= n,
            forall|k: int| 0 <= k < i ==> seq@[k] < steps,
            forall|a: int, b: int| 0 <= a < b < i ==> seq@[a] < seq@[b],
        decreases n - i,
    {
        if seq[i] >= steps {
            return false;
        }
        if i > 0 && seq[i - 1] >= seq[i] {
            return false;
        }
        proof {
            assert forall|a: int, b: int| 0 <= a < b < i + 1 implies seq@[a] < seq@[b] by {
                if b == i && a < i - 1 {
                    assert(seq@[a] < seq@[i - 1]);
                }
            }
        }
        i = i + 1;
    }
    true
}

} // verus!
