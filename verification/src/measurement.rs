//! Naming basis states by bitstrings.
use vstd::prelude::*;

verus! {

/// Bit `j` of `idx` (bits beyond the width of `usize` read as 0).
pub open spec fn index_bit(idx: usize, j: int) -> bool {
    0 <= j < usize::BITS && (idx >> (j as usize)) & 1 == 1
}

/// The bitstring of basis state `idx` over `n` qubits, most significant qubit first.
pub open spec fn bitstring(idx: usize, n: nat) -> Seq<char> {
    Seq::new(n, |k: int| if index_bit(idx, n - 1 - k) { '1' } else { '0' })
}

/// Format an index as a binary bitstring (big-endian).
pub fn format_bitstring(idx: usize, num_qubits: usize) -> (r: String)
    ensures
        r@ == bitstring(idx, num_qubits as nat),
{
    let mut result = String::new();
    let mut k: usize = 0;
    proof {
        reveal_strlit("1");
        reveal_strlit("0");
    }
    while k < num_qubits
        invariant
            k <= num_qubits,
            result@ =~= bitstring(idx, num_qubits as nat).take(k as int),
            "1"@ =~= seq!['1'],
            "0"@ =~= seq!['0'],
        decreases num_qubits - k,
    {
        let j = num_qubits - 1 - k;
        let one = j < usize::BITS as usize && (idx >> j) & 1 == 1;
        if one {
            result.append("1");
        } else {
            result.append("0");
        }
        proof {
            assert(one == index_bit(idx, num_qubits - 1 - k));
            assert(bitstring(idx, num_qubits as nat).take(k as int + 1) =~= bitstring(
                idx,
                num_qubits as nat,
            ).take(k as int).push(bitstring(idx, num_qubits as nat)[k as int]));
        }
        k = k + 1;
    }
    result
}

/// How many entries of `s` equal `v`.
pub open spec fn occurrences(s: Seq<usize>, v: usize) -> nat
    decreases s.len(),
{
    if s.len() == 0 {
        0
    } else {
        occurrences(s.drop_last(), v) + if s.last() == v { 1nat } else { 0nat }
    }
}

proof fn lemma_occurrences_bound(s: Seq<usize>, v: usize)
    ensures
        occurrences(s, v) <= s.len(),
    decreases s.len(),
{
    if s.len() > 0 {
        lemma_occurrences_bound(s.drop_last(), v);
    }
}

/// Tallies sampled basis states: entry `i` of the result counts the shots
/// that gave basis state `i`.
pub fn count_outcomes(samples: &[usize], size: usize) -> (r: Vec<usize>)
    requires
        forall|k: int| 0 <= k < samples@.len() ==> samples@[k] < size,
    ensures
        r@.len() == size,
        forall|i: int| 0 <= i < size ==> r@[i] == occurrences(samples@, i as usize),
{
    let mut counts: Vec<usize> = Vec::new();
    while counts.len() < size
        invariant
            counts@.len() <= size,
            forall|i: int| 0 <= i < counts@.len() ==> counts@[i] == 0,
        decreases size - counts@.len(),
    {
        counts.push(0);
    }
    let mut k: usize = 0;
    while k < samples.len()
        invariant
            forall|j: int| 0 <= j < samples@.len() ==> samples@[j] < size,
            k <= samples@.len(),
            counts@.len() == size,
            forall|i: int| 0 <= i < size ==> counts@[i] == occurrences(samples@.take(k as int), i as usize),
        decreases samples@.len() - k,
    {
        let s = samples[k];
        proof {
            assert(samples@.take(k as int + 1).drop_last() =~= samples@.take(k as int));
            lemma_occurrences_bound(samples@.take(k as int), s);
        }
        let c = counts[s];
        counts.set(s, c + 1);
        k = k + 1;
    }
    proof {
        assert(samples@.take(samples@.len() as int) =~= samples@);
    }
    counts
}

/// The tallies of the basis states `0..n`, added up.
pub open spec fn tally_total(s: Seq<usize>, n: usize) -> nat
    decreases n,
{
    if n == 0 {
        0
    } else {
        tally_total(s, (n - 1) as usize) + occurrences(s, (n - 1) as usize)
    }
}

proof fn lemma_tally_total_last(s: Seq<usize>, n: usize)
    requires
        s.len() > 0,
    ensures
        tally_total(s, n) == tally_total(s.drop_last(), n) + if s.last() < n { 1nat } else { 0nat },
    decreases n,
{
    if n > 0 {
        lemma_tally_total_last(s, (n - 1) as usize);
    }
}

/// Every shot lands in exactly one tally: when all samples are basis states
/// below `size`, the tallies of `count_outcomes` add up to the number of shots.
pub proof fn lemma_counts_total(samples: Seq<usize>, size: usize)
    requires
        forall|k: int| 0 <= k < samples.len() ==> samples[k] < size,
    ensures
        tally_total(samples, size) == samples.len(),
    decreases samples.len(),
{
    if samples.len() == 0 {
        lemma_tally_total_empty(samples, size);
    } else {
        lemma_tally_total_last(samples, size);
        lemma_counts_total(samples.drop_last(), size);
    }
}

proof fn lemma_tally_total_empty(s: Seq<usize>, n: usize)
    requires
        s.len() == 0,
    ensures
        tally_total(s, n) == 0,
    decreases n,
{
    if n > 0 {
        lemma_tally_total_empty(s, (n - 1) as usize);
    }
}

} // verus!
