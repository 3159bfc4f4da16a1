//! The state vector: `2^n` amplitudes indexed by basis states, bit `q` of an
//! index giving the value of qubit `q`.
//!
//! The amplitude type is a parameter: arithmetic on amplitudes is supplied by
//! the caller as a function, while the index structure (which amplitudes are
//! paired, moved or cleared) is fixed and verified here.
use vstd::prelude::*;
use crate::error::{Error, Fault, fault_of, message_of, outcome};
use crate::text::{join, decimal, decimal_text, lemma_joined_small};

verus! {

/// The mask selecting qubit `q`.
pub open spec fn bit(q: usize) -> usize {
    1usize << q
}

/// Number of amplitudes of an `n`-qubit state.
pub open spec fn dim(n: usize) -> usize {
    1usize << n
}

/// Index facts for the pair `(i, i | t)` of indices differing in the target bit.
pub proof fn lemma_pair_bits(i: usize, cm: usize, target: usize, n: usize)
    by (bit_vector)
    requires
        target < n,
        n <= 30,
        i < (1usize << n),
        i & (1usize << target) == 0,
        cm & (1usize << target) == 0,
    ensures
        (i | (1usize << target)) < (1usize << n),
        (i | (1usize << target)) & (1usize << target) != 0,
        (i | (1usize << target)) ^ (1usize << target) == i,
        i ^ (1usize << target) == (i | (1usize << target)),
        i < (i | (1usize << target)),
        (i | (1usize << target)) & cm == i & cm,
{
}

/// Index facts for an index whose target bit is set.
pub proof fn lemma_partner_bits(k: usize, cm: usize, target: usize, n: usize)
    by (bit_vector)
    requires
        target < n,
        n <= 30,
        k < (1usize << n),
        cm & (1usize << target) == 0,
    ensures
        (k ^ (1usize << target)) < (1usize << n),
        (k ^ (1usize << target)) & cm == k & cm,
        (k ^ (1usize << target)) ^ (1usize << target) == k,
        (k & (1usize << target) != 0) ==> (k ^ (1usize << target)) & (1usize << target) == 0,
        (k & (1usize << target) != 0) ==> ((k ^ (1usize << target)) | (1usize << target)) == k,
        (k & (1usize << target) == 0) ==> (k ^ (1usize << target)) & (1usize << target) != 0,
{
}

/// Sizes of small states.
pub proof fn lemma_dim_bounds(n: usize)
    by (bit_vector)
    requires
        1 <= n <= 30,
    ensures
        (1usize << n) >= 2,
        (1usize << n) <= 0x4000_0000,
{
}

/// Quantum state vector representation.
#[derive(Debug)]
pub struct QuantumState<A> {
    amplitudes: Vec<A>,
    num_qubits: usize,
}

impl<A> View for QuantumState<A> {
    type V = Seq<A>;

    closed spec fn view(&self) -> Seq<A> {
        self.amplitudes@
    }
}

impl<A: Copy> QuantumState<A> {
    /// Number of qubits.
    pub closed spec fn qubit_count(&self) -> usize {
        self.num_qubits
    }

    /// Between 1 and 30 qubits, with one amplitude per basis state.
    pub closed spec fn wf(&self) -> bool {
        &&& 1 <= self.num_qubits <= 30
        &&& self.amplitudes@.len() == dim(self.num_qubits)
    }

    /// What well-formedness means for callers.
    pub proof fn lemma_wf(&self)
        requires
            self.wf(),
        ensures
            1 <= self.qubit_count() <= 30,
            self@.len() == dim(self.qubit_count()),
            2 <= self@.len() <= 0x4000_0000,
    {
        lemma_dim_bounds(self.num_qubits);
    }

    /// Create a new quantum state initialized to |0...0>.
    pub fn new(num_qubits: usize, zero: A, one: A) -> (r: Result<Self, Error>)
        ensures
            r is Ok <==> 1 <= num_qubits <= 30,
            r is Err ==> fault_of(r->Err_0) == Fault::CircuitValidation,
            r matches Err(e) ==> message_of(e) == (if num_qubits == 0 {
                "Number of qubits must be > 0"@
            } else {
                "Number of qubits cannot exceed 30 (2^30 states)"@
            }),
            r matches Ok(s) ==> {
                &&& s.wf()
                &&& s.qubit_count() == num_qubits
                &&& s@.len() == dim(num_qubits)
                &&& s@[0] == one
                &&& forall|i: int| 1 <= i < s@.len() ==> s@[i] == zero
            },
    {
        if num_qubits == 0 {
            let parts = ["Number of qubits must be > 0"];
            proof {
                lemma_joined_small(parts[0], "", "");
            }
            assert(parts@ =~= seq!["Number of qubits must be > 0"]);
            return Err(Error::CircuitValidationError { reason: join(&parts) });
        }
        if num_qubits > 30 {
            let parts = ["Number of qubits cannot exceed 30 (2^30 states)"];
            proof {
                lemma_joined_small(parts[0], "", "");
            }
            assert(parts@ =~= seq!["Number of qubits cannot exceed 30 (2^30 states)"]);
            return Err(Error::CircuitValidationError { reason: join(&parts) });
        }
        proof {
            lemma_dim_bounds(num_qubits);
        }
        let size: usize = 1usize << num_qubits;
        let mut amplitudes: Vec<A> = Vec::new();
        amplitudes.push(one);
        while amplitudes.len() < size
            invariant
                size == dim(num_qubits),
                1 <= amplitudes@.len() <= size,
                amplitudes@[0] == one,
                forall|i: int| 1 <= i < amplitudes@.len() ==> amplitudes@[i] == zero,
            decreases size - amplitudes@.len(),
        {
            amplitudes.push(zero);
        }
        Ok(QuantumState { amplitudes, num_qubits })
    }

    /// Get the number of qubits.
    pub fn num_qubits(&self) -> (r: usize)
        ensures
            r == self.qubit_count(),
    {
        self.num_qubits
    }

    /// Get state vector size (2^n).
    pub fn size(&self) -> (r: usize)
        requires
            self.wf(),
        ensures
            r == self@.len(),
            r == dim(self.qubit_count()),
    {
        self.amplitudes.len()
    }

    /// Get the state amplitude at basis state index.
    pub fn get_amplitude(&self, index: usize) -> (r: Result<A, Error>)
        ensures
            r is Ok <==> index < self@.len(),
            r matches Ok(a) ==> a == self@[index as int],
            r is Err ==> fault_of(r->Err_0) == Fault::OutOfBounds,
            r matches Err(e) ==> message_of(e) == "Index "@ + decimal(index) + " out of bounds"@,
    {
        if index < self.amplitudes.len() {
            Ok(self.amplitudes[index])
        } else {
            let d = decimal_text(index);
            let ds: &str = d.as_str();
            proof {
                lemma_joined_small("Index ", ds, " out of bounds");
            }
            Err(Error::IndexOutOfBounds(join(&["Index ", ds, " out of bounds"])))
        }
    }

    /// Replace all amplitudes by `amplitudes`, which must have the same length.
    pub fn set_amplitudes(&mut self, amplitudes: Vec<A>)
        requires
            old(self).wf(),
            amplitudes@.len() == old(self)@.len(),
        ensures
            final(self).wf(),
            final(self).qubit_count() == old(self).qubit_count(),
            final(self)@ == amplitudes@,
    {
        self.amplitudes = amplitudes;
    }

    /// A copy of the amplitudes.
    pub fn amplitudes_copy(&self) -> (r: Vec<A>)
        ensures
            r@ == self@,
    {
        let mut r: Vec<A> = Vec::new();
        let mut i: usize = 0;
        while i < self.amplitudes.len()
            invariant
                i <= self.amplitudes@.len(),
                r@ == self.amplitudes@.take(i as int),
            decreases self.amplitudes@.len() - i,
        {
            r.push(self.amplitudes[i]);
            assert(self.amplitudes@.take(i as int + 1) =~= self.amplitudes@.take(i as int).push(
                self.amplitudes@[i as int],
            ));
            i = i + 1;
        }
        assert(self.amplitudes@.take(self.amplitudes@.len() as int) =~= self.amplitudes@);
        r
    }

    /// Get mutable access to amplitudes; the caller keeps their number unchanged
    /// to keep the state well formed.
    pub fn amplitudes_mut(&mut self) -> (r: &mut Vec<A>)
        ensures
            r@ == old(self)@,
            final(self)@ == final(r)@,
            final(self).qubit_count() == old(self).qubit_count(),
    {
        &mut self.amplitudes
    }

    /// Get immutable access to amplitudes.
    pub fn amplitudes(&self) -> (r: &Vec<A>)
        ensures
            r@ == self@,
    {
        &self.amplitudes
    }

    /// Reset state to |0...0>.
    pub fn reset(&mut self, zero: A, one: A)
        requires
            old(self).wf(),
        ensures
            final(self).wf(),
            final(self).qubit_count() == old(self).qubit_count(),
            final(self)@.len() == old(self)@.len(),
            final(self)@[0] == one,
            forall|i: int| 1 <= i < final(self)@.len() ==> final(self)@[i] == zero,
    {
        let ghost n = self.num_qubits;
        proof {
            lemma_dim_bounds(n);
        }
        let mut i: usize = 0;
        while i < self.amplitudes.len()
            invariant
                n == self.num_qubits,
                1 <= n <= 30,
                self.amplitudes@.len() == dim(n),
                i <= self.amplitudes@.len(),
                forall|k: int| 0 <= k < i ==> self.amplitudes@[k] == zero,
            decreases self.amplitudes@.len() - i,
        {
            self.amplitudes.set(i, zero);
            i = i + 1;
        }
        self.amplitudes.set(0, one);
    }

    /// Collapse to a basis state.
    pub fn collapse_to(&mut self, state_index: usize, zero: A, one: A) -> (r: Result<(), Error>)
        requires
            old(self).wf(),
        ensures
            final(self).wf(),
            final(self).qubit_count() == old(self).qubit_count(),
            final(self)@.len() == old(self)@.len(),
            r is Ok <==> state_index < old(self)@.len(),
            r is Err ==> fault_of(r->Err_0) == Fault::OutOfBounds && final(self)@ == old(self)@,
            r matches Err(e) ==> message_of(e) == "State index "@ + decimal(state_index)
                + " out of bounds"@,
            r is Ok ==> forall|i: int|
                0 <= i < final(self)@.len() ==> final(self)@[i] == if i == state_index {
                    one
                } else {
                    zero
                },
    {
        if state_index >= self.amplitudes.len() {
            let d = decimal_text(state_index);
            let ds: &str = d.as_str();
            proof {
                lemma_joined_small("State index ", ds, " out of bounds");
            }
            return Err(Error::IndexOutOfBounds(join(&["State index ", ds, " out of bounds"])));
        }
        let ghost n = self.num_qubits;
        let mut i: usize = 0;
        while i < self.amplitudes.len()
            invariant
                n == self.num_qubits,
                1 <= n <= 30,
                self.amplitudes@.len() == dim(n),
                i <= self.amplitudes@.len(),
                forall|k: int| 0 <= k < i ==> self.amplitudes@[k] == zero,
            decreases self.amplitudes@.len() - i,
        {
            self.amplitudes.set(i, zero);
            i = i + 1;
        }
        self.amplitudes.set(state_index, one);
        Ok(())
    }
}

/// The pair `(i, i | bit(target))` is updated by a gate with control mask `cm`:
/// the target bit of `i` is clear and every control bit is set.
pub open spec fn selected(i: usize, cm: usize, target: usize) -> bool {
    i & bit(target) == 0 && i & cm == cm
}

/// Index `k` has been written once every pair starting below `i` has been updated.
pub open spec fn pair_written(k: usize, cm: usize, target: usize, i: usize) -> bool {
    (selected(k, cm, target) && k < i) || (k & bit(target) != 0 && selected(
        k ^ bit(target),
        cm,
        target,
    ) && (k ^ bit(target)) < i)
}

impl<A: Copy> QuantumState<A> {
    /// Update every amplitude pair `(i, i | bit(target))` whose target bit is
    /// clear and whose control bits `control_mask` are all set, replacing
    /// `(a_i, a_j)` by `f(a_i, a_j)`. Other amplitudes are left unchanged.
    pub fn apply_to_pairs<F: Fn(A, A) -> (A, A)>(&mut self, control_mask: usize, target: usize, f: &F)
        requires
            old(self).wf(),
            target < old(self).qubit_count(),
            control_mask < dim(old(self).qubit_count()),
            control_mask & bit(target) == 0,
            forall|a: A, b: A| f.requires((a, b)),
        ensures
            final(self).wf(),
            final(self).qubit_count() == old(self).qubit_count(),
            forall|i: usize|
                i < old(self)@.len() && #[trigger] selected(i, control_mask, target) ==> f.ensures(
                    (old(self)@[i as int], old(self)@[(i | bit(target)) as int]),
                    (final(self)@[i as int], final(self)@[(i | bit(target)) as int]),
                ),
            forall|i: usize|
                i < old(self)@.len() && #[trigger] (i & control_mask) != control_mask
                    ==> final(self)@[i as int] == old(self)@[i as int],
    {
        let ghost n = self.num_qubits;
        let ghost old_amps = self.amplitudes@;
        let t: usize = 1usize << target;
        let size = self.amplitudes.len();
        let mut i: usize = 0;
        while i < size
            invariant
                n == self.num_qubits,
                1 <= n <= 30,
                target < n,
                t == bit(target),
                size == dim(n),
                control_mask < size,
                control_mask & t == 0,
                forall|a: A, b: A| f.requires((a, b)),
                self.amplitudes@.len() == size,
                old_amps.len() == size,
                i <= size,
                forall|k: usize|
                    k < i && #[trigger] selected(k, control_mask, target) ==> f.ensures(
                        (old_amps[k as int], old_amps[(k | t) as int]),
                        (self.amplitudes@[k as int], self.amplitudes@[(k | t) as int]),
                    ),
                forall|k: usize|
                    k < size && !#[trigger] pair_written(k, control_mask, target, i)
                        ==> self.amplitudes@[k as int] == old_amps[k as int],
            decreases size - i,
        {
            if (i & t) == 0 && (i & control_mask) == control_mask {
                let j = i | t;
                proof {
                    lemma_pair_bits(i, control_mask, target, n);
                    assert(!pair_written(i, control_mask, target, i));
                    lemma_partner_bits(j, control_mask, target, n);
                    assert(!pair_written(j, control_mask, target, i));
                }
                let a0 = self.amplitudes[i];
                let a1 = self.amplitudes[j];
                let (b0, b1) = f(a0, a1);
                let ghost prev = self.amplitudes@;
                self.amplitudes.set(i, b0);
                self.amplitudes.set(j, b1);
                proof {
                    assert forall|k: usize|
                        k < i + 1 && #[trigger] selected(k, control_mask, target) implies f.ensures(
                        (old_amps[k as int], old_amps[(k | t) as int]),
                        (self.amplitudes@[k as int], self.amplitudes@[(k | t) as int]),
                    ) by {
                        if k < i {
                            lemma_pair_bits(k, control_mask, target, n);
                            assert((k | t) != i);
                            if (k | t) == j {
                                assert((k | t) ^ t == k);
                                assert(j ^ t == i);
                            }
                        }
                    }
                    assert forall|k: usize|
                        k < size && !#[trigger] pair_written(
                            k,
                            control_mask,
                            target,
                            (i + 1) as usize,
                        ) implies self.amplitudes@[k as int] == old_amps[k as int] by {
                        lemma_partner_bits(k, control_mask, target, n);
                        assert(k != i);
                        if k == j {
                            assert(k ^ t == i);
                        }
                        assert(!pair_written(k, control_mask, target, i));
                    }
                }
            } else {
                proof {
                    assert forall|k: usize|
                        k < size && !#[trigger] pair_written(
                            k,
                            control_mask,
                            target,
                            (i + 1) as usize,
                        ) implies self.amplitudes@[k as int] == old_amps[k as int] by {
                        lemma_partner_bits(k, control_mask, target, n);
                        if (k ^ t) == i {
                            assert(k & t != 0 ==> !selected(i, control_mask, target));
                        }
                        assert(!pair_written(k, control_mask, target, i));
                    }
                }
            }
            i = i + 1;
        }
        proof {
            assert forall|k: usize|
                k < old_amps.len() && #[trigger] (k & control_mask) != control_mask implies self@[k as int]
                == old_amps[k as int] by {
                lemma_partner_bits(k, control_mask, target, n);
                assert(!pair_written(k, control_mask, target, i));
            }
        }
    }
}

impl<A: Copy> QuantumState<A> {
    /// Replace every amplitude `a` by `f(a)`.
    pub fn map_amplitudes<F: Fn(A) -> A>(&mut self, f: &F)
        requires
            old(self).wf(),
            forall|a: A| f.requires((a,)),
        ensures
            final(self).wf(),
            final(self).qubit_count() == old(self).qubit_count(),
            final(self)@.len() == old(self)@.len(),
            forall|i: int|
                0 <= i < old(self)@.len() ==> f.ensures((old(self)@[i],), #[trigger] final(self)@[i]),
    {
        let ghost old_amps = self.amplitudes@;
        let ghost n = self.num_qubits;
        let mut i: usize = 0;
        while i < self.amplitudes.len()
            invariant
                n == self.num_qubits,
                1 <= n <= 30,
                self.amplitudes@.len() == dim(n),
                old_amps.len() == dim(n),
                forall|a: A| f.requires((a,)),
                i <= self.amplitudes@.len(),
                forall|k: int| 0 <= k < i ==> f.ensures((old_amps[k],), #[trigger] self.amplitudes@[k]),
                forall|k: int| i <= k < old_amps.len() ==> self.amplitudes@[k] == old_amps[k],
            decreases self.amplitudes@.len() - i,
        {
            let b = f(self.amplitudes[i]);
            self.amplitudes.set(i, b);
            i = i + 1;
        }
    }

    /// Keep the amplitudes of basis states in which qubit `target` has value
    /// `one` (true for |1>), and clear the others to `zero`.
    pub fn project_qubit(&mut self, target: usize, one: bool, zero: A)
        requires
            old(self).wf(),
            target < old(self).qubit_count(),
        ensures
            final(self).wf(),
            final(self).qubit_count() == old(self).qubit_count(),
            final(self)@.len() == old(self)@.len(),
            forall|i: usize|
                i < old(self)@.len() ==> #[trigger] final(self)@[i as int] == if ((i & bit(target))
                    != 0) == one {
                    old(self)@[i as int]
                } else {
                    zero
                },
    {
        let ghost old_amps = self.amplitudes@;
        let ghost n = self.num_qubits;
        let mask: usize = 1usize << target;
        let mut i: usize = 0;
        while i < self.amplitudes.len()
            invariant
                n == self.num_qubits,
                1 <= n <= 30,
                mask == bit(target),
                self.amplitudes@.len() == dim(n),
                old_amps.len() == dim(n),
                i <= self.amplitudes@.len(),
                forall|k: usize|
                    k < i ==> #[trigger] self.amplitudes@[k as int] == if ((k & mask) != 0) == one {
                        old_amps[k as int]
                    } else {
                        zero
                    },
                forall|k: int| i <= k < old_amps.len() ==> self.amplitudes@[k] == old_amps[k],
            decreases self.amplitudes@.len() - i,
        {
            if ((i & mask) != 0) != one {
                self.amplitudes.set(i, zero);
            }
            i = i + 1;
        }
    }
}

impl<A: Copy> Clone for QuantumState<A> {
    fn clone(&self) -> (r: Self)
        ensures
            r@ == self@,
            r.qubit_count() == self.qubit_count(),
            self.wf() ==> r.wf(),
    {
        QuantumState { amplitudes: self.amplitudes_copy(), num_qubits: self.num_qubits }
    }
}

} // verus!
