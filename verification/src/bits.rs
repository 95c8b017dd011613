//! Bitfields: one bit per validator, or one bit per availability core.
use bitvec::order::Lsb0;
use bitvec::vec::BitVec;
use vstd::prelude::*;

verus! {

/// The longest bitfield: the bound of `bitvec`'s `BitSlice::<_, u8>::MAX_BITS`, which is `!0 >> 3`.
pub open spec fn max_bits() -> int {
    usize::MAX as int / 8
}

/// A growable string of bits, held by a `bitvec::vec::BitVec`.
#[verifier::external_body]
#[derive(PartialEq, Eq, Debug)]
pub struct Bitfield {
    inner: BitVec<Lsb0, u8>,
}

/// The bits that a bitfield holds, from index zero on.
pub uninterp spec fn bits(field: Bitfield) -> Seq<bool>;

impl View for Bitfield {
    type V = Seq<bool>;

    open spec fn view(&self) -> Seq<bool> {
        bits(*self)
    }
}

impl Clone for Bitfield {
    /// Calls `BitVec::clone`: the copy holds the same bits.
    #[verifier::external_body]
    fn clone(&self) -> (copy: Self)
        ensures
            bits(copy) == bits(*self),
    {
        Bitfield { inner: self.inner.clone() }
    }
}

/// Calls `BitVec::repeat`: a bitfield of `len` bits that are all `bit`. `repeat` panics above
/// `MAX_BITS`.
#[verifier::external_body]
fn bitvec_repeat(bit: bool, len: usize) -> (field: Bitfield)
    requires
        len <= max_bits(),
    ensures
        bits(field) == Seq::new(len as nat, |i: int| bit),
{
    Bitfield { inner: BitVec::repeat(bit, len) }
}

/// Calls `BitSlice::len`: the number of bits.
#[verifier::external_body]
fn bitvec_len(field: &Bitfield) -> (len: usize)
    ensures
        len == bits(*field).len(),
{
    field.inner.len()
}

/// Indexes the `BitSlice`: the bit at `index`. Indexing panics out of bounds.
#[verifier::external_body]
fn bitvec_index(field: &Bitfield, index: usize) -> (bit: bool)
    requires
        index < bits(*field).len(),
    ensures
        bit == bits(*field)[index as int],
{
    field.inner[index]
}

/// Calls `BitSlice::set`: writes the bit at `index` and leaves the others. `set` panics out of
/// bounds.
#[verifier::external_body]
fn bitvec_set(field: &mut Bitfield, index: usize, bit: bool)
    requires
        index < bits(*old(field)).len(),
    ensures
        bits(*final(field)) == bits(*old(field)).update(index as int, bit),
{
    field.inner.set(index, bit)
}

/// Calls `BitSlice::count_ones`: the number of bits that are one.
#[verifier::external_body]
fn bitvec_count_ones(field: &Bitfield) -> (count: usize)
    ensures
        count == ones(bits(*field)).len(),
{
    field.inner.count_ones()
}

/// The positions of the one bits, ascending.
pub open spec fn ones(field: Seq<bool>) -> Seq<int>
    decreases field.len(),
{
    if field.len() == 0 {
        Seq::empty()
    } else if field.last() {
        ones(field.drop_last()).push(field.len() - 1)
    } else {
        ones(field.drop_last())
    }
}

/// `ones` gives every position that holds a one, each once, in ascending order.
pub proof fn ones_are_the_one_positions(field: Seq<bool>)
    ensures
        ones(field).len() <= field.len(),
        forall|j: int|
            0 <= j < ones(field).len() ==> 0 <= #[trigger] ones(field)[j] < field.len()
                && field[ones(field)[j]],
        forall|j: int, k: int|
            0 <= j < k < ones(field).len() ==> #[trigger] ones(field)[j] < #[trigger] ones(field)[k],
        forall|p: int| 0 <= p < field.len() && #[trigger] field[p] ==> ones(field).contains(p),
    decreases field.len(),
{
    if field.len() > 0 {
        let rest = field.drop_last();
        ones_are_the_one_positions(rest);
        assert forall|p: int| 0 <= p < field.len() && #[trigger] field[p] implies ones(
            field,
        ).contains(p) by {
            if p < rest.len() {
                assert(rest[p]);
                let j = choose|j: int| 0 <= j < ones(rest).len() && ones(rest)[j] == p;
                assert(ones(field)[j] == p);
            } else {
                assert(ones(field)[ones(field).len() - 1] == p);
            }
        }
    }
}

/// A bitfield of `len` zeros.
pub open spec fn zeros(len: nat) -> Seq<bool> {
    Seq::new(len, |i: int| false)
}

impl Bitfield {
    /// A bitfield of `len` zeros.
    pub fn zeros(len: usize) -> (field: Self)
        requires
            len <= max_bits(),
        ensures
            field@ == zeros(len as nat),
    {
        bitvec_repeat(false, len)
    }

    /// The number of bits.
    pub fn len(&self) -> (len: usize)
        ensures
            len == self@.len(),
    {
        bitvec_len(self)
    }

    /// The bit at `index`, if there is one.
    pub fn get(&self, index: usize) -> (bit: Option<bool>)
        ensures
            bit == if index < self@.len() {
                Some(self@[index as int])
            } else {
                None
            },
    {
        if index < bitvec_len(self) {
            Some(bitvec_index(self, index))
        } else {
            None
        }
    }

    /// Writes the bit at `index`, and says whether there is one.
    pub fn put(&mut self, index: usize, bit: bool) -> (written: bool)
        ensures
            written == (index < old(self)@.len()),
            final(self)@ == if written {
                old(self)@.update(index as int, bit)
            } else {
                old(self)@
            },
    {
        if index < bitvec_len(self) {
            bitvec_set(self, index, bit);
            true
        } else {
            false
        }
    }

    /// The number of one bits.
    pub fn count_ones(&self) -> (count: usize)
        ensures
            count == ones(self@).len(),
    {
        bitvec_count_ones(self)
    }

    /// The positions of the one bits, ascending.
    pub fn one_positions(&self) -> (positions: Vec<usize>)
        ensures
            positions@.map_values(|p: usize| p as int) == ones(self@),
    {
        let len = bitvec_len(self);
        let mut positions: Vec<usize> = Vec::new();
        let mut i: usize = 0;
        assert(self@.take(0) =~= Seq::<bool>::empty());
        while i < len
            invariant
                i <= len == self@.len(),
                positions@.map_values(|p: usize| p as int) =~= ones(self@.take(i as int)),
            decreases len - i,
        {
            assert(self@.take(i + 1).drop_last() =~= self@.take(i as int));
            if bitvec_index(self, i) {
                positions.push(i);
            }
            i = i + 1;
        }
        assert(self@.take(len as int) =~= self@);
        positions
    }
}

} // verus!
