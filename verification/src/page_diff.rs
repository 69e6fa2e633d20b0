//! Which slots of a page have changed since it was read or last written out.

use crate::page::LEAF_META_BITFIELD_SLOT;
use bitvec::array::BitArray;
use bitvec::order::Lsb0;
use vstd::prelude::*;

verus! {

/// The places of the `true` items of `bits`, in rising order.
pub open spec fn ones(bits: Seq<bool>) -> Seq<int>
    decreases bits.len(),
{
    if bits.len() == 0 {
        Seq::empty()
    } else if bits.last() {
        ones(bits.drop_last()).push(bits.len() - 1)
    } else {
        ones(bits.drop_last())
    }
}

/// `ones` lists places of `bits`, each of them a `true` one, in strictly
/// rising order, and leaves no `true` place out.
pub proof fn lemma_ones(bits: Seq<bool>)
    ensures
        ones(bits).len() <= bits.len(),
        forall|k: int| 0 <= k < ones(bits).len() ==> 0 <= #[trigger] ones(bits)[k] < bits.len(),
        forall|k: int| 0 <= k < ones(bits).len() ==> bits[#[trigger] ones(bits)[k]],
        forall|j: int, k: int| 0 <= j < k < ones(bits).len() ==> ones(bits)[j] < ones(bits)[k],
        forall|i: int| 0 <= i < bits.len() && bits[i] ==> ones(bits).contains(i),
    decreases bits.len(),
{
    if bits.len() > 0 {
        let front: Seq<bool> = bits.drop_last();
        lemma_ones(front);
        let last: int = bits.len() - 1;
        assert forall|i: int| 0 <= i < bits.len() && bits[i] implies ones(bits).contains(i) by {
            if i < last {
                assert(front[i]);
                let k: int = choose|k: int| 0 <= k < ones(front).len() && ones(front)[k] == i;
                assert(ones(bits)[k] == i);
            } else {
                assert(ones(bits)[ones(bits).len() - 1] == i);
            }
        }
    }
}

/// Holds the 128 bits of a `bitvec` array of two 64-bit words, least
/// significant bit of each word first.
#[verifier::external_body]
#[derive(Debug)]
pub struct SlotBits {
    bits: BitArray<[u64; 2], Lsb0>,
}

/// The 128 bits that a `SlotBits` holds, by their index.
pub uninterp spec fn slot_bits(bits: SlotBits) -> Seq<bool>;

/// `bitvec`: `BitArray::ZERO`, an array of which every bit is 0.
#[verifier::external_body]
fn bits_zero() -> (r: SlotBits)
    ensures
        slot_bits(r) == Seq::new(128, |i: int| false),
{
    SlotBits { bits: BitArray::ZERO }
}

/// `bitvec`: `BitSlice::set` through the array. It writes the bit at
/// `index` and panics where `index` is past the last bit, which is left out here.
#[verifier::external_body]
fn bits_set(bits: &mut SlotBits, index: usize, value: bool)
    requires
        index < slot_bits(*old(bits)).len(),
    ensures
        slot_bits(*final(bits)) == slot_bits(*old(bits)).update(index as int, value),
{
    bits.bits.set(index, value)
}

/// `bitvec`: `BitSlice::count_ones` through the array, the number of bits that are 1.
#[verifier::external_body]
fn bits_count_ones(bits: &SlotBits) -> (r: usize)
    ensures
        r == ones(slot_bits(*bits)).len(),
{
    bits.bits.count_ones()
}

/// `bitvec`: `BitSlice::iter_ones` through the array, the index of each bit
/// that is 1, in rising order.
#[verifier::external_body]
fn bits_iter_ones(bits: &SlotBits) -> (r: Vec<usize>)
    ensures
        r@.len() == ones(slot_bits(*bits)).len(),
        forall|k: int| 0 <= k < r@.len() ==> r@[k] == ones(slot_bits(*bits))[k],
{
    bits.bits.iter_ones().collect()
}

/// The `Clone` of `bitvec`'s `BitArray`: an array with the same bits.
#[verifier::external_body]
fn bits_clone(bits: &SlotBits) -> (r: SlotBits)
    ensures
        slot_bits(r) == slot_bits(*bits),
{
    SlotBits { bits: bits.bits.clone() }
}

/// Notes which of the 127 slots of 32 bytes at the start of a page have changed.
#[derive(Debug)]
pub struct PageDiff {
    /// One bit for each slot that may change, and one that is never set.
    updated_slots: SlotBits,
}

impl View for PageDiff {
    type V = Seq<bool>;

    /// For each of the slots 0 to 126, whether it has changed.
    closed spec fn view(&self) -> Seq<bool> {
        slot_bits(self.updated_slots).take(LEAF_META_BITFIELD_SLOT + 1)
    }
}

impl PageDiff {
    #[verifier::type_invariant]
    spec fn well_formed(self) -> bool {
        &&& slot_bits(self.updated_slots).len() == 128
        &&& !slot_bits(self.updated_slots)[127]
    }

    /// A diff in which no slot has changed.
    pub fn new() -> (r: Self)
        ensures
            r@ == Seq::new(127, |i: int| false),
    {
        let r: Self = Self { updated_slots: bits_zero() };
        assert(r@ =~= Seq::new(127, |i: int| false));
        r
    }

    /// Notes that the slot `slot_index` has changed: one of the slots 0 to
    /// 125 of the nodes, or the slot 126 of the leaf bits.
    pub fn set_changed(&mut self, slot_index: usize)
        requires
            slot_index <= LEAF_META_BITFIELD_SLOT,
        ensures
            final(self)@ == old(self)@.update(slot_index as int, true),
    {
        proof {
            use_type_invariant(&*self);
        }
        let mut bits: SlotBits = bits_clone(&self.updated_slots);
        bits_set(&mut bits, slot_index, true);
        let ghost before: Seq<bool> = self@;
        *self = Self { updated_slots: bits };
        assert(self@ =~= before.update(slot_index as int, true));
    }

    /// The number of slots that have changed.
    pub fn changed_count(&self) -> (r: usize)
        ensures
            r == ones(self@).len(),
            r <= 127,
            self@.len() == 127,
    {
        proof {
            use_type_invariant(self);
            lemma_ones(self@);
            assert(slot_bits(self.updated_slots).drop_last() =~= self@);
        }
        bits_count_ones(&self.updated_slots)
    }

    /// The slots that have changed, in rising order.
    pub fn changed_slots(&self) -> (r: Vec<usize>)
        ensures
            r@.len() == ones(self@).len(),
            forall|k: int| 0 <= k < r@.len() ==> r@[k] == ones(self@)[k],
            forall|k: int| 0 <= k < r@.len() ==> r@[k] <= LEAF_META_BITFIELD_SLOT,
            self@.len() == 127,
    {
        proof {
            use_type_invariant(self);
            lemma_ones(self@);
            assert(slot_bits(self.updated_slots).drop_last() =~= self@);
        }
        bits_iter_ones(&self.updated_slots)
    }
}

impl Clone for PageDiff {
    fn clone(&self) -> (r: Self)
        ensures
            r@ == self@,
    {
        proof {
            use_type_invariant(self);
        }
        Self { updated_slots: bits_clone(&self.updated_slots) }
    }
}

impl Default for PageDiff {
    fn default() -> (r: Self)
        ensures
            r@ == Seq::new(127, |i: int| false),
    {
        Self::new()
    }
}

} // verus!
