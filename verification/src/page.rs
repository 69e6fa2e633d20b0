//! The layout of a page in memory.
//!
//! A page is 4096 bytes: 128 slots of 32 bytes. Slots 0 to 125 hold the
//! nodes of a binary tree of six levels without its root, or the two halves
//! of the data of a leaf in place of the two nodes below it. Slot 126 is a
//! field of bits, most significant bit of each byte first, in which bit `i`
//! says that slot `i` holds leaf data. Slot 127 is not used.

use bitvec::order::Msb0;
use bitvec::view::BitView;
use vstd::prelude::*;

verus! {

/// The number of levels of the tree inside a page.
pub const DEPTH: usize = 6;

/// The number of nodes in a page: 2^(DEPTH + 1) - 2.
pub const NODES_PER_PAGE: usize = 126;

/// The slot that holds the bits which tell leaf data from nodes.
pub const LEAF_META_BITFIELD_SLOT: usize = 126;

/// Where the bits which tell leaf data from nodes begin in a page.
pub const LEAF_DATA_BITFIELD_OFF: usize = 4032;

/// The number of bytes of a page.
pub const PAGE_SIZE: usize = 4096;

/// A node of the tree: 32 bytes. All zero means that there is no node.
pub type Node = [u8; 32];

/// What is kept of a leaf below it: the path of its key and the hash of its value.
pub struct LeafData {
    pub key_path: [u8; 32],
    pub value_hash: [u8; 32],
}

/// The 64 bytes that leaf data takes in a page: the key path, then the value hash.
pub open spec fn leaf_encoding(leaf_data: LeafData) -> Seq<u8> {
    leaf_data.key_path@ + leaf_data.value_hash@
}

/// Thirty-two zero bytes.
pub open spec fn zero_node() -> Seq<u8> {
    Seq::new(32, |i: int| 0u8)
}

/// A page of zero bytes.
pub open spec fn blank_page() -> Seq<u8> {
    Seq::new(PAGE_SIZE as nat, |i: int| 0u8)
}

/// The bit at place `index` of a string of bytes, where the bits of each
/// byte are counted from its most significant one.
pub open spec fn msb0_bit(bytes: Seq<u8>, index: int) -> bool {
    bytes[index / 8] & (0x80u8 >> ((index % 8) as u8)) != 0
}

/// The string of bytes with the bit at place `index` made `value`.
pub open spec fn msb0_with_bit(bytes: Seq<u8>, index: int, value: bool) -> Seq<u8> {
    bytes.update(
        index / 8,
        if value {
            bytes[index / 8] | (0x80u8 >> ((index % 8) as u8))
        } else {
            bytes[index / 8] & !(0x80u8 >> ((index % 8) as u8))
        },
    )
}

/// The 32 bytes of the slot `slot` of a page.
pub open spec fn slot_of(page: Seq<u8>, slot: int) -> Seq<u8> {
    page.subrange(32 * slot, 32 * slot + 32)
}

/// The page with `bytes` written from the start of the slot `slot` onwards.
pub open spec fn with_bytes_at(page: Seq<u8>, slot: int, bytes: Seq<u8>) -> Seq<u8> {
    Seq::new(
        page.len(),
        |i: int|
            if 32 * slot <= i < 32 * slot + bytes.len() {
                bytes[i - 32 * slot]
            } else {
                page[i]
            },
    )
}

/// Whether the page says that the slot `slot` holds leaf data.
pub open spec fn leaf_bit(page: Seq<u8>, slot: int) -> bool {
    msb0_bit(page, 8 * LEAF_DATA_BITFIELD_OFF + slot)
}

/// The page with the leaf bit of the slot `slot` made `value`.
pub open spec fn with_leaf_bit(page: Seq<u8>, slot: int, value: bool) -> Seq<u8> {
    msb0_with_bit(page, 8 * LEAF_DATA_BITFIELD_OFF + slot, value)
}

/// The page after a node was written: the node stands in its slot, and the
/// slot no longer counts as leaf data.
pub open spec fn page_with_node(page: Seq<u8>, slot: int, node: Seq<u8>) -> Seq<u8> {
    with_leaf_bit(with_bytes_at(page, slot, node), slot, false)
}

/// The page after leaf data was written below a leaf: both slots count as
/// leaf data and hold its 64 bytes.
pub open spec fn page_with_leaf_data(page: Seq<u8>, left: int, leaf_data: LeafData) -> Seq<u8> {
    with_bytes_at(
        with_leaf_bit(with_leaf_bit(page, left, true), left + 1, true),
        left,
        leaf_encoding(leaf_data),
    )
}

/// The page after leaf data was cleared: neither slot counts as leaf data,
/// and each slot that did is zero. A slot that held a node keeps it.
pub open spec fn page_without_leaf_data(page: Seq<u8>, left: int) -> Seq<u8> {
    let bits_cleared = with_leaf_bit(with_leaf_bit(page, left, false), left + 1, false);
    let left_cleared = if leaf_bit(page, left) {
        with_bytes_at(bits_cleared, left, zero_node())
    } else {
        bits_cleared
    };
    if leaf_bit(page, left + 1) {
        with_bytes_at(left_cleared, left + 1, zero_node())
    } else {
        left_cleared
    }
}

/// Whether a page holds nothing: its first two slots are zero. A node with
/// no node below it on either side cannot be, so nothing stands further down.
pub open spec fn is_empty_page(page: Seq<u8>) -> bool {
    forall|i: int| 0 <= i < 64 ==> page[i] == 0
}

/// In one byte: a bit that was written holds what was written, and no
/// other bit of the byte has changed.
proof fn lemma_byte_bits(x: u8, s: u8, t: u8)
    requires
        s < 8,
        t < 8,
    ensures
        (x | (0x80u8 >> s)) & (0x80u8 >> s) != 0,
        (x & !(0x80u8 >> s)) & (0x80u8 >> s) == 0,
        s != t ==> ((x | (0x80u8 >> s)) & (0x80u8 >> t) != 0) == (x & (0x80u8 >> t) != 0),
        s != t ==> ((x & !(0x80u8 >> s)) & (0x80u8 >> t) != 0) == (x & (0x80u8 >> t) != 0),
{
    assert((x | (0x80u8 >> s)) & (0x80u8 >> s) != 0) by (bit_vector)
        requires
            s < 8,
    ;
    assert((x & !(0x80u8 >> s)) & (0x80u8 >> s) == 0) by (bit_vector)
        requires
            s < 8,
    ;
    assert(s != t ==> ((x | (0x80u8 >> s)) & (0x80u8 >> t) != 0) == (x & (0x80u8 >> t) != 0))
        by (bit_vector)
        requires
            s < 8,
            t < 8,
    ;
    assert(s != t ==> ((x & !(0x80u8 >> s)) & (0x80u8 >> t) != 0) == (x & (0x80u8 >> t) != 0))
        by (bit_vector)
        requires
            s < 8,
            t < 8,
    ;
}

/// A bit that was written holds what was written.
pub proof fn lemma_bit_written(bytes: Seq<u8>, index: int, value: bool)
    requires
        0 <= index < 8 * bytes.len(),
    ensures
        msb0_bit(msb0_with_bit(bytes, index, value), index) == value,
{
    lemma_byte_bits(bytes[index / 8], (index % 8) as u8, (index % 8) as u8);
}

/// Writing one bit leaves every other bit as it was.
pub proof fn lemma_other_bit_kept(bytes: Seq<u8>, index: int, value: bool, other: int)
    requires
        0 <= index < 8 * bytes.len(),
        0 <= other < 8 * bytes.len(),
        other != index,
    ensures
        msb0_bit(msb0_with_bit(bytes, index, value), other) == msb0_bit(bytes, other),
{
    if other / 8 == index / 8 {
        lemma_byte_bits(bytes[index / 8], (index % 8) as u8, (other % 8) as u8);
    }
}

/// Writing the leaf bit of a slot changes no byte of the 126 node slots
/// and keeps the length of the page.
pub proof fn lemma_leaf_bit_frame(page: Seq<u8>, slot: int, value: bool)
    requires
        page.len() == PAGE_SIZE,
        0 <= slot < NODES_PER_PAGE,
    ensures
        with_leaf_bit(page, slot, value).len() == PAGE_SIZE,
        forall|i: int|
            0 <= i < LEAF_DATA_BITFIELD_OFF ==> with_leaf_bit(page, slot, value)[i] == page[i],
        leaf_bit(with_leaf_bit(page, slot, value), slot) == value,
        forall|other: int|
            0 <= other < NODES_PER_PAGE && other != slot ==> leaf_bit(
                with_leaf_bit(page, slot, value),
                other,
            ) == leaf_bit(page, other),
{
    lemma_bit_written(page, 8 * LEAF_DATA_BITFIELD_OFF + slot, value);
    assert forall|other: int| 0 <= other < NODES_PER_PAGE && other != slot implies leaf_bit(
        with_leaf_bit(page, slot, value),
        other,
    ) == leaf_bit(page, other) by {
        lemma_other_bit_kept(
            page,
            8 * LEAF_DATA_BITFIELD_OFF + slot,
            value,
            8 * LEAF_DATA_BITFIELD_OFF + other,
        );
    }
}

/// Writing bytes into node slots changes no leaf bit and keeps the length of the page.
pub proof fn lemma_bytes_frame(page: Seq<u8>, slot: int, bytes: Seq<u8>)
    requires
        page.len() == PAGE_SIZE,
        0 <= slot,
        32 * slot + bytes.len() <= LEAF_DATA_BITFIELD_OFF,
    ensures
        with_bytes_at(page, slot, bytes).len() == PAGE_SIZE,
        with_bytes_at(page, slot, bytes).subrange(32 * slot, 32 * slot + bytes.len()) == bytes,
        forall|i: int|
            0 <= i < PAGE_SIZE && !(32 * slot <= i < 32 * slot + bytes.len()) ==> with_bytes_at(
                page,
                slot,
                bytes,
            )[i] == page[i],
        forall|other: int|
            0 <= other < NODES_PER_PAGE ==> leaf_bit(with_bytes_at(page, slot, bytes), other)
                == leaf_bit(page, other),
{
    assert(with_bytes_at(page, slot, bytes).subrange(32 * slot, 32 * slot + bytes.len())
        =~= bytes);
}

/// After a node was written into a slot, the slot holds the node and does
/// not count as leaf data; every other slot and leaf bit is as it was.
pub proof fn law_node_written(page: Seq<u8>, slot: int, node: Seq<u8>)
    requires
        page.len() == PAGE_SIZE,
        0 <= slot < NODES_PER_PAGE,
        node.len() == 32,
    ensures
        page_with_node(page, slot, node).len() == PAGE_SIZE,
        slot_of(page_with_node(page, slot, node), slot) == node,
        !leaf_bit(page_with_node(page, slot, node), slot),
        forall|other: int|
            0 <= other < NODES_PER_PAGE && other != slot ==> slot_of(
                page_with_node(page, slot, node),
                other,
            ) == slot_of(page, other),
        forall|other: int|
            0 <= other < NODES_PER_PAGE && other != slot ==> leaf_bit(
                page_with_node(page, slot, node),
                other,
            ) == leaf_bit(page, other),
{
    let written: Seq<u8> = with_bytes_at(page, slot, node);
    lemma_bytes_frame(page, slot, node);
    lemma_leaf_bit_frame(written, slot, false);
    let after: Seq<u8> = page_with_node(page, slot, node);
    assert(slot_of(after, slot) =~= node);
    assert forall|other: int| 0 <= other < NODES_PER_PAGE && other != slot implies slot_of(
        after,
        other,
    ) == slot_of(page, other) by {
        assert(slot_of(after, other) =~= slot_of(page, other));
    }
}

/// After the data of a leaf was written below it, both slots count as leaf
/// data and hold, one after the other, the 64 bytes of the data.
pub proof fn law_leaf_data_written(page: Seq<u8>, left: int, leaf_data: LeafData)
    requires
        page.len() == PAGE_SIZE,
        0 <= left < NODES_PER_PAGE - 1,
    ensures
        page_with_leaf_data(page, left, leaf_data).len() == PAGE_SIZE,
        leaf_bit(page_with_leaf_data(page, left, leaf_data), left),
        leaf_bit(page_with_leaf_data(page, left, leaf_data), left + 1),
        page_with_leaf_data(page, left, leaf_data).subrange(32 * left, 32 * left + 64)
            == leaf_encoding(leaf_data),
        slot_of(page_with_leaf_data(page, left, leaf_data), left) == leaf_data.key_path@,
        slot_of(page_with_leaf_data(page, left, leaf_data), left + 1) == leaf_data.value_hash@,
{
    let one: Seq<u8> = with_leaf_bit(page, left, true);
    let two: Seq<u8> = with_leaf_bit(one, left + 1, true);
    lemma_leaf_bit_frame(page, left, true);
    lemma_leaf_bit_frame(one, left + 1, true);
    lemma_bytes_frame(two, left, leaf_encoding(leaf_data));
    let after: Seq<u8> = page_with_leaf_data(page, left, leaf_data);
    assert(slot_of(after, left) =~= leaf_data.key_path@);
    assert(slot_of(after, left + 1) =~= leaf_data.value_hash@);
}

/// After leaf data was cleared, neither slot counts as leaf data, and each
/// of the two slots that did is zero, while one that did not is as it was.
pub proof fn law_leaf_data_cleared(page: Seq<u8>, left: int)
    requires
        page.len() == PAGE_SIZE,
        0 <= left < NODES_PER_PAGE - 1,
    ensures
        page_without_leaf_data(page, left).len() == PAGE_SIZE,
        !leaf_bit(page_without_leaf_data(page, left), left),
        !leaf_bit(page_without_leaf_data(page, left), left + 1),
        slot_of(page_without_leaf_data(page, left), left) == if leaf_bit(page, left) {
            zero_node()
        } else {
            slot_of(page, left)
        },
        slot_of(page_without_leaf_data(page, left), left + 1) == if leaf_bit(page, left + 1) {
            zero_node()
        } else {
            slot_of(page, left + 1)
        },
{
    let one: Seq<u8> = with_leaf_bit(page, left, false);
    let two: Seq<u8> = with_leaf_bit(one, left + 1, false);
    lemma_leaf_bit_frame(page, left, false);
    lemma_leaf_bit_frame(one, left + 1, false);
    let three: Seq<u8> = if leaf_bit(page, left) {
        with_bytes_at(two, left, zero_node())
    } else {
        two
    };
    lemma_bytes_frame(two, left, zero_node());
    lemma_bytes_frame(three, left + 1, zero_node());
    let after: Seq<u8> = page_without_leaf_data(page, left);
    assert(slot_of(after, left) =~= if leaf_bit(page, left) {
        zero_node()
    } else {
        slot_of(page, left)
    });
    assert(slot_of(after, left + 1) =~= if leaf_bit(page, left + 1) {
        zero_node()
    } else {
        slot_of(page, left + 1)
    });
}

/// Clearing the leaf data that was written before leaves both slots zero
/// and neither marked as leaf data.
pub proof fn law_leaf_data_cleared_after_written(page: Seq<u8>, left: int, leaf_data: LeafData)
    requires
        page.len() == PAGE_SIZE,
        0 <= left < NODES_PER_PAGE - 1,
    ensures
        !leaf_bit(page_without_leaf_data(page_with_leaf_data(page, left, leaf_data), left), left),
        !leaf_bit(
            page_without_leaf_data(page_with_leaf_data(page, left, leaf_data), left),
            left + 1,
        ),
        slot_of(page_without_leaf_data(page_with_leaf_data(page, left, leaf_data), left), left)
            == zero_node(),
        slot_of(
            page_without_leaf_data(page_with_leaf_data(page, left, leaf_data), left),
            left + 1,
        ) == zero_node(),
{
    law_leaf_data_written(page, left, leaf_data);
    law_leaf_data_cleared(page_with_leaf_data(page, left, leaf_data), left);
}

/// A node written over the left half of leaf data takes its slot and its
/// leaf bit; the right half stays, still marked as leaf data.
pub proof fn law_node_over_leaf_data(page: Seq<u8>, left: int, leaf_data: LeafData, node: Seq<u8>)
    requires
        page.len() == PAGE_SIZE,
        0 <= left < NODES_PER_PAGE - 1,
        node.len() == 32,
    ensures
        slot_of(page_with_node(page_with_leaf_data(page, left, leaf_data), left, node), left)
            == node,
        !leaf_bit(page_with_node(page_with_leaf_data(page, left, leaf_data), left, node), left),
        slot_of(page_with_node(page_with_leaf_data(page, left, leaf_data), left, node), left + 1)
            == leaf_data.value_hash@,
        leaf_bit(
            page_with_node(page_with_leaf_data(page, left, leaf_data), left, node),
            left + 1,
        ),
{
    law_leaf_data_written(page, left, leaf_data);
    law_node_written(page_with_leaf_data(page, left, leaf_data), left, node);
}

/// A page is empty exactly when its two top slots are zero.
pub proof fn law_empty_page(page: Seq<u8>)
    requires
        page.len() >= 64,
    ensures
        is_empty_page(page) <==> slot_of(page, 0) == zero_node() && slot_of(page, 1)
            == zero_node(),
{
    if is_empty_page(page) {
        assert(slot_of(page, 0) =~= zero_node());
        assert(slot_of(page, 1) =~= zero_node());
    }
    if slot_of(page, 0) == zero_node() && slot_of(page, 1) == zero_node() {
        assert forall|i: int| 0 <= i < 64 implies page[i] == 0 by {
            if i < 32 {
                assert(slot_of(page, 0)[i] == page[i]);
            } else {
                assert(slot_of(page, 1)[i - 32] == page[i]);
            }
        }
    }
}

/// `bitvec`: `BitSlice::<u8, Msb0>::set` on the bits of the bytes. It writes
/// the bit at `index`, counted from the most significant bit of the first
/// byte, and panics where `index` is past the last bit, which is left out here.
#[verifier::external_body]
fn msb0_set(bytes: &mut Vec<u8>, index: usize, value: bool)
    requires
        index < 8 * old(bytes)@.len(),
    ensures
        final(bytes)@ == msb0_with_bit(old(bytes)@, index as int, value),
{
    bytes.as_mut_slice().view_bits_mut::<Msb0>().set(index, value)
}

/// `bitvec`: `BitSlice::<u8, Msb0>::replace` on the bits of the bytes. It
/// writes the bit at `index` as `set` does, and returns what the bit was.
#[verifier::external_body]
fn msb0_replace(bytes: &mut Vec<u8>, index: usize, value: bool) -> (previous: bool)
    requires
        index < 8 * old(bytes)@.len(),
    ensures
        previous == msb0_bit(old(bytes)@, index as int),
        final(bytes)@ == msb0_with_bit(old(bytes)@, index as int, value),
{
    bytes.as_mut_slice().view_bits_mut::<Msb0>().replace(index, value)
}

/// Copies `bytes` into the page from the start of the slot `slot` onwards.
fn write_bytes_at(page: &mut Vec<u8>, slot: usize, bytes: &[u8])
    requires
        32 * slot + bytes@.len() <= old(page)@.len(),
    ensures
        final(page)@ == with_bytes_at(old(page)@, slot as int, bytes@),
{
    let size: usize = page.len();
    let start: usize = 32 * slot;
    let mut i: usize = 0;
    while i < bytes.len()
        invariant
            start == 32 * slot,
            size == page@.len(),
            i <= bytes@.len(),
            start + bytes@.len() <= page@.len(),
            page@.len() == old(page)@.len(),
            forall|j: int|
                0 <= j < page@.len() ==> page@[j] == if start <= j < start + i {
                    bytes@[j - start]
                } else {
                    old(page)@[j]
                },
        decreases bytes@.len() - i,
    {
        page.set(start + i, bytes[i]);
        i = i + 1;
    }
    assert(page@ =~= with_bytes_at(old(page)@, slot as int, bytes@));
}

/// Whether the first 64 bytes of a page, its two top slots, are zero.
pub fn page_is_empty(page: &[u8]) -> (r: bool)
    requires
        page@.len() >= 64,
    ensures
        r == is_empty_page(page@),
{
    let mut i: usize = 0;
    while i < 64
        invariant
            i <= 64,
            page@.len() >= 64,
            forall|j: int| 0 <= j < i ==> page@[j] == 0,
        decreases 64 - i,
    {
        if page[i] != 0 {
            return false;
        }
        i = i + 1;
    }
    true
}

/// The bytes of one page, kept in memory only once something was written
/// to the page or read for it from the store.
pub struct PageData {
    data: Option<Vec<u8>>,
}

impl View for PageData {
    type V = Seq<u8>;

    /// The 4096 bytes of the page; zero bytes where none are kept.
    closed spec fn view(&self) -> Seq<u8> {
        match self.data {
            Some(bytes) => bytes@,
            None => blank_page(),
        }
    }
}

impl PageData {
    #[verifier::type_invariant]
    spec fn well_formed(self) -> bool {
        self.data matches Some(bytes) ==> bytes@.len() == PAGE_SIZE
    }

    /// Whether bytes are kept for the page.
    pub closed spec fn is_allocated(&self) -> bool {
        self.data is Some
    }

    /// A page with the given bytes, as they came from the store.
    pub fn pristine_with_data(data: Vec<u8>) -> (r: Self)
        requires
            data@.len() == PAGE_SIZE,
        ensures
            r@ == data@,
            r.is_allocated(),
    {
        Self { data: Some(data) }
    }

    /// A page of which nothing was written yet.
    pub fn pristine_empty() -> (r: Self)
        ensures
            r@ == blank_page(),
            !r.is_allocated(),
    {
        Self { data: None }
    }

    /// The bytes that are kept for the page, if any: all 4096 of them.
    pub fn bytes(&self) -> (r: Option<&Vec<u8>>)
        ensures
            r is Some <==> self.is_allocated(),
            r matches Some(bytes) ==> bytes@ == self@,
            r is None ==> self@ == blank_page(),
            self@.len() == PAGE_SIZE,
    {
        proof {
            use_type_invariant(self);
        }
        self.data.as_ref()
    }

    /// The node in the slot `index`; zero where no bytes are kept.
    pub fn node(&self, index: usize) -> (r: Node)
        requires
            index < NODES_PER_PAGE,
        ensures
            r@ == slot_of(self@, index as int),
            self@.len() == PAGE_SIZE,
    {
        proof {
            use_type_invariant(self);
        }
        let mut node: Node = [0u8; 32];
        match &self.data {
            Some(data) => {
                let start: usize = index * 32;
                let mut i: usize = 0;
                while i < 32
                    invariant
                        i <= 32,
                        start == index * 32,
                        index < NODES_PER_PAGE,
                        data@.len() == PAGE_SIZE,
                        forall|j: int| 0 <= j < i ==> node@[j] == data@[start + j],
                    decreases 32 - i,
                {
                    node[i] = data[start + i];
                    i = i + 1;
                }
                assert(node@ =~= slot_of(self@, index as int));
            },
            None => {
                assert(node@ =~= slot_of(self@, index as int));
            },
        }
        node
    }

    /// Takes the bytes of the page out, or makes 4096 zero bytes where none are kept.
    fn take_bytes(&mut self) -> (data: Vec<u8>)
        ensures
            data@ == old(self)@,
            data@.len() == PAGE_SIZE,
            !final(self).is_allocated(),
    {
        proof {
            use_type_invariant(&*self);
        }
        let mut taken: PageData = PageData { data: None };
        core::mem::swap(self, &mut taken);
        match taken.data {
            Some(data) => data,
            None => {
                let data: Vec<u8> = vec![0u8; 4096];
                assert(data@ =~= blank_page());
                data
            },
        }
    }

    /// Writes a node into the slot `index`.
    ///
    /// The slot no longer counts as leaf data afterwards: who builds a tree
    /// from the leaves upwards can write the node above leaf data over it.
    pub fn set_node(&mut self, index: usize, node: Node)
        requires
            index < NODES_PER_PAGE,
        ensures
            final(self)@ == page_with_node(old(self)@, index as int, node@),
            final(self).is_allocated(),
    {
        let mut data: Vec<u8> = self.take_bytes();
        write_bytes_at(&mut data, index, node.as_slice());
        msb0_set(&mut data, 8 * LEAF_DATA_BITFIELD_OFF + index, false);
        self.data = Some(data);
    }

    /// Writes the data of a leaf into the two slots below it, `left_index`
    /// and the one after, and marks both as leaf data.
    pub fn set_leaf_data(&mut self, left_index: usize, leaf_data: LeafData)
        requires
            left_index < NODES_PER_PAGE - 1,
        ensures
            final(self)@ == page_with_leaf_data(old(self)@, left_index as int, leaf_data),
            final(self).is_allocated(),
    {
        let mut data: Vec<u8> = self.take_bytes();
        msb0_set(&mut data, 8 * LEAF_DATA_BITFIELD_OFF + left_index, true);
        msb0_set(&mut data, 8 * LEAF_DATA_BITFIELD_OFF + left_index + 1, true);
        let ghost marked: Seq<u8> = data@;
        write_bytes_at(&mut data, left_index, leaf_data.key_path.as_slice());
        write_bytes_at(&mut data, left_index + 1, leaf_data.value_hash.as_slice());
        assert(data@ =~= with_bytes_at(marked, left_index as int, leaf_encoding(leaf_data)));
        self.data = Some(data);
    }

    /// Takes the leaf data away from the two slots `left_index` and the one
    /// after: neither counts as leaf data afterwards, and each that did is
    /// made zero. A slot that did not is left alone, for it may hold a node.
    pub fn clear_leaf_data(&mut self, left_index: usize)
        requires
            left_index < NODES_PER_PAGE - 1,
        ensures
            final(self)@ == page_without_leaf_data(old(self)@, left_index as int),
            final(self).is_allocated(),
    {
        let mut data: Vec<u8> = self.take_bytes();
        let ghost before: Seq<u8> = data@;
        let overwrite_l: bool = msb0_replace(
            &mut data,
            8 * LEAF_DATA_BITFIELD_OFF + left_index,
            false,
        );
        let overwrite_r: bool = msb0_replace(
            &mut data,
            8 * LEAF_DATA_BITFIELD_OFF + left_index + 1,
            false,
        );
        proof {
            lemma_other_bit_kept(
                before,
                8 * LEAF_DATA_BITFIELD_OFF + left_index,
                false,
                8 * LEAF_DATA_BITFIELD_OFF + left_index + 1,
            );
        }
        let zero: Node = [0u8; 32];
        assert(zero@ =~= zero_node());
        if overwrite_l {
            write_bytes_at(&mut data, left_index, zero.as_slice());
        }
        if overwrite_r {
            write_bytes_at(&mut data, left_index + 1, zero.as_slice());
        }
        self.data = Some(data);
    }
}

} // verus!
