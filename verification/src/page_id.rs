//! Page ids: the places of pages in a tree of pages with 64 children to a
//! page and at most 42 levels below the root page.
//!
//! A page id is the path from the root page to the page: a list of 0 to 42
//! child indices, each from 0 to 63. The empty list is the root page. Every
//! id also has a fixed-width form of 32 bytes: the number that grows from 0
//! by `x * 64 + limb + 1` for each child index in turn, written big-endian.
//! Different ids have different numbers.

use crate::uint256::{
    be_bytes, be_value, lemma_be_bytes_len, lemma_be_bytes_of_value, lemma_be_value_below_modulus,
    lemma_be_value_last, lemma_be_value_of_bytes, lemma_be_value_top_byte, lemma_modulus_is_pow2,
    modulus, uint_add, uint_and, uint_from, uint_gt, uint_shl, uint_shr, uint_sub, wrapped,
};
use arrayvec::ArrayVec;
use vstd::arithmetic::div_mod::{
    lemma_breakdown, lemma_div_denominator, lemma_fundamental_div_mod_converse, lemma_mod_mod,
    lemma_small_mod,
};
use vstd::arithmetic::power2::{lemma2_to64, lemma_pow2_adds, lemma_pow2_pos, pow2};
use vstd::prelude::*;
use vstd::std_specs::cmp::PartialEqSpecImpl;

verus! {

/// The number of levels below the root page.
pub const MAX_PAGE_DEPTH: usize = 42;

/// The largest index a child page can have under its parent.
pub const MAX_CHILD_INDEX: u8 = 63;

/// Whether `limbs` is the path of a page: at most 42 child indices, each at most 63.
pub open spec fn is_page_id(limbs: Seq<u8>) -> bool {
    limbs.len() <= 42 && forall|i: int| 0 <= i < limbs.len() ==> limbs[i] <= 63
}

/// The number that stands for the path `limbs` in the fixed-width form.
pub open spec fn encode_value(limbs: Seq<u8>) -> nat
    decreases limbs.len(),
{
    if limbs.len() == 0 {
        0
    } else {
        encode_value(limbs.drop_last()) * 64 + limbs.last() as nat + 1
    }
}

/// The path that the number `x` stands for.
pub open spec fn decode_value(x: nat) -> Seq<u8>
    decreases x,
{
    if x == 0 {
        Seq::empty()
    } else {
        decode_value(((x - 1) / 64) as nat).push(((x - 1) % 64) as u8)
    }
}

/// The number of the last page of the last level: that of the path of 42 times 63.
pub open spec fn highest_encoded_42() -> nat {
    0x1041_0410_4104_1041_0410_4104_1041_0410_4104_1041_0410_4104_1041_0410_4104_1040nat
}

/// The smallest number that stands for a path of `depth` child indices.
pub open spec fn lowest_encoded(depth: nat) -> nat
    decreases depth,
{
    if depth == 0 {
        0
    } else {
        64 * lowest_encoded((depth - 1) as nat) + 1
    }
}

/// The fixed-width form of the path `limbs`: the 32 bytes that spell its number.
pub open spec fn encoded(limbs: Seq<u8>) -> Seq<u8> {
    be_bytes(encode_value(limbs), 32)
}

/// The path that 32 bytes stand for, where they stand for a page.
pub open spec fn decoded(bytes: Seq<u8>) -> Option<Seq<u8>> {
    if be_value(bytes) <= highest_encoded_42() {
        Some(decode_value(be_value(bytes)))
    } else {
        None
    }
}

/// The path of the child with index `child` under the page with path `limbs`.
pub open spec fn child_limbs(limbs: Seq<u8>, child: u8) -> Seq<u8> {
    limbs.push(child)
}

/// The path of the page above the page with path `limbs`; the root page is its own parent.
pub open spec fn parent_limbs(limbs: Seq<u8>) -> Seq<u8> {
    if limbs.len() == 0 {
        limbs
    } else {
        limbs.drop_last()
    }
}

/// The six bits of the 256-bit key path `key` that choose the child at level
/// `depth`: bits `6 * depth` to `6 * depth + 5`, counted from the most
/// significant bit.
pub open spec fn key_limb(key: nat, depth: nat) -> u8
    recommends
        depth < 42,
{
    ((key / pow2((250 - 6 * depth) as nat)) % 64) as u8
}

/// The path of the page at level `depth` on the way along the key path `key`.
pub open spec fn key_page_id(key: nat, depth: nat) -> Seq<u8> {
    Seq::new(depth, |i: int| key_limb(key, i as nat))
}

/// Decoding the number of a path gives the path back.
pub proof fn lemma_decode_encode(limbs: Seq<u8>)
    requires
        forall|i: int| 0 <= i < limbs.len() ==> limbs[i] <= 63,
    ensures
        decode_value(encode_value(limbs)) == limbs,
    decreases limbs.len(),
{
    if limbs.len() > 0 {
        let front: Seq<u8> = limbs.drop_last();
        lemma_decode_encode(front);
        let e: int = encode_value(front) as int;
        let x: int = encode_value(limbs) as int;
        assert(x - 1 == e * 64 + limbs.last());
        assert((x - 1) / 64 == e);
        assert((x - 1) % 64 == limbs.last());
        assert(decode_value(x as nat) == decode_value(e as nat).push(limbs.last()));
        assert(front.push(limbs.last()) =~= limbs);
    }
}

/// Encoding the path of a number gives the number back.
pub proof fn lemma_encode_decode(x: nat)
    ensures
        encode_value(decode_value(x)) == x,
    decreases x,
{
    if x > 0 {
        let y: nat = ((x - 1) / 64) as nat;
        let r: u8 = ((x - 1) % 64) as u8;
        lemma_encode_decode(y);
        let d: Seq<u8> = decode_value(x);
        assert(d == decode_value(y).push(r));
        assert(d.drop_last() =~= decode_value(y));
        assert(d.last() == r);
    }
}

/// Every child index in the path of a number is at most 63.
pub proof fn lemma_decode_limbs(x: nat)
    ensures
        forall|i: int| 0 <= i < decode_value(x).len() ==> decode_value(x)[i] <= 63,
    decreases x,
{
    if x > 0 {
        let y: nat = ((x - 1) / 64) as nat;
        let r: u8 = ((x - 1) % 64) as u8;
        lemma_decode_limbs(y);
        assert(decode_value(x) == decode_value(y).push(r));
        assert forall|i: int| 0 <= i < decode_value(x).len() implies decode_value(x)[i] <= 63 by {
            if i < decode_value(y).len() {
                assert(decode_value(x)[i] == decode_value(y)[i]);
            }
        }
    }
}

/// The path of a number has at least `depth` child indices exactly when the
/// number is at least `lowest_encoded(depth)`.
pub proof fn lemma_decode_len(x: nat, depth: nat)
    ensures
        decode_value(x).len() >= depth <==> x >= lowest_encoded(depth),
    decreases depth,
{
    if depth > 0 {
        if x > 0 {
            lemma_decode_len(((x - 1) / 64) as nat, (depth - 1) as nat);
        }
    }
}

proof fn lemma_lowest_encoded_43()
    ensures
        lowest_encoded(43) == highest_encoded_42() + 1,
{
    assert(lowest_encoded(0) == 0);
    assert(lowest_encoded(1) == 0x1nat);
    assert(lowest_encoded(2) == 0x41nat);
    assert(lowest_encoded(3) == 0x1041nat);
    assert(lowest_encoded(4) == 0x4_1041nat);
    assert(lowest_encoded(5) == 0x104_1041nat);
    assert(lowest_encoded(6) == 0x4104_1041nat);
    assert(lowest_encoded(7) == 0x10_4104_1041nat);
    assert(lowest_encoded(8) == 0x410_4104_1041nat);
    assert(lowest_encoded(9) == 0x1_0410_4104_1041nat);
    assert(lowest_encoded(10) == 0x41_0410_4104_1041nat);
    assert(lowest_encoded(11) == 0x1041_0410_4104_1041nat);
    assert(lowest_encoded(12) == 0x4_1041_0410_4104_1041nat);
    assert(lowest_encoded(13) == 0x104_1041_0410_4104_1041nat);
    assert(lowest_encoded(14) == 0x4104_1041_0410_4104_1041nat);
    assert(lowest_encoded(15) == 0x10_4104_1041_0410_4104_1041nat);
    assert(lowest_encoded(16) == 0x410_4104_1041_0410_4104_1041nat);
    assert(lowest_encoded(17) == 0x1_0410_4104_1041_0410_4104_1041nat);
    assert(lowest_encoded(18) == 0x41_0410_4104_1041_0410_4104_1041nat);
    assert(lowest_encoded(19) == 0x1041_0410_4104_1041_0410_4104_1041nat);
    assert(lowest_encoded(20) == 0x4_1041_0410_4104_1041_0410_4104_1041nat);
    assert(lowest_encoded(21) == 0x104_1041_0410_4104_1041_0410_4104_1041nat);
    assert(lowest_encoded(22) == 0x4104_1041_0410_4104_1041_0410_4104_1041nat);
    assert(lowest_encoded(23) == 0x10_4104_1041_0410_4104_1041_0410_4104_1041nat);
    assert(lowest_encoded(24) == 0x410_4104_1041_0410_4104_1041_0410_4104_1041nat);
    assert(lowest_encoded(25) == 0x1_0410_4104_1041_0410_4104_1041_0410_4104_1041nat);
    assert(lowest_encoded(26) == 0x41_0410_4104_1041_0410_4104_1041_0410_4104_1041nat);
    assert(lowest_encoded(27) == 0x1041_0410_4104_1041_0410_4104_1041_0410_4104_1041nat);
    assert(lowest_encoded(28) == 0x4_1041_0410_4104_1041_0410_4104_1041_0410_4104_1041nat);
    assert(lowest_encoded(29) == 0x104_1041_0410_4104_1041_0410_4104_1041_0410_4104_1041nat);
    assert(lowest_encoded(30) == 0x4104_1041_0410_4104_1041_0410_4104_1041_0410_4104_1041nat);
    assert(lowest_encoded(31) == 0x10_4104_1041_0410_4104_1041_0410_4104_1041_0410_4104_1041nat);
    assert(lowest_encoded(32) == 0x410_4104_1041_0410_4104_1041_0410_4104_1041_0410_4104_1041nat);
    assert(lowest_encoded(33) == 0x1_0410_4104_1041_0410_4104_1041_0410_4104_1041_0410_4104_1041nat);
    assert(lowest_encoded(34) == 0x41_0410_4104_1041_0410_4104_1041_0410_4104_1041_0410_4104_1041nat);
    assert(lowest_encoded(35) == 0x1041_0410_4104_1041_0410_4104_1041_0410_4104_1041_0410_4104_1041nat);
    assert(lowest_encoded(36) == 0x4_1041_0410_4104_1041_0410_4104_1041_0410_4104_1041_0410_4104_1041nat);
    assert(lowest_encoded(37) == 0x104_1041_0410_4104_1041_0410_4104_1041_0410_4104_1041_0410_4104_1041nat);
    assert(lowest_encoded(38) == 0x4104_1041_0410_4104_1041_0410_4104_1041_0410_4104_1041_0410_4104_1041nat);
    assert(lowest_encoded(39) == 0x10_4104_1041_0410_4104_1041_0410_4104_1041_0410_4104_1041_0410_4104_1041nat);
    assert(lowest_encoded(40) == 0x410_4104_1041_0410_4104_1041_0410_4104_1041_0410_4104_1041_0410_4104_1041nat);
    assert(lowest_encoded(41) == 0x1_0410_4104_1041_0410_4104_1041_0410_4104_1041_0410_4104_1041_0410_4104_1041nat);
    assert(lowest_encoded(42) == 0x41_0410_4104_1041_0410_4104_1041_0410_4104_1041_0410_4104_1041_0410_4104_1041nat);
    assert(lowest_encoded(43) == 0x1041_0410_4104_1041_0410_4104_1041_0410_4104_1041_0410_4104_1041_0410_4104_1041nat);
}

/// The numbers that stand for a page are those up to `highest_encoded_42()`.
pub proof fn lemma_decode_valid(x: nat)
    ensures
        is_page_id(decode_value(x)) <==> x <= highest_encoded_42(),
{
    lemma_decode_limbs(x);
    lemma_decode_len(x, 43);
    lemma_lowest_encoded_43();
}

/// The number of a page is at most `highest_encoded_42()`, so it fits in 256 bits.
pub proof fn lemma_encode_bound(limbs: Seq<u8>)
    requires
        is_page_id(limbs),
    ensures
        encode_value(limbs) <= highest_encoded_42(),
        encode_value(limbs) < modulus(),
{
    lemma_decode_encode(limbs);
    lemma_decode_valid(encode_value(limbs));
}

/// The fixed-width form of a page id is 32 bytes that spell its number.
pub proof fn lemma_encoded(limbs: Seq<u8>)
    requires
        is_page_id(limbs),
    ensures
        encoded(limbs).len() == 32,
        be_value(encoded(limbs)) == encode_value(limbs),
{
    lemma_encode_bound(limbs);
    lemma_modulus_is_pow2();
    lemma_be_value_of_bytes(encode_value(limbs), 32);
    lemma_be_bytes_len(encode_value(limbs), 32);
}

/// Whatever 32 bytes stand for a page, writing the id that is read from
/// them gives the same bytes.
pub proof fn law_encode_after_decode(bytes: Seq<u8>)
    requires
        bytes.len() == 32,
        be_value(bytes) <= highest_encoded_42(),
    ensures
        decoded(bytes) matches Some(limbs) && is_page_id(limbs) && encoded(limbs) == bytes,
{
    lemma_decode_valid(be_value(bytes));
    lemma_encode_decode(be_value(bytes));
    lemma_be_bytes_of_value(bytes);
}

/// Whatever the page id, reading what was written of it gives the same id.
pub proof fn law_decode_after_encode(limbs: Seq<u8>)
    requires
        is_page_id(limbs),
    ensures
        decoded(encoded(limbs)) == Some(limbs),
{
    lemma_encoded(limbs);
    lemma_encode_bound(limbs);
    lemma_decode_encode(limbs);
}

/// Different page ids have different fixed-width forms.
pub proof fn law_encoding_injective(a: Seq<u8>, b: Seq<u8>)
    requires
        is_page_id(a),
        is_page_id(b),
        encoded(a) == encoded(b),
    ensures
        a == b,
{
    law_decode_after_encode(a);
    law_decode_after_encode(b);
}

/// The parent of a child page is the page itself.
pub proof fn law_parent_of_child(limbs: Seq<u8>, child: u8)
    requires
        is_page_id(limbs),
        limbs.len() < 42,
        child <= 63,
    ensures
        is_page_id(child_limbs(limbs, child)),
        parent_limbs(child_limbs(limbs, child)) == limbs,
{
    assert(limbs.push(child).drop_last() =~= limbs);
}

/// The parent of the root page is the root page.
pub proof fn law_parent_of_root()
    ensures
        parent_limbs(Seq::<u8>::empty()) == Seq::<u8>::empty(),
{
}

/// The pages along a key path: the root page first, then at each level the
/// child that the next six bits of the key choose, down to level 42.
pub proof fn law_key_path_pages(key: nat, depth: nat)
    requires
        depth <= 42,
    ensures
        key_page_id(key, 0) == Seq::<u8>::empty(),
        key_page_id(key, depth).len() == depth,
        is_page_id(key_page_id(key, depth)),
        depth < 42 ==> key_page_id(key, depth + 1) == child_limbs(
            key_page_id(key, depth),
            key_limb(key, depth),
        ),
{
    assert(key_page_id(key, 0) =~= Seq::<u8>::empty());
    if depth < 42 {
        assert(key_page_id(key, depth + 1) =~= key_page_id(key, depth).push(key_limb(key, depth)));
    }
}

/// The largest number is that of the path of 42 times 63.
pub proof fn law_highest_is_last_page()
    ensures
        highest_encoded_42() == encode_value(Seq::new(42, |i: int| 63u8)),
{
    lemma_all_63(42);
    lemma_lowest_encoded_43();
}

proof fn lemma_all_63(depth: nat)
    ensures
        encode_value(Seq::new(depth, |i: int| 63u8)) + 1 == lowest_encoded(depth + 1),
    decreases depth,
{
    let s: Seq<u8> = Seq::new(depth, |i: int| 63u8);
    if depth > 0 {
        lemma_all_63((depth - 1) as nat);
        assert(s.drop_last() =~= Seq::new((depth - 1) as nat, |i: int| 63u8));
    } else {
        assert(lowest_encoded(1) == 64 * lowest_encoded(0) + 1);
    }
}

/// The 32 bytes of the largest encoding spell `highest_encoded_42()`.
proof fn lemma_highest_bytes(s: Seq<u8>)
    requires
        s.len() == 32,
        s[0] == 16,
        s[1] == 65,
        s[2] == 4,
        s[3] == 16,
        s[4] == 65,
        s[5] == 4,
        s[6] == 16,
        s[7] == 65,
        s[8] == 4,
        s[9] == 16,
        s[10] == 65,
        s[11] == 4,
        s[12] == 16,
        s[13] == 65,
        s[14] == 4,
        s[15] == 16,
        s[16] == 65,
        s[17] == 4,
        s[18] == 16,
        s[19] == 65,
        s[20] == 4,
        s[21] == 16,
        s[22] == 65,
        s[23] == 4,
        s[24] == 16,
        s[25] == 65,
        s[26] == 4,
        s[27] == 16,
        s[28] == 65,
        s[29] == 4,
        s[30] == 16,
        s[31] == 64,
    ensures
        be_value(s) == highest_encoded_42(),
{
    assert(be_value(s.take(0)) == 0);
    assert(s.take(1).drop_last() =~= s.take(0));
    assert(be_value(s.take(1)) == 0x10nat);
    assert(s.take(2).drop_last() =~= s.take(1));
    assert(be_value(s.take(2)) == 0x1041nat);
    assert(s.take(3).drop_last() =~= s.take(2));
    assert(be_value(s.take(3)) == 0x10_4104nat);
    assert(s.take(4).drop_last() =~= s.take(3));
    assert(be_value(s.take(4)) == 0x1041_0410nat);
    assert(s.take(5).drop_last() =~= s.take(4));
    assert(be_value(s.take(5)) == 0x10_4104_1041nat);
    assert(s.take(6).drop_last() =~= s.take(5));
    assert(be_value(s.take(6)) == 0x1041_0410_4104nat);
    assert(s.take(7).drop_last() =~= s.take(6));
    assert(be_value(s.take(7)) == 0x10_4104_1041_0410nat);
    assert(s.take(8).drop_last() =~= s.take(7));
    assert(be_value(s.take(8)) == 0x1041_0410_4104_1041nat);
    assert(s.take(9).drop_last() =~= s.take(8));
    assert(be_value(s.take(9)) == 0x10_4104_1041_0410_4104nat);
    assert(s.take(10).drop_last() =~= s.take(9));
    assert(be_value(s.take(10)) == 0x1041_0410_4104_1041_0410nat);
    assert(s.take(11).drop_last() =~= s.take(10));
    assert(be_value(s.take(11)) == 0x10_4104_1041_0410_4104_1041nat);
    assert(s.take(12).drop_last() =~= s.take(11));
    assert(be_value(s.take(12)) == 0x1041_0410_4104_1041_0410_4104nat);
    assert(s.take(13).drop_last() =~= s.take(12));
    assert(be_value(s.take(13)) == 0x10_4104_1041_0410_4104_1041_0410nat);
    assert(s.take(14).drop_last() =~= s.take(13));
    assert(be_value(s.take(14)) == 0x1041_0410_4104_1041_0410_4104_1041nat);
    assert(s.take(15).drop_last() =~= s.take(14));
    assert(be_value(s.take(15)) == 0x10_4104_1041_0410_4104_1041_0410_4104nat);
    assert(s.take(16).drop_last() =~= s.take(15));
    assert(be_value(s.take(16)) == 0x1041_0410_4104_1041_0410_4104_1041_0410nat);
    assert(s.take(17).drop_last() =~= s.take(16));
    assert(be_value(s.take(17)) == 0x10_4104_1041_0410_4104_1041_0410_4104_1041nat);
    assert(s.take(18).drop_last() =~= s.take(17));
    assert(be_value(s.take(18)) == 0x1041_0410_4104_1041_0410_4104_1041_0410_4104nat);
    assert(s.take(19).drop_last() =~= s.take(18));
    assert(be_value(s.take(19)) == 0x10_4104_1041_0410_4104_1041_0410_4104_1041_0410nat);
    assert(s.take(20).drop_last() =~= s.take(19));
    assert(be_value(s.take(20)) == 0x1041_0410_4104_1041_0410_4104_1041_0410_4104_1041nat);
    assert(s.take(21).drop_last() =~= s.take(20));
    assert(be_value(s.take(21)) == 0x10_4104_1041_0410_4104_1041_0410_4104_1041_0410_4104nat);
    assert(s.take(22).drop_last() =~= s.take(21));
    assert(be_value(s.take(22)) == 0x1041_0410_4104_1041_0410_4104_1041_0410_4104_1041_0410nat);
    assert(s.take(23).drop_last() =~= s.take(22));
    assert(be_value(s.take(23)) == 0x10_4104_1041_0410_4104_1041_0410_4104_1041_0410_4104_1041nat);
    assert(s.take(24).drop_last() =~= s.take(23));
    assert(be_value(s.take(24)) == 0x1041_0410_4104_1041_0410_4104_1041_0410_4104_1041_0410_4104nat);
    assert(s.take(25).drop_last() =~= s.take(24));
    assert(be_value(s.take(25)) == 0x10_4104_1041_0410_4104_1041_0410_4104_1041_0410_4104_1041_0410nat);
    assert(s.take(26).drop_last() =~= s.take(25));
    assert(be_value(s.take(26)) == 0x1041_0410_4104_1041_0410_4104_1041_0410_4104_1041_0410_4104_1041nat);
    assert(s.take(27).drop_last() =~= s.take(26));
    assert(be_value(s.take(27)) == 0x10_4104_1041_0410_4104_1041_0410_4104_1041_0410_4104_1041_0410_4104nat);
    assert(s.take(28).drop_last() =~= s.take(27));
    assert(be_value(s.take(28)) == 0x1041_0410_4104_1041_0410_4104_1041_0410_4104_1041_0410_4104_1041_0410nat);
    assert(s.take(29).drop_last() =~= s.take(28));
    assert(be_value(s.take(29)) == 0x10_4104_1041_0410_4104_1041_0410_4104_1041_0410_4104_1041_0410_4104_1041nat);
    assert(s.take(30).drop_last() =~= s.take(29));
    assert(be_value(s.take(30)) == 0x1041_0410_4104_1041_0410_4104_1041_0410_4104_1041_0410_4104_1041_0410_4104nat);
    assert(s.take(31).drop_last() =~= s.take(30));
    assert(be_value(s.take(31)) == 0x10_4104_1041_0410_4104_1041_0410_4104_1041_0410_4104_1041_0410_4104_1041_0410nat);
    assert(s.take(32).drop_last() =~= s.take(31));
    assert(be_value(s.take(32)) == 0x1041_0410_4104_1041_0410_4104_1041_0410_4104_1041_0410_4104_1041_0410_4104_1040nat);
    assert(s.take(32) =~= s);
}

/// One step along a key path. Where `cur` is what is left of the key path
/// `key` after `depth` steps, its top six bits are the child index at level
/// `depth`, and `cur` shifted left by six bits is what is left after one more step.
proof fn lemma_key_step(key: nat, depth: nat, cur: nat)
    requires
        depth <= 41,
        cur == (key % pow2((256 - 6 * depth) as nat)) * pow2(6 * depth),
    ensures
        cur / pow2(250) == key_limb(key, depth),
        wrapped((cur * 64) as int) == (key % pow2((250 - 6 * depth) as nat)) * pow2(
            6 * (depth + 1),
        ),
{
    lemma2_to64();
    lemma_modulus_is_pow2();
    let m1: int = pow2((250 - 6 * depth) as nat) as int;
    let p: int = pow2(6 * depth) as int;
    let grown: int = pow2(6 * (depth + 1)) as int;
    let t: int = pow2(250) as int;
    let m: int = pow2(256) as int;
    lemma_pow2_pos((250 - 6 * depth) as nat);
    lemma_pow2_pos(6 * depth);
    lemma_pow2_adds((250 - 6 * depth) as nat, 6);
    lemma_pow2_adds((250 - 6 * depth) as nat, 6 * depth);
    lemma_pow2_adds(250, 6);
    lemma_pow2_adds(6 * depth, 6);
    assert(pow2((256 - 6 * depth) as nat) == m1 * 64);
    assert(m1 * p == t);
    assert(t * 64 == m);
    assert(grown == p * 64);
    let k: int = key as int;
    lemma_breakdown(k, m1, 64);
    let q: int = (k / m1) % 64;
    let r1: int = k % m1;
    let r: int = k % (m1 * 64);
    assert(r == m1 * q + r1);
    assert(cur == r * p);
    assert(r * p == q * t + r1 * p) by (nonlinear_arith)
        requires
            r == m1 * q + r1,
            m1 * p == t,
    ;
    assert(0 <= r1 * p < t) by (nonlinear_arith)
        requires
            0 <= r1 < m1,
            0 < p,
            m1 * p == t,
    ;
    lemma_fundamental_div_mod_converse(cur as int, t, q, r1 * p);
    assert((cur * 64) as int == q * m + r1 * grown) by (nonlinear_arith)
        requires
            cur == q * t + r1 * p,
            t * 64 == m,
            grown == p * 64,
    ;
    assert(0 <= r1 * grown < m) by (nonlinear_arith)
        requires
            0 <= r1 * p < t,
            t * 64 == m,
            grown == p * 64,
    ;
    lemma_fundamental_div_mod_converse((cur * 64) as int, m, q, r1 * grown);
}

/// A child index: a number from 0 to 63.
///
/// Each page holds a binary tree of six levels without its root; the 64
/// nodes below its last level are the roots of its child pages.
#[derive(Debug, PartialEq, Eq)]
pub struct ChildPageIndex(u8);

impl ChildPageIndex {
    #[verifier::type_invariant]
    spec fn in_range(self) -> bool {
        self.0 <= MAX_CHILD_INDEX
    }

    /// The index as a number.
    pub closed spec fn value(self) -> u8 {
        self.0
    }

    /// The child index `index`, or `None` where `index` is above 63.
    pub fn new(index: u8) -> (r: Option<Self>)
        ensures
            r is Some <==> index <= MAX_CHILD_INDEX,
            r matches Some(c) ==> c.value() == index,
    {
        if index > MAX_CHILD_INDEX {
            return None;
        }
        Some(Self(index))
    }

    /// The index as a number, which is at most 63.
    pub fn to_u8(self) -> (r: u8)
        ensures
            r == self.value(),
            r <= MAX_CHILD_INDEX,
    {
        proof {
            use_type_invariant(&self);
        }
        self.0
    }
}

/// The bytes stand for no page: their number is above that of the last page
/// of the last level.
#[derive(Debug, PartialEq)]
pub struct InvalidPageIdBytes;

/// Why a page has no child page.
#[derive(Debug, PartialEq)]
pub enum ChildPageIdError {
    /// The page is at the last level of the tree of pages.
    PageIdOverflow,
}

/// `arrayvec::ArrayVec`, a vector that holds up to `CAP` items in place.
/// Nothing is known of what is inside a value but what `limbs_of` names.
#[verifier::external_type_specification]
#[verifier::external_body]
#[verifier::reject_recursive_types(T)]
pub struct ExArrayVec<T, const CAP: usize>(ArrayVec<T, CAP>);

/// The items that an `ArrayVec` of at most 42 bytes holds, first to last.
pub uninterp spec fn limbs_of(v: ArrayVec<u8, 42>) -> Seq<u8>;

/// `ArrayVec::new`: an empty vector.
#[verifier::external_body]
pub(crate) fn limbs_new() -> (r: ArrayVec<u8, 42>)
    ensures
        limbs_of(r) == Seq::<u8>::empty(),
{
    ArrayVec::new()
}

/// `ArrayVec::len`: the number of items held, which is never above the capacity.
#[verifier::external_body]
pub(crate) fn limbs_len(v: &ArrayVec<u8, 42>) -> (r: usize)
    ensures
        r == limbs_of(*v).len(),
        r <= 42,
{
    v.len()
}

/// `ArrayVec::push`: adds an item at the end. It panics on a full vector,
/// which is left out here.
#[verifier::external_body]
pub(crate) fn limbs_push(v: &mut ArrayVec<u8, 42>, limb: u8)
    requires
        limbs_of(*old(v)).len() < 42,
    ensures
        limbs_of(*final(v)) == limbs_of(*old(v)).push(limb),
{
    v.push(limb)
}

/// `ArrayVec::pop`: takes the last item away and returns it; `None` on an
/// empty vector, which stays as it is.
#[verifier::external_body]
pub(crate) fn limbs_pop(v: &mut ArrayVec<u8, 42>) -> (r: Option<u8>)
    ensures
        limbs_of(*old(v)).len() == 0 ==> r is None && limbs_of(*final(v)) == limbs_of(*old(v)),
        limbs_of(*old(v)).len() > 0 ==> r == Some(limbs_of(*old(v)).last()) && limbs_of(*final(v))
            == limbs_of(*old(v)).drop_last(),
{
    v.pop()
}

/// `ArrayVec::clone`: a vector with the same items.
#[verifier::external_body]
pub(crate) fn limbs_clone(v: &ArrayVec<u8, 42>) -> (r: ArrayVec<u8, 42>)
    ensures
        limbs_of(r) == limbs_of(*v),
{
    v.clone()
}

/// `ArrayVec::as_slice`: the items as a slice.
#[verifier::external_body]
pub(crate) fn limbs_as_slice(v: &ArrayVec<u8, 42>) -> (r: &[u8])
    ensures
        r@ == limbs_of(*v),
{
    v.as_slice()
}

/// `ArrayVec::as_mut_slice` and the slice's `reverse`: the items in the
/// opposite order.
#[verifier::external_body]
pub(crate) fn limbs_reverse(v: &mut ArrayVec<u8, 42>)
    ensures
        limbs_of(*final(v)) == limbs_of(*old(v)).reverse(),
{
    v.as_mut_slice().reverse()
}

/// `ArrayVec`'s `==`: whether two vectors hold the same items in the same order.
#[verifier::external_body]
pub(crate) fn limbs_eq(a: &ArrayVec<u8, 42>, b: &ArrayVec<u8, 42>) -> (r: bool)
    ensures
        r == (limbs_of(*a) == limbs_of(*b)),
{
    a == b
}

/// The id of a page: its path from the root page.
#[derive(Debug, Hash, Eq)]
pub struct PageId {
    limbs: ArrayVec<u8, 42>,
}

impl View for PageId {
    type V = Seq<u8>;

    /// The child indices on the way from the root page to this page.
    closed spec fn view(&self) -> Seq<u8> {
        limbs_of(self.limbs)
    }
}

impl Clone for PageId {
    fn clone(&self) -> (r: Self)
        ensures
            r@ == self@,
    {
        proof {
            use_type_invariant(self);
        }
        PageId { limbs: limbs_clone(&self.limbs) }
    }
}

impl PartialEq for PageId {
    fn eq(&self, other: &Self) -> (r: bool) {
        limbs_eq(&self.limbs, &other.limbs)
    }
}

impl PartialEqSpecImpl for PageId {
    open spec fn obeys_eq_spec() -> bool {
        true
    }

    open spec fn eq_spec(&self, other: &Self) -> bool {
        self@ == other@
    }
}

impl PageId {
    #[verifier::type_invariant]
    spec fn well_formed(self) -> bool {
        is_page_id(limbs_of(self.limbs))
    }

    /// The id of the root page: the empty path.
    pub fn root() -> (r: Self)
        ensures
            r@ == Seq::<u8>::empty(),
    {
        PageId { limbs: limbs_new() }
    }

    /// The number of child indices in the path: the level of the page.
    pub fn depth(&self) -> (r: usize)
        ensures
            r == self@.len(),
            r <= MAX_PAGE_DEPTH,
            is_page_id(self@),
    {
        proof {
            use_type_invariant(self);
        }
        limbs_len(&self.limbs)
    }

    /// The limbs themselves, as the vector that holds them.
    pub(crate) fn limbs(&self) -> (r: &ArrayVec<u8, 42>)
        ensures
            limbs_of(*r) == self@,
            is_page_id(self@),
    {
        proof {
            use_type_invariant(self);
        }
        &self.limbs
    }

    /// Reads a page id from its fixed-width form.
    ///
    /// Bytes whose number is above that of the last page of the last level
    /// stand for no page.
    pub fn decode(bytes: [u8; 32]) -> (r: Result<Self, InvalidPageIdBytes>)
        ensures
            r is Ok <==> be_value(bytes@) <= highest_encoded_42(),
            r matches Ok(id) ==> decoded(bytes@) == Some(id@) && is_page_id(id@),
    {
        let highest: [u8; 32] = [
            16, 65, 4, 16, 65, 4, 16, 65,
            4, 16, 65, 4, 16, 65, 4, 16,
            65, 4, 16, 65, 4, 16, 65, 4,
            16, 65, 4, 16, 65, 4, 16, 64,
        ];
        proof {
            lemma_highest_bytes(highest@);
            lemma_decode_valid(be_value(bytes@));
            lemma_decode_limbs(be_value(bytes@));
        }
        if uint_gt(&bytes, &highest) {
            return Err(InvalidPageIdBytes);
        }
        let ghost origin: nat = be_value(bytes@);
        let zero: [u8; 32] = uint_from(0);
        let one: [u8; 32] = uint_from(1);
        let mask: [u8; 32] = uint_from(MAX_CHILD_INDEX);
        let mut uint: [u8; 32] = bytes;
        let mut limbs: ArrayVec<u8, 42> = limbs_new();
        assert(decode_value(origin) =~= decode_value(be_value(uint@)) + limbs_of(limbs).reverse());
        while uint_gt(&uint, &zero)
            invariant
                be_value(zero@) == 0,
                be_value(one@) == 1,
                mask@[31] == MAX_CHILD_INDEX,
                is_page_id(decode_value(origin)),
                decode_value(origin) == decode_value(be_value(uint@)) + limbs_of(limbs).reverse(),
            decreases be_value(uint@),
        {
            let ghost cur: nat = be_value(uint@);
            let ghost done: Seq<u8> = limbs_of(limbs);
            proof {
                lemma_be_value_below_modulus(uint@);
                lemma_small_mod((cur - 1) as nat, modulus() as nat);
            }
            // We take the sextets from the least significant end, after
            // subtracting the one that each limb was stored with.
            uint = uint_sub(&uint, &one);
            assert(be_value(uint@) == cur - 1);
            let x: [u8; 32] = uint_and(&uint, &mask);
            let limb: u8 = x[31];
            proof {
                let low: u8 = uint@[31];
                lemma_be_value_last(uint@);
                assert(low & 63 == low % 64) by (bit_vector);
                lemma_mod_mod((cur - 1) as int, 64, 4);
                assert(limb == (cur - 1) % 64);
                lemma2_to64();
            }
            uint = uint_shr(&uint, 6);
            assert(be_value(uint@) == (cur - 1) / 64);
            assert(decode_value(cur) == decode_value(be_value(uint@)).push(limb));
            limbs_push(&mut limbs, limb);
            assert(decode_value(origin) =~= decode_value(be_value(uint@)) + limbs_of(
                limbs,
            ).reverse()) by {
                assert(done.push(limb).reverse() =~= seq![limb] + done.reverse());
            }
        }
        assert(decode_value(be_value(uint@)) =~= Seq::<u8>::empty());
        limbs_reverse(&mut limbs);
        assert(limbs_of(limbs) =~= decode_value(origin));
        Ok(PageId { limbs })
    }

    /// Writes the page id in its fixed-width form: 32 bytes that spell the
    /// number of the path, most significant byte first.
    pub fn encode(&self) -> (r: [u8; 32])
        ensures
            r@ == encoded(self@),
            be_value(r@) == encode_value(self@),
            is_page_id(self@),
    {
        proof {
            use_type_invariant(self);
        }
        let limbs: &[u8] = limbs_as_slice(&self.limbs);
        let mut uint: [u8; 32] = uint_from(0);
        let mut i: usize = 0;
        assert(limbs@.take(0) =~= Seq::<u8>::empty());
        while i < limbs.len()
            invariant
                i <= limbs.len(),
                is_page_id(limbs@),
                be_value(uint@) == encode_value(limbs@.take(i as int)),
            decreases limbs.len() - i,
        {
            let limb: u8 = limbs[i];
            proof {
                let before: Seq<u8> = limbs@.take(i as int);
                let after: Seq<u8> = limbs@.take(i + 1);
                assert(after.drop_last() =~= before);
                assert(after.last() == limb);
                lemma_encode_bound(after);
                lemma2_to64();
                lemma_small_mod((encode_value(before) * 64) as nat, modulus() as nat);
                lemma_small_mod(encode_value(after), modulus() as nat);
            }
            uint = uint_shl(&uint, 6);
            let step: [u8; 32] = uint_from(limb + 1);
            uint = uint_add(&uint, &step);
            i = i + 1;
        }
        assert(limbs@.take(i as int) =~= limbs@);
        proof {
            lemma_be_bytes_of_value(uint@);
        }
        uint
    }

    /// The path itself, one byte for each child index: a form whose length
    /// depends on the level of the page.
    pub fn length_dependent_encoding(&self) -> (r: &[u8])
        ensures
            r@ == self@,
    {
        limbs_as_slice(&self.limbs)
    }

    /// The id of the child page with the given index.
    ///
    /// A page at the last level has no child pages.
    pub fn child_page_id(&self, child_index: ChildPageIndex) -> (r: Result<Self, ChildPageIdError>)
        ensures
            r is Ok <==> self@.len() < MAX_PAGE_DEPTH,
            r matches Ok(child) ==> child@ == child_limbs(self@, child_index.value())
                && is_page_id(child@),
    {
        proof {
            use_type_invariant(self);
            use_type_invariant(&child_index);
        }
        if limbs_len(&self.limbs) >= MAX_PAGE_DEPTH {
            return Err(ChildPageIdError::PageIdOverflow);
        }
        let mut limbs: ArrayVec<u8, 42> = limbs_clone(&self.limbs);
        limbs_push(&mut limbs, child_index.0);
        Ok(PageId { limbs })
    }

    /// The id of the parent page. The root page is its own parent.
    pub fn parent_page_id(&self) -> (r: Self)
        ensures
            r@ == parent_limbs(self@),
            is_page_id(r@),
    {
        proof {
            use_type_invariant(self);
        }
        if limbs_len(&self.limbs) == 0 {
            return PageId::root();
        }
        let mut limbs: ArrayVec<u8, 42> = limbs_clone(&self.limbs);
        let _ = limbs_pop(&mut limbs);
        PageId { limbs }
    }
}

/// The ids of the pages along a key path, from the root page downwards,
/// each made when it is asked for.
pub struct PageIdsIterator {
    key_path: [u8; 32],
    page_id: Option<PageId>,
    origin: Ghost<nat>,
}

impl PageIdsIterator {
    #[verifier::type_invariant]
    spec fn well_formed(self) -> bool {
        match self.page_id {
            Some(id) => {
                &&& id@.len() <= 42
                &&& id@ == key_page_id(self.origin@, id@.len())
                &&& be_value(self.key_path@) == (self.origin@ % pow2((256 - 6 * id@.len()) as nat))
                    * pow2(6 * id@.len())
            },
            None => true,
        }
    }

    /// The key path that the iterator was made for, as a number.
    pub closed spec fn key(&self) -> nat {
        self.origin@
    }

    /// The number of ids handed out so far, from 0 to 43.
    pub closed spec fn position(&self) -> nat {
        match self.page_id {
            Some(id) => id@.len(),
            None => 43,
        }
    }

    /// An iterator over the pages along `key_path`, which starts at the root page.
    pub fn new(key_path: [u8; 32]) -> (r: Self)
        ensures
            r.key() == be_value(key_path@),
            r.position() == 0,
    {
        let root: PageId = PageId::root();
        proof {
            lemma2_to64();
            lemma_modulus_is_pow2();
            lemma_be_value_below_modulus(key_path@);
            lemma_small_mod(be_value(key_path@), pow2(256));
            assert(root@ =~= key_page_id(be_value(key_path@), 0));
            let v: int = be_value(key_path@) as int;
            let rest: int = v % (pow2(256) as int);
            let unit: int = pow2(0) as int;
            assert(rest * unit == v) by (nonlinear_arith)
                requires
                    rest == v,
                    unit == 1,
            ;
        }
        Self { key_path, page_id: Some(root), origin: Ghost(be_value(key_path@)) }
    }

    /// The next page on the way down: the root page first, then one page
    /// for each six bits of the key path, 43 pages in all, and `None` after them.
    pub fn next(&mut self) -> (r: Option<PageId>)
        ensures
            final(self).key() == old(self).key(),
            old(self).position() < 43 ==> final(self).position() == old(self).position() + 1,
            old(self).position() < 43 ==> (r matches Some(id) && id@ == key_page_id(
                old(self).key(),
                old(self).position(),
            )),
            old(self).position() == 43 ==> r is None && final(self).position() == 43,
    {
        proof {
            use_type_invariant(&*self);
        }
        let prev: PageId = match &self.page_id {
            Some(id) => id.clone(),
            None => {
                return None;
            },
        };
        let ghost key: nat = self.origin@;
        let ghost depth: nat = prev@.len();
        let top: u8 = self.key_path[0];
        let index: u8 = top >> 2;
        proof {
            lemma2_to64();
            lemma_pow2_pos(248);
            lemma_pow2_adds(248, 2);
            lemma_be_value_top_byte(self.key_path@);
            assert(top >> 2 == top / 4 && top >> 2 <= 63) by (bit_vector);
            lemma_div_denominator(be_value(self.key_path@) as int, pow2(248) as int, 4);
            assert(index == be_value(self.key_path@) / pow2(250));
            if depth <= 41 {
                lemma_key_step(key, depth, be_value(self.key_path@));
            }
        }
        // `new` cannot fail: the index is what is left of a byte after a shift by two.
        let child_index: ChildPageIndex = ChildPageIndex::new(index).unwrap();
        let key_path: [u8; 32] = uint_shl(&self.key_path, 6);
        let page_id: Option<PageId> = match prev.child_page_id(child_index) {
            Ok(child) => Some(child),
            Err(_) => None,
        };
        proof {
            if depth <= 41 {
                assert(page_id matches Some(child) && child@ == prev@.push(index));
                assert(prev@.push(index) =~= key_page_id(key, depth + 1));
            }
        }
        *self = Self { key_path, page_id, origin: self.origin };
        Some(prev)
    }
}

} // verus!
