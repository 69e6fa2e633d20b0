//! 256-bit unsigned integers held as 32 big-endian bytes.
//!
//! The arithmetic itself is done by `ruint`. Each operation here reads its
//! arguments with `Uint::from_be_bytes`, lets `ruint` compute, and writes
//! the result back with `Uint::to_be_bytes`. What is stated of it, over the
//! number that the bytes spell, is taken on trust from `ruint`.

use ruint::Uint;
use vstd::arithmetic::div_mod::lemma_fundamental_div_mod_converse;
use vstd::arithmetic::power2::{lemma2_to64, lemma_pow2_adds, lemma_pow2_pos, pow2};
use vstd::prelude::*;

verus! {

/// The number that a string of bytes spells, most significant byte first.
pub open spec fn be_value(bytes: Seq<u8>) -> nat
    decreases bytes.len(),
{
    if bytes.len() == 0 {
        0
    } else {
        be_value(bytes.drop_last()) * 256 + bytes.last() as nat
    }
}

/// The `len` bytes that spell the number `x`, most significant byte first
/// (the lowest `len` bytes of it where `x` needs more).
pub open spec fn be_bytes(x: nat, len: nat) -> Seq<u8>
    decreases len,
{
    if len == 0 {
        Seq::empty()
    } else {
        be_bytes(x / 256, (len - 1) as nat).push((x % 256) as u8)
    }
}

/// 2^256: one more than the largest number that 32 bytes can spell.
pub open spec fn modulus() -> int {
    0x1_0000_0000_0000_0000_0000_0000_0000_0000_0000_0000_0000_0000_0000_0000_0000_0000int
}

/// The number `x` wrapped around at 2^256, as 256-bit arithmetic keeps it.
pub open spec fn wrapped(x: int) -> int {
    x % modulus()
}

/// 2^256 written as a power of two.
pub proof fn lemma_modulus_is_pow2()
    ensures
        modulus() == pow2(256),
{
    lemma2_to64();
    lemma_pow2_adds(64, 64);
    lemma_pow2_adds(128, 128);
    let a: int = pow2(64) as int;
    let b: int = pow2(128) as int;
    assert(a * a == 0x1_0000_0000_0000_0000_0000_0000_0000_0000int) by (nonlinear_arith)
        requires
            a == 0x1_0000_0000_0000_0000int,
    ;
    assert(b * b == modulus()) by (nonlinear_arith)
        requires
            b == 0x1_0000_0000_0000_0000_0000_0000_0000_0000int,
    ;
}

/// A string of `n` bytes spells a number below 2^(8n).
pub proof fn lemma_be_value_below_pow(bytes: Seq<u8>)
    ensures
        be_value(bytes) < pow2(8 * bytes.len()),
    decreases bytes.len(),
{
    lemma2_to64();
    if bytes.len() > 0 {
        lemma_be_value_below_pow(bytes.drop_last());
        lemma_pow2_adds(8 * bytes.drop_last().len(), 8);
    }
}

/// Thirty-two bytes spell a number below 2^256.
pub proof fn lemma_be_value_below_modulus(bytes: Seq<u8>)
    requires
        bytes.len() == 32,
    ensures
        be_value(bytes) < modulus(),
{
    lemma_be_value_below_pow(bytes);
    lemma_modulus_is_pow2();
}

/// Two strings of the same length that spell the same number are the same string.
pub proof fn lemma_be_value_injective(a: Seq<u8>, b: Seq<u8>)
    requires
        a.len() == b.len(),
        be_value(a) == be_value(b),
    ensures
        a == b,
    decreases a.len(),
{
    if a.len() > 0 {
        let x: int = be_value(a.drop_last()) as int;
        let y: int = be_value(b.drop_last()) as int;
        assert(x * 256 + a.last() == y * 256 + b.last());
        assert(x == y && a.last() == b.last());
        lemma_be_value_injective(a.drop_last(), b.drop_last());
        assert(a =~= a.drop_last().push(a.last()));
        assert(b =~= b.drop_last().push(b.last()));
    } else {
        assert(a =~= b);
    }
}

/// `be_bytes` gives as many bytes as it is asked for.
pub proof fn lemma_be_bytes_len(x: nat, len: nat)
    ensures
        be_bytes(x, len).len() == len,
    decreases len,
{
    if len > 0 {
        lemma_be_bytes_len(x / 256, (len - 1) as nat);
    }
}

/// The bytes of a number that fits in them spell that number.
pub proof fn lemma_be_value_of_bytes(x: nat, len: nat)
    requires
        x < pow2(8 * len),
    ensures
        be_value(be_bytes(x, len)) == x,
    decreases len,
{
    lemma2_to64();
    if len > 0 {
        lemma_pow2_adds((8 * (len - 1)) as nat, 8);
        let front: Seq<u8> = be_bytes(x / 256, (len - 1) as nat);
        lemma_be_value_of_bytes(x / 256, (len - 1) as nat);
        lemma_be_bytes_len(x / 256, (len - 1) as nat);
        assert(be_bytes(x, len).drop_last() =~= front);
    }
}

/// The bytes of the number that a string spells are the string.
pub proof fn lemma_be_bytes_of_value(bytes: Seq<u8>)
    ensures
        be_bytes(be_value(bytes), bytes.len()) == bytes,
{
    lemma_be_value_below_pow(bytes);
    lemma_be_value_of_bytes(be_value(bytes), bytes.len());
    lemma_be_bytes_len(be_value(bytes), bytes.len());
    lemma_be_value_injective(be_bytes(be_value(bytes), bytes.len()), bytes);
}

/// The last byte is the number modulo 256, the bytes before it spell the quotient.
pub proof fn lemma_be_value_last(bytes: Seq<u8>)
    requires
        bytes.len() > 0,
    ensures
        be_value(bytes) % 256 == bytes.last(),
        be_value(bytes) / 256 == be_value(bytes.drop_last()),
{
}

/// The first byte stands in front of the number that the other bytes spell.
pub proof fn lemma_be_value_first(bytes: Seq<u8>)
    requires
        bytes.len() > 0,
    ensures
        be_value(bytes) == bytes[0] * pow2((8 * (bytes.len() - 1)) as nat) + be_value(
            bytes.skip(1),
        ),
    decreases bytes.len(),
{
    lemma2_to64();
    if bytes.len() == 1 {
        assert(be_value(bytes.drop_last()) == 0);
        assert(be_value(bytes.skip(1)) == 0);
        assert(be_value(bytes) == bytes[0]);
        assert(pow2((8 * (bytes.len() - 1)) as nat) == 1);
    } else {
        let front: Seq<u8> = bytes.drop_last();
        let rest: Seq<u8> = bytes.skip(1);
        lemma_be_value_first(front);
        assert(front.skip(1) =~= rest.drop_last());
        assert(rest.last() == bytes.last());
        assert(front[0] == bytes[0]);
        let p: int = pow2((8 * (front.len() - 1)) as nat) as int;
        let f: int = bytes[0] as int;
        let m: int = be_value(front.skip(1)) as int;
        lemma_pow2_adds((8 * (front.len() - 1)) as nat, 8);
        let q: int = pow2((8 * (bytes.len() - 1)) as nat) as int;
        assert(q == p * 256);
        assert(be_value(front) == f * p + m);
        assert(be_value(rest) == m * 256 + bytes.last());
        assert(be_value(bytes) == (f * p + m) * 256 + bytes.last());
        assert((f * p + m) * 256 == f * q + m * 256) by (nonlinear_arith)
            requires
                q == p * 256,
        ;
    }
}

/// The first of 32 bytes is the number divided by 2^248.
pub proof fn lemma_be_value_top_byte(bytes: Seq<u8>)
    requires
        bytes.len() == 32,
    ensures
        bytes[0] == be_value(bytes) / pow2(248),
{
    lemma_be_value_first(bytes);
    lemma_be_value_below_pow(bytes.skip(1));
    lemma_pow2_pos(248);
    let p: int = pow2(248) as int;
    let f: int = bytes[0] as int;
    let m: int = be_value(bytes.skip(1)) as int;
    assert(be_value(bytes) == f * p + m);
    lemma_fundamental_div_mod_converse(be_value(bytes) as int, p, f, m);
}

/// A string of zero bytes spells zero.
pub proof fn lemma_be_value_zero(bytes: Seq<u8>)
    requires
        forall|i: int| 0 <= i < bytes.len() ==> bytes[i] == 0,
    ensures
        be_value(bytes) == 0,
    decreases bytes.len(),
{
    if bytes.len() > 0 {
        lemma_be_value_zero(bytes.drop_last());
    }
}

/// A string of bytes that are zero but for the last spells that last byte.
pub proof fn lemma_be_value_small(bytes: Seq<u8>)
    requires
        bytes.len() > 0,
        forall|i: int| 0 <= i < bytes.len() - 1 ==> bytes[i] == 0,
    ensures
        be_value(bytes) == bytes.last(),
{
    lemma_be_value_zero(bytes.drop_last());
}

/// The 256-bit integer of the value `x`.
pub(crate) fn uint_from(x: u8) -> (r: [u8; 32])
    ensures
        be_value(r@) == x,
        r@[31] == x,
        forall|i: int| 0 <= i < 31 ==> r@[i] == 0,
{
    let mut r: [u8; 32] = [0u8; 32];
    r[31] = x;
    proof {
        lemma_be_value_small(r@);
    }
    r
}

/// `ruint`'s `>` on two `Uint<256, 4>`: whether the first number is the
/// larger of the two.
#[verifier::external_body]
pub(crate) fn uint_gt(a: &[u8; 32], b: &[u8; 32]) -> (r: bool)
    ensures
        r == (be_value(a@) > be_value(b@)),
{
    Uint::<256, 4>::from_be_bytes::<32>(*a) > Uint::<256, 4>::from_be_bytes::<32>(*b)
}

/// `ruint`'s `+` on two `Uint<256, 4>`: the sum, wrapped around at 2^256.
#[verifier::external_body]
pub(crate) fn uint_add(a: &[u8; 32], b: &[u8; 32]) -> (r: [u8; 32])
    ensures
        be_value(r@) == wrapped((be_value(a@) + be_value(b@)) as int),
{
    (Uint::<256, 4>::from_be_bytes::<32>(*a) + Uint::<256, 4>::from_be_bytes::<32>(*b)).to_be_bytes::<32>()
}

/// `ruint`'s `-` on two `Uint<256, 4>`: the difference, wrapped around at 2^256.
#[verifier::external_body]
pub(crate) fn uint_sub(a: &[u8; 32], b: &[u8; 32]) -> (r: [u8; 32])
    ensures
        be_value(r@) == wrapped(be_value(a@) - be_value(b@)),
{
    (Uint::<256, 4>::from_be_bytes::<32>(*a) - Uint::<256, 4>::from_be_bytes::<32>(*b)).to_be_bytes::<32>()
}

/// `ruint`'s `&` on two `Uint<256, 4>`: each byte of the result is the `&` of
/// the bytes at its place.
#[verifier::external_body]
pub(crate) fn uint_and(a: &[u8; 32], b: &[u8; 32]) -> (r: [u8; 32])
    ensures
        forall|i: int| 0 <= i < 32 ==> r@[i] == a@[i] & b@[i],
{
    (Uint::<256, 4>::from_be_bytes::<32>(*a) & Uint::<256, 4>::from_be_bytes::<32>(*b)).to_be_bytes::<32>()
}

/// `ruint`'s `>>` of a `Uint<256, 4>` by a `usize`: the number divided by
/// 2^`n`, rounded down.
#[verifier::external_body]
pub(crate) fn uint_shr(a: &[u8; 32], n: usize) -> (r: [u8; 32])
    ensures
        be_value(r@) == be_value(a@) / pow2(n as nat),
{
    (Uint::<256, 4>::from_be_bytes::<32>(*a) >> n).to_be_bytes::<32>()
}

/// `ruint`'s `<<` of a `Uint<256, 4>` by a `usize`: the number times 2^`n`,
/// wrapped around at 2^256.
#[verifier::external_body]
pub(crate) fn uint_shl(a: &[u8; 32], n: usize) -> (r: [u8; 32])
    ensures
        be_value(r@) == wrapped((be_value(a@) * pow2(n as nat)) as int),
{
    (Uint::<256, 4>::from_be_bytes::<32>(*a) << n).to_be_bytes::<32>()
}

} // verus!
