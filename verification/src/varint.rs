//! Unsigned variable-length integers, as used for length prefixes on the wire.
//!
//! A number is cut into groups of seven bits, least significant group first. Each group
//! travels in one byte, whose top bit says whether another byte follows.

use vstd::prelude::*;

verus! {

/// `unsigned_varint::decode::Error`: why decoding failed. Its variants are known:
/// `Insufficient`, `Overflow` and `NotMinimal`.
#[verifier::external_type_specification]
pub struct ExDecodeError(unsigned_varint::decode::Error);

/// Why a run of bytes does not start with the varint of a `usize`.
#[derive(Clone, Copy, Debug, PartialEq, Eq, Structural)]
pub enum VarintError {
    /// The bytes end before the varint does.
    Insufficient,
    /// The varint goes on for more bytes than a `usize` can take.
    Overflow,
    /// The varint ends in a zero byte that could have been left out.
    NotMinimal,
}

/// The varint of `n`: every byte but the last has its top bit set.
pub open spec fn varint(n: nat) -> Seq<u8>
    decreases n,
{
    if n < 0x80 {
        seq![n as u8]
    } else {
        seq![((n % 0x80) + 0x80) as u8] + varint(n / 0x80)
    }
}

/// The most bytes that the varint of a `usize` takes: ten where a `usize` has 64 bits,
/// five where it has 32.
pub open spec fn max_len() -> nat {
    if usize::MAX > 0xffff_ffff {
        10
    } else {
        5
    }
}

/// How many bytes at the start of `bytes` have their top bit set.
pub open spec fn continued(bytes: Seq<u8>) -> nat
    decreases bytes.len(),
{
    if bytes.len() == 0 || bytes[0] < 0x80 {
        0
    } else {
        1 + continued(bytes.skip(1))
    }
}

/// The number whose seven-bit groups are the low seven bits of each byte, least
/// significant group first.
pub open spec fn groups(bytes: Seq<u8>) -> nat
    decreases bytes.len(),
{
    if bytes.len() == 0 {
        0
    } else {
        (bytes[0] % 0x80) as nat + 0x80 * groups(bytes.skip(1))
    }
}

/// What decoding the start of `bytes` as the varint of a `usize` gives: the number and
/// how many bytes it took, or why there is none.
///
/// The varint ends at the first byte whose top bit is clear. It must come within the
/// first `max_len()` bytes, and may be zero only if it is the only byte. Bits that do
/// not fit into a `usize` are dropped.
pub open spec fn decoded(bytes: Seq<u8>) -> Result<(nat, nat), VarintError> {
    let k = continued(bytes);
    if k < bytes.len() && k < max_len() {
        if k > 0 && bytes[k as int] == 0 {
            Err(VarintError::NotMinimal)
        } else {
            Ok(((groups(bytes.take(k + 1 as int)) % ((usize::MAX + 1) as nat)) as nat, k + 1))
        }
    } else if bytes.len() >= max_len() {
        Err(VarintError::Overflow)
    } else {
        Err(VarintError::Insufficient)
    }
}

/// The library's name for an error of the varint decoder.
pub open spec fn error_kind(e: unsigned_varint::decode::Error) -> VarintError {
    match e {
        unsigned_varint::decode::Error::Insufficient => VarintError::Insufficient,
        unsigned_varint::decode::Error::Overflow => VarintError::Overflow,
        _ => VarintError::NotMinimal,
    }
}

/// Calls `unsigned_varint::encode::usize` on a fresh buffer of
/// `unsigned_varint::encode::usize_buffer`.
///
/// Trusted: the bytes handed back are the varint of `number`, as `varint` defines it.
#[verifier::external_body]
fn encode_usize(number: usize) -> (bytes: Vec<u8>)
    ensures
        bytes@ == varint(number as nat),
{
    let mut buffer = unsigned_varint::encode::usize_buffer();
    unsigned_varint::encode::usize(number, &mut buffer).to_vec()
}

/// Calls `unsigned_varint::decode::usize`.
///
/// Trusted: the outcome is the one that `decoded` gives for the same bytes. On success
/// the slice handed back is what follows the varint; on failure the error is the one
/// that `decoded` names.
#[verifier::external_body]
fn decode_usize(bytes: &[u8]) -> (r: Result<(usize, &[u8]), unsigned_varint::decode::Error>)
    ensures
        match decoded(bytes@) {
            Ok((value, used)) => r matches Ok((n, rest)) && n as nat == value && rest@
                == bytes@.skip(used as int),
            Err(e) => r matches Err(err) && error_kind(err) == e,
        },
{
    unsigned_varint::decode::usize(bytes)
}

/// Encodes `number` as a varint.
pub fn encode_varint(number: usize) -> (bytes: Vec<u8>)
    ensures
        bytes@ == varint(number as nat),
        1 <= bytes@.len() <= max_len(),
{
    proof {
        lemma_varint_shape(number as nat);
        lemma_varint_len(number as nat);
    }
    encode_usize(number)
}

/// Decodes the varint at the start of `bytes`. Gives the number and how many bytes
/// the varint took.
pub fn decode_varint(bytes: &[u8]) -> (r: Result<(usize, usize), VarintError>)
    ensures
        match decoded(bytes@) {
            Ok((value, used)) => r == Ok::<(usize, usize), VarintError>(
                (value as usize, used as usize),
            ) && value <= usize::MAX && 1 <= used <= bytes@.len() && used <= max_len(),
            Err(e) => r == Err::<(usize, usize), VarintError>(e),
        },
{
    match decode_usize(bytes) {
        Ok((value, rest)) => {
            assert(rest@.len() == bytes@.len() - (continued(bytes@) + 1));
            Ok((value, bytes.len() - rest.len()))
        },
        Err(e) => Err(
            match e {
                unsigned_varint::decode::Error::Insufficient => VarintError::Insufficient,
                unsigned_varint::decode::Error::Overflow => VarintError::Overflow,
                _ => VarintError::NotMinimal,
            },
        ),
    }
}

/// 128 to the power of `k`.
pub open spec fn pow128(k: nat) -> nat
    decreases k,
{
    if k == 0 {
        1
    } else {
        0x80 * pow128((k - 1) as nat)
    }
}

/// The shape of a varint: at least one byte, the top bit set on every byte but the
/// last, no zero byte at the end of a longer one, and the groups give the number back.
pub proof fn lemma_varint_shape(n: nat)
    ensures
        varint(n).len() >= 1,
        continued(varint(n)) == varint(n).len() - 1,
        varint(n).last() < 0x80,
        varint(n).len() > 1 ==> varint(n).last() != 0,
        groups(varint(n)) == n,
    decreases n,
{
    let v = varint(n);
    if n < 0x80 {
        assert(v.skip(1) =~= Seq::<u8>::empty());
        assert(groups(v.skip(1)) == 0);
    } else {
        let tail = varint(n / 0x80);
        lemma_varint_shape(n / 0x80);
        assert(v.skip(1) =~= tail);
        assert(v[0] == ((n % 0x80) + 0x80) as u8);
        assert(v[0] >= 0x80);
        assert(v[0] % 0x80 == n % 0x80);
        assert(v.last() == tail.last());
    }
}

/// A number below 128 to the power of `k` has a varint of at most `k` bytes.
pub proof fn lemma_varint_len_pow(n: nat, k: nat)
    requires
        k >= 1,
        n < pow128(k),
    ensures
        varint(n).len() <= k,
    decreases k,
{
    if n >= 0x80 {
        if k == 1 {
            assert(pow128(1) == 0x80 * pow128(0));
        } else {
            lemma_varint_len_pow(n / 0x80, (k - 1) as nat);
        }
    }
}

/// The varint of a `usize` takes at most `max_len()` bytes.
pub proof fn lemma_varint_len(n: nat)
    requires
        n <= usize::MAX,
    ensures
        varint(n).len() <= max_len(),
{
    reveal_with_fuel(pow128, 11);
    if usize::MAX > 0xffff_ffff {
        assert(pow128(10) == 0x80 * 0x80 * 0x80 * 0x80 * 0x80 * 0x80 * 0x80 * 0x80 * 0x80 * 0x80);
        lemma_varint_len_pow(n, 10);
    } else {
        assert(pow128(5) == 0x80 * 0x80 * 0x80 * 0x80 * 0x80);
        lemma_varint_len_pow(n, 5);
    }
}

/// Bytes put behind a run of bytes that all have their top bit set but the last do not
/// change where the run ends.
pub proof fn lemma_continued_append(head: Seq<u8>, rest: Seq<u8>)
    requires
        continued(head) < head.len(),
    ensures
        continued(head + rest) == continued(head),
    decreases head.len(),
{
    let whole = head + rest;
    assert(whole[0] == head[0]);
    if head[0] >= 0x80 {
        assert(whole.skip(1) =~= head.skip(1) + rest);
        lemma_continued_append(head.skip(1), rest);
    }
}

/// Decoding undoes encoding, whatever follows the varint.
pub proof fn lemma_decode_encode(n: nat, rest: Seq<u8>)
    requires
        n <= usize::MAX,
    ensures
        decoded(varint(n) + rest) == Ok::<(nat, nat), VarintError>((n, varint(n).len())),
{
    let v = varint(n);
    let whole = v + rest;
    lemma_varint_shape(n);
    lemma_varint_len(n);
    lemma_continued_append(v, rest);
    let k = continued(whole);
    assert(k == v.len() - 1);
    assert(whole.take(k + 1 as int) =~= v);
    assert(whole[k as int] == v.last());
    assert(n % ((usize::MAX + 1) as nat) == n) by (nonlinear_arith)
        requires
            n <= usize::MAX,
    ;
}


/// Bytes put behind others leave at least as many bytes with their top bit set at
/// the start.
pub proof fn lemma_continued_grows(head: Seq<u8>, rest: Seq<u8>)
    ensures
        continued(head + rest) >= continued(head),
        continued(head) <= head.len(),
    decreases head.len(),
{
    let whole = head + rest;
    if head.len() > 0 && head[0] >= 0x80 {
        assert(whole[0] == head[0]);
        assert(whole.skip(1) =~= head.skip(1) + rest);
        lemma_continued_grows(head.skip(1), rest);
    }
}

/// Once the bytes read so far say more than that they are too few, more bytes change
/// nothing: the varint that was found stays, and so does the fault that was found.
pub proof fn lemma_decoded_final(bytes: Seq<u8>, rest: Seq<u8>)
    requires
        decoded(bytes) != Err::<(nat, nat), VarintError>(VarintError::Insufficient),
    ensures
        decoded(bytes + rest) == decoded(bytes),
{
    let whole = bytes + rest;
    let k = continued(bytes);
    lemma_continued_grows(bytes, rest);
    if k < bytes.len() {
        lemma_continued_append(bytes, rest);
        assert(whole[k as int] == bytes[k as int]);
        if k < max_len() {
            assert(whole.take(k + 1 as int) =~= bytes.take(k + 1 as int));
        }
    }
}

} // verus!
