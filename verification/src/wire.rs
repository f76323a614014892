//! Big-endian integers on the wire, read with `nom`.

use vstd::prelude::*;

verus! {

/// `nom::Err`, the error half of every `nom` parser result. Its contents are
/// never inspected here.
#[verifier::external_type_specification]
#[verifier::external_body]
#[verifier::reject_recursive_types(E)]
pub struct ExNomErr<E>(nom::Err<E>);

/// `nom::error::VerboseError`, the error type the parsers are instantiated
/// with. Its contents are never inspected here.
#[verifier::external_type_specification]
#[verifier::external_body]
#[verifier::reject_recursive_types(I)]
pub struct ExVerboseError<I>(nom::error::VerboseError<I>);

/// The 16-bit unsigned integer spelled in network byte order by the two
/// bytes of `s` that start at `at`.
pub open spec fn be16(s: Seq<u8>, at: int) -> u16
    recommends
        0 <= at,
        at + 2 <= s.len(),
{
    (s[at] as int * 0x100 + s[at + 1] as int) as u16
}

/// The 32-bit unsigned integer spelled in network byte order by the four
/// bytes of `s` that start at `at`.
pub open spec fn be32(s: Seq<u8>, at: int) -> u32
    recommends
        0 <= at,
        at + 4 <= s.len(),
{
    (s[at] as int * 0x100_0000 + s[at + 1] as int * 0x1_0000 + s[at + 2] as int * 0x100 + s[at
        + 3] as int) as u32
}

/// The 64-bit unsigned integer spelled in network byte order by the eight
/// bytes of `s` that start at `at`.
pub open spec fn be64(s: Seq<u8>, at: int) -> u64
    recommends
        0 <= at,
        at + 8 <= s.len(),
{
    (be32(s, at) as int * 0x1_0000_0000 + be32(s, at + 4) as int) as u64
}

/// Calls `nom::number::complete::be_u16` on a byte slice.
///
/// Trusted: with at least two bytes of input the parser succeeds, yields the
/// big-endian value of the first two bytes and hands back the input that
/// follows them; with fewer it fails.
#[verifier::external_body]
pub(crate) fn be_u16<'a>(input: &'a [u8]) -> (r: Result<
    (&'a [u8], u16),
    nom::Err<nom::error::VerboseError<&'a [u8]>>,
>)
    ensures
        r is Ok <==> input@.len() >= 2,
        r matches Ok((rest, v)) ==> rest@ == input@.skip(2) && v == be16(input@, 0),
{
    nom::number::complete::be_u16::<&[u8], nom::error::VerboseError<&[u8]>>(input)
}

/// Calls `nom::number::complete::be_u32` on a byte slice.
///
/// Trusted: with at least four bytes of input the parser succeeds, yields the
/// big-endian value of the first four bytes and hands back the input that
/// follows them; with fewer it fails.
#[verifier::external_body]
pub(crate) fn be_u32<'a>(input: &'a [u8]) -> (r: Result<
    (&'a [u8], u32),
    nom::Err<nom::error::VerboseError<&'a [u8]>>,
>)
    ensures
        r is Ok <==> input@.len() >= 4,
        r matches Ok((rest, v)) ==> rest@ == input@.skip(4) && v == be32(input@, 0),
{
    nom::number::complete::be_u32::<&[u8], nom::error::VerboseError<&[u8]>>(input)
}

/// Calls `nom::Slice::slice` with the range `from..to` on a byte slice.
///
/// Trusted: for a range inside the input the result is that part of the
/// input. A range that leaves the input would panic and is ruled out.
#[verifier::external_body]
pub(crate) fn slice<'a>(input: &'a [u8], from: usize, to: usize) -> (r: &'a [u8])
    requires
        from <= to <= input@.len(),
    ensures
        r@ == input@.subrange(from as int, to as int),
{
    nom::Slice::slice(&input, from..to)
}

/// The two bytes that spell `v` in network byte order.
pub open spec fn be16_bytes(v: u16) -> Seq<u8> {
    seq![(v / 0x100) as u8, (v % 0x100) as u8]
}

/// The four bytes that spell `v` in network byte order.
pub open spec fn be32_bytes(v: u32) -> Seq<u8> {
    seq![
        (v / 0x100_0000) as u8,
        (v / 0x1_0000 % 0x100) as u8,
        (v / 0x100 % 0x100) as u8,
        (v % 0x100) as u8,
    ]
}

/// Reading back the bytes that spell a 16-bit integer gives the integer.
pub proof fn lemma_be16_round_trip(v: u16, before: Seq<u8>, after: Seq<u8>)
    ensures
        be16(before + be16_bytes(v) + after, before.len() as int) == v,
{
}

/// Reading back the bytes that spell a 32-bit integer gives the integer.
pub proof fn lemma_be32_round_trip(v: u32, before: Seq<u8>, after: Seq<u8>)
    ensures
        be32(before + be32_bytes(v) + after, before.len() as int) == v,
{
}

/// Appends to `out` the two bytes that spell `v` in network byte order.
pub(crate) fn push_be_u16(out: &mut Vec<u8>, v: u16)
    ensures
        final(out)@ == old(out)@ + be16_bytes(v),
{
    out.push((v / 0x100) as u8);
    out.push((v % 0x100) as u8);
    assert(out@ =~= old(out)@ + be16_bytes(v));
}

/// Appends to `out` the four bytes that spell `v` in network byte order.
pub(crate) fn push_be_u32(out: &mut Vec<u8>, v: u32)
    ensures
        final(out)@ == old(out)@ + be32_bytes(v),
{
    out.push((v / 0x100_0000) as u8);
    out.push((v / 0x1_0000 % 0x100) as u8);
    out.push((v / 0x100 % 0x100) as u8);
    out.push((v % 0x100) as u8);
    assert(out@ =~= old(out)@ + be32_bytes(v));
}

} // verus!
