//! Big-endian integers, the byte order of message headers and stream initialization.

use vstd::prelude::*;

use byteorder::{BigEndian, ReadBytesExt, WriteBytesExt};

verus! {

/// The integer whose big-endian representation is the eight bytes of `s` from position `at` on.
pub open spec fn be_u64(s: Seq<u8>, at: int) -> u64 {
    (s[at] as u64) << 56 | (s[at + 1] as u64) << 48 | (s[at + 2] as u64) << 40
        | (s[at + 3] as u64) << 32 | (s[at + 4] as u64) << 24 | (s[at + 5] as u64) << 16
        | (s[at + 6] as u64) << 8 | (s[at + 7] as u64)
}

/// The big-endian representation of `v`.
pub open spec fn be_bytes(v: u64) -> Seq<u8> {
    seq![
        (v >> 56) as u8,
        (v >> 48) as u8,
        (v >> 40) as u8,
        (v >> 32) as u8,
        (v >> 24) as u8,
        (v >> 16) as u8,
        (v >> 8) as u8,
        v as u8,
    ]
}

/// Reading where an integer was written gives the integer back, whatever surrounds it.
pub proof fn law_read_after_write(s: Seq<u8>, at: int, v: u64)
    requires
        0 <= at,
        at + 8 <= s.len(),
        s.subrange(at, at + 8) == be_bytes(v),
    ensures
        be_u64(s, at) == v,
{
    let w = s.subrange(at, at + 8);
    assert(w[0] == s[at] && w[1] == s[at + 1] && w[2] == s[at + 2] && w[3] == s[at + 3]);
    assert(w[4] == s[at + 4] && w[5] == s[at + 5] && w[6] == s[at + 6] && w[7] == s[at + 7]);
    assert(((v >> 56) as u8 as u64) << 56 | ((v >> 48) as u8 as u64) << 48
        | ((v >> 40) as u8 as u64) << 40 | ((v >> 32) as u8 as u64) << 32
        | ((v >> 24) as u8 as u64) << 24 | ((v >> 16) as u8 as u64) << 16
        | ((v >> 8) as u8 as u64) << 8 | (v as u8 as u64) == v) by (bit_vector);
}

/// Writing an integer that was read gives back the eight bytes that it was read from.
pub proof fn law_write_after_read(s: Seq<u8>, at: int)
    requires
        0 <= at,
        at + 8 <= s.len(),
    ensures
        be_bytes(be_u64(s, at)) == s.subrange(at, at + 8),
{
    let (a, b, c, d) = (s[at], s[at + 1], s[at + 2], s[at + 3]);
    let (e, f, g, h) = (s[at + 4], s[at + 5], s[at + 6], s[at + 7]);
    let v = be_u64(s, at);
    assert((v >> 56) as u8 == a && (v >> 48) as u8 == b && (v >> 40) as u8 == c && (v >> 32) as u8
        == d && (v >> 24) as u8 == e && (v >> 16) as u8 == f && (v >> 8) as u8 == g && v as u8 == h)
        by (bit_vector)
        requires
            v == (a as u64) << 56 | (b as u64) << 48 | (c as u64) << 40 | (d as u64) << 32
                | (e as u64) << 24 | (f as u64) << 16 | (g as u64) << 8 | (h as u64),
    ;
    assert(be_bytes(v) =~= s.subrange(at, at + 8));
}

/// The first of the eight bytes counts most, and each of them counts 256 times what the next one does.
pub proof fn law_first_byte_counts_most(s: Seq<u8>, at: int)
    ensures
        be_u64(s, at) == 0x100_0000_0000_0000 * s[at] + 0x1_0000_0000_0000 * s[at + 1]
            + 0x100_0000_0000 * s[at + 2] + 0x1_0000_0000 * s[at + 3] + 0x100_0000 * s[at + 4]
            + 0x1_0000 * s[at + 5] + 0x100 * s[at + 6] + s[at + 7],
{
    let (a, b, c, d) = (s[at], s[at + 1], s[at + 2], s[at + 3]);
    let (e, f, g, h) = (s[at + 4], s[at + 5], s[at + 6], s[at + 7]);
    assert(((a as u64) << 56 | (b as u64) << 48 | (c as u64) << 40 | (d as u64) << 32 | (e as u64)
        << 24 | (f as u64) << 16 | (g as u64) << 8 | (h as u64)) == 0x100_0000_0000_0000 * (
    a as u64) + 0x1_0000_0000_0000 * (b as u64) + 0x100_0000_0000 * (c as u64) + 0x1_0000_0000 * (
    d as u64) + 0x100_0000 * (e as u64) + 0x1_0000 * (f as u64) + 0x100 * (g as u64) + (h as u64))
        by (bit_vector);
}

/// Calls `byteorder::ReadBytesExt::read_u64` on a cursor at the front of `bytes`, which reads
/// eight bytes as a big-endian integer and fails where there are fewer.
#[verifier::external_body]
pub(crate) fn read_u64(bytes: &[u8]) -> (value: Option<u64>)
    ensures
        value == (if bytes@.len() >= 8 { Some(be_u64(bytes@, 0)) } else { None }),
{
    std::io::Cursor::new(bytes).read_u64::<BigEndian>().ok()
}

/// Calls `byteorder::ReadBytesExt::read_u64_into` on a cursor at the front of `bytes`, which
/// reads `N` consecutive big-endian integers and fails where there are too few bytes.
#[verifier::external_body]
pub(crate) fn read_u64_into<const N: usize>(bytes: &[u8]) -> (values: Option<[u64; N]>)
    ensures
        values is Some <==> bytes@.len() >= 8 * N,
        values matches Some(values) ==> forall|i: int|
            0 <= i < N ==> #[trigger] values[i] == be_u64(bytes@, 8 * i),
{
    let mut values = [0; N];
    std::io::Cursor::new(bytes).read_u64_into::<BigEndian>(&mut values).ok()?;
    Some(values)
}

/// Calls `byteorder::WriteBytesExt::write_u64` on a vector, which appends the big-endian
/// representation of `value` and, as a vector grows when it is written to, does not fail.
#[verifier::external_body]
pub(crate) fn write_u64(out: &mut Vec<u8>, value: u64)
    ensures
        final(out)@ == old(out)@ + be_bytes(value),
{
    out.write_u64::<BigEndian>(value).expect("writing to a vector")
}

} // verus!
