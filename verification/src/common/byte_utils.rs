use vstd::prelude::*;

verus! {

/// The big-endian bytes of an id.
pub open spec fn id_bytes(v: u64) -> Seq<u8> {
    seq![
        (v >> 56u64) as u8,
        (v >> 48u64) as u8,
        (v >> 40u64) as u8,
        (v >> 32u64) as u8,
        (v >> 24u64) as u8,
        (v >> 16u64) as u8,
        (v >> 8u64) as u8,
        v as u8,
    ]
}

/// The id whose big-endian bytes start `b`.
pub open spec fn id_of_bytes(b: Seq<u8>) -> u64
    recommends
        b.len() >= 8,
{
    (b[0] as u64) << 56u64 | (b[1] as u64) << 48u64 | (b[2] as u64) << 40u64 | (b[3] as u64)
        << 32u64 | (b[4] as u64) << 24u64 | (b[5] as u64) << 16u64 | (b[6] as u64) << 8u64
        | (b[7] as u64)
}

/// Decoding the bytes of an id gives the id back.
pub proof fn lemma_id_bytes_roundtrip(v: u64)
    ensures
        id_bytes(v).len() == 8,
        id_of_bytes(id_bytes(v)) == v,
{
    let b = id_bytes(v);
    let (b0, b1, b2, b3, b4, b5, b6, b7) = (b[0], b[1], b[2], b[3], b[4], b[5], b[6], b[7]);
    assert(b0 == (v >> 56u64) as u8 && b1 == (v >> 48u64) as u8 && b2 == (v >> 40u64) as u8
        && b3 == (v >> 32u64) as u8 && b4 == (v >> 24u64) as u8 && b5 == (v >> 16u64) as u8
        && b6 == (v >> 8u64) as u8 && b7 == v as u8);
    assert((b0 as u64) << 56u64 | (b1 as u64) << 48u64 | (b2 as u64) << 40u64 | (b3 as u64)
        << 32u64 | (b4 as u64) << 24u64 | (b5 as u64) << 16u64 | (b6 as u64) << 8u64
        | (b7 as u64) == v) by (bit_vector)
        requires
            b0 == (v >> 56u64) as u8 && b1 == (v >> 48u64) as u8 && b2 == (v >> 40u64) as u8
                && b3 == (v >> 32u64) as u8 && b4 == (v >> 24u64) as u8 && b5 == (v >> 16u64)
                as u8 && b6 == (v >> 8u64) as u8 && b7 == v as u8,
    ;
}

/// Two ids with the same bytes are the same id.
pub proof fn lemma_id_bytes_injective(a: u64, b: u64)
    ensures
        id_bytes(a) == id_bytes(b) ==> a == b,
{
    lemma_id_bytes_roundtrip(a);
    lemma_id_bytes_roundtrip(b);
}

/// The 8 big-endian bytes of `id`.
pub fn id_to_bin(id: u64) -> (r: Vec<u8>)
    ensures
        r@ == id_bytes(id),
{
    let mut v: Vec<u8> = Vec::with_capacity(8);
    v.push((id >> 56u64) as u8);
    v.push((id >> 48u64) as u8);
    v.push((id >> 40u64) as u8);
    v.push((id >> 32u64) as u8);
    v.push((id >> 24u64) as u8);
    v.push((id >> 16u64) as u8);
    v.push((id >> 8u64) as u8);
    v.push(id as u8);
    assert(v@ =~= id_bytes(id));
    v
}

/// The id stored big-endian in the first 8 bytes of `v`.
pub fn bin_to_id(v: &[u8]) -> (r: u64)
    requires
        v@.len() >= 8,
    ensures
        r == id_of_bytes(v@),
{
    (v[0] as u64) << 56u64 | (v[1] as u64) << 48u64 | (v[2] as u64) << 40u64 | (v[3] as u64)
        << 32u64 | (v[4] as u64) << 24u64 | (v[5] as u64) << 16u64 | (v[6] as u64) << 8u64
        | (v[7] as u64)
}

/// Why bytes could not be read as an id.
#[derive(Clone, Copy, Debug, PartialEq, Eq)]
pub enum IdBytesError {
    /// Fewer than 8 bytes were given.
    TooShort,
}

/// The id stored in the first 8 bytes of `v`, or an error when `v` is
/// shorter than that.
pub fn bin_to_id_result(v: &[u8]) -> (r: Result<u64, IdBytesError>)
    ensures
        v@.len() >= 8 <==> r is Ok,
        r is Ok ==> r->Ok_0 == id_of_bytes(v@),
{
    if v.len() < 8 {
        Err(IdBytesError::TooShort)
    } else {
        Ok(bin_to_id(v))
    }
}

} // verus!
