//! Binary encoding of stored values.
//!
//! Scalars and byte strings are stored in borsh's format: integers as
//! little-endian fixed-width bytes, vectors as a little-endian `u32` element
//! count followed by the elements. The calls into borsh stand behind trusted
//! wrappers whose contracts state that format; everything else here is
//! verified against those contracts.

use vstd::prelude::*;

verus! {

/// The 8 little-endian bytes of `x`.
pub open spec fn u64_le(x: u64) -> Seq<u8> {
    seq![
        x as u8,
        (x >> 8) as u8,
        (x >> 16) as u8,
        (x >> 24) as u8,
        (x >> 32) as u8,
        (x >> 40) as u8,
        (x >> 48) as u8,
        (x >> 56) as u8,
    ]
}

/// The 4 little-endian bytes of `x`.
pub open spec fn u32_le(x: u32) -> Seq<u8> {
    seq![x as u8, (x >> 8) as u8, (x >> 16) as u8, (x >> 24) as u8]
}

/// The value of 8 little-endian bytes.
pub open spec fn u64_of_le(s: Seq<u8>) -> u64 {
    (s[0] as nat + s[1] as nat * 0x100 + s[2] as nat * 0x10000 + s[3] as nat * 0x1000000 + s[4] as nat
        * 0x100000000 + s[5] as nat * 0x10000000000 + s[6] as nat * 0x1000000000000 + s[7] as nat
        * 0x100000000000000) as u64
}

/// The value of 4 little-endian bytes.
pub open spec fn u32_of_le(s: Seq<u8>) -> u32 {
    (s[0] as nat + s[1] as nat * 0x100 + s[2] as nat * 0x10000 + s[3] as nat * 0x1000000) as u32
}

/// A stored `u64`: exactly its 8 little-endian bytes.
pub open spec fn valid_u64_enc(s: Seq<u8>) -> bool {
    s.len() == 8
}

/// A stored byte string: a 4-byte length followed by exactly that many bytes.
pub open spec fn valid_bytes_enc(s: Seq<u8>) -> bool {
    s.len() >= 4 && s.len() == 4 + u32_of_le(s.take(4))
}

/// The byte string carried by a valid byte-string encoding.
pub open spec fn bytes_of_enc(s: Seq<u8>) -> Seq<u8> {
    s.skip(4)
}

/// The encoding of a byte string.
pub open spec fn bytes_enc(v: Seq<u8>) -> Seq<u8> {
    u32_le(v.len() as u32) + v
}

/// A stored `u64` list: a 4-byte count followed by exactly that many
/// 8-byte little-endian values.
pub open spec fn valid_u64s_enc(s: Seq<u8>) -> bool {
    s.len() >= 4 && s.len() == 4 + 8 * u32_of_le(s.take(4))
}

/// The values carried by a valid `u64` list encoding.
pub open spec fn u64s_of_enc(s: Seq<u8>) -> Seq<u64> {
    Seq::new(u32_of_le(s.take(4)) as nat, |i: int| u64_of_le(s.subrange(4 + 8 * i, 12 + 8 * i)))
}

/// The concatenated little-endian bytes of a list of `u64` values.
pub open spec fn u64s_payload(v: Seq<u64>) -> Seq<u8>
    decreases v.len(),
{
    if v.len() == 0 {
        Seq::empty()
    } else {
        u64s_payload(v.drop_last()) + u64_le(v.last())
    }
}

/// The encoding of a list of `u64` values.
pub open spec fn u64s_enc(v: Seq<u64>) -> Seq<u8> {
    u32_le(v.len() as u32) + u64s_payload(v)
}

/// Relies on `borsh::to_vec::<u64>`: a `u64` serializes to its 8
/// little-endian bytes, and serialization into a vector cannot fail.
#[verifier::external_body]
pub(crate) fn encode_u64(x: u64) -> (r: Vec<u8>)
    ensures
        r@ == u64_le(x),
{
    borsh::to_vec(&x).unwrap()
}

/// Relies on `borsh::from_slice::<u64>`: it reads exactly 8 little-endian
/// bytes and fails on any other input length.
#[verifier::external_body]
pub(crate) fn decode_u64(b: &[u8]) -> (r: Option<u64>)
    ensures
        r == (if valid_u64_enc(b@) {
            Some(u64_of_le(b@))
        } else {
            None::<u64>
        }),
{
    borsh::from_slice::<u64>(b).ok()
}

/// Relies on `borsh::to_vec::<&[u8]>`: a byte slice serializes to its length
/// as 4 little-endian bytes followed by its bytes; the length fits `u32` by
/// the precondition, so serialization into a vector cannot fail.
#[verifier::external_body]
pub(crate) fn encode_bytes(v: &[u8]) -> (r: Vec<u8>)
    requires
        v@.len() <= u32::MAX,
    ensures
        r@ == bytes_enc(v@),
{
    borsh::to_vec(&v).unwrap()
}

/// Relies on `borsh::from_slice::<Vec<u8>>`: it reads a 4-byte little-endian
/// length, then exactly that many bytes, and fails if the input is shorter or
/// longer.
#[verifier::external_body]
pub(crate) fn decode_bytes(b: &[u8]) -> (r: Option<Vec<u8>>)
    ensures
        match r {
            Some(v) => valid_bytes_enc(b@) && v@ == bytes_of_enc(b@),
            None => !valid_bytes_enc(b@),
        },
{
    borsh::from_slice::<Vec<u8>>(b).ok()
}

/// Relies on `borsh::to_vec::<Vec<u64>>`: a vector serializes to its length
/// as 4 little-endian bytes followed by its elements, each as 8 little-endian
/// bytes; the length fits `u32` by the precondition, so serialization into a
/// vector cannot fail.
#[verifier::external_body]
pub(crate) fn encode_u64_list(v: &Vec<u64>) -> (r: Vec<u8>)
    requires
        v@.len() <= u32::MAX,
    ensures
        r@ == u64s_enc(v@),
{
    borsh::to_vec(v).unwrap()
}

/// Relies on `borsh::from_slice::<Vec<u64>>`: it reads a 4-byte little-endian
/// count, then exactly 8 bytes per element, and fails on any other input
/// length.
#[verifier::external_body]
pub(crate) fn decode_u64_list(b: &[u8]) -> (r: Option<Vec<u64>>)
    ensures
        match r {
            Some(v) => valid_u64s_enc(b@) && v@ == u64s_of_enc(b@),
            None => !valid_u64s_enc(b@),
        },
{
    borsh::from_slice::<Vec<u64>>(b).ok()
}

/// Reading back the little-endian bytes of a `u64` yields the value itself.
pub proof fn lemma_u64_le_roundtrip(x: u64)
    ensures
        valid_u64_enc(u64_le(x)),
        u64_of_le(u64_le(x)) == x,
{
    let s = u64_le(x);
    assert(s[0] == x as u8 && s[1] == (x >> 8) as u8 && s[2] == (x >> 16) as u8 && s[3] == (x
        >> 24) as u8 && s[4] == (x >> 32) as u8 && s[5] == (x >> 40) as u8 && s[6] == (x >> 48) as u8
        && s[7] == (x >> 56) as u8);
    assert((x as u8) as nat + ((x >> 8) as u8) as nat * 0x100 + ((x >> 16) as u8) as nat * 0x10000 + (
    (x >> 24) as u8) as nat * 0x1000000 + ((x >> 32) as u8) as nat * 0x100000000 + ((x
        >> 40) as u8) as nat * 0x10000000000 + ((x >> 48) as u8) as nat * 0x1000000000000 + ((x
        >> 56) as u8) as nat * 0x100000000000000 == x as nat) by (bit_vector);
}

/// Reading back the little-endian bytes of a `u32` yields the value itself.
pub proof fn lemma_u32_le_roundtrip(x: u32)
    ensures
        u32_of_le(u32_le(x)) == x,
{
    let s = u32_le(x);
    assert(s[0] == x as u8 && s[1] == (x >> 8) as u8 && s[2] == (x >> 16) as u8 && s[3] == (x
        >> 24) as u8);
    assert((x as u8) as nat + ((x >> 8) as u8) as nat * 0x100 + ((x >> 16) as u8) as nat * 0x10000 + (
    (x >> 24) as u8) as nat * 0x1000000 == x as nat) by (bit_vector);
}

/// Reading back an encoded byte string yields the byte string itself.
pub proof fn lemma_bytes_enc_roundtrip(v: Seq<u8>)
    requires
        v.len() <= u32::MAX,
    ensures
        valid_bytes_enc(bytes_enc(v)),
        bytes_of_enc(bytes_enc(v)) == v,
{
    let e = bytes_enc(v);
    lemma_u32_le_roundtrip(v.len() as u32);
    assert(e.take(4) =~= u32_le(v.len() as u32));
    assert(e.skip(4) =~= v);
}

/// The payload of a `u64` list is 8 bytes per element, each element at its
/// own offset.
pub proof fn lemma_u64s_payload(v: Seq<u64>)
    ensures
        u64s_payload(v).len() == 8 * v.len(),
        forall|i: int|
            0 <= i < v.len() ==> #[trigger] u64s_payload(v).subrange(8 * i, 8 * i + 8) == u64_le(
                v[i],
            ),
    decreases v.len(),
{
    if v.len() > 0 {
        lemma_u64s_payload(v.drop_last());
        let p = u64s_payload(v);
        let q = u64s_payload(v.drop_last());
        assert(p == q + u64_le(v.last()));
        assert forall|i: int| 0 <= i < v.len() implies #[trigger] p.subrange(8 * i, 8 * i + 8)
            == u64_le(v[i]) by {
            if i < v.len() - 1 {
                assert(p.subrange(8 * i, 8 * i + 8) =~= q.subrange(8 * i, 8 * i + 8));
                assert(q.subrange(8 * i, 8 * i + 8) == u64_le(v.drop_last()[i]));
            } else {
                assert(p.subrange(8 * i, 8 * i + 8) =~= u64_le(v.last()));
            }
        }
    }
}

/// Reading back an encoded `u64` list yields the values themselves.
pub proof fn lemma_u64s_enc_roundtrip(v: Seq<u64>)
    requires
        v.len() <= u32::MAX,
    ensures
        valid_u64s_enc(u64s_enc(v)),
        u64s_of_enc(u64s_enc(v)) == v,
{
    let e = u64s_enc(v);
    lemma_u32_le_roundtrip(v.len() as u32);
    lemma_u64s_payload(v);
    assert(e.take(4) =~= u32_le(v.len() as u32));
    assert(u32_of_le(e.take(4)) == v.len());
    assert forall|i: int| 0 <= i < v.len() implies #[trigger] u64s_of_enc(e)[i] == v[i] by {
        assert(e.subrange(4 + 8 * i, 12 + 8 * i) =~= u64s_payload(v).subrange(8 * i, 8 * i + 8));
        lemma_u64_le_roundtrip(v[i]);
    }
    assert(u64s_of_enc(e) =~= v);
}

} // verus!
