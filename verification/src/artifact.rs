//! The two on-disk artifacts: the bit-packed cost table with its 8-byte
//! little-endian field count, and the LZ4-compressed varint stream of graph
//! records.

use vstd::prelude::*;
use crate::codec::{
    deserialize_graph_types, lists_view, serialize_graph_types, spec_deserialize, spec_serialize,
};
use crate::errors::QueryError;
use crate::graph::GraphType;

verus! {

/// What lz4_flex's size-prepended block compression produces for a given
/// input; a pure function of the input bytes.
pub uninterp spec fn lz4_compressed(s: Seq<u8>) -> Seq<u8>;

/// What lz4_flex's size-prepended block decompression recovers from a given
/// input: the original bytes, or nothing when the frame is invalid; a pure
/// function of the input bytes.
pub uninterp spec fn lz4_decompressed(s: Seq<u8>) -> Option<Seq<u8>>;

/// Relies on lz4_flex::compress_prepend_size: deterministic block
/// compression with the input length prepended as a little-endian u32, which
/// lz4_flex::decompress_size_prepended inverts (the crate documents the
/// round trip).  The length bound keeps the u32 size prefix exact.
#[verifier::external_body]
fn lz4_compress(data: &[u8]) -> (r: Vec<u8>)
    requires
        data@.len() <= u32::MAX,
    ensures
        r@ == lz4_compressed(data@),
        lz4_decompressed(r@) == Some(data@),
{
    lz4_flex::compress_prepend_size(data)
}

/// Relies on lz4_flex::decompress_size_prepended: deterministic block
/// decompression of a size-prepended frame, failing exactly on an invalid
/// frame.
#[verifier::external_body]
fn lz4_decompress(data: &[u8]) -> (r: Result<Vec<u8>, QueryError>)
    ensures
        match r {
            Ok(v) => lz4_decompressed(data@) == Some(v@),
            Err(e) => e == QueryError::DataCorruptionError && lz4_decompressed(data@) is None,
        },
{
    match lz4_flex::decompress_size_prepended(data) {
        Ok(v) => Ok(v),
        Err(_) => Err(QueryError::DataCorruptionError),
    }
}

/// Serialize the graph table and compress it into the on-disk artifact.
/// An uncompressed stream past the u32 size prefix is rejected.
pub fn graph_artifact_bytes(types: &Vec<Vec<GraphType>>) -> (r: Result<Vec<u8>, QueryError>)
    ensures
        ({
            let stream = spec_serialize(lists_view(types@));
            match r {
                Ok(v) => {
                    &&& stream.len() <= u32::MAX
                    &&& v@ == lz4_compressed(stream)
                    &&& lz4_decompressed(v@) == Some(stream)
                },
                Err(e) => e == QueryError::ValueError && stream.len() > u32::MAX,
            }
        }),
{
    let serialized = serialize_graph_types(types);
    if serialized.len() > 0xFFFF_FFFFusize {
        return Err(QueryError::ValueError);
    }
    Ok(lz4_compress(serialized.as_slice()))
}

/// Decompress and decode the graph artifact into per-index graph lists.
pub fn get_graph_types_data(data: &[u8]) -> (r: Result<Vec<Vec<GraphType>>, QueryError>)
    requires
        usize::MAX == u64::MAX,
    ensures
        match r {
            Ok(ts) => lz4_decompressed(data@) matches Some(s) && spec_deserialize(s) == Some(
                lists_view(ts@),
            ),
            Err(e) => {
                &&& e == QueryError::DataCorruptionError
                &&& match lz4_decompressed(data@) {
                    Some(s) => spec_deserialize(s) is None,
                    None => true,
                }
            },
        },
{
    let decompressed = lz4_decompress(data)?;
    deserialize_graph_types(decompressed.as_slice())
}

/// The packed cost artifact: the field count as a little-endian u64, then
/// the packed bytes.  Byte i of the prefix holds bits 8i..8i+7 of the count.
pub fn cost_artifact_bytes(packed: &Vec<u8>, count: u64) -> (r: Vec<u8>)
    ensures
        r@.len() == 8 + packed@.len(),
        r@.skip(8) == packed@,
        forall|i: int|
            0 <= i < 8 ==> r@[i] == (count as nat / vstd::arithmetic::power2::pow2(
                (8 * i) as nat,
            )) as u8,
{
    let mut r: Vec<u8> = Vec::new();
    let mut c = count;
    let mut k: usize = 0;
    proof {
        vstd::arithmetic::power2::lemma2_to64();
        vstd::arithmetic::div_mod::lemma_div_basics(count as int);
    }
    while k < 8
        invariant
            k <= 8,
            r@.len() == k,
            c as nat == count as nat / vstd::arithmetic::power2::pow2((8 * k) as nat),
            forall|i: int|
                0 <= i < k ==> r@[i] == (count as nat / vstd::arithmetic::power2::pow2(
                    (8 * i) as nat,
                )) as u8,
        decreases 8 - k,
    {
        proof {
            let e = (8 * k) as nat;
            vstd::arithmetic::power2::lemma_pow2_adds(e, 8);
            vstd::arithmetic::power2::lemma2_to64();
            vstd::arithmetic::power2::lemma_pow2_pos(e);
            vstd::arithmetic::div_mod::lemma_div_denominator(
                count as int,
                vstd::arithmetic::power2::pow2(e) as int,
                0x100,
            );
        }
        r.push(c as u8);
        c = c / 0x100;
        k = k + 1;
    }
    let mut p_idx: usize = 0;
    while p_idx < packed.len()
        invariant
            p_idx <= packed@.len(),
            r@.len() == 8 + p_idx,
            r@.skip(8) =~= packed@.take(p_idx as int),
            forall|i: int|
                0 <= i < 8 ==> r@[i] == (count as nat / vstd::arithmetic::power2::pow2(
                    (8 * i) as nat,
                )) as u8,
        decreases packed@.len() - p_idx,
    {
        r.push(packed[p_idx]);
        proof {
            assert(r@.skip(8) =~= packed@.take(p_idx + 1));
        }
        p_idx = p_idx + 1;
    }
    proof {
        assert(r@.skip(8) =~= packed@);
    }
    r
}

} // verus!
