//! The read-only cost query over the packed artifact.

use vstd::prelude::*;
use vstd::arithmetic::power2::pow2;
use crate::artifact::{get_graph_types_data, lz4_decompressed};
use crate::bitpack::cost_field;
use crate::codec::{lists_view, spec_deserialize};
use crate::errors::QueryError;
use crate::fmt::{dec_str, usize_to_string};
use crate::graph::GraphType;
use crate::num::{findodd, odd_kernel};

verus! {

/// What the cost query returns: index 0 and indices whose odd-kernel
/// position lies past the packed table are out of range; a position whose
/// byte offset lies past the packed buffer marks a corrupt artifact;
/// otherwise the query reads the 3-bit field at the position of the odd
/// kernel.
pub open spec fn spec_adder_cost(data: Seq<u8>, count: int, idx: usize) -> Result<
    u8,
    QueryError,
> {
    let pos = odd_kernel(idx as nat) as int / 2;
    if idx == 0 {
        Err(QueryError::IndexError)
    } else if pos >= count {
        Err(QueryError::IndexError)
    } else if 3 * pos / 8 >= data.len() {
        Err(QueryError::DataCorruptionError)
    } else {
        Ok(cost_field(data, pos))
    }
}

/// Look up the 3-bit adder cost of `idx` in the packed cost table `data`
/// holding `count` fields.  Even indices reduce to their odd kernel first.
pub fn adder_cost(data: &[u8], count: usize, idx: usize) -> (r: Result<u8, QueryError>)
    requires
        count <= 0x2000_0000,
    ensures
        r == spec_adder_cost(data@, count as int, idx),
{
    if idx == 0 {
        return Err(QueryError::IndexError);
    }
    // Right-shift even indices until odd
    let reduced = findodd(idx);
    let value_position = reduced / 2;
    if value_position >= count {
        return Err(QueryError::IndexError);
    }
    let bit_offset = value_position * 3;
    let byte_offset = bit_offset / 8;
    let bit_in_byte = (bit_offset % 8) as u8;
    if byte_offset >= data.len() {
        return Err(QueryError::DataCorruptionError);
    }
    let b0 = data[byte_offset];
    let val = (b0 >> bit_in_byte) & 0b111;
    proof {
        let pos = value_position as int;
        assert(3 * pos == bit_offset);
        assert(3 * pos / 8 == byte_offset as int);
        assert((3 * pos % 8) as u8 == bit_in_byte);
    }
    // Handle values that span two bytes
    if bit_in_byte > 5 && byte_offset + 1 < data.len() {
        let bits_from_next = 3 - (8 - bit_in_byte);
        proof {
            assert(1u8 << bits_from_next >= 1) by (bit_vector)
                requires
                    bits_from_next <= 2,
            ;
        }
        let b1 = data[byte_offset + 1];
        let hi = (b1 & ((1u8 << bits_from_next) - 1)) << (8 - bit_in_byte);
        let combined = (val | hi) & 0b111;
        proof {
            let sh = bit_in_byte;
            let rs = (8 - sh) as u8;
            let bn = (3 - (8 - sh)) as u8;
            let mask = ((1u8 << bn) - 1) as u8;
            assert((((b0 >> sh) & 7) | ((b1 & mask) << rs)) & 7 == ((b0 >> sh) | (b1 << rs))
                & 7) by (bit_vector)
                requires
                    5 < sh < 8,
                    rs == 8 - sh,
                    bn == 3 - (8 - sh),
                    mask == (1u8 << bn) - 1,
            ;
        }
        return Ok(combined);
    }
    proof {
        let sh = bit_in_byte;
        if sh <= 5 {
            assert(((b0 >> sh) & 7) & 7 == (b0 >> sh) & 7) by (bit_vector);
        } else {
            assert(((b0 >> sh) & 7) & 7 == (b0 >> sh) & 7) by (bit_vector);
        }
    }
    Ok(val & 0b111)
}

/// What the graph query returns once the artifact has decoded to the lists
/// `ts`: index 0 and indices whose odd-kernel position lies past the table
/// are out of range; otherwise the list at the position of the odd kernel.
pub open spec fn spec_get_graph_types(ts: Seq<Seq<GraphType>>, idx: usize) -> Result<
    Seq<GraphType>,
    QueryError,
> {
    let pos = odd_kernel(idx as nat) as int / 2;
    if idx == 0 {
        Err(QueryError::IndexError)
    } else if pos >= ts.len() {
        Err(QueryError::IndexError)
    } else {
        Ok(ts[pos])
    }
}

/// Look up the realizing graphs of `idx` in the compressed graph artifact.
/// Even indices reduce to their odd kernel first; an artifact that fails to
/// decompress or decode reports corruption.
pub fn get_graph_types(data: &[u8], idx: usize) -> (r: Result<Vec<GraphType>, QueryError>)
    requires
        usize::MAX == u64::MAX,
    ensures
        ({
            match lz4_decompressed(data@) {
                None => r == Err::<Vec<GraphType>, QueryError>(QueryError::DataCorruptionError),
                Some(s) => match spec_deserialize(s) {
                    None => r == Err::<Vec<GraphType>, QueryError>(
                        QueryError::DataCorruptionError,
                    ),
                    Some(ts) => match r {
                        Ok(v) => spec_get_graph_types(ts, idx) == Ok::<Seq<GraphType>, QueryError>(
                            v@,
                        ),
                        Err(e) => spec_get_graph_types(ts, idx) == Err::<
                            Seq<GraphType>,
                            QueryError,
                        >(e),
                    },
                },
            }
        }),
{
    let all_types = get_graph_types_data(data)?;
    if idx == 0 {
        return Err(QueryError::IndexError);
    }
    // Right-shift even indices until odd; index 1 maps to position 0,
    // index 3 to position 1, and so on.
    let reduced = findodd(idx);
    let position = reduced / 2;
    if position >= all_types.len() {
        return Err(QueryError::IndexError);
    }
    let entry = &all_types[position];
    let mut out: Vec<GraphType> = Vec::new();
    let mut j: usize = 0;
    while j < entry.len()
        invariant
            j <= entry@.len(),
            out@ == entry@.take(j as int),
        decreases entry@.len() - j,
    {
        out.push(entry[j]);
        proof {
            assert(out@ =~= entry@.take(j + 1));
        }
        j = j + 1;
    }
    proof {
        assert(entry@.take(entry@.len() as int) =~= entry@);
    }
    Ok(out)
}

/// Decode the whole graph artifact into per-index lists.
pub fn get_all_graph_types(data: &[u8]) -> (r: Result<Vec<Vec<GraphType>>, QueryError>)
    requires
        usize::MAX == u64::MAX,
    ensures
        match r {
            Ok(ts) => lz4_decompressed(data@) matches Some(s) && spec_deserialize(s) == Some(
                lists_view(ts@),
            ),
            Err(e) => {
                &&& e == QueryError::DataCorruptionError
                &&& match lz4_decompressed(data@) {
                    Some(s) => spec_deserialize(s) is None,
                    None => true,
                }
            },
        },
{
    get_graph_types_data(data)
}

/// The rendered artifact summary.
pub open spec fn spec_info(count: usize, packed_len: usize, graph_len: usize) -> Seq<char> {
    "Embedded data: "@ + dec_str(2 * count as nat) + " elements, "@ + dec_str(packed_len as nat)
        + " bytes packed, graph types: "@ + dec_str(graph_len as nat) + " bytes compressed"@
}

/// A human-readable summary of the artifact sizes: the table length covered
/// by `count` packed fields, the packed byte count, and the compressed graph
/// artifact byte count.
pub fn info(count: usize, packed_len: usize, graph_len: usize) -> (r: String)
    requires
        count <= usize::MAX / 2,
    ensures
        r@ == spec_info(count, packed_len, graph_len),
{
    let mut out = "Embedded data: ".to_owned();
    let elements = usize_to_string(2 * count);
    out.append(elements.as_str());
    out.append(" elements, ");
    let packed_text = usize_to_string(packed_len);
    out.append(packed_text.as_str());
    out.append(" bytes packed, graph types: ");
    let graph_text = usize_to_string(graph_len);
    out.append(graph_text.as_str());
    out.append(" bytes compressed");
    proof {
        assert(out@ =~= spec_info(count, packed_len, graph_len));
    }
    out
}

/// Every in-range field position lies inside a packed buffer of the exact
/// length the packer produces, so on an artifact the packer wrote the cost
/// query can only succeed or report an out-of-range index, never corruption.
pub proof fn lemma_packed_in_bounds(count: int, pos: int, len: int)
    requires
        len == (3 * count + 7) / 8,
        0 <= pos < count,
    ensures
        3 * pos / 8 < len,
{
    assert(3 * pos + 3 <= 3 * count);
    assert(3 * pos / 8 < (3 * count + 7) / 8) by (nonlinear_arith)
        requires
            3 * pos + 3 <= 3 * count,
            0 <= pos,
    ;
}

/// Law: packing the cost table and reading it back through the cost query
/// reproduces the original 3-bit field.  For a buffer carrying the packed
/// fields of `costs` (as `pack_sparse_vector` ensures) and any index whose
/// odd kernel lies within the packed range, the query returns exactly the
/// low three bits of the table entry at that kernel.
pub proof fn lemma_cost_table_roundtrip(costs: Seq<u8>, packed: Seq<u8>, count: int, idx: usize)
    requires
        count == costs.len() / 2,
        packed.len() == (3 * count + 7) / 8,
        forall|j: int| 0 <= j < count ==> cost_field(packed, j) == costs[2 * j + 1] & 7,
        1 <= idx,
        odd_kernel(idx as nat) as int / 2 < count,
    ensures
        spec_adder_cost(packed, count, idx) == Ok::<u8, QueryError>(
            costs[odd_kernel(idx as nat) as int] & 7,
        ),
{
    let kernel = odd_kernel(idx as nat) as int;
    let pos = kernel / 2;
    crate::num::lemma_odd_kernel_odd(idx as nat);
    lemma_packed_in_bounds(count, pos, packed.len() as int);
    assert(2 * pos + 1 == kernel);
}

/// Law: the cost query depends on its index only through the odd kernel, so
/// doubling the index never changes the result.
pub proof fn lemma_cost_double(data: Seq<u8>, count: int, idx: usize)
    requires
        1 <= idx,
        2 * idx <= usize::MAX,
    ensures
        spec_adder_cost(data, count, (2 * idx) as usize) == spec_adder_cost(data, count, idx),
{
    crate::num::lemma_odd_kernel_double(idx as nat);
}

/// Law: every power of two reduces to odd kernel 1, so it reads the same
/// field as index 1.
pub proof fn lemma_cost_pow2(data: Seq<u8>, count: int, k: nat)
    requires
        pow2(k) <= usize::MAX,
    ensures
        spec_adder_cost(data, count, pow2(k) as usize) == spec_adder_cost(data, count, 1),
{
    crate::num::lemma_odd_kernel_pow2(k);
    vstd::arithmetic::power2::lemma_pow2_pos(k);
    assert(odd_kernel(1nat) == 1nat);
}

} // verus!
