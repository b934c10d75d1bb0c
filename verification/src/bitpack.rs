//! Bit-packing of the cost table: the 3-bit cost of the j-th odd index is
//! stored little-endian within bytes, starting at bit 3j of the stream, with
//! fields straddling byte boundaries where necessary.

use vstd::prelude::*;

verus! {

/// The 3-bit field at position `j` of a packed byte stream: the three bits
/// starting at stream bit 3j, little-endian within bytes.  When the field
/// starts at bit 6 or 7 of its byte it continues into the next byte; a
/// missing next byte contributes zero bits.
pub open spec fn cost_field(data: Seq<u8>, j: int) -> u8 {
    let bo = 3 * j / 8;
    let sh = (3 * j % 8) as u8;
    if sh <= 5 {
        (data[bo] >> sh) & 7
    } else if bo + 1 < data.len() {
        ((data[bo] >> sh) | (data[bo + 1] << ((8 - sh) as u8))) & 7
    } else {
        (data[bo] >> sh) & 7
    }
}

/// Pack the entries at odd indices of `sparse_vec` into consecutive 3-bit
/// fields, returning the packed bytes and the number of fields.  Field j
/// holds the low three bits of entry 2j+1.
pub fn pack_sparse_vector(sparse_vec: &Vec<u8>) -> (r: (Vec<u8>, usize))
    requires
        sparse_vec@.len() <= 0x2000_0000,
    ensures
        r.1 == sparse_vec@.len() / 2,
        r.0@.len() == (3 * r.1 + 7) / 8,
        forall|j: int| 0 <= j < r.1 ==> cost_field(r.0@, j) == sparse_vec@[2 * j + 1] & 7,
        // the final partial byte is zero-padded in its high bits
        3 * r.1 % 8 != 0 ==> r.0@[3 * r.1 / 8] >> ((3 * r.1 % 8) as u8) == 0,
{
    let count = sparse_vec.len() / 2;
    let packed_len = (3 * count + 7) / 8;
    let mut packed: Vec<u8> = Vec::new();
    let mut i: usize = 0;
    while i < packed_len
        invariant
            i <= packed_len,
            packed@.len() == i,
            forall|b: int| 0 <= b < i ==> packed@[b] == 0,
        decreases packed_len - i,
    {
        packed.push(0);
        i = i + 1;
    }
    let mut j: usize = 0;
    while j < count
        invariant
            j <= count,
            count == sparse_vec@.len() / 2,
            count <= 0x1000_0000,
            packed_len == (3 * count + 7) / 8,
            packed@.len() == packed_len,
            forall|jj: int| 0 <= jj < j ==> cost_field(packed@, jj) == sparse_vec@[2 * jj + 1] & 7,
            // every stream bit at or past 3j is still clear
            3 * j as int % 8 != 0 ==> 3 * j as int / 8 < packed_len && packed@[3 * j as int / 8]
                >> ((3 * j as int % 8) as u8) == 0,
            forall|b: int| 3 * j as int / 8 < b < packed_len ==> packed@[b] == 0,
            3 * j as int % 8 == 0 ==> (forall|b: int|
                3 * j as int / 8 <= b < packed_len ==> packed@[b] == 0),
        decreases count - j,
    {
        let ghost p0 = packed@;
        let raw = sparse_vec[2 * j + 1];
        let val = raw & 0b111;
        let bit_offset = 3 * j;
        let byte_offset = bit_offset / 8;
        let sh = (bit_offset % 8) as u8;
        proof {
            assert(3 * (j as int) < 3 * (count as int)) by (nonlinear_arith)
                requires
                    j < count,
            ;
            assert(8 * (packed_len as int) >= 3 * (count as int));
            assert(byte_offset < packed_len);
        }
        let w0 = packed[byte_offset];
        proof {
            if sh == 0 {
                assert(w0 == 0);
                assert(w0 >> sh == 0) by (bit_vector)
                    requires
                        w0 == 0,
                        sh == 0,
                ;
            }
        }
        packed[byte_offset] = w0 | (val << sh);
        let ghost mut w1_saved: u8 = 0;
        if sh > 5 {
            proof {
                // the field runs into the next byte, which exists because the
                // stream holds 3 * count bits
                assert(8 * (byte_offset as int) + sh + 3 <= 8 * (packed_len as int));
            }
            let w1 = packed[byte_offset + 1];
            proof {
                assert(w1 == 0);
                w1_saved = w1;
            }
            packed[byte_offset + 1] = w1 | (val >> (8 - sh));
        }
        proof {
            let jt = j as int;
            let p1 = packed@;
            let b0 = p1[byte_offset as int];
            assert(w0 >> sh == 0);
            assert(val < 8 && val == (raw & 7)) by (bit_vector)
                requires
                    val == (raw & 0b111u8),
            ;
            // the new field reads back as `val`
            if sh <= 5 {
                assert((((w0 | (val << sh)) >> sh) & 7) == val) by (bit_vector)
                    requires
                        w0 >> sh == 0,
                        val < 8,
                        sh <= 5,
                ;
                assert(cost_field(p1, jt) == val);
            } else {
                let b1 = p1[byte_offset as int + 1];
                let rs = (8 - sh) as u8;
                assert(b1 == (w1_saved | (val >> rs)));
                assert(b1 == val >> rs) by (bit_vector)
                    requires
                        b1 == (w1_saved | (val >> rs)),
                        w1_saved == 0,
                ;
                assert(((((w0 | (val << sh)) >> sh) | ((val >> rs) << rs)) & 7) == val)
                    by (bit_vector)
                    requires
                        w0 >> sh == 0,
                        val < 8,
                        5 < sh < 8,
                        rs == 8 - sh,
                ;
                assert(cost_field(p1, jt) == val);
            }
            // earlier fields read the same bytes as before
            assert forall|jj: int| 0 <= jj < jt implies cost_field(p1, jj) == cost_field(
                p0,
                jj,
            ) by {
                let bo2 = 3 * jj / 8;
                let sh2 = (3 * jj % 8) as u8;
                vstd::arithmetic::div_mod::lemma_fundamental_div_mod(3 * jj, 8);
                vstd::arithmetic::div_mod::lemma_fundamental_div_mod(3 * jt, 8);
                assert(3 * jj + 2 < 3 * jt);
                assert(bo2 <= byte_offset as int);
                if bo2 == byte_offset as int {
                    // an earlier field inside the same byte sits strictly
                    // below the write position
                    assert(sh2 + 3 <= sh);
                    assert((((w0 | (val << sh)) >> sh2) & 7) == ((w0 >> sh2) & 7))
                        by (bit_vector)
                        requires
                            val < 8,
                            sh2 + 3 <= sh,
                            sh < 8,
                    ;
                } else if bo2 + 1 == byte_offset as int && sh2 > 5 {
                    // an earlier straddling field uses only the low bits of
                    // the written byte
                    assert(sh2 <= sh + 5);
                    let rs2 = (8 - sh2) as u8;
                    let x2 = p0[bo2];
                    assert(p1[bo2] == x2);
                    assert((((x2 >> sh2) | ((w0 | (val << sh)) << rs2)) & 7) == (((x2 >> sh2) | (
                    w0 << rs2)) & 7)) by (bit_vector)
                        requires
                            5 < sh2 < 8,
                            sh2 <= sh + 5,
                            sh < 8,
                            rs2 == 8 - sh2,
                    ;
                } else {
                    assert(p1[bo2] == p0[bo2]);
                    if sh2 > 5 && bo2 + 1 < p1.len() {
                        assert(p1[bo2 + 1] == p0[bo2 + 1]);
                    }
                }
            }
            // bits at or past the next field are still clear
            if jt + 1 <= count {
                let nbo = 3 * (jt + 1) / 8;
                let nsh = (3 * (jt + 1) % 8) as u8;
                if sh <= 4 {
                    assert(nbo == byte_offset as int && nsh == sh + 3);
                    assert((w0 | (val << sh)) >> ((sh + 3) as u8) == 0) by (bit_vector)
                        requires
                            w0 >> sh == 0,
                            val < 8,
                            sh <= 4,
                    ;
                } else if sh == 5 {
                    assert(nbo == byte_offset as int + 1 && nsh == 0);
                    assert(nbo < packed_len ==> p1[nbo] == 0);
                    let nb = p1[nbo];
                    assert(nb >> 0u8 == nb) by (bit_vector);
                } else {
                    assert(nbo == byte_offset as int + 1 && nsh == (sh - 5) as u8);
                    let rs = (8 - sh) as u8;
                    let ns = (sh - 5) as u8;
                    assert((val >> rs) >> ns == 0) by (bit_vector)
                        requires
                            val < 8,
                            5 < sh < 8,
                            rs == 8 - sh,
                            ns == sh - 5,
                    ;
                }
            }
        }
        j = j + 1;
    }
    (packed, count)
}

} // verus!
