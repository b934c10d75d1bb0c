//! The graph-table wire format: a varint entry count, then per entry a
//! varint graph count followed by records of one tag byte and one varint per
//! parameter.

use vstd::prelude::*;
use crate::errors::QueryError;
use crate::graph::{GraphType, arity, leaves, spec_tag};
use crate::varint::{
    varint_enc, vint_at, varint_decode_at, varint_encode_usize, lemma_vint_at_enc,
};

verus! {

/// The encoding of the parameters of one record, from position `i` on.
pub open spec fn enc_params_from(ps: Seq<usize>, i: int) -> Seq<u8>
    decreases ps.len() - i,
{
    if 0 <= i < ps.len() {
        varint_enc(ps[i] as nat) + enc_params_from(ps, i + 1)
    } else {
        Seq::empty()
    }
}

/// The encoding of one record: its tag byte, then its parameters.
pub open spec fn enc_graph(g: GraphType) -> Seq<u8> {
    seq![spec_tag(g)] + enc_params_from(leaves(g), 0)
}

/// The encoding of the records of one entry, from position `j` on.
pub open spec fn enc_graphs_from(gs: Seq<GraphType>, j: int) -> Seq<u8>
    decreases gs.len() - j,
{
    if 0 <= j < gs.len() {
        enc_graph(gs[j]) + enc_graphs_from(gs, j + 1)
    } else {
        Seq::empty()
    }
}

/// The encoding of one entry: its graph count, then its records.
pub open spec fn enc_entry(gs: Seq<GraphType>) -> Seq<u8> {
    varint_enc(gs.len()) + enc_graphs_from(gs, 0)
}

/// The encoding of the entries, from position `i` on.
pub open spec fn enc_entries_from(ts: Seq<Seq<GraphType>>, i: int) -> Seq<u8>
    decreases ts.len() - i,
{
    if 0 <= i < ts.len() {
        enc_entry(ts[i]) + enc_entries_from(ts, i + 1)
    } else {
        Seq::empty()
    }
}

/// The whole uncompressed stream: the entry count, then the entries.
pub open spec fn spec_serialize(ts: Seq<Seq<GraphType>>) -> Seq<u8> {
    varint_enc(ts.len()) + enc_entries_from(ts, 0)
}

/// The per-index graph lists as a sequence of sequences.
pub open spec fn lists_view(ts: Seq<Vec<GraphType>>) -> Seq<Seq<GraphType>> {
    ts.map_values(|v: Vec<GraphType>| v@)
}

/// Serialize the per-index graph lists into the varint wire format.
pub fn serialize_graph_types(types: &Vec<Vec<GraphType>>) -> (r: Vec<u8>)
    ensures
        r@ == spec_serialize(lists_view(types@)),
{
    let ghost ts = lists_view(types@);
    let mut buf: Vec<u8> = Vec::new();
    let mut count_buf = varint_encode_usize(types.len());
    buf.append(&mut count_buf);
    proof {
        assert(ts.len() == types@.len());
        assert(buf@ + enc_entries_from(ts, 0) =~= spec_serialize(ts));
    }
    let mut i: usize = 0;
    while i < types.len()
        invariant
            i <= types@.len(),
            ts == lists_view(types@),
            ts.len() == types@.len(),
            buf@ + enc_entries_from(ts, i as int) == spec_serialize(ts),
        decreases types@.len() - i,
    {
        let ghost buf0 = buf@;
        let ghost gs = ts[i as int];
        let entry = &types[i];
        let mut len_buf = varint_encode_usize(entry.len());
        buf.append(&mut len_buf);
        proof {
            assert(gs == types@[i as int]@);
            assert(enc_entries_from(ts, i as int) == enc_entry(gs) + enc_entries_from(
                ts,
                i as int + 1,
            ));
            assert(buf@ + (enc_graphs_from(gs, 0) + enc_entries_from(ts, i as int + 1)) =~= buf0
                + enc_entries_from(ts, i as int));
        }
        let mut j: usize = 0;
        while j < entry.len()
            invariant
                j <= entry@.len(),
                gs == entry@,
                ts.len() == types@.len(),
                i < types@.len(),
                buf@ + (enc_graphs_from(gs, j as int) + enc_entries_from(ts, i as int + 1))
                    == spec_serialize(ts),
            decreases entry@.len() - j,
        {
            let ghost bufg = buf@;
            let g = entry[j];
            buf.push(g.tag());
            let params = g.params();
            proof {
                assert(enc_graphs_from(gs, j as int) == enc_graph(g) + enc_graphs_from(
                    gs,
                    j as int + 1,
                ));
                assert(bufg.push(spec_tag(g)) =~= bufg + seq![spec_tag(g)]);
                assert(buf@ + (enc_params_from(leaves(g), 0) + (enc_graphs_from(gs, j as int + 1)
                    + enc_entries_from(ts, i as int + 1))) =~= bufg + (enc_graphs_from(
                    gs,
                    j as int,
                ) + enc_entries_from(ts, i as int + 1)));
            }
            let mut p: usize = 0;
            while p < params.len()
                invariant
                    p <= params@.len(),
                    params@ == leaves(g),
                    ts.len() == types@.len(),
                    i < types@.len(),
                    buf@ + (enc_params_from(leaves(g), p as int) + (enc_graphs_from(
                        gs,
                        j as int + 1,
                    ) + enc_entries_from(ts, i as int + 1))) == spec_serialize(ts),
                decreases params@.len() - p,
            {
                let ghost bufp = buf@;
                let mut pb = varint_encode_usize(params[p]);
                buf.append(&mut pb);
                proof {
                    assert(enc_params_from(leaves(g), p as int) == varint_enc(
                        leaves(g)[p as int] as nat,
                    ) + enc_params_from(leaves(g), p as int + 1));
                    assert(buf@ + (enc_params_from(leaves(g), p as int + 1) + (enc_graphs_from(
                        gs,
                        j as int + 1,
                    ) + enc_entries_from(ts, i as int + 1))) =~= bufp + (enc_params_from(
                        leaves(g),
                        p as int,
                    ) + (enc_graphs_from(gs, j as int + 1) + enc_entries_from(
                        ts,
                        i as int + 1,
                    ))));
                }
                p = p + 1;
            }
            j = j + 1;
        }
        proof {
            assert(enc_graphs_from(gs, j as int) =~= Seq::<u8>::empty());
            assert(buf@ + enc_entries_from(ts, i as int + 1) =~= buf@ + (enc_graphs_from(
                gs,
                j as int,
            ) + enc_entries_from(ts, i as int + 1)));
        }
        i = i + 1;
    }
    proof {
        assert(enc_entries_from(ts, i as int) =~= Seq::<u8>::empty());
        assert(buf@ =~= buf@ + enc_entries_from(ts, i as int));
    }
    buf
}

/// Build a record from its tag and parameter list.
pub open spec fn spec_make_graph(tag: u8, ps: Seq<usize>) -> GraphType {
    if tag == 0 {
        GraphType::Adder(ps[0], ps[1])
    } else if tag == 1 {
        GraphType::Subtractor(ps[0], ps[1])
    } else if tag == 2 {
        GraphType::Cascade(ps[0], ps[1])
    } else if tag == 3 {
        GraphType::Leapfrog4_1(ps[0], ps[1], ps[2], ps[3])
    } else if tag == 4 {
        GraphType::Leapfrog4_2(ps[0], ps[1], ps[2], ps[3])
    } else if tag == 5 {
        GraphType::Leapfrog4_3(ps[0], ps[1], ps[2], ps[3])
    } else if tag == 6 {
        GraphType::Leapfrog4_4(ps[0], ps[1], ps[2], ps[3])
    } else if tag == 7 {
        GraphType::Leapfrog5_1(ps[0], ps[1], ps[2], ps[3], ps[4])
    } else if tag == 8 {
        GraphType::Leapfrog5_2(ps[0], ps[1], ps[2], ps[3], ps[4])
    } else if tag == 9 {
        GraphType::Leapfrog5_3(ps[0], ps[1], ps[2], ps[3], ps[4])
    } else if tag == 10 {
        GraphType::Leapfrog5_4(ps[0], ps[1], ps[2], ps[3], ps[4])
    } else if tag == 11 {
        GraphType::Leapfrog7_1(ps[0], ps[1], ps[2], ps[3], ps[4], ps[5], ps[6])
    } else if tag == 12 {
        GraphType::Leapfrog7_2(ps[0], ps[1], ps[2], ps[3], ps[4], ps[5], ps[6])
    } else if tag == 13 {
        GraphType::Leapfrog7_3(ps[0], ps[1], ps[2], ps[3], ps[4], ps[5], ps[6])
    } else if tag == 14 {
        GraphType::Leapfrog7_4(ps[0], ps[1], ps[2], ps[3], ps[4], ps[5], ps[6])
    } else if tag == 15 {
        GraphType::Leapfrog7_5(ps[0], ps[1], ps[2], ps[3], ps[4], ps[5], ps[6])
    } else if tag == 16 {
        GraphType::Leapfrog7_6(ps[0], ps[1], ps[2], ps[3], ps[4], ps[5], ps[6])
    } else if tag == 17 {
        GraphType::Leapfrog7_7(ps[0], ps[1], ps[2], ps[3], ps[4], ps[5], ps[6])
    } else {
        GraphType::Leapfrog7_8(ps[0], ps[1], ps[2], ps[3], ps[4], ps[5], ps[6])
    }
}

/// Read `k` varint parameters from the head of `s`.
pub open spec fn dec_params(s: Seq<u8>, k: nat) -> Option<(Seq<usize>, int)>
    decreases k,
{
    if k == 0 {
        Some((Seq::empty(), 0))
    } else {
        match vint_at(s) {
            None => None,
            Some((v, c)) => match dec_params(s.skip(c), (k - 1) as nat) {
                None => None,
                Some((ps, c2)) => Some((seq![v as usize] + ps, c + c2)),
            },
        }
    }
}

/// Read one record from the head of `s`: a known tag byte, then as many
/// parameters as the tag's arity.
pub open spec fn dec_record(s: Seq<u8>) -> Option<(GraphType, int)> {
    if s.len() == 0 {
        None
    } else if s[0] > 18 {
        None
    } else {
        match dec_params(s.skip(1), arity(s[0])) {
            None => None,
            Some((ps, c)) => Some((spec_make_graph(s[0], ps), 1 + c)),
        }
    }
}

/// Read `k` records from the head of `s`.
pub open spec fn dec_records(s: Seq<u8>, k: nat) -> Option<(Seq<GraphType>, int)>
    decreases k,
{
    if k == 0 {
        Some((Seq::empty(), 0))
    } else {
        match dec_record(s) {
            None => None,
            Some((g, c)) => match dec_records(s.skip(c), (k - 1) as nat) {
                None => None,
                Some((gs, c2)) => Some((seq![g] + gs, c + c2)),
            },
        }
    }
}

/// Read one entry from the head of `s`: its graph count, then its records.
pub open spec fn dec_entry(s: Seq<u8>) -> Option<(Seq<GraphType>, int)> {
    match vint_at(s) {
        None => None,
        Some((len, c)) => match dec_records(s.skip(c), len) {
            None => None,
            Some((gs, c2)) => Some((gs, c + c2)),
        },
    }
}

/// Read `k` entries from the head of `s`.
pub open spec fn dec_entries(s: Seq<u8>, k: nat) -> Option<(Seq<Seq<GraphType>>, int)>
    decreases k,
{
    if k == 0 {
        Some((Seq::empty(), 0))
    } else {
        match dec_entry(s) {
            None => None,
            Some((gs, c)) => match dec_entries(s.skip(c), (k - 1) as nat) {
                None => None,
                Some((es, c2)) => Some((seq![gs] + es, c + c2)),
            },
        }
    }
}

/// Decode the whole stream: the entry count, then that many entries.
/// Trailing bytes after the last entry are ignored.
pub open spec fn spec_deserialize(s: Seq<u8>) -> Option<Seq<Seq<GraphType>>> {
    match vint_at(s) {
        None => None,
        Some((count, c)) => match dec_entries(s.skip(c), count) {
            None => None,
            Some((es, _)) => Some(es),
        },
    }
}

/// The arity of a known tag, executable.
fn arity_of(tag: u8) -> (r: usize)
    requires
        tag <= 18,
    ensures
        r as nat == arity(tag),
{
    if tag <= 2 {
        2
    } else if tag <= 6 {
        4
    } else if tag <= 10 {
        5
    } else {
        7
    }
}

/// Build a record from its tag and decoded parameters.
fn make_graph(tag: u8, ps: &Vec<usize>) -> (g: GraphType)
    requires
        tag <= 18,
        ps@.len() == arity(tag),
    ensures
        g == spec_make_graph(tag, ps@),
{
    if tag == 0 {
        GraphType::Adder(ps[0], ps[1])
    } else if tag == 1 {
        GraphType::Subtractor(ps[0], ps[1])
    } else if tag == 2 {
        GraphType::Cascade(ps[0], ps[1])
    } else if tag == 3 {
        GraphType::Leapfrog4_1(ps[0], ps[1], ps[2], ps[3])
    } else if tag == 4 {
        GraphType::Leapfrog4_2(ps[0], ps[1], ps[2], ps[3])
    } else if tag == 5 {
        GraphType::Leapfrog4_3(ps[0], ps[1], ps[2], ps[3])
    } else if tag == 6 {
        GraphType::Leapfrog4_4(ps[0], ps[1], ps[2], ps[3])
    } else if tag == 7 {
        GraphType::Leapfrog5_1(ps[0], ps[1], ps[2], ps[3], ps[4])
    } else if tag == 8 {
        GraphType::Leapfrog5_2(ps[0], ps[1], ps[2], ps[3], ps[4])
    } else if tag == 9 {
        GraphType::Leapfrog5_3(ps[0], ps[1], ps[2], ps[3], ps[4])
    } else if tag == 10 {
        GraphType::Leapfrog5_4(ps[0], ps[1], ps[2], ps[3], ps[4])
    } else if tag == 11 {
        GraphType::Leapfrog7_1(ps[0], ps[1], ps[2], ps[3], ps[4], ps[5], ps[6])
    } else if tag == 12 {
        GraphType::Leapfrog7_2(ps[0], ps[1], ps[2], ps[3], ps[4], ps[5], ps[6])
    } else if tag == 13 {
        GraphType::Leapfrog7_3(ps[0], ps[1], ps[2], ps[3], ps[4], ps[5], ps[6])
    } else if tag == 14 {
        GraphType::Leapfrog7_4(ps[0], ps[1], ps[2], ps[3], ps[4], ps[5], ps[6])
    } else if tag == 15 {
        GraphType::Leapfrog7_5(ps[0], ps[1], ps[2], ps[3], ps[4], ps[5], ps[6])
    } else if tag == 16 {
        GraphType::Leapfrog7_6(ps[0], ps[1], ps[2], ps[3], ps[4], ps[5], ps[6])
    } else if tag == 17 {
        GraphType::Leapfrog7_7(ps[0], ps[1], ps[2], ps[3], ps[4], ps[5], ps[6])
    } else {
        GraphType::Leapfrog7_8(ps[0], ps[1], ps[2], ps[3], ps[4], ps[5], ps[6])
    }
}

/// A successful parameter read yields exactly `k` values, consuming a
/// nonnegative number of bytes.
proof fn lemma_dec_params_len(s: Seq<u8>, k: nat)
    ensures
        dec_params(s, k) matches Some((ps, c)) ==> ps.len() == k,
    decreases k,
{
    if k > 0 {
        match vint_at(s) {
            None => {},
            Some((v, c)) => {
                lemma_dec_params_len(s.skip(c), (k - 1) as nat);
            },
        }
    }
}

/// Skipping twice is skipping once by the sum.
proof fn lemma_skip_skip(s: Seq<u8>, a: int, b: int)
    requires
        0 <= a,
        0 <= b,
        a + b <= s.len(),
    ensures
        s.skip(a).skip(b) == s.skip(a + b),
{
    assert(s.skip(a).skip(b) =~= s.skip(a + b));
}

/// Read `n` varint parameters starting at `start`.
fn read_params(data: &[u8], start: usize, n: usize) -> (r: Result<(Vec<usize>, usize), QueryError>)
    requires
        usize::MAX == u64::MAX,
        start <= data@.len(),
    ensures
        match r {
            Ok((ps, newpos)) => {
                &&& start <= newpos <= data@.len()
                &&& dec_params(data@.skip(start as int), n as nat) == Some::<(Seq<usize>, int)>(
                    (ps@, newpos - start),
                )
            },
            Err(e) => {
                &&& e == QueryError::DataCorruptionError
                &&& dec_params(data@.skip(start as int), n as nat) is None
            },
        },
{
    let mut ps: Vec<usize> = Vec::new();
    let mut pos = start;
    let mut k: usize = 0;
    while k < n
        invariant
            usize::MAX == u64::MAX,
            start <= pos <= data@.len(),
            k <= n,
            match dec_params(data@.skip(pos as int), (n - k) as nat) {
                None => dec_params(data@.skip(start as int), n as nat) is None,
                Some((rest_ps, c)) => dec_params(data@.skip(start as int), n as nat)
                    == Some::<(Seq<usize>, int)>((ps@ + rest_ps, pos - start + c)),
            },
        decreases n - k,
    {
        let ghost s_cur = data@.skip(pos as int);
        match varint_decode_at(data, pos) {
            Ok((v, rem)) => {
                let newpos = data.len() - rem;
                proof {
                    let c = s_cur.len() - rem;
                    assert(vint_at(s_cur) == Some((v as nat, c)));
                    assert(newpos - pos == c);
                    lemma_skip_skip(data@, pos as int, c);
                    let ghost ps0 = ps@;
                    match dec_params(data@.skip(newpos as int), (n - k - 1) as nat) {
                        None => {},
                        Some((rest_ps, c2)) => {
                            assert(ps0 + (seq![v] + rest_ps) =~= ps0.push(v) + rest_ps);
                        },
                    }
                }
                ps.push(v);
                pos = newpos;
            },
            Err(_) => {
                return Err(QueryError::DataCorruptionError);
            },
        }
        k = k + 1;
    }
    proof {
        assert(dec_params(data@.skip(pos as int), 0) == Some::<(Seq<usize>, int)>(
            (Seq::empty(), 0),
        ));
        assert(ps@ + Seq::<usize>::empty() =~= ps@);
    }
    Ok((ps, pos))
}

/// Read one record starting at `start`.
fn read_record(data: &[u8], start: usize) -> (r: Result<(GraphType, usize), QueryError>)
    requires
        usize::MAX == u64::MAX,
        start <= data@.len(),
    ensures
        match r {
            Ok((g, newpos)) => {
                &&& start < newpos <= data@.len()
                &&& dec_record(data@.skip(start as int)) == Some::<(GraphType, int)>(
                    (g, newpos - start),
                )
            },
            Err(e) => {
                &&& e == QueryError::DataCorruptionError
                &&& dec_record(data@.skip(start as int)) is None
            },
        },
{
    if start >= data.len() {
        return Err(QueryError::DataCorruptionError);
    }
    let tag = data[start];
    proof {
        assert(data@.skip(start as int)[0] == data@[start as int]);
    }
    if tag > 18 {
        return Err(QueryError::DataCorruptionError);
    }
    let n = arity_of(tag);
    proof {
        lemma_skip_skip(data@, start as int, 1);
    }
    match read_params(data, start + 1, n) {
        Ok((ps, newpos)) => {
            proof {
                lemma_dec_params_len(data@.skip(start as int + 1), n as nat);
            }
            let g = make_graph(tag, &ps);
            Ok((g, newpos))
        },
        Err(e) => Err(e),
    }
}

/// Read one entry (graph count, then records) starting at `start`.
#[verifier::rlimit(60)]
fn read_entry(data: &[u8], start: usize) -> (r: Result<(Vec<GraphType>, usize), QueryError>)
    requires
        usize::MAX == u64::MAX,
        start <= data@.len(),
    ensures
        match r {
            Ok((gs, newpos)) => {
                &&& start <= newpos <= data@.len()
                &&& dec_entry(data@.skip(start as int)) == Some::<(Seq<GraphType>, int)>(
                    (gs@, newpos - start),
                )
            },
            Err(e) => {
                &&& e == QueryError::DataCorruptionError
                &&& dec_entry(data@.skip(start as int)) is None
            },
        },
{
    let ghost s0 = data@.skip(start as int);
    let header = match varint_decode_at(data, start) {
        Ok((v, rem)) => {
            proof {
                assert(vint_at(s0) == Some((v as nat, s0.len() - rem)));
            }
            (v, data.len() - rem)
        },
        Err(_) => {
            return Err(QueryError::DataCorruptionError);
        },
    };
    let vec_len: usize = header.0;
    let mut pos: usize = header.1;
    let ghost pos1 = pos as int;
    proof {
        lemma_skip_skip(data@, start as int, pos1 - start);
    }
    let mut gs: Vec<GraphType> = Vec::new();
    let mut j: usize = 0;
    while j < vec_len
        invariant
            usize::MAX == u64::MAX,
            start <= pos1 <= pos <= data@.len(),
            j <= vec_len,
            match dec_records(data@.skip(pos as int), (vec_len - j) as nat) {
                None => dec_entry(data@.skip(start as int)) is None,
                Some((rest_gs, c)) => dec_entry(data@.skip(start as int)) == Some::<
                    (Seq<GraphType>, int),
                >((gs@ + rest_gs, pos - start + c)),
            },
        decreases vec_len - j,
    {
        match read_record(data, pos) {
            Ok((g, newpos)) => {
                proof {
                    let c = newpos - pos;
                    lemma_skip_skip(data@, pos as int, c);
                    let ghost gs0 = gs@;
                    match dec_records(data@.skip(newpos as int), (vec_len - j - 1) as nat) {
                        None => {},
                        Some((rest_gs, c2)) => {
                            assert(gs0 + (seq![g] + rest_gs) =~= gs0.push(g) + rest_gs);
                        },
                    }
                }
                gs.push(g);
                pos = newpos;
            },
            Err(_) => {
                return Err(QueryError::DataCorruptionError);
            },
        }
        j = j + 1;
    }
    proof {
        assert(dec_records(data@.skip(pos as int), 0) == Some::<(Seq<GraphType>, int)>(
            (Seq::empty(), 0),
        ));
        assert(gs@ + Seq::<GraphType>::empty() =~= gs@);
    }
    Ok((gs, pos))
}

/// Decode a whole varint stream of graph records into per-index lists.
#[verifier::rlimit(60)]
pub fn deserialize_graph_types(data: &[u8]) -> (r: Result<Vec<Vec<GraphType>>, QueryError>)
    requires
        usize::MAX == u64::MAX,
    ensures
        match r {
            Ok(ts) => spec_deserialize(data@) == Some(lists_view(ts@)),
            Err(e) => {
                &&& e == QueryError::DataCorruptionError
                &&& spec_deserialize(data@) is None
            },
        },
{
    proof {
        assert(data@.skip(0) =~= data@);
    }
    let header = match varint_decode_at(data, 0) {
        Ok((v, rem)) => {
            proof {
                assert(vint_at(data@) == Some((v as nat, data@.len() - rem)));
            }
            (v, data.len() - rem)
        },
        Err(_) => {
            return Err(QueryError::DataCorruptionError);
        },
    };
    let count: usize = header.0;
    let mut pos: usize = header.1;
    let ghost pos1 = pos as int;
    proof {
        lemma_skip_skip(data@, 0, pos1);
    }
    let mut result: Vec<Vec<GraphType>> = Vec::new();
    let mut i: usize = 0;
    while i < count
        invariant
            usize::MAX == u64::MAX,
            0 <= pos1 <= pos <= data@.len(),
            i <= count,
            result@.len() == i,
            match dec_entries(data@.skip(pos as int), (count - i) as nat) {
                None => spec_deserialize(data@) is None,
                Some((rest_es, c)) => spec_deserialize(data@) == Some(
                    lists_view(result@) + rest_es,
                ),
            },
        decreases count - i,
    {
        match read_entry(data, pos) {
            Ok((gs, newpos)) => {
                proof {
                    let c = newpos - pos;
                    lemma_skip_skip(data@, pos as int, c);
                    let ghost r0 = result@;
                    match dec_entries(data@.skip(newpos as int), (count - i - 1) as nat) {
                        None => {},
                        Some((rest_es, c2)) => {
                            assert(lists_view(r0) + (seq![gs@] + rest_es) =~= lists_view(
                                r0.push(gs),
                            ) + rest_es);
                        },
                    }
                }
                result.push(gs);
                pos = newpos;
            },
            Err(_) => {
                return Err(QueryError::DataCorruptionError);
            },
        }
        i = i + 1;
    }
    proof {
        assert(dec_entries(data@.skip(pos as int), 0) == Some::<(Seq<Seq<GraphType>>, int)>(
            (Seq::empty(), 0),
        ));
        assert(lists_view(result@) + Seq::<Seq<GraphType>>::empty() =~= lists_view(result@));
    }
    Ok(result)
}

/// A record rebuilt from its own tag and leaves is itself.
proof fn lemma_make_graph_id(g: GraphType)
    ensures
        spec_make_graph(spec_tag(g), leaves(g)) == g,
{
}

/// Decoding parameters recovers what encoding wrote, for any trailing bytes.
proof fn lemma_dec_params_enc(ps: Seq<usize>, i: int, rest: Seq<u8>)
    requires
        usize::MAX == u64::MAX,
        0 <= i <= ps.len(),
    ensures
        dec_params(enc_params_from(ps, i) + rest, (ps.len() - i) as nat) == Some::<
            (Seq<usize>, int),
        >((ps.skip(i), enc_params_from(ps, i).len() as int)),
    decreases ps.len() - i,
{
    if i == ps.len() {
        assert(enc_params_from(ps, i) + rest =~= rest);
        assert(ps.skip(i) =~= Seq::<usize>::empty());
    } else {
        let enc_head = varint_enc(ps[i] as nat);
        let enc_tail = enc_params_from(ps, i + 1);
        let s = enc_params_from(ps, i) + rest;
        assert(s =~= enc_head + (enc_tail + rest));
        lemma_vint_at_enc(ps[i] as nat, enc_tail + rest);
        assert(s.skip(enc_head.len() as int) =~= enc_tail + rest);
        lemma_dec_params_enc(ps, i + 1, rest);
        assert(seq![ps[i]] + ps.skip(i + 1) =~= ps.skip(i));
        assert((ps[i] as nat) as usize == ps[i]);
    }
}

/// Decoding one record recovers what encoding wrote, for any trailing bytes.
proof fn lemma_dec_record_enc(g: GraphType, rest: Seq<u8>)
    requires
        usize::MAX == u64::MAX,
    ensures
        dec_record(enc_graph(g) + rest) == Some::<(GraphType, int)>(
            (g, enc_graph(g).len() as int),
        ),
{
    let s = enc_graph(g) + rest;
    crate::graph::lemma_leaves_arity(g);
    assert(s[0] == spec_tag(g));
    assert(s.skip(1) =~= enc_params_from(leaves(g), 0) + rest);
    lemma_dec_params_enc(leaves(g), 0, rest);
    assert(leaves(g).skip(0) =~= leaves(g));
    lemma_make_graph_id(g);
}

/// Decoding a record list recovers what encoding wrote.
proof fn lemma_dec_records_enc(gs: Seq<GraphType>, j: int, rest: Seq<u8>)
    requires
        usize::MAX == u64::MAX,
        0 <= j <= gs.len(),
    ensures
        dec_records(enc_graphs_from(gs, j) + rest, (gs.len() - j) as nat) == Some::<
            (Seq<GraphType>, int),
        >((gs.skip(j), enc_graphs_from(gs, j).len() as int)),
    decreases gs.len() - j,
{
    if j == gs.len() {
        assert(enc_graphs_from(gs, j) + rest =~= rest);
        assert(gs.skip(j) =~= Seq::<GraphType>::empty());
    } else {
        let enc_head = enc_graph(gs[j]);
        let enc_tail = enc_graphs_from(gs, j + 1);
        let s = enc_graphs_from(gs, j) + rest;
        assert(s =~= enc_head + (enc_tail + rest));
        lemma_dec_record_enc(gs[j], enc_tail + rest);
        assert(s.skip(enc_head.len() as int) =~= enc_tail + rest);
        lemma_dec_records_enc(gs, j + 1, rest);
        assert(seq![gs[j]] + gs.skip(j + 1) =~= gs.skip(j));
    }
}

/// Decoding one entry recovers what encoding wrote.
proof fn lemma_dec_entry_enc(gs: Seq<GraphType>, rest: Seq<u8>)
    requires
        usize::MAX == u64::MAX,
        gs.len() <= u64::MAX,
    ensures
        dec_entry(enc_entry(gs) + rest) == Some::<(Seq<GraphType>, int)>(
            (gs, enc_entry(gs).len() as int),
        ),
{
    let s = enc_entry(gs) + rest;
    let enc_len = varint_enc(gs.len());
    assert(s =~= enc_len + (enc_graphs_from(gs, 0) + rest));
    lemma_vint_at_enc(gs.len(), enc_graphs_from(gs, 0) + rest);
    assert(s.skip(enc_len.len() as int) =~= enc_graphs_from(gs, 0) + rest);
    lemma_dec_records_enc(gs, 0, rest);
    assert(gs.skip(0) =~= gs);
}

/// Decoding an entry list recovers what encoding wrote.
proof fn lemma_dec_entries_enc(ts: Seq<Seq<GraphType>>, i: int, rest: Seq<u8>)
    requires
        usize::MAX == u64::MAX,
        0 <= i <= ts.len(),
        forall|k: int| 0 <= k < ts.len() ==> #[trigger] ts[k].len() <= u64::MAX,
    ensures
        dec_entries(enc_entries_from(ts, i) + rest, (ts.len() - i) as nat) == Some::<
            (Seq<Seq<GraphType>>, int),
        >((ts.skip(i), enc_entries_from(ts, i).len() as int)),
    decreases ts.len() - i,
{
    if i == ts.len() {
        assert(enc_entries_from(ts, i) + rest =~= rest);
        assert(ts.skip(i) =~= Seq::<Seq<GraphType>>::empty());
    } else {
        let enc_head = enc_entry(ts[i]);
        let enc_tail = enc_entries_from(ts, i + 1);
        let s = enc_entries_from(ts, i) + rest;
        assert(s =~= enc_head + (enc_tail + rest));
        lemma_dec_entry_enc(ts[i], enc_tail + rest);
        assert(s.skip(enc_head.len() as int) =~= enc_tail + rest);
        lemma_dec_entries_enc(ts, i + 1, rest);
        assert(seq![ts[i]] + ts.skip(i + 1) =~= ts.skip(i));
    }
}

/// Law: serializing a graph table and decoding the resulting stream
/// reproduces the table, structurally, entry for entry and record for
/// record.
pub proof fn lemma_serialize_deserialize(ts: Seq<Seq<GraphType>>)
    requires
        usize::MAX == u64::MAX,
        ts.len() <= u64::MAX,
        forall|k: int| 0 <= k < ts.len() ==> #[trigger] ts[k].len() <= u64::MAX,
    ensures
        spec_deserialize(spec_serialize(ts)) == Some(ts),
{
    let s = spec_serialize(ts);
    let enc_count = varint_enc(ts.len());
    lemma_vint_at_enc(ts.len(), enc_entries_from(ts, 0));
    assert(s.skip(enc_count.len() as int) =~= enc_entries_from(ts, 0));
    assert(enc_entries_from(ts, 0) =~= enc_entries_from(ts, 0) + Seq::<u8>::empty());
    lemma_dec_entries_enc(ts, 0, Seq::empty());
    assert(ts.skip(0) =~= ts);
}

} // verus!
