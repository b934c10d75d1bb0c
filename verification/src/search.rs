//! The breadth-first cost-minimization search.
//!
//! Layer k enumerates integers reachable by exactly k adder operations by
//! combining frontier values of lower layers, and relaxes a dense cost table
//! indexed by odd kernel.  Every relaxation appends a realizing graph, so the
//! table invariant ties each stored graph to its index and each of its leaf
//! parameters to a strictly lower recorded cost.

use vstd::prelude::*;
use vstd::arithmetic::power2::pow2;
use crate::graph::{GraphType, dist, eval, leaves, realizes};
use crate::num::{findodd, findodd_u128, odd_kernel, lemma_odd_kernel_le, lemma_odd_kernel_odd};

verus! {

/// Cost value that marks an index not yet reached by the search; larger than
/// any cost a six-layer search records.
pub const COST_SENTINEL: u8 = 7;

/// Upper bound on every operand fed to a combiner kernel; keeps all widened
/// 128-bit intermediates (at most four factors plus sums) far from overflow.
pub const TERM_LIMIT: usize = 0x8000_0000;

/// A single leaf parameter is acceptable at `layer`: positive, with the cost
/// of its odd kernel already recorded strictly below `layer`.
pub open spec fn leaf_below(cost: Seq<u8>, v: usize, layer: u8) -> bool {
    &&& 1 <= v
    &&& odd_kernel(v as nat) < cost.len()
    &&& cost[odd_kernel(v as nat) as int] < layer
}

/// Every element of an operand list is a bounded leaf acceptable at `layer`.
pub open spec fn terms_below(cost: Seq<u8>, terms: Seq<usize>, layer: u8) -> bool {
    forall|i: int|
        0 <= i < terms.len() ==> leaf_below(cost, #[trigger] terms[i], layer) && terms[i]
            <= TERM_LIMIT
}

/// A stored graph is consistent with the table: it realizes its index, and
/// each of its leaves has a recorded cost strictly below the index's cost.
pub open spec fn graph_entry_ok(cost: Seq<u8>, g: GraphType, n: int) -> bool {
    &&& realizes(g, n as nat)
    &&& forall|k: int|
        0 <= k < leaves(g).len() ==> leaf_below(cost, #[trigger] leaves(g)[k], cost[n])
}

/// Well-formedness of the cost/graph tables while layer `layer` is running:
/// the tables have equal length, every stored graph is consistent, an index
/// with graphs has its cost recorded at or below the current layer, and every
/// reached index other than 1 carries at least one graph.
pub open spec fn table_wf(cost: Seq<u8>, graphs: Seq<Vec<GraphType>>, layer: u8) -> bool {
    &&& cost.len() == graphs.len()
    &&& forall|n: int, k: int|
        0 <= n < graphs.len() && 0 <= k < graphs[n]@.len() ==> graph_entry_ok(
            cost,
            #[trigger] graphs[n]@[k],
            n,
        )
    &&& forall|n: int|
        0 <= n < graphs.len() && graphs[n]@.len() > 0 ==> #[trigger] cost[n] <= layer
    &&& forall|n: int|
        2 <= n < cost.len() && #[trigger] cost[n] < COST_SENTINEL ==> graphs[n]@.len() > 0
    &&& forall|n: int|
        0 <= n < cost.len() && #[trigger] cost[n] < COST_SENTINEL ==> n % 2 == 1
}

/// Law: in a well-formed table, every graph stored at an index realizes that
/// index under odd-kernel reduction, and every reached index other than 1
/// carries at least one realizing graph.
pub proof fn lemma_reached_index_realized(
    cost: Seq<u8>,
    graphs: Seq<Vec<GraphType>>,
    layer: u8,
    n: int,
)
    requires
        table_wf(cost, graphs, layer),
        0 <= n < graphs.len(),
    ensures
        forall|k: int|
            0 <= k < graphs[n]@.len() ==> realizes(#[trigger] graphs[n]@[k], n as nat),
        2 <= n && cost[n] < COST_SENTINEL ==> graphs[n]@.len() > 0,
{
    assert forall|k: int|
        0 <= k < graphs[n]@.len() implies realizes(#[trigger] graphs[n]@[k], n as nat) by {
        assert(graph_entry_ok(cost, graphs[n]@[k], n));
    }
}

/// Law: every leaf parameter of a stored graph is positive and its odd
/// kernel has a recorded cost strictly below the cost of the index the graph
/// realizes, so parameters come from strictly lower frontiers.
pub proof fn lemma_leaves_strictly_cheaper(
    cost: Seq<u8>,
    graphs: Seq<Vec<GraphType>>,
    layer: u8,
    n: int,
    k: int,
    j: int,
)
    requires
        table_wf(cost, graphs, layer),
        0 <= n < graphs.len(),
        0 <= k < graphs[n]@.len(),
        0 <= j < leaves(graphs[n]@[k]).len(),
    ensures
        ({
            let v = leaves(graphs[n]@[k])[j];
            &&& 1 <= v
            &&& odd_kernel(v as nat) < cost.len()
            &&& cost[odd_kernel(v as nat) as int] < cost[n]
        }),
{
    assert(graph_entry_ok(cost, graphs[n]@[k], n));
    assert(leaf_below(cost, leaves(graphs[n]@[k])[j], cost[n]));
}

/// Well-formedness is preserved when the layer counter advances.
pub proof fn lemma_table_wf_weaken(cost: Seq<u8>, graphs: Seq<Vec<GraphType>>, l1: u8, l2: u8)
    requires
        table_wf(cost, graphs, l1),
        l1 <= l2,
    ensures
        table_wf(cost, graphs, l2),
{
}

/// Append one realizing graph to the list at `result`.
fn add_graph_type(
    adder_structures: &mut Vec<Vec<GraphType>>,
    result: usize,
    graph_type: GraphType,
)
    requires
        result < old(adder_structures)@.len(),
    ensures
        final(adder_structures)@.len() == old(adder_structures)@.len(),
        final(adder_structures)@[result as int]@ == old(adder_structures)@[result as int]@.push(
            graph_type,
        ),
        forall|n: int|
            0 <= n < old(adder_structures)@.len() && n != result ==> final(adder_structures)@[n]
                == old(adder_structures)@[n],
{
    let entry = &mut adder_structures[result];
    entry.push(graph_type);
}

/// Record cost `layer` for `result` and append the realizing graph `g`,
/// preserving the table invariant.
fn relax(
    adder_count: &mut Vec<u8>,
    adder_structures: &mut Vec<Vec<GraphType>>,
    result: usize,
    g: GraphType,
    layer: u8,
)
    requires
        table_wf(old(adder_count)@, old(adder_structures)@, layer),
        0 < layer < COST_SENTINEL,
        result < old(adder_count)@.len(),
        result % 2 == 1,
        old(adder_count)@[result as int] >= layer,
        realizes(g, result as nat),
        forall|k: int|
            0 <= k < leaves(g).len() ==> leaf_below(old(adder_count)@, #[trigger] leaves(g)[k], layer),
    ensures
        table_wf(final(adder_count)@, final(adder_structures)@, layer),
        final(adder_count)@ == old(adder_count)@.update(result as int, layer),
        final(adder_structures)@.len() == old(adder_structures)@.len(),
        final(adder_structures)@[result as int]@ == old(adder_structures)@[result as int]@.push(g),
        forall|n: int|
            0 <= n < old(adder_structures)@.len() && n != result ==> final(adder_structures)@[n]
                == old(adder_structures)@[n],
{
    let ghost c0 = adder_count@;
    let ghost s0 = adder_structures@;
    adder_count[result] = layer;
    add_graph_type(adder_structures, result, g);
    proof {
        let c1 = adder_count@;
        let s1 = adder_structures@;
        let r = result as int;
        assert(c1 == c0.update(r, layer));
        // An index with graphs had cost at most `layer`; together with the
        // relaxation guard, the cost at `result` is unchanged if it already
        // carried graphs, so no leaf of any stored graph can sit at `result`.
        assert forall|n: int, k: int|
            0 <= n < s1.len() && 0 <= k < s1[n]@.len() implies graph_entry_ok(
            c1,
            #[trigger] s1[n]@[k],
            n,
        ) by {
            if n == r && k == s0[r]@.len() {
                // the newly appended graph
                assert(s1[n]@[k] == g);
                assert forall|j: int| 0 <= j < leaves(g).len() implies leaf_below(
                    c1,
                    #[trigger] leaves(g)[j],
                    c1[n],
                ) by {
                    let v = leaves(g)[j];
                    let kv = odd_kernel(v as nat) as int;
                    assert(c0[kv] < layer);
                    assert(kv != r);
                }
            } else {
                let gg = s1[n]@[k];
                assert(gg == s0[n]@[k]);
                assert(graph_entry_ok(c0, gg, n));
                if n == r {
                    // `result` already carried graphs, so its old cost was at
                    // most `layer`, and the guard makes it exactly `layer`.
                    assert(c0[r] <= layer);
                    assert(c1[n] == c0[n]);
                }
                assert forall|j: int| 0 <= j < leaves(gg).len() implies leaf_below(
                    c1,
                    #[trigger] leaves(gg)[j],
                    c1[n],
                ) by {
                    let v = leaves(gg)[j];
                    let kv = odd_kernel(v as nat) as int;
                    assert(leaf_below(c0, v, c0[n]));
                    if kv == r {
                        assert(s0[n]@.len() > 0);
                        assert(c0[n] <= layer);
                        assert(c0[kv] < c0[n]);
                        assert(c0[r] >= layer);
                        assert(false);
                    }
                }
            }
        }
    }
}

/// The cost table `c1` refines `c0` at layer `layer`: entries are unchanged,
/// except that entries at or above the layer may have been lowered to it.
pub open spec fn cost_relaxed_to(c0: Seq<u8>, c1: Seq<u8>, layer: u8) -> bool {
    &&& c1.len() == c0.len()
    &&& forall|x: int|
        0 <= x < c0.len() ==> #[trigger] c1[x] == c0[x] || (c0[x] >= layer && c1[x] == layer)
}

/// Both combinations of one addsub operand pair have been offered to the
/// table: the odd kernels of the sum and of the positive difference are
/// recorded at or below `layer` whenever they are in range.
pub open spec fn addsub_pair_done(
    cost: Seq<u8>,
    a: usize,
    b: usize,
    layer: u8,
    max_value: usize,
) -> bool {
    &&& {
        let s = odd_kernel((a + b) as nat);
        s <= max_value ==> cost[s as int] <= layer
    }
    &&& {
        let d = odd_kernel(dist(a as int, b as int) as nat);
        d != 0 && d <= max_value ==> cost[d as int] <= layer
    }
}

/// A list of terms keeps satisfying `terms_below` after one relaxation.
proof fn lemma_terms_below_update(
    c0: Seq<u8>,
    c1: Seq<u8>,
    terms: Seq<usize>,
    layer: u8,
    result: int,
)
    requires
        terms_below(c0, terms, layer),
        0 <= result < c0.len(),
        c0[result] >= layer,
        c1 == c0.update(result, layer),
    ensures
        terms_below(c1, terms, layer),
{
    assert forall|i: int|
        0 <= i < terms.len() implies leaf_below(c1, #[trigger] terms[i], layer) && terms[i]
        <= TERM_LIMIT by {
        let kv = odd_kernel(terms[i] as nat) as int;
        assert(leaf_below(c0, terms[i], layer));
        assert(kv != result);
    }
}

/// One candidate value has been offered to the table: when its odd kernel is
/// positive and in range, its recorded cost is at or below the layer.
pub open spec fn kernel_done(cost: Seq<u8>, value: int, layer: u8, max_value: usize) -> bool {
    let m = odd_kernel(value as nat);
    1 <= m <= max_value ==> cost[m as int] <= layer
}

/// An Adder record with its parameters in canonical order (small one first).
pub open spec fn adder_canon(a: usize, b: usize) -> GraphType {
    if a <= b {
        GraphType::Adder(a, b)
    } else {
        GraphType::Adder(b, a)
    }
}

/// A Subtractor record with its parameters in canonical order (large one
/// first).
pub open spec fn sub_canon(a: usize, b: usize) -> GraphType {
    if a >= b {
        GraphType::Subtractor(a, b)
    } else {
        GraphType::Subtractor(b, a)
    }
}

/// A Cascade record with its parameters in canonical order (small one
/// first).
pub open spec fn cascade_canon(a: usize, b: usize) -> GraphType {
    if a <= b {
        GraphType::Cascade(a, b)
    } else {
        GraphType::Cascade(b, a)
    }
}

/// A record the addsub kernel may append at index `n`: a canonically ordered
/// Adder or Subtractor over one pair of the two lists, whose sum or positive
/// difference has odd kernel `n`, within range.
pub open spec fn addsub_record_ok(
    terms: Seq<usize>,
    shifted: Seq<usize>,
    max_value: usize,
    g: GraphType,
    n: int,
) -> bool {
    exists|i: int, j: int|
        0 <= i < terms.len() && 0 <= j < shifted.len() && {
            let a = #[trigger] terms[i];
            let b = #[trigger] shifted[j];
            &&& 1 <= n <= max_value
            &&& {
                ||| (g == adder_canon(a, b) && n == odd_kernel((a + b) as nat))
                ||| (g == sub_canon(a, b) && n == odd_kernel(dist(a as int, b as int) as nat))
            }
        }
}

/// A record the cascade kernel may append at index `n`: a canonically
/// ordered Cascade over one pair of the two lists that the `same_terms`
/// diagonal rule keeps, with `n` its product, within range.
pub open spec fn cascade_record_ok(
    terms1: Seq<usize>,
    terms2: Seq<usize>,
    same_terms: bool,
    max_value: usize,
    g: GraphType,
    n: int,
) -> bool {
    exists|i: int, j: int|
        0 <= i < terms1.len() && 0 <= j < terms2.len() && {
            let a = #[trigger] terms1[i];
            let b = #[trigger] terms2[j];
            &&& !(same_terms && b < a)
            &&& 1 <= n <= max_value
            &&& g == cascade_canon(a, b)
            &&& n == a as int * b as int
        }
}

/// How the tables evolve across one kernel invocation at `layer`: costs only
/// relax, every graph list keeps its existing records in order and may gain
/// new ones at the end, every new record satisfies the kernel's record
/// predicate `p` at its index, an index whose cost changed gained a record,
/// and an index that gained a record had its cost at or above the layer on
/// entry (the relaxation guard) and holds exactly the layer on exit.
pub open spec fn table_evolution(
    c0: Seq<u8>,
    g0: Seq<Vec<GraphType>>,
    c1: Seq<u8>,
    g1: Seq<Vec<GraphType>>,
    layer: u8,
    p: spec_fn(GraphType, int) -> bool,
) -> bool {
    &&& cost_relaxed_to(c0, c1, layer)
    &&& g1.len() == g0.len()
    &&& g0.len() == c0.len()
    &&& forall|n: int| 0 <= n < g0.len() ==> g0[n]@.is_prefix_of(#[trigger] g1[n]@)
    &&& forall|n: int, k: int|
        0 <= n < g1.len() && g0[n]@.len() <= k < g1[n]@.len() ==> p(#[trigger] g1[n]@[k], n)
    &&& forall|x: int| 0 <= x < c0.len() && #[trigger] c1[x] != c0[x] ==> g1[x]@.len() > g0[x]@.len()
    &&& forall|n: int|
        #![trigger g1[n]]
        0 <= n < g0.len() && g1[n]@.len() > g0[n]@.len() ==> c0[n] >= layer && c1[n] == layer
}

/// The evolution relation holds reflexively.
pub proof fn lemma_evolution_refl(
    c: Seq<u8>,
    g: Seq<Vec<GraphType>>,
    layer: u8,
    p: spec_fn(GraphType, int) -> bool,
)
    requires
        g.len() == c.len(),
    ensures
        table_evolution(c, g, c, g, layer, p),
{
    assert forall|n: int| 0 <= n < g.len() implies g[n]@.is_prefix_of(#[trigger] g[n]@) by {
        assert(g[n]@ =~= g[n]@.take(g[n]@.len() as int));
    }
}

/// The evolution relation extends across one relaxation that appends an
/// acceptable record.
pub proof fn lemma_evolution_push(
    c0: Seq<u8>,
    g0: Seq<Vec<GraphType>>,
    c1: Seq<u8>,
    g1: Seq<Vec<GraphType>>,
    c2: Seq<u8>,
    g2: Seq<Vec<GraphType>>,
    result: int,
    gg: GraphType,
    layer: u8,
    p: spec_fn(GraphType, int) -> bool,
)
    requires
        table_evolution(c0, g0, c1, g1, layer, p),
        0 <= result < c1.len(),
        c1[result] >= layer,
        c2 == c1.update(result, layer),
        g2.len() == g1.len(),
        g2[result]@ == g1[result]@.push(gg),
        forall|n: int| 0 <= n < g1.len() && n != result ==> g2[n] == g1[n],
        p(gg, result),
    ensures
        table_evolution(c0, g0, c2, g2, layer, p),
{
    assert forall|x: int| 0 <= x < c0.len() implies #[trigger] c2[x] == c0[x] || (c0[x] >= layer
        && c2[x] == layer) by {
        assert(c1[x] == c0[x] || (c0[x] >= layer && c1[x] == layer));
    }
    assert forall|n: int| 0 <= n < g0.len() implies g0[n]@.is_prefix_of(#[trigger] g2[n]@) by {
        assert(g0[n]@.is_prefix_of(g1[n]@));
        if n == result {
            assert forall|k: int| 0 <= k < g0[n]@.len() implies g0[n]@[k] == g2[n]@[k] by {
                assert(g1[n]@[k] == g0[n]@[k]);
            }
        }
    }
    assert forall|n: int, k: int|
        0 <= n < g2.len() && g0[n]@.len() <= k < g2[n]@.len() implies p(
        #[trigger] g2[n]@[k],
        n,
    ) by {
        if n == result && k == g1[n]@.len() {
        } else {
            assert(g2[n]@[k] == g1[n]@[k]);
        }
    }
    assert forall|x: int|
        0 <= x < c0.len() && #[trigger] c2[x] != c0[x] implies g2[x]@.len() > g0[x]@.len() by {
        if c1[x] != c0[x] {
            assert(g1[x]@.len() > g0[x]@.len());
            if x == result {
                assert(g2[x]@.len() == g1[x]@.len() + 1);
            }
        } else {
            assert(x == result);
        }
    }
    assert forall|n: int|
        0 <= n < g0.len() && g2[n]@.len() > g0[n]@.len() implies #[trigger] c2[n] <= layer by {
        if n != result {
            assert(g2[n] == g1[n]);
            assert(c1[n] <= layer);
        }
    }
}

/// An offered value stays offered across further relaxations of the layer.
pub proof fn lemma_kernel_done_relax(c1: Seq<u8>, c2: Seq<u8>, value: int, layer: u8, mv: usize)
    requires
        kernel_done(c1, value, layer, mv),
        cost_relaxed_to(c1, c2, layer),
        mv < c1.len(),
    ensures
        kernel_done(c2, value, layer, mv),
{
    let m = odd_kernel(value as nat) as int;
    if 1 <= m <= mv {
        assert(c2[m] == c1[m] || (c1[m] >= layer && c2[m] == layer));
    }
}

/// An acceptable leaf stays acceptable across relaxations of the layer.
pub proof fn lemma_leaf_still_below(c1: Seq<u8>, c2: Seq<u8>, v: usize, layer: u8)
    requires
        leaf_below(c1, v, layer),
        cost_relaxed_to(c1, c2, layer),
    ensures
        leaf_below(c2, v, layer),
{
    let kv = odd_kernel(v as nat) as int;
    assert(c2[kv] == c1[kv] || (c1[kv] >= layer && c2[kv] == layer));
}

/// The evolution relation composes across successive relaxations of one
/// layer.
pub proof fn lemma_evolution_trans(
    c0: Seq<u8>,
    g0: Seq<Vec<GraphType>>,
    c1: Seq<u8>,
    g1: Seq<Vec<GraphType>>,
    c2: Seq<u8>,
    g2: Seq<Vec<GraphType>>,
    layer: u8,
    p: spec_fn(GraphType, int) -> bool,
)
    requires
        table_evolution(c0, g0, c1, g1, layer, p),
        table_evolution(c1, g1, c2, g2, layer, p),
    ensures
        table_evolution(c0, g0, c2, g2, layer, p),
{
    lemma_cost_relaxed_trans(c0, c1, c2, layer);
    assert forall|n: int| 0 <= n < g0.len() implies g0[n]@.is_prefix_of(#[trigger] g2[n]@) by {
        assert(g0[n]@.is_prefix_of(g1[n]@));
        assert(g1[n]@.is_prefix_of(g2[n]@));
        assert forall|k: int| 0 <= k < g0[n]@.len() implies g0[n]@[k] == g2[n]@[k] by {
            assert(g0[n]@[k] == g1[n]@[k]);
            assert(g1[n]@[k] == g2[n]@[k]);
        }
    }
    assert forall|n: int, k: int|
        0 <= n < g2.len() && g0[n]@.len() <= k < g2[n]@.len() implies p(
        #[trigger] g2[n]@[k],
        n,
    ) by {
        if k < g1[n]@.len() {
            assert(g1[n]@[k] == g2[n]@[k]);
        }
    }
    assert forall|x: int|
        0 <= x < c0.len() && #[trigger] c2[x] != c0[x] implies g2[x]@.len() > g0[x]@.len() by {
        assert(g0[x]@.len() <= g1[x]@.len() && g1[x]@.len() <= g2[x]@.len());
        if c1[x] != c0[x] {
            assert(g1[x]@.len() > g0[x]@.len());
        } else {
            assert(c2[x] != c1[x]);
        }
    }
    assert forall|n: int|
        #![trigger g2[n]]
        0 <= n < g0.len() && g2[n]@.len() > g0[n]@.len() implies c0[n] >= layer && c2[n]
        == layer by {
        if g1[n]@.len() > g0[n]@.len() {
            assert(c1[n] == layer && c0[n] >= layer);
            assert(c2[n] == c1[n] || (c1[n] >= layer && c2[n] == layer));
        } else {
            assert(g0[n]@.len() <= g1[n]@.len());
            assert(g2[n]@.len() > g1[n]@.len());
            // the record arrived in the second stretch, whose entry cost was
            // still at or above the layer
            assert(c1[n] >= layer && c2[n] == layer);
            assert(c1[n] == c0[n] || (c0[n] >= layer && c1[n] == layer));
        }
    }
}

/// A pushed graph list keeps containing what it contained.
pub proof fn lemma_graph_contains_push(s: Seq<GraphType>, x: GraphType, y: GraphType)
    requires
        s.contains(y),
    ensures
        s.push(x).contains(y),
{
    let i = choose|i: int| 0 <= i < s.len() && s[i] == y;
    assert(s.push(x)[i] == y);
}

/// Both records of one addsub pair stand in the graph table wherever the
/// relaxation guard held on entry to the invocation: the sum's canonical
/// Adder, and the canonical Subtractor of a nonzero difference.
pub open spec fn addsub_pair_recorded(
    c0: Seq<u8>,
    graphs: Seq<Vec<GraphType>>,
    a: usize,
    b: usize,
    layer: u8,
    max_value: usize,
) -> bool {
    &&& {
        let s = odd_kernel((a + b) as nat);
        s <= max_value && c0[s as int] >= layer ==> graphs[s as int]@.contains(adder_canon(a, b))
    }
    &&& {
        let d = odd_kernel(dist(a as int, b as int) as nat);
        d != 0 && d <= max_value && c0[d as int] >= layer ==> graphs[d as int]@.contains(
            sub_canon(a, b),
        )
    }
}

/// A recorded pair stays recorded when one more record is appended anywhere.
proof fn lemma_pair_recorded_push(
    c0: Seq<u8>,
    g1: Seq<Vec<GraphType>>,
    g2: Seq<Vec<GraphType>>,
    result: int,
    gg: GraphType,
    a: usize,
    b: usize,
    layer: u8,
    max_value: usize,
)
    requires
        addsub_pair_recorded(c0, g1, a, b, layer, max_value),
        max_value < g1.len(),
        0 <= result < g1.len(),
        g2.len() == g1.len(),
        g2[result]@ == g1[result]@.push(gg),
        forall|n: int| 0 <= n < g1.len() && n != result ==> g2[n] == g1[n],
    ensures
        addsub_pair_recorded(c0, g2, a, b, layer, max_value),
{
    let s = odd_kernel((a + b) as nat) as int;
    let d = odd_kernel(dist(a as int, b as int) as nat) as int;
    lemma_odd_kernel_le((a + b) as nat);
    lemma_odd_kernel_le(dist(a as int, b as int) as nat);
    if s <= max_value && c0[s] >= layer && s == result {
        lemma_graph_contains_push(g1[s]@, gg, adder_canon(a, b));
    }
    if d != 0 && d <= max_value && c0[d] >= layer && d == result {
        lemma_graph_contains_push(g1[d]@, gg, sub_canon(a, b));
    }
}

/// A recorded Cascade pair stays recorded when one more record is appended
/// anywhere.
proof fn lemma_cascade_recorded_push(
    c0: Seq<u8>,
    g1: Seq<Vec<GraphType>>,
    g2: Seq<Vec<GraphType>>,
    result: int,
    gg: GraphType,
    a: usize,
    b: usize,
    layer: u8,
    max_value: usize,
)
    requires
        cascade_pair_recorded(c0, g1, a, b, layer, max_value),
        max_value < g1.len(),
        0 <= result < g1.len(),
        g2.len() == g1.len(),
        g2[result]@ == g1[result]@.push(gg),
        forall|n: int| 0 <= n < g1.len() && n != result ==> g2[n] == g1[n],
    ensures
        cascade_pair_recorded(c0, g2, a, b, layer, max_value),
{
    let p = a as int * b as int;
    if 0 <= p <= max_value && c0[p] >= layer && p == result {
        lemma_graph_contains_push(g1[p]@, gg, cascade_canon(a, b));
    }
    assert(a as int * b as int >= 0) by (nonlinear_arith);
}

/// The canonical Cascade record of one kept pair stands in the graph table
/// wherever the relaxation guard held on entry to the invocation.
pub open spec fn cascade_pair_recorded(
    c0: Seq<u8>,
    graphs: Seq<Vec<GraphType>>,
    a: usize,
    b: usize,
    layer: u8,
    max_value: usize,
) -> bool {
    a as int * b as int <= max_value && c0[a as int * b as int] >= layer ==> graphs[a as int
        * b as int]@.contains(cascade_canon(a, b))
}

/// Graph tables related by per-index prefix extension.
pub open spec fn graphs_prefix(g0: Seq<Vec<GraphType>>, g1: Seq<Vec<GraphType>>) -> bool {
    &&& g1.len() == g0.len()
    &&& forall|n: int| 0 <= n < g0.len() ==> g0[n]@.is_prefix_of(#[trigger] g1[n]@)
}

/// Prefix extension holds reflexively.
pub proof fn lemma_graphs_prefix_refl(g: Seq<Vec<GraphType>>)
    ensures
        graphs_prefix(g, g),
{
    assert forall|n: int| 0 <= n < g.len() implies g[n]@.is_prefix_of(#[trigger] g[n]@) by {
        assert(g[n]@ =~= g[n]@.take(g[n]@.len() as int));
    }
}

/// Prefix extension composes.
pub proof fn lemma_graphs_prefix_trans(
    g0: Seq<Vec<GraphType>>,
    g1: Seq<Vec<GraphType>>,
    g2: Seq<Vec<GraphType>>,
)
    requires
        graphs_prefix(g0, g1),
        graphs_prefix(g1, g2),
    ensures
        graphs_prefix(g0, g2),
{
    assert forall|n: int| 0 <= n < g0.len() implies g0[n]@.is_prefix_of(#[trigger] g2[n]@) by {
        assert(g0[n]@.is_prefix_of(g1[n]@));
        assert(g1[n]@.is_prefix_of(g2[n]@));
        assert forall|k: int| 0 <= k < g0[n]@.len() implies g0[n]@[k] == g2[n]@[k] by {
            assert(g0[n]@[k] == g1[n]@[k]);
            assert(g1[n]@[k] == g2[n]@[k]);
        }
    }
}

/// Entries either keep their earlier value or were written by a layer past
/// `bound`: costs at or below `bound` are final.
pub open spec fn cost_above(c0: Seq<u8>, c1: Seq<u8>, bound: u8) -> bool {
    &&& c1.len() == c0.len()
    &&& forall|x: int| 0 <= x < c0.len() ==> #[trigger] c1[x] == c0[x] || c1[x] > bound
}

/// `cost_above` extends across a relaxation at a deeper layer.
pub proof fn lemma_above_step(c0: Seq<u8>, c1: Seq<u8>, c2: Seq<u8>, bound: u8, layer: u8)
    requires
        cost_above(c0, c1, bound),
        cost_relaxed_to(c1, c2, layer),
        bound < layer,
    ensures
        cost_above(c0, c2, bound),
{
    assert forall|x: int| 0 <= x < c0.len() implies #[trigger] c2[x] == c0[x] || c2[x]
        > bound by {
        assert(c1[x] == c0[x] || c1[x] > bound);
        assert(c2[x] == c1[x] || (c1[x] >= layer && c2[x] == layer));
    }
}

/// A Cascade guard anchored at a later table transfers to an earlier one of
/// the same layer, since costs only relax.
pub proof fn lemma_cascade_recorded_anchor(
    c_early: Seq<u8>,
    c_late: Seq<u8>,
    graphs: Seq<Vec<GraphType>>,
    a: usize,
    b: usize,
    layer: u8,
    max_value: usize,
)
    requires
        cascade_pair_recorded(c_late, graphs, a, b, layer, max_value),
        cost_relaxed_to(c_early, c_late, layer),
        max_value < c_early.len(),
        1 <= a,
        1 <= b,
    ensures
        cascade_pair_recorded(c_early, graphs, a, b, layer, max_value),
{
    let p = a as int * b as int;
    assert(a as int * b as int >= 1) by (nonlinear_arith)
        requires
            a >= 1,
            b >= 1,
    ;
    if p <= max_value && c_early[p] >= layer {
        assert(c_late[p] == c_early[p] || (c_early[p] >= layer && c_late[p] == layer));
    }
}

/// Pointwise order on cost tables.
pub open spec fn cost_le(c1: Seq<u8>, c2: Seq<u8>) -> bool {
    &&& c1.len() == c2.len()
    &&& forall|x: int| 0 <= x < c1.len() ==> #[trigger] c1[x] <= c2[x]
}

/// A relaxation only lowers entries.
pub proof fn lemma_relaxed_le(c0: Seq<u8>, c1: Seq<u8>, layer: u8)
    requires
        cost_relaxed_to(c0, c1, layer),
    ensures
        cost_le(c1, c0),
{
    assert forall|x: int| 0 <= x < c1.len() implies #[trigger] c1[x] <= c0[x] by {
        assert(c1[x] == c0[x] || (c0[x] >= layer && c1[x] == layer));
    }
}

/// Pointwise order composes.
pub proof fn lemma_cost_le_trans(c0: Seq<u8>, c1: Seq<u8>, c2: Seq<u8>)
    requires
        cost_le(c0, c1),
        cost_le(c1, c2),
    ensures
        cost_le(c0, c2),
{
    assert forall|x: int| 0 <= x < c0.len() implies #[trigger] c0[x] <= c2[x] by {
        assert(c0[x] <= c1[x]);
    }
}

/// A done pair stays done when costs only drop.
pub proof fn lemma_pair_done_le(
    c1: Seq<u8>,
    c2: Seq<u8>,
    a: usize,
    b: usize,
    layer: u8,
    max_value: usize,
)
    requires
        addsub_pair_done(c1, a, b, layer, max_value),
        cost_le(c2, c1),
        max_value < c1.len(),
    ensures
        addsub_pair_done(c2, a, b, layer, max_value),
{
    let s = odd_kernel((a + b) as nat);
    let d = odd_kernel(dist(a as int, b as int) as nat);
    lemma_odd_kernel_le((a + b) as nat);
    lemma_odd_kernel_le(dist(a as int, b as int) as nat);
    if s <= max_value {
        assert(c2[s as int] <= c1[s as int]);
    }
    if d != 0 && d <= max_value {
        assert(c2[d as int] <= c1[d as int]);
    }
}

/// `cost_relaxed_to` composes across successive relaxations of one layer.
pub proof fn lemma_cost_relaxed_trans(c0: Seq<u8>, c1: Seq<u8>, c2: Seq<u8>, layer: u8)
    requires
        cost_relaxed_to(c0, c1, layer),
        cost_relaxed_to(c1, c2, layer),
    ensures
        cost_relaxed_to(c0, c2, layer),
{
    assert forall|x: int| 0 <= x < c0.len() implies #[trigger] c2[x] == c0[x] || (c0[x] >= layer
        && c2[x] == layer) by {
        assert(c1[x] == c0[x] || (c0[x] >= layer && c1[x] == layer));
    }
}

/// Operand lists stay acceptable across the relaxations of one layer, since
/// only entries at or above the layer ever move.
pub proof fn lemma_terms_still_below(c0: Seq<u8>, c1: Seq<u8>, terms: Seq<usize>, layer: u8)
    requires
        terms_below(c0, terms, layer),
        cost_relaxed_to(c0, c1, layer),
    ensures
        terms_below(c1, terms, layer),
{
    assert forall|i: int|
        0 <= i < terms.len() implies leaf_below(c1, #[trigger] terms[i], layer) && terms[i]
        <= TERM_LIMIT by {
        let kv = odd_kernel(terms[i] as nat) as int;
        assert(leaf_below(c0, terms[i], layer));
        assert(c1[kv] == c0[kv] || (c0[kv] >= layer && c1[kv] == layer));
    }
}

/// The absolute difference of two 128-bit values.
fn dist_u128(a: u128, b: u128) -> (r: u128)
    ensures
        r as int == dist(a as int, b as int),
{
    if a >= b {
        a - b
    } else {
        b - a
    }
}

/// Reduce one candidate expression value by the odd kernel and, when it is
/// nonzero, in range, and not yet recorded below the layer, relax the table
/// with the given realizing graph.
fn relax_graph(
    adder_count: &mut Vec<u8>,
    adder_structures: &mut Vec<Vec<GraphType>>,
    value: u128,
    g: GraphType,
    layer: u8,
    max_value: usize,
)
    requires
        table_wf(old(adder_count)@, old(adder_structures)@, layer),
        0 < layer < COST_SENTINEL,
        max_value < old(adder_count)@.len(),
        eval(g) == value as int,
        forall|k: int|
            0 <= k < leaves(g).len() ==> leaf_below(old(adder_count)@, #[trigger] leaves(g)[k], layer),
    ensures
        table_wf(final(adder_count)@, final(adder_structures)@, layer),
        cost_relaxed_to(old(adder_count)@, final(adder_count)@, layer),
        final(adder_structures)@.len() == old(adder_structures)@.len(),
        kernel_done(final(adder_count)@, value as int, layer, max_value),
        // exactly when the kernel is in range and its recorded cost admits
        // the layer, `g` is appended there and the cost becomes the layer;
        // otherwise nothing changes
        ({
            let m = odd_kernel(value as nat) as int;
            if 1 <= m <= max_value && old(adder_count)@[m] >= layer {
                &&& final(adder_count)@ == old(adder_count)@.update(m, layer)
                &&& final(adder_structures)@[m]@ == old(adder_structures)@[m]@.push(g)
                &&& forall|n: int|
                    0 <= n < old(adder_structures)@.len() && n != m
                        ==> final(adder_structures)@[n] == old(adder_structures)@[n]
            } else {
                &&& final(adder_count)@ == old(adder_count)@
                &&& final(adder_structures)@ == old(adder_structures)@
            }
        }),
{
    let kernel_wide = findodd_u128(value);
    if kernel_wide != 0 && kernel_wide <= max_value as u128 {
        let kernel = kernel_wide as usize;
        if adder_count[kernel] >= layer {
            proof {
                assert(realizes(g, kernel as nat));
                assert(kernel % 2 == 1);
            }
            relax(adder_count, adder_structures, kernel, g, layer);
        }
    }
}

/// Relax the table with both the sum and the absolute difference of every
/// pair drawn from the two operand lists, canonicalizing the stored
/// parameter order.  A value already recorded at the current layer still
/// gains the further realizing graphs found in this layer.
#[verifier::rlimit(60)]
pub fn addsub_combinations(
    adder_count: &mut Vec<u8>,
    adder_structures: &mut Vec<Vec<GraphType>>,
    terms: &Vec<usize>,
    terms_shifted: &Vec<usize>,
    adder_cost: u8,
    max_value: usize,
)
    requires
        table_wf(old(adder_count)@, old(adder_structures)@, adder_cost),
        0 < adder_cost < COST_SENTINEL,
        max_value < old(adder_count)@.len(),
        terms_below(old(adder_count)@, terms@, adder_cost),
        terms_below(old(adder_count)@, terms_shifted@, adder_cost),
    ensures
        table_wf(final(adder_count)@, final(adder_structures)@, adder_cost),
        cost_relaxed_to(old(adder_count)@, final(adder_count)@, adder_cost),
        final(adder_structures)@.len() == old(adder_structures)@.len(),
        forall|i: int, j: int|
            0 <= i < terms@.len() && 0 <= j < terms_shifted@.len() ==> addsub_pair_done(
                final(adder_count)@,
                #[trigger] terms@[i],
                #[trigger] terms_shifted@[j],
                adder_cost,
                max_value,
            ),
        table_evolution(
            old(adder_count)@,
            old(adder_structures)@,
            final(adder_count)@,
            final(adder_structures)@,
            adder_cost,
            |gg: GraphType, n: int| addsub_record_ok(terms@, terms_shifted@, max_value, gg, n),
        ),
        forall|i: int, j: int|
            0 <= i < terms@.len() && 0 <= j < terms_shifted@.len() ==> addsub_pair_recorded(
                old(adder_count)@,
                final(adder_structures)@,
                #[trigger] terms@[i],
                #[trigger] terms_shifted@[j],
                adder_cost,
                max_value,
            ),
{
    let ghost c_in = adder_count@;
    let ghost g_in = adder_structures@;
    proof {
        lemma_evolution_refl(
            c_in,
            g_in,
            adder_cost,
            |gg: GraphType, n: int| addsub_record_ok(terms@, terms_shifted@, max_value, gg, n),
        );
    }
    let mut i1: usize = 0;
    while i1 < terms.len()
        invariant
            table_wf(adder_count@, adder_structures@, adder_cost),
            cost_relaxed_to(c_in, adder_count@, adder_cost),
            adder_structures@.len() == old(adder_structures)@.len(),
            0 < adder_cost < COST_SENTINEL,
            max_value < adder_count@.len(),
            i1 <= terms@.len(),
            terms_below(adder_count@, terms@, adder_cost),
            terms_below(adder_count@, terms_shifted@, adder_cost),
            table_evolution(
                c_in,
                g_in,
                adder_count@,
                adder_structures@,
                adder_cost,
                |gg: GraphType, n: int| addsub_record_ok(terms@, terms_shifted@, max_value, gg, n),
            ),
            forall|i: int, j: int|
                0 <= i < i1 && 0 <= j < terms_shifted@.len() ==> addsub_pair_done(
                    adder_count@,
                    #[trigger] terms@[i],
                    #[trigger] terms_shifted@[j],
                    adder_cost,
                    max_value,
                ),
            forall|i: int, j: int|
                0 <= i < i1 && 0 <= j < terms_shifted@.len() ==> addsub_pair_recorded(
                    c_in,
                    adder_structures@,
                    #[trigger] terms@[i],
                    #[trigger] terms_shifted@[j],
                    adder_cost,
                    max_value,
                ),
        decreases terms@.len() - i1,
    {
        let term1 = terms[i1];
        let mut i2: usize = 0;
        while i2 < terms_shifted.len()
            invariant
                table_wf(adder_count@, adder_structures@, adder_cost),
                cost_relaxed_to(c_in, adder_count@, adder_cost),
                adder_structures@.len() == old(adder_structures)@.len(),
                0 < adder_cost < COST_SENTINEL,
                max_value < adder_count@.len(),
                i1 < terms@.len(),
                term1 == terms@[i1 as int],
                i2 <= terms_shifted@.len(),
                terms_below(adder_count@, terms@, adder_cost),
                terms_below(adder_count@, terms_shifted@, adder_cost),
                table_evolution(
                    c_in,
                    g_in,
                    adder_count@,
                    adder_structures@,
                    adder_cost,
                    |gg: GraphType, n: int| addsub_record_ok(terms@, terms_shifted@, max_value, gg, n),
                ),
                forall|i: int, j: int|
                    0 <= i < i1 && 0 <= j < terms_shifted@.len() ==> addsub_pair_done(
                        adder_count@,
                        #[trigger] terms@[i],
                        #[trigger] terms_shifted@[j],
                        adder_cost,
                        max_value,
                    ),
                forall|j: int|
                    0 <= j < i2 ==> addsub_pair_done(
                        adder_count@,
                        term1,
                        #[trigger] terms_shifted@[j],
                        adder_cost,
                        max_value,
                    ),
                forall|i: int, j: int|
                    0 <= i < i1 && 0 <= j < terms_shifted@.len() ==> addsub_pair_recorded(
                        c_in,
                        adder_structures@,
                        #[trigger] terms@[i],
                        #[trigger] terms_shifted@[j],
                        adder_cost,
                        max_value,
                    ),
                forall|j: int|
                    0 <= j < i2 ==> addsub_pair_recorded(
                        c_in,
                        adder_structures@,
                        term1,
                        #[trigger] terms_shifted@[j],
                        adder_cost,
                        max_value,
                    ),
            decreases terms_shifted@.len() - i2,
        {
            let term2 = terms_shifted[i2];
            assert(leaf_below(adder_count@, term1, adder_cost) && term1 <= TERM_LIMIT);
            assert(leaf_below(adder_count@, term2, adder_cost) && term2 <= TERM_LIMIT);
            let sum_wide = findodd_u128(term1 as u128 + term2 as u128);
            if sum_wide <= max_value as u128 {
                let sum = sum_wide as usize;
                if adder_count[sum] >= adder_cost {
                    let ghost c0 = adder_count@;
                    let ghost g0 = adder_structures@;
                    let g = if term1 <= term2 {
                        GraphType::Adder(term1, term2)
                    } else {
                        GraphType::Adder(term2, term1)
                    };
                    proof {
                        assert(realizes(g, sum as nat));
                        assert(sum % 2 == 1);
                    }
                    relax(adder_count, adder_structures, sum, g, adder_cost);
                    proof {
                        lemma_terms_below_update(c0, adder_count@, terms@, adder_cost, sum as int);
                        lemma_terms_below_update(
                            c0,
                            adder_count@,
                            terms_shifted@,
                            adder_cost,
                            sum as int,
                        );
                        assert(terms@[i1 as int] == term1 && terms_shifted@[i2 as int] == term2);
                        assert(g == adder_canon(term1, term2));
                        assert(adder_structures@[sum as int]@[g0[sum as int]@.len() as int] == g);
                        assert(adder_structures@[sum as int]@.contains(g));
                        assert forall|i: int, j: int|
                            0 <= i < i1 && 0 <= j < terms_shifted@.len() implies addsub_pair_recorded(
                            c_in,
                            adder_structures@,
                            #[trigger] terms@[i],
                            #[trigger] terms_shifted@[j],
                            adder_cost,
                            max_value,
                        ) by {
                            lemma_pair_recorded_push(
                                c_in,
                                g0,
                                adder_structures@,
                                sum as int,
                                g,
                                terms@[i],
                                terms_shifted@[j],
                                adder_cost,
                                max_value,
                            );
                        }
                        assert forall|j: int| 0 <= j < i2 implies addsub_pair_recorded(
                            c_in,
                            adder_structures@,
                            term1,
                            #[trigger] terms_shifted@[j],
                            adder_cost,
                            max_value,
                        ) by {
                            lemma_pair_recorded_push(
                                c_in,
                                g0,
                                adder_structures@,
                                sum as int,
                                g,
                                term1,
                                terms_shifted@[j],
                                adder_cost,
                                max_value,
                            );
                        }
                        assert(addsub_record_ok(terms@, terms_shifted@, max_value, g, sum as int));
                        lemma_evolution_push(
                            c_in,
                            g_in,
                            c0,
                            g0,
                            adder_count@,
                            adder_structures@,
                            sum as int,
                            g,
                            adder_cost,
                            |gg: GraphType, n: int| addsub_record_ok(
                                terms@,
                                terms_shifted@,
                                max_value,
                                gg,
                                n,
                            ),
                        );
                    }
                }
            }
            let ghost c_mid = adder_count@;
            let ghost g_mid = adder_structures@;
            let ghost s_k = odd_kernel((term1 + term2) as nat) as int;
            proof {
                lemma_odd_kernel_le((term1 + term2) as nat);
                if s_k <= max_value && c_in[s_k] >= adder_cost {
                    // the sum guard held at its check, so its record is in
                    assert(g_mid[s_k]@.contains(adder_canon(term1, term2)));
                }
            }
            let ghost mut diff_rec: GraphType = GraphType::Adder(0, 0);
            let diff = findodd(if term1 >= term2 {
                term1 - term2
            } else {
                term2 - term1
            });
            if diff <= max_value && diff != 0 && adder_count[diff] >= adder_cost {
                let ghost c0 = adder_count@;
                let ghost g0 = adder_structures@;
                let g = if term1 >= term2 {
                    GraphType::Subtractor(term1, term2)
                } else {
                    GraphType::Subtractor(term2, term1)
                };
                proof {
                    diff_rec = g;
                }
                proof {
                    assert(realizes(g, diff as nat));
                    assert(diff % 2 == 1);
                }
                relax(adder_count, adder_structures, diff, g, adder_cost);
                proof {
                    lemma_terms_below_update(c0, adder_count@, terms@, adder_cost, diff as int);
                    lemma_terms_below_update(
                        c0,
                        adder_count@,
                        terms_shifted@,
                        adder_cost,
                        diff as int,
                    );
                    assert(terms@[i1 as int] == term1 && terms_shifted@[i2 as int] == term2);
                    assert(g == sub_canon(term1, term2));
                    assert(adder_structures@[diff as int]@[g0[diff as int]@.len() as int] == g);
                    assert(adder_structures@[diff as int]@.contains(g));
                    assert forall|i: int, j: int|
                        0 <= i < i1 && 0 <= j < terms_shifted@.len() implies addsub_pair_recorded(
                        c_in,
                        adder_structures@,
                        #[trigger] terms@[i],
                        #[trigger] terms_shifted@[j],
                        adder_cost,
                        max_value,
                    ) by {
                        lemma_pair_recorded_push(
                            c_in,
                            g0,
                            adder_structures@,
                            diff as int,
                            g,
                            terms@[i],
                            terms_shifted@[j],
                            adder_cost,
                            max_value,
                        );
                    }
                    assert forall|j: int| 0 <= j < i2 implies addsub_pair_recorded(
                        c_in,
                        adder_structures@,
                        term1,
                        #[trigger] terms_shifted@[j],
                        adder_cost,
                        max_value,
                    ) by {
                        lemma_pair_recorded_push(
                            c_in,
                            g0,
                            adder_structures@,
                            diff as int,
                            g,
                            term1,
                            terms_shifted@[j],
                            adder_cost,
                            max_value,
                        );
                    }
                    assert(addsub_record_ok(terms@, terms_shifted@, max_value, g, diff as int));
                    lemma_evolution_push(
                        c_in,
                        g_in,
                        c0,
                        g0,
                        adder_count@,
                        adder_structures@,
                        diff as int,
                        g,
                        adder_cost,
                        |gg: GraphType, n: int| addsub_record_ok(
                            terms@,
                            terms_shifted@,
                            max_value,
                            gg,
                            n,
                        ),
                    );
                }
            }
            proof {
                assert(addsub_pair_done(adder_count@, term1, term2, adder_cost, max_value));
                let d_k = odd_kernel(dist(term1 as int, term2 as int) as nat) as int;
                lemma_odd_kernel_le(dist(term1 as int, term2 as int) as nat);
                if s_k <= max_value && c_in[s_k] >= adder_cost {
                    // the sum record survives the difference's append
                    if adder_structures@[s_k] != g_mid[s_k] {
                        assert(adder_structures@[s_k]@ == g_mid[s_k]@.push(diff_rec));
                        lemma_graph_contains_push(
                            g_mid[s_k]@,
                            diff_rec,
                            adder_canon(term1, term2),
                        );
                    }
                    assert(adder_structures@[s_k]@.contains(adder_canon(term1, term2)));
                }
                if d_k != 0 && d_k <= max_value && c_in[d_k] >= adder_cost {
                    assert(adder_structures@[d_k]@.contains(sub_canon(term1, term2)));
                }
                assert(addsub_pair_recorded(
                    c_in,
                    adder_structures@,
                    term1,
                    term2,
                    adder_cost,
                    max_value,
                ));
            }
            i2 = i2 + 1;
        }
        i1 = i1 + 1;
    }
}

/// Relax the table with the product of every pair drawn from the two operand
/// lists; with `same_terms`, pairs below the diagonal are skipped since the
/// product is symmetric.
pub fn cascade_combinations(
    adder_count: &mut Vec<u8>,
    adder_structures: &mut Vec<Vec<GraphType>>,
    terms1: &Vec<usize>,
    terms2: &Vec<usize>,
    adder_cost: u8,
    max_value: usize,
    same_terms: bool,
)
    requires
        table_wf(old(adder_count)@, old(adder_structures)@, adder_cost),
        0 < adder_cost < COST_SENTINEL,
        max_value < old(adder_count)@.len(),
        terms_below(old(adder_count)@, terms1@, adder_cost),
        terms_below(old(adder_count)@, terms2@, adder_cost),
        forall|i: int| 0 <= i < terms1@.len() ==> #[trigger] terms1@[i] % 2 == 1,
        forall|i: int| 0 <= i < terms2@.len() ==> #[trigger] terms2@[i] % 2 == 1,
    ensures
        table_wf(final(adder_count)@, final(adder_structures)@, adder_cost),
        cost_relaxed_to(old(adder_count)@, final(adder_count)@, adder_cost),
        final(adder_structures)@.len() == old(adder_structures)@.len(),
        forall|i: int, j: int|
            0 <= i < terms1@.len() && 0 <= j < terms2@.len() && !(same_terms && terms2@[j]
                < terms1@[i]) && terms1@[i] * terms2@[j] <= max_value ==> final(adder_count)@[(
            #[trigger] terms1@[i] * #[trigger] terms2@[j]) as int] <= adder_cost,
        table_evolution(
            old(adder_count)@,
            old(adder_structures)@,
            final(adder_count)@,
            final(adder_structures)@,
            adder_cost,
            |gg: GraphType, n: int| cascade_record_ok(
                terms1@,
                terms2@,
                same_terms,
                max_value,
                gg,
                n,
            ),
        ),
        forall|i: int, j: int|
            0 <= i < terms1@.len() && 0 <= j < terms2@.len() && !(same_terms && terms2@[j]
                < terms1@[i]) ==> cascade_pair_recorded(
                old(adder_count)@,
                final(adder_structures)@,
                #[trigger] terms1@[i],
                #[trigger] terms2@[j],
                adder_cost,
                max_value,
            ),
{
    let ghost c_in = adder_count@;
    let ghost g_in = adder_structures@;
    proof {
        lemma_evolution_refl(
            c_in,
            g_in,
            adder_cost,
            |gg: GraphType, n: int| cascade_record_ok(
                terms1@,
                terms2@,
                same_terms,
                max_value,
                gg,
                n,
            ),
        );
    }
    let mut i1: usize = 0;
    while i1 < terms1.len()
        invariant
            table_wf(adder_count@, adder_structures@, adder_cost),
            cost_relaxed_to(c_in, adder_count@, adder_cost),
            adder_structures@.len() == old(adder_structures)@.len(),
            0 < adder_cost < COST_SENTINEL,
            max_value < adder_count@.len(),
            i1 <= terms1@.len(),
            terms_below(adder_count@, terms1@, adder_cost),
            terms_below(adder_count@, terms2@, adder_cost),
            forall|i: int| 0 <= i < terms1@.len() ==> #[trigger] terms1@[i] % 2 == 1,
            forall|i: int| 0 <= i < terms2@.len() ==> #[trigger] terms2@[i] % 2 == 1,
            table_evolution(
                c_in,
                g_in,
                adder_count@,
                adder_structures@,
                adder_cost,
                |gg: GraphType, n: int| cascade_record_ok(
                    terms1@,
                    terms2@,
                    same_terms,
                    max_value,
                    gg,
                    n,
                ),
            ),
            forall|i: int, j: int|
                0 <= i < i1 && 0 <= j < terms2@.len() && !(same_terms && terms2@[j] < terms1@[i])
                    && terms1@[i] * terms2@[j] <= max_value ==> adder_count@[(
                #[trigger] terms1@[i] * #[trigger] terms2@[j]) as int] <= adder_cost,
            forall|i: int, j: int|
                0 <= i < i1 && 0 <= j < terms2@.len() && !(same_terms && terms2@[j] < terms1@[i])
                    ==> cascade_pair_recorded(
                    c_in,
                    adder_structures@,
                    #[trigger] terms1@[i],
                    #[trigger] terms2@[j],
                    adder_cost,
                    max_value,
                ),
        decreases terms1@.len() - i1,
    {
        let term1 = terms1[i1];
        let mut i2: usize = 0;
        while i2 < terms2.len()
            invariant
                table_wf(adder_count@, adder_structures@, adder_cost),
                cost_relaxed_to(c_in, adder_count@, adder_cost),
                adder_structures@.len() == old(adder_structures)@.len(),
                0 < adder_cost < COST_SENTINEL,
                max_value < adder_count@.len(),
                i1 < terms1@.len(),
                term1 == terms1@[i1 as int],
                i2 <= terms2@.len(),
                terms_below(adder_count@, terms1@, adder_cost),
                terms_below(adder_count@, terms2@, adder_cost),
                forall|i: int| 0 <= i < terms1@.len() ==> #[trigger] terms1@[i] % 2 == 1,
                forall|i: int| 0 <= i < terms2@.len() ==> #[trigger] terms2@[i] % 2 == 1,
                table_evolution(
                    c_in,
                    g_in,
                    adder_count@,
                    adder_structures@,
                    adder_cost,
                    |gg: GraphType, n: int| cascade_record_ok(
                        terms1@,
                        terms2@,
                        same_terms,
                        max_value,
                        gg,
                        n,
                    ),
                ),
                forall|i: int, j: int|
                    0 <= i < i1 && 0 <= j < terms2@.len() && !(same_terms && terms2@[j]
                        < terms1@[i]) && terms1@[i] * terms2@[j] <= max_value ==> adder_count@[(
                    #[trigger] terms1@[i] * #[trigger] terms2@[j]) as int] <= adder_cost,
                forall|j: int|
                    0 <= j < i2 && !(same_terms && terms2@[j] < term1) && term1 * terms2@[j]
                        <= max_value ==> adder_count@[(term1 * #[trigger] terms2@[j]) as int]
                        <= adder_cost,
                forall|i: int, j: int|
                    0 <= i < i1 && 0 <= j < terms2@.len() && !(same_terms && terms2@[j]
                        < terms1@[i]) ==> cascade_pair_recorded(
                        c_in,
                        adder_structures@,
                        #[trigger] terms1@[i],
                        #[trigger] terms2@[j],
                        adder_cost,
                        max_value,
                    ),
                forall|j: int|
                    0 <= j < i2 && !(same_terms && terms2@[j] < term1) ==> cascade_pair_recorded(
                        c_in,
                        adder_structures@,
                        term1,
                        #[trigger] terms2@[j],
                        adder_cost,
                        max_value,
                    ),
            decreases terms2@.len() - i2,
        {
            let term2 = terms2[i2];
            if !(same_terms && term2 < term1) {
                let ghost c_head = adder_count@;
                assert(leaf_below(adder_count@, term1, adder_cost) && term1 <= TERM_LIMIT);
                assert(leaf_below(adder_count@, term2, adder_cost) && term2 <= TERM_LIMIT);
                assert(term1 as u128 * term2 as u128 <= TERM_LIMIT as u128 * TERM_LIMIT as u128)
                    by (nonlinear_arith)
                    requires
                        1 <= term1 <= TERM_LIMIT,
                        1 <= term2 <= TERM_LIMIT,
                ;
                let cascade_wide = term1 as u128 * term2 as u128;
                if cascade_wide <= max_value as u128 {
                    let cascade = cascade_wide as usize;
                    if adder_count[cascade] >= adder_cost {
                        let ghost c0 = adder_count@;
                        let ghost g0 = adder_structures@;
                        let g = if term1 <= term2 {
                            GraphType::Cascade(term1, term2)
                        } else {
                            GraphType::Cascade(term2, term1)
                        };
                        proof {
                            crate::num::lemma_odd_mul(term1 as int, term2 as int);
                            assert(cascade % 2 == 1);
                            assert(odd_kernel(cascade as nat) == cascade as nat);
                            assert(term2 as int * term1 as int == term1 as int * term2 as int)
                                by (nonlinear_arith);
                            assert(eval(g) == term1 as int * term2 as int);
                            assert(realizes(g, cascade as nat));
                        }
                        relax(adder_count, adder_structures, cascade, g, adder_cost);
                        proof {
                            lemma_terms_below_update(
                                c0,
                                adder_count@,
                                terms1@,
                                adder_cost,
                                cascade as int,
                            );
                            lemma_terms_below_update(
                                c0,
                                adder_count@,
                                terms2@,
                                adder_cost,
                                cascade as int,
                            );
                            assert(terms1@[i1 as int] == term1 && terms2@[i2 as int] == term2);
                            assert(g == cascade_canon(term1, term2));
                            assert(adder_structures@[cascade as int]@[g0[
                                cascade as int]@.len() as int] == g);
                            assert(adder_structures@[cascade as int]@.contains(g));
                            assert forall|i: int, j: int|
                                0 <= i < i1 && 0 <= j < terms2@.len() && !(same_terms && terms2@[j]
                                    < terms1@[i]) implies cascade_pair_recorded(
                                c_in,
                                adder_structures@,
                                #[trigger] terms1@[i],
                                #[trigger] terms2@[j],
                                adder_cost,
                                max_value,
                            ) by {
                                lemma_cascade_recorded_push(
                                    c_in,
                                    g0,
                                    adder_structures@,
                                    cascade as int,
                                    g,
                                    terms1@[i],
                                    terms2@[j],
                                    adder_cost,
                                    max_value,
                                );
                            }
                            assert forall|j: int|
                                0 <= j < i2 && !(same_terms && terms2@[j]
                                    < term1) implies cascade_pair_recorded(
                                c_in,
                                adder_structures@,
                                term1,
                                #[trigger] terms2@[j],
                                adder_cost,
                                max_value,
                            ) by {
                                lemma_cascade_recorded_push(
                                    c_in,
                                    g0,
                                    adder_structures@,
                                    cascade as int,
                                    g,
                                    term1,
                                    terms2@[j],
                                    adder_cost,
                                    max_value,
                                );
                            }
                            assert(cascade_record_ok(
                                terms1@,
                                terms2@,
                                same_terms,
                                max_value,
                                g,
                                cascade as int,
                            ));
                            lemma_evolution_push(
                                c_in,
                                g_in,
                                c0,
                                g0,
                                adder_count@,
                                adder_structures@,
                                cascade as int,
                                g,
                                adder_cost,
                                |gg: GraphType, n: int| cascade_record_ok(
                                    terms1@,
                                    terms2@,
                                    same_terms,
                                    max_value,
                                    gg,
                                    n,
                                ),
                            );
                        }
                    }
                }
            }
            i2 = i2 + 1;
        }
        i1 = i1 + 1;
    }
}

/// Both multiplicands are odd with the first at least the second: the tuple
/// with the two ends exchanged yields the same value and is enumerated by
/// the same invocation.
pub open spec fn lf_sym(a: usize, e: usize) -> bool {
    a % 2 == 1 && e % 2 == 1 && a >= e
}

/// Membership survives a prefix extension of a graph list.
pub proof fn lemma_graph_contains_prefix(s1: Seq<GraphType>, s2: Seq<GraphType>, x: GraphType)
    requires
        s1.contains(x),
        s1.is_prefix_of(s2),
    ensures
        s2.contains(x),
{
    let i = choose|i: int| 0 <= i < s1.len() && s1[i] == x;
    assert(s2[i] == x);
}

/// Every kept variant record of one kept 4-parameter tuple stands in the
/// graph table wherever the relaxation guard held on entry to the
/// invocation.
pub open spec fn lf4_tuple_recorded(
    c0: Seq<u8>,
    graphs: Seq<Vec<GraphType>>,
    a: usize, b: usize, d: usize, e: usize,
    layer: u8,
    max_value: usize,
) -> bool {
    lf4_parity(a, b, d, e) ==> {
        &&& (lf4_keep1(a, b, d, e) ==> {
            let m = odd_kernel(eval(GraphType::Leapfrog4_1(a, b, d, e)) as nat) as int;
            1 <= m <= max_value && c0[m] >= layer ==> graphs[m]@.contains(
                GraphType::Leapfrog4_1(a, b, d, e),
            )
        })
        &&& (lf4_keep2(a, b, d, e) ==> {
            let m = odd_kernel(eval(GraphType::Leapfrog4_2(a, b, d, e)) as nat) as int;
            1 <= m <= max_value && c0[m] >= layer ==> graphs[m]@.contains(
                GraphType::Leapfrog4_2(a, b, d, e),
            )
        })
        &&& (lf4_keep3(a, b, d, e) ==> {
            let m = odd_kernel(eval(GraphType::Leapfrog4_3(a, b, d, e)) as nat) as int;
            1 <= m <= max_value && c0[m] >= layer ==> graphs[m]@.contains(
                GraphType::Leapfrog4_3(a, b, d, e),
            )
        })
        &&& (lf4_keep4(a, b, d, e) ==> {
            let m = odd_kernel(eval(GraphType::Leapfrog4_4(a, b, d, e)) as nat) as int;
            1 <= m <= max_value && c0[m] >= layer ==> graphs[m]@.contains(
                GraphType::Leapfrog4_4(a, b, d, e),
            )
        })
    }
}

/// A recorded tuple stays recorded when the graph lists only grow.
proof fn lemma_lf4_recorded_prefix(
    c0: Seq<u8>,
    g1: Seq<Vec<GraphType>>,
    g2: Seq<Vec<GraphType>>,
    a: usize, b: usize, d: usize, e: usize,
    layer: u8,
    max_value: usize,
)
    requires
        lf4_tuple_recorded(c0, g1, a, b, d, e, layer, max_value),
        max_value < g1.len(),
        g2.len() == g1.len(),
        forall|n: int| 0 <= n < g1.len() ==> g1[n]@.is_prefix_of(#[trigger] g2[n]@),
    ensures
        lf4_tuple_recorded(c0, g2, a, b, d, e, layer, max_value),
{
    if lf4_parity(a, b, d, e) {
        if lf4_keep1(a, b, d, e) {
            let m = odd_kernel(eval(GraphType::Leapfrog4_1(a, b, d, e)) as nat) as int;
            if 1 <= m <= max_value && c0[m] >= layer {
                lemma_graph_contains_prefix(
                    g1[m]@,
                    g2[m]@,
                    GraphType::Leapfrog4_1(a, b, d, e),
                );
            }
        }
        if lf4_keep2(a, b, d, e) {
            let m = odd_kernel(eval(GraphType::Leapfrog4_2(a, b, d, e)) as nat) as int;
            if 1 <= m <= max_value && c0[m] >= layer {
                lemma_graph_contains_prefix(
                    g1[m]@,
                    g2[m]@,
                    GraphType::Leapfrog4_2(a, b, d, e),
                );
            }
        }
        if lf4_keep3(a, b, d, e) {
            let m = odd_kernel(eval(GraphType::Leapfrog4_3(a, b, d, e)) as nat) as int;
            if 1 <= m <= max_value && c0[m] >= layer {
                lemma_graph_contains_prefix(
                    g1[m]@,
                    g2[m]@,
                    GraphType::Leapfrog4_3(a, b, d, e),
                );
            }
        }
        if lf4_keep4(a, b, d, e) {
            let m = odd_kernel(eval(GraphType::Leapfrog4_4(a, b, d, e)) as nat) as int;
            if 1 <= m <= max_value && c0[m] >= layer {
                lemma_graph_contains_prefix(
                    g1[m]@,
                    g2[m]@,
                    GraphType::Leapfrog4_4(a, b, d, e),
                );
            }
        }
    }
}

/// Guards anchored at a later table transfer to the invocation's entry
/// table, since costs only relax within the layer.
proof fn lemma_lf4_recorded_anchor(
    c_early: Seq<u8>,
    c_late: Seq<u8>,
    graphs: Seq<Vec<GraphType>>,
    a: usize, b: usize, d: usize, e: usize,
    layer: u8,
    max_value: usize,
)
    requires
        lf4_tuple_recorded(c_late, graphs, a, b, d, e, layer, max_value),
        cost_relaxed_to(c_early, c_late, layer),
        max_value < c_early.len(),
    ensures
        lf4_tuple_recorded(c_early, graphs, a, b, d, e, layer, max_value),
{
    if lf4_parity(a, b, d, e) {
        if lf4_keep1(a, b, d, e) {
            let m = odd_kernel(eval(GraphType::Leapfrog4_1(a, b, d, e)) as nat) as int;
            if 1 <= m <= max_value && c_early[m] >= layer {
                assert(c_late[m] == c_early[m] || (c_early[m] >= layer && c_late[m] == layer));
            }
        }
        if lf4_keep2(a, b, d, e) {
            let m = odd_kernel(eval(GraphType::Leapfrog4_2(a, b, d, e)) as nat) as int;
            if 1 <= m <= max_value && c_early[m] >= layer {
                assert(c_late[m] == c_early[m] || (c_early[m] >= layer && c_late[m] == layer));
            }
        }
        if lf4_keep3(a, b, d, e) {
            let m = odd_kernel(eval(GraphType::Leapfrog4_3(a, b, d, e)) as nat) as int;
            if 1 <= m <= max_value && c_early[m] >= layer {
                assert(c_late[m] == c_early[m] || (c_early[m] >= layer && c_late[m] == layer));
            }
        }
        if lf4_keep4(a, b, d, e) {
            let m = odd_kernel(eval(GraphType::Leapfrog4_4(a, b, d, e)) as nat) as int;
            if 1 <= m <= max_value && c_early[m] >= layer {
                assert(c_late[m] == c_early[m] || (c_early[m] >= layer && c_late[m] == layer));
            }
        }
    }
}

/// Every kept variant record of one kept 5-parameter tuple stands in the
/// graph table wherever the relaxation guard held on entry to the
/// invocation.
pub open spec fn lf5_tuple_recorded(
    c0: Seq<u8>,
    graphs: Seq<Vec<GraphType>>,
    a: usize, b: usize, c: usize, d: usize, e: usize,
    layer: u8,
    max_value: usize,
) -> bool {
    lf5_parity(a, b, c, d, e) ==> {
        &&& (lf5_keep1(a, b, c, d, e) ==> {
            let m = odd_kernel(eval(GraphType::Leapfrog5_1(a, b, c, d, e)) as nat) as int;
            1 <= m <= max_value && c0[m] >= layer ==> graphs[m]@.contains(
                GraphType::Leapfrog5_1(a, b, c, d, e),
            )
        })
        &&& (lf5_keep2(a, b, c, d, e) ==> {
            let m = odd_kernel(eval(GraphType::Leapfrog5_2(a, b, c, d, e)) as nat) as int;
            1 <= m <= max_value && c0[m] >= layer ==> graphs[m]@.contains(
                GraphType::Leapfrog5_2(a, b, c, d, e),
            )
        })
        &&& (lf5_keep3(a, b, c, d, e) ==> {
            let m = odd_kernel(eval(GraphType::Leapfrog5_3(a, b, c, d, e)) as nat) as int;
            1 <= m <= max_value && c0[m] >= layer ==> graphs[m]@.contains(
                GraphType::Leapfrog5_3(a, b, c, d, e),
            )
        })
        &&& (lf5_keep4(a, b, c, d, e) ==> {
            let m = odd_kernel(eval(GraphType::Leapfrog5_4(a, b, c, d, e)) as nat) as int;
            1 <= m <= max_value && c0[m] >= layer ==> graphs[m]@.contains(
                GraphType::Leapfrog5_4(a, b, c, d, e),
            )
        })
    }
}

/// A recorded tuple stays recorded when the graph lists only grow.
proof fn lemma_lf5_recorded_prefix(
    c0: Seq<u8>,
    g1: Seq<Vec<GraphType>>,
    g2: Seq<Vec<GraphType>>,
    a: usize, b: usize, c: usize, d: usize, e: usize,
    layer: u8,
    max_value: usize,
)
    requires
        lf5_tuple_recorded(c0, g1, a, b, c, d, e, layer, max_value),
        max_value < g1.len(),
        g2.len() == g1.len(),
        forall|n: int| 0 <= n < g1.len() ==> g1[n]@.is_prefix_of(#[trigger] g2[n]@),
    ensures
        lf5_tuple_recorded(c0, g2, a, b, c, d, e, layer, max_value),
{
    if lf5_parity(a, b, c, d, e) {
        if lf5_keep1(a, b, c, d, e) {
            let m = odd_kernel(eval(GraphType::Leapfrog5_1(a, b, c, d, e)) as nat) as int;
            if 1 <= m <= max_value && c0[m] >= layer {
                lemma_graph_contains_prefix(
                    g1[m]@,
                    g2[m]@,
                    GraphType::Leapfrog5_1(a, b, c, d, e),
                );
            }
        }
        if lf5_keep2(a, b, c, d, e) {
            let m = odd_kernel(eval(GraphType::Leapfrog5_2(a, b, c, d, e)) as nat) as int;
            if 1 <= m <= max_value && c0[m] >= layer {
                lemma_graph_contains_prefix(
                    g1[m]@,
                    g2[m]@,
                    GraphType::Leapfrog5_2(a, b, c, d, e),
                );
            }
        }
        if lf5_keep3(a, b, c, d, e) {
            let m = odd_kernel(eval(GraphType::Leapfrog5_3(a, b, c, d, e)) as nat) as int;
            if 1 <= m <= max_value && c0[m] >= layer {
                lemma_graph_contains_prefix(
                    g1[m]@,
                    g2[m]@,
                    GraphType::Leapfrog5_3(a, b, c, d, e),
                );
            }
        }
        if lf5_keep4(a, b, c, d, e) {
            let m = odd_kernel(eval(GraphType::Leapfrog5_4(a, b, c, d, e)) as nat) as int;
            if 1 <= m <= max_value && c0[m] >= layer {
                lemma_graph_contains_prefix(
                    g1[m]@,
                    g2[m]@,
                    GraphType::Leapfrog5_4(a, b, c, d, e),
                );
            }
        }
    }
}

/// Guards anchored at a later table transfer to the invocation's entry
/// table, since costs only relax within the layer.
proof fn lemma_lf5_recorded_anchor(
    c_early: Seq<u8>,
    c_late: Seq<u8>,
    graphs: Seq<Vec<GraphType>>,
    a: usize, b: usize, c: usize, d: usize, e: usize,
    layer: u8,
    max_value: usize,
)
    requires
        lf5_tuple_recorded(c_late, graphs, a, b, c, d, e, layer, max_value),
        cost_relaxed_to(c_early, c_late, layer),
        max_value < c_early.len(),
    ensures
        lf5_tuple_recorded(c_early, graphs, a, b, c, d, e, layer, max_value),
{
    if lf5_parity(a, b, c, d, e) {
        if lf5_keep1(a, b, c, d, e) {
            let m = odd_kernel(eval(GraphType::Leapfrog5_1(a, b, c, d, e)) as nat) as int;
            if 1 <= m <= max_value && c_early[m] >= layer {
                assert(c_late[m] == c_early[m] || (c_early[m] >= layer && c_late[m] == layer));
            }
        }
        if lf5_keep2(a, b, c, d, e) {
            let m = odd_kernel(eval(GraphType::Leapfrog5_2(a, b, c, d, e)) as nat) as int;
            if 1 <= m <= max_value && c_early[m] >= layer {
                assert(c_late[m] == c_early[m] || (c_early[m] >= layer && c_late[m] == layer));
            }
        }
        if lf5_keep3(a, b, c, d, e) {
            let m = odd_kernel(eval(GraphType::Leapfrog5_3(a, b, c, d, e)) as nat) as int;
            if 1 <= m <= max_value && c_early[m] >= layer {
                assert(c_late[m] == c_early[m] || (c_early[m] >= layer && c_late[m] == layer));
            }
        }
        if lf5_keep4(a, b, c, d, e) {
            let m = odd_kernel(eval(GraphType::Leapfrog5_4(a, b, c, d, e)) as nat) as int;
            if 1 <= m <= max_value && c_early[m] >= layer {
                assert(c_late[m] == c_early[m] || (c_early[m] >= layer && c_late[m] == layer));
            }
        }
    }
}

/// Every kept variant record of one kept 7-parameter tuple stands in the
/// graph table wherever the relaxation guard held on entry to the
/// invocation.
pub open spec fn lf7_tuple_recorded(
    c0: Seq<u8>,
    graphs: Seq<Vec<GraphType>>,
    a: usize, b: usize, c: usize, d: usize, e: usize, f: usize, g: usize,
    layer: u8,
    max_value: usize,
) -> bool {
    lf7_parity(a, b, c, d, e, f, g) ==> {
        &&& ({
            let m = odd_kernel(eval(GraphType::Leapfrog7_1(a, b, c, d, e, f, g)) as nat) as int;
            1 <= m <= max_value && c0[m] >= layer ==> graphs[m]@.contains(
                GraphType::Leapfrog7_1(a, b, c, d, e, f, g),
            )
        })
        &&& ({
            let m = odd_kernel(eval(GraphType::Leapfrog7_2(a, b, c, d, e, f, g)) as nat) as int;
            1 <= m <= max_value && c0[m] >= layer ==> graphs[m]@.contains(
                GraphType::Leapfrog7_2(a, b, c, d, e, f, g),
            )
        })
        &&& ({
            let m = odd_kernel(eval(GraphType::Leapfrog7_3(a, b, c, d, e, f, g)) as nat) as int;
            1 <= m <= max_value && c0[m] >= layer ==> graphs[m]@.contains(
                GraphType::Leapfrog7_3(a, b, c, d, e, f, g),
            )
        })
        &&& ({
            let m = odd_kernel(eval(GraphType::Leapfrog7_4(a, b, c, d, e, f, g)) as nat) as int;
            1 <= m <= max_value && c0[m] >= layer ==> graphs[m]@.contains(
                GraphType::Leapfrog7_4(a, b, c, d, e, f, g),
            )
        })
        &&& ({
            let m = odd_kernel(eval(GraphType::Leapfrog7_5(a, b, c, d, e, f, g)) as nat) as int;
            1 <= m <= max_value && c0[m] >= layer ==> graphs[m]@.contains(
                GraphType::Leapfrog7_5(a, b, c, d, e, f, g),
            )
        })
        &&& ({
            let m = odd_kernel(eval(GraphType::Leapfrog7_6(a, b, c, d, e, f, g)) as nat) as int;
            1 <= m <= max_value && c0[m] >= layer ==> graphs[m]@.contains(
                GraphType::Leapfrog7_6(a, b, c, d, e, f, g),
            )
        })
        &&& ({
            let m = odd_kernel(eval(GraphType::Leapfrog7_7(a, b, c, d, e, f, g)) as nat) as int;
            1 <= m <= max_value && c0[m] >= layer ==> graphs[m]@.contains(
                GraphType::Leapfrog7_7(a, b, c, d, e, f, g),
            )
        })
        &&& ({
            let m = odd_kernel(eval(GraphType::Leapfrog7_8(a, b, c, d, e, f, g)) as nat) as int;
            1 <= m <= max_value && c0[m] >= layer ==> graphs[m]@.contains(
                GraphType::Leapfrog7_8(a, b, c, d, e, f, g),
            )
        })
    }
}

/// A recorded tuple stays recorded when the graph lists only grow.
proof fn lemma_lf7_recorded_prefix(
    c0: Seq<u8>,
    g1: Seq<Vec<GraphType>>,
    g2: Seq<Vec<GraphType>>,
    a: usize, b: usize, c: usize, d: usize, e: usize, f: usize, g: usize,
    layer: u8,
    max_value: usize,
)
    requires
        lf7_tuple_recorded(c0, g1, a, b, c, d, e, f, g, layer, max_value),
        max_value < g1.len(),
        g2.len() == g1.len(),
        forall|n: int| 0 <= n < g1.len() ==> g1[n]@.is_prefix_of(#[trigger] g2[n]@),
    ensures
        lf7_tuple_recorded(c0, g2, a, b, c, d, e, f, g, layer, max_value),
{
    if lf7_parity(a, b, c, d, e, f, g) {
        {
            let m = odd_kernel(eval(GraphType::Leapfrog7_1(a, b, c, d, e, f, g)) as nat) as int;
            if 1 <= m <= max_value && c0[m] >= layer {
                lemma_graph_contains_prefix(
                    g1[m]@,
                    g2[m]@,
                    GraphType::Leapfrog7_1(a, b, c, d, e, f, g),
                );
            }
        }
        {
            let m = odd_kernel(eval(GraphType::Leapfrog7_2(a, b, c, d, e, f, g)) as nat) as int;
            if 1 <= m <= max_value && c0[m] >= layer {
                lemma_graph_contains_prefix(
                    g1[m]@,
                    g2[m]@,
                    GraphType::Leapfrog7_2(a, b, c, d, e, f, g),
                );
            }
        }
        {
            let m = odd_kernel(eval(GraphType::Leapfrog7_3(a, b, c, d, e, f, g)) as nat) as int;
            if 1 <= m <= max_value && c0[m] >= layer {
                lemma_graph_contains_prefix(
                    g1[m]@,
                    g2[m]@,
                    GraphType::Leapfrog7_3(a, b, c, d, e, f, g),
                );
            }
        }
        {
            let m = odd_kernel(eval(GraphType::Leapfrog7_4(a, b, c, d, e, f, g)) as nat) as int;
            if 1 <= m <= max_value && c0[m] >= layer {
                lemma_graph_contains_prefix(
                    g1[m]@,
                    g2[m]@,
                    GraphType::Leapfrog7_4(a, b, c, d, e, f, g),
                );
            }
        }
        {
            let m = odd_kernel(eval(GraphType::Leapfrog7_5(a, b, c, d, e, f, g)) as nat) as int;
            if 1 <= m <= max_value && c0[m] >= layer {
                lemma_graph_contains_prefix(
                    g1[m]@,
                    g2[m]@,
                    GraphType::Leapfrog7_5(a, b, c, d, e, f, g),
                );
            }
        }
        {
            let m = odd_kernel(eval(GraphType::Leapfrog7_6(a, b, c, d, e, f, g)) as nat) as int;
            if 1 <= m <= max_value && c0[m] >= layer {
                lemma_graph_contains_prefix(
                    g1[m]@,
                    g2[m]@,
                    GraphType::Leapfrog7_6(a, b, c, d, e, f, g),
                );
            }
        }
        {
            let m = odd_kernel(eval(GraphType::Leapfrog7_7(a, b, c, d, e, f, g)) as nat) as int;
            if 1 <= m <= max_value && c0[m] >= layer {
                lemma_graph_contains_prefix(
                    g1[m]@,
                    g2[m]@,
                    GraphType::Leapfrog7_7(a, b, c, d, e, f, g),
                );
            }
        }
        {
            let m = odd_kernel(eval(GraphType::Leapfrog7_8(a, b, c, d, e, f, g)) as nat) as int;
            if 1 <= m <= max_value && c0[m] >= layer {
                lemma_graph_contains_prefix(
                    g1[m]@,
                    g2[m]@,
                    GraphType::Leapfrog7_8(a, b, c, d, e, f, g),
                );
            }
        }
    }
}

/// Guards anchored at a later table transfer to the invocation's entry
/// table, since costs only relax within the layer.
proof fn lemma_lf7_recorded_anchor(
    c_early: Seq<u8>,
    c_late: Seq<u8>,
    graphs: Seq<Vec<GraphType>>,
    a: usize, b: usize, c: usize, d: usize, e: usize, f: usize, g: usize,
    layer: u8,
    max_value: usize,
)
    requires
        lf7_tuple_recorded(c_late, graphs, a, b, c, d, e, f, g, layer, max_value),
        cost_relaxed_to(c_early, c_late, layer),
        max_value < c_early.len(),
    ensures
        lf7_tuple_recorded(c_early, graphs, a, b, c, d, e, f, g, layer, max_value),
{
    if lf7_parity(a, b, c, d, e, f, g) {
        {
            let m = odd_kernel(eval(GraphType::Leapfrog7_1(a, b, c, d, e, f, g)) as nat) as int;
            if 1 <= m <= max_value && c_early[m] >= layer {
                assert(c_late[m] == c_early[m] || (c_early[m] >= layer && c_late[m] == layer));
            }
        }
        {
            let m = odd_kernel(eval(GraphType::Leapfrog7_2(a, b, c, d, e, f, g)) as nat) as int;
            if 1 <= m <= max_value && c_early[m] >= layer {
                assert(c_late[m] == c_early[m] || (c_early[m] >= layer && c_late[m] == layer));
            }
        }
        {
            let m = odd_kernel(eval(GraphType::Leapfrog7_3(a, b, c, d, e, f, g)) as nat) as int;
            if 1 <= m <= max_value && c_early[m] >= layer {
                assert(c_late[m] == c_early[m] || (c_early[m] >= layer && c_late[m] == layer));
            }
        }
        {
            let m = odd_kernel(eval(GraphType::Leapfrog7_4(a, b, c, d, e, f, g)) as nat) as int;
            if 1 <= m <= max_value && c_early[m] >= layer {
                assert(c_late[m] == c_early[m] || (c_early[m] >= layer && c_late[m] == layer));
            }
        }
        {
            let m = odd_kernel(eval(GraphType::Leapfrog7_5(a, b, c, d, e, f, g)) as nat) as int;
            if 1 <= m <= max_value && c_early[m] >= layer {
                assert(c_late[m] == c_early[m] || (c_early[m] >= layer && c_late[m] == layer));
            }
        }
        {
            let m = odd_kernel(eval(GraphType::Leapfrog7_6(a, b, c, d, e, f, g)) as nat) as int;
            if 1 <= m <= max_value && c_early[m] >= layer {
                assert(c_late[m] == c_early[m] || (c_early[m] >= layer && c_late[m] == layer));
            }
        }
        {
            let m = odd_kernel(eval(GraphType::Leapfrog7_7(a, b, c, d, e, f, g)) as nat) as int;
            if 1 <= m <= max_value && c_early[m] >= layer {
                assert(c_late[m] == c_early[m] || (c_early[m] >= layer && c_late[m] == layer));
            }
        }
        {
            let m = odd_kernel(eval(GraphType::Leapfrog7_8(a, b, c, d, e, f, g)) as nat) as int;
            if 1 <= m <= max_value && c_early[m] >= layer {
                assert(c_late[m] == c_early[m] || (c_early[m] >= layer && c_late[m] == layer));
            }
        }
    }
}

/// The parity pruning rule of the 4-parameter leapfrog kernel: a tuple
/// with two adjacent even parameters is skipped, since a smaller tuple with
/// one larger shift produces the same odd kernel.
pub open spec fn lf4_parity(a: usize, b: usize, d: usize, e: usize) -> bool {
    &&& !(a % 2 == 0 && b % 2 == 0)
    &&& !(a % 2 == 0 && d % 2 == 0)
    &&& !(d % 2 == 0 && e % 2 == 0)
}

/// The tuples the Leapfrog4_1 variant evaluates: those not suppressed
/// as a symmetric duplicate of another variant or an exchanged tuple.
pub open spec fn lf4_keep1(a: usize, b: usize, d: usize, e: usize) -> bool {
    !lf_sym(a, e) && !(b == d && a >= e)
}

/// The tuples the Leapfrog4_2 variant evaluates: those not suppressed
/// as a symmetric duplicate of another variant or an exchanged tuple.
pub open spec fn lf4_keep2(a: usize, b: usize, d: usize, e: usize) -> bool {
    !lf_sym(a, e)
}

/// The tuples the Leapfrog4_3 variant evaluates: those not suppressed
/// as a symmetric duplicate of another variant or an exchanged tuple.
pub open spec fn lf4_keep3(a: usize, b: usize, d: usize, e: usize) -> bool {
    !lf_sym(a, e) && !(b == 1 && d == 1 && a % 2 == 0 && e % 2 == 0)
}

/// The tuples the Leapfrog4_4 variant evaluates: those not suppressed
/// as a symmetric duplicate of another variant or an exchanged tuple.
pub open spec fn lf4_keep4(a: usize, b: usize, d: usize, e: usize) -> bool {
    !lf_sym(a, e) && !(a >= e && b == 1 && d == 1)
}

/// Every variant expression of one 4-parameter tuple has been offered to
/// the table, except variants a symmetry predicate suppresses.
pub open spec fn lf4_tuple_done(
    cost: Seq<u8>,
    a: usize, b: usize, d: usize, e: usize,
    layer: u8,
    max_value: usize,
) -> bool {
    lf4_parity(a, b, d, e) ==> {
        &&& (lf4_keep1(a, b, d, e) ==> kernel_done(
            cost,
            eval(GraphType::Leapfrog4_1(a, b, d, e)),
            layer,
            max_value,
        ))
        &&& (lf4_keep2(a, b, d, e) ==> kernel_done(
            cost,
            eval(GraphType::Leapfrog4_2(a, b, d, e)),
            layer,
            max_value,
        ))
        &&& (lf4_keep3(a, b, d, e) ==> kernel_done(
            cost,
            eval(GraphType::Leapfrog4_3(a, b, d, e)),
            layer,
            max_value,
        ))
        &&& (lf4_keep4(a, b, d, e) ==> kernel_done(
            cost,
            eval(GraphType::Leapfrog4_4(a, b, d, e)),
            layer,
            max_value,
        ))
    }
}

/// A record one kept 4-parameter tuple may produce at index `n`: one of
/// the variants its symmetry predicates keep, with `n` the odd kernel of the
/// variant's expression, within range.
pub open spec fn lf4_tuple_record(
    a: usize, b: usize, d: usize, e: usize,
    max_value: usize,
    gr: GraphType,
    n: int,
) -> bool {
    &&& lf4_parity(a, b, d, e)
    &&& 1 <= n <= max_value
    &&& n == odd_kernel(eval(gr) as nat)
    &&& {
        ||| (lf4_keep1(a, b, d, e) && gr == GraphType::Leapfrog4_1(a, b, d, e))
        ||| (lf4_keep2(a, b, d, e) && gr == GraphType::Leapfrog4_2(a, b, d, e))
        ||| (lf4_keep3(a, b, d, e) && gr == GraphType::Leapfrog4_3(a, b, d, e))
        ||| (lf4_keep4(a, b, d, e) && gr == GraphType::Leapfrog4_4(a, b, d, e))
    }
}

/// A record the 4-parameter leapfrog kernel may append at index `n`: a
/// kept tuple of the operand lists produces it.
pub open spec fn lf4_record_ok(
    terms1: Seq<usize>,
    terms2: Seq<usize>,
    terms4: Seq<usize>,
    terms5: Seq<usize>,
    max_value: usize,
    gr: GraphType,
    n: int,
) -> bool {
    exists|i1: int, i2: int, i4: int, i5: int|
        0 <= i1 < terms1.len() && 0 <= i2 < terms2.len() && 0 <= i4 < terms4.len() && 0 <= i5 < terms5.len() && lf4_tuple_record(
            #[trigger] terms1[i1], #[trigger] terms2[i2], #[trigger] terms4[i4], #[trigger] terms5[i5],
            max_value,
            gr,
            n,
        )
}

/// A done tuple stays done across further relaxations of the layer.
proof fn lemma_lf4_done_relax(
    c1: Seq<u8>,
    c2: Seq<u8>,
    a: usize, b: usize, d: usize, e: usize,
    layer: u8,
    max_value: usize,
)
    requires
        lf4_tuple_done(c1, a, b, d, e, layer, max_value),
        cost_relaxed_to(c1, c2, layer),
        max_value < c1.len(),
    ensures
        lf4_tuple_done(c2, a, b, d, e, layer, max_value),
{
    if lf4_parity(a, b, d, e) {
        if lf4_keep1(a, b, d, e) {
            lemma_kernel_done_relax(
                c1,
                c2,
                eval(GraphType::Leapfrog4_1(a, b, d, e)),
                layer,
                max_value,
            );
        }
        if lf4_keep2(a, b, d, e) {
            lemma_kernel_done_relax(
                c1,
                c2,
                eval(GraphType::Leapfrog4_2(a, b, d, e)),
                layer,
                max_value,
            );
        }
        if lf4_keep3(a, b, d, e) {
            lemma_kernel_done_relax(
                c1,
                c2,
                eval(GraphType::Leapfrog4_3(a, b, d, e)),
                layer,
                max_value,
            );
        }
        if lf4_keep4(a, b, d, e) {
            lemma_kernel_done_relax(
                c1,
                c2,
                eval(GraphType::Leapfrog4_4(a, b, d, e)),
                layer,
                max_value,
            );
        }
    }
}

/// The parity pruning rule of the 5-parameter leapfrog kernel: a tuple
/// with two adjacent even parameters is skipped, since a smaller tuple with
/// one larger shift produces the same odd kernel.
pub open spec fn lf5_parity(a: usize, b: usize, c: usize, d: usize, e: usize) -> bool {
    &&& !(a % 2 == 0 && b % 2 == 0)
    &&& !(odd_kernel(c as nat) == 1 || ((a % 2 == 0 || b % 2 == 0) && c % 2 == 0))
    &&& !((a % 2 == 0 || c % 2 == 0) && d % 2 == 0)
    &&& !((c % 2 == 0 || d % 2 == 0) && e % 2 == 0)
}

/// The tuples the Leapfrog5_1 variant evaluates: those not suppressed
/// as a symmetric duplicate of another variant or an exchanged tuple.
pub open spec fn lf5_keep1(a: usize, b: usize, c: usize, d: usize, e: usize) -> bool {
    b != d
}

/// The tuples the Leapfrog5_2 variant evaluates: those not suppressed
/// as a symmetric duplicate of another variant or an exchanged tuple.
pub open spec fn lf5_keep2(a: usize, b: usize, c: usize, d: usize, e: usize) -> bool {
    !lf_sym(a, e)
}

/// The tuples the Leapfrog5_3 variant evaluates: those not suppressed
/// as a symmetric duplicate of another variant or an exchanged tuple.
pub open spec fn lf5_keep3(a: usize, b: usize, c: usize, d: usize, e: usize) -> bool {
    !(b == 1 && d == 1) && !(b == d && d as int > c as int * e as int && a >= e) && !lf_sym(a, e)
}

/// The tuples the Leapfrog5_4 variant evaluates: those not suppressed
/// as a symmetric duplicate of another variant or an exchanged tuple.
pub open spec fn lf5_keep4(a: usize, b: usize, c: usize, d: usize, e: usize) -> bool {
    !lf_sym(a, e) && !(a >= e && b == 1 && d == 1 && a % 2 == 0 && e % 2 == 0)
}

/// Every variant expression of one 5-parameter tuple has been offered to
/// the table, except variants a symmetry predicate suppresses.
pub open spec fn lf5_tuple_done(
    cost: Seq<u8>,
    a: usize, b: usize, c: usize, d: usize, e: usize,
    layer: u8,
    max_value: usize,
) -> bool {
    lf5_parity(a, b, c, d, e) ==> {
        &&& (lf5_keep1(a, b, c, d, e) ==> kernel_done(
            cost,
            eval(GraphType::Leapfrog5_1(a, b, c, d, e)),
            layer,
            max_value,
        ))
        &&& (lf5_keep2(a, b, c, d, e) ==> kernel_done(
            cost,
            eval(GraphType::Leapfrog5_2(a, b, c, d, e)),
            layer,
            max_value,
        ))
        &&& (lf5_keep3(a, b, c, d, e) ==> kernel_done(
            cost,
            eval(GraphType::Leapfrog5_3(a, b, c, d, e)),
            layer,
            max_value,
        ))
        &&& (lf5_keep4(a, b, c, d, e) ==> kernel_done(
            cost,
            eval(GraphType::Leapfrog5_4(a, b, c, d, e)),
            layer,
            max_value,
        ))
    }
}

/// A record one kept 5-parameter tuple may produce at index `n`: one of
/// the variants its symmetry predicates keep, with `n` the odd kernel of the
/// variant's expression, within range.
pub open spec fn lf5_tuple_record(
    a: usize, b: usize, c: usize, d: usize, e: usize,
    max_value: usize,
    gr: GraphType,
    n: int,
) -> bool {
    &&& lf5_parity(a, b, c, d, e)
    &&& 1 <= n <= max_value
    &&& n == odd_kernel(eval(gr) as nat)
    &&& {
        ||| (lf5_keep1(a, b, c, d, e) && gr == GraphType::Leapfrog5_1(a, b, c, d, e))
        ||| (lf5_keep2(a, b, c, d, e) && gr == GraphType::Leapfrog5_2(a, b, c, d, e))
        ||| (lf5_keep3(a, b, c, d, e) && gr == GraphType::Leapfrog5_3(a, b, c, d, e))
        ||| (lf5_keep4(a, b, c, d, e) && gr == GraphType::Leapfrog5_4(a, b, c, d, e))
    }
}

/// A record the 5-parameter leapfrog kernel may append at index `n`: a
/// kept tuple of the operand lists produces it.
pub open spec fn lf5_record_ok(
    terms1: Seq<usize>,
    terms2: Seq<usize>,
    terms3: Seq<usize>,
    terms4: Seq<usize>,
    terms5: Seq<usize>,
    max_value: usize,
    gr: GraphType,
    n: int,
) -> bool {
    exists|i1: int, i2: int, i3: int, i4: int, i5: int|
        0 <= i1 < terms1.len() && 0 <= i2 < terms2.len() && 0 <= i3 < terms3.len() && 0 <= i4 < terms4.len() && 0 <= i5 < terms5.len() && lf5_tuple_record(
            #[trigger] terms1[i1], #[trigger] terms2[i2], #[trigger] terms3[i3], #[trigger] terms4[i4], #[trigger] terms5[i5],
            max_value,
            gr,
            n,
        )
}

/// A done tuple stays done across further relaxations of the layer.
proof fn lemma_lf5_done_relax(
    c1: Seq<u8>,
    c2: Seq<u8>,
    a: usize, b: usize, c: usize, d: usize, e: usize,
    layer: u8,
    max_value: usize,
)
    requires
        lf5_tuple_done(c1, a, b, c, d, e, layer, max_value),
        cost_relaxed_to(c1, c2, layer),
        max_value < c1.len(),
    ensures
        lf5_tuple_done(c2, a, b, c, d, e, layer, max_value),
{
    if lf5_parity(a, b, c, d, e) {
        if lf5_keep1(a, b, c, d, e) {
            lemma_kernel_done_relax(
                c1,
                c2,
                eval(GraphType::Leapfrog5_1(a, b, c, d, e)),
                layer,
                max_value,
            );
        }
        if lf5_keep2(a, b, c, d, e) {
            lemma_kernel_done_relax(
                c1,
                c2,
                eval(GraphType::Leapfrog5_2(a, b, c, d, e)),
                layer,
                max_value,
            );
        }
        if lf5_keep3(a, b, c, d, e) {
            lemma_kernel_done_relax(
                c1,
                c2,
                eval(GraphType::Leapfrog5_3(a, b, c, d, e)),
                layer,
                max_value,
            );
        }
        if lf5_keep4(a, b, c, d, e) {
            lemma_kernel_done_relax(
                c1,
                c2,
                eval(GraphType::Leapfrog5_4(a, b, c, d, e)),
                layer,
                max_value,
            );
        }
    }
}

/// The parity pruning rule of the 7-parameter leapfrog kernel: a tuple
/// with two adjacent even parameters is skipped, since a smaller tuple with
/// one larger shift produces the same odd kernel.
pub open spec fn lf7_parity(a: usize, b: usize, c: usize, d: usize, e: usize, f: usize, g: usize) -> bool {
    &&& !(a % 2 == 0 && b % 2 == 0)
    &&& !(b % 2 == 0 && c % 2 == 0)
    &&& !((b % 2 == 0 || c % 2 == 0) && d % 2 == 0)
    &&& !(d % 2 == 0 && e % 2 == 0)
    &&& !((d % 2 == 0 || e % 2 == 0) && f % 2 == 0)
    &&& !(f % 2 == 0 && g % 2 == 0)
}

/// Every variant expression of one 7-parameter tuple has been offered to
/// the table, except variants a symmetry predicate suppresses.
pub open spec fn lf7_tuple_done(
    cost: Seq<u8>,
    a: usize, b: usize, c: usize, d: usize, e: usize, f: usize, g: usize,
    layer: u8,
    max_value: usize,
) -> bool {
    lf7_parity(a, b, c, d, e, f, g) ==> {
        &&& (kernel_done(
            cost,
            eval(GraphType::Leapfrog7_1(a, b, c, d, e, f, g)),
            layer,
            max_value,
        ))
        &&& (kernel_done(
            cost,
            eval(GraphType::Leapfrog7_2(a, b, c, d, e, f, g)),
            layer,
            max_value,
        ))
        &&& (kernel_done(
            cost,
            eval(GraphType::Leapfrog7_3(a, b, c, d, e, f, g)),
            layer,
            max_value,
        ))
        &&& (kernel_done(
            cost,
            eval(GraphType::Leapfrog7_4(a, b, c, d, e, f, g)),
            layer,
            max_value,
        ))
        &&& (kernel_done(
            cost,
            eval(GraphType::Leapfrog7_5(a, b, c, d, e, f, g)),
            layer,
            max_value,
        ))
        &&& (kernel_done(
            cost,
            eval(GraphType::Leapfrog7_6(a, b, c, d, e, f, g)),
            layer,
            max_value,
        ))
        &&& (kernel_done(
            cost,
            eval(GraphType::Leapfrog7_7(a, b, c, d, e, f, g)),
            layer,
            max_value,
        ))
        &&& (kernel_done(
            cost,
            eval(GraphType::Leapfrog7_8(a, b, c, d, e, f, g)),
            layer,
            max_value,
        ))
    }
}

/// A record one kept 7-parameter tuple may produce at index `n`: one of
/// the variants its symmetry predicates keep, with `n` the odd kernel of the
/// variant's expression, within range.
pub open spec fn lf7_tuple_record(
    a: usize, b: usize, c: usize, d: usize, e: usize, f: usize, g: usize,
    max_value: usize,
    gr: GraphType,
    n: int,
) -> bool {
    &&& lf7_parity(a, b, c, d, e, f, g)
    &&& 1 <= n <= max_value
    &&& n == odd_kernel(eval(gr) as nat)
    &&& {
        ||| (gr == GraphType::Leapfrog7_1(a, b, c, d, e, f, g))
        ||| (gr == GraphType::Leapfrog7_2(a, b, c, d, e, f, g))
        ||| (gr == GraphType::Leapfrog7_3(a, b, c, d, e, f, g))
        ||| (gr == GraphType::Leapfrog7_4(a, b, c, d, e, f, g))
        ||| (gr == GraphType::Leapfrog7_5(a, b, c, d, e, f, g))
        ||| (gr == GraphType::Leapfrog7_6(a, b, c, d, e, f, g))
        ||| (gr == GraphType::Leapfrog7_7(a, b, c, d, e, f, g))
        ||| (gr == GraphType::Leapfrog7_8(a, b, c, d, e, f, g))
    }
}

/// A record the 7-parameter leapfrog kernel may append at index `n`: a
/// kept tuple of the operand lists produces it.
pub open spec fn lf7_record_ok(
    terms1: Seq<usize>,
    terms2: Seq<usize>,
    terms3: Seq<usize>,
    terms4: Seq<usize>,
    terms5: Seq<usize>,
    terms6: Seq<usize>,
    terms7: Seq<usize>,
    max_value: usize,
    gr: GraphType,
    n: int,
) -> bool {
    exists|i1: int, i2: int, i3: int, i4: int, i5: int, i6: int, i7: int|
        0 <= i1 < terms1.len() && 0 <= i2 < terms2.len() && 0 <= i3 < terms3.len() && 0 <= i4 < terms4.len() && 0 <= i5 < terms5.len() && 0 <= i6 < terms6.len() && 0 <= i7 < terms7.len() && lf7_tuple_record(
            #[trigger] terms1[i1], #[trigger] terms2[i2], #[trigger] terms3[i3], #[trigger] terms4[i4], #[trigger] terms5[i5], #[trigger] terms6[i6], #[trigger] terms7[i7],
            max_value,
            gr,
            n,
        )
}

/// A done tuple stays done across further relaxations of the layer.
proof fn lemma_lf7_done_relax(
    c1: Seq<u8>,
    c2: Seq<u8>,
    a: usize, b: usize, c: usize, d: usize, e: usize, f: usize, g: usize,
    layer: u8,
    max_value: usize,
)
    requires
        lf7_tuple_done(c1, a, b, c, d, e, f, g, layer, max_value),
        cost_relaxed_to(c1, c2, layer),
        max_value < c1.len(),
    ensures
        lf7_tuple_done(c2, a, b, c, d, e, f, g, layer, max_value),
{
    if lf7_parity(a, b, c, d, e, f, g) {
        {
            lemma_kernel_done_relax(
                c1,
                c2,
                eval(GraphType::Leapfrog7_1(a, b, c, d, e, f, g)),
                layer,
                max_value,
            );
        }
        {
            lemma_kernel_done_relax(
                c1,
                c2,
                eval(GraphType::Leapfrog7_2(a, b, c, d, e, f, g)),
                layer,
                max_value,
            );
        }
        {
            lemma_kernel_done_relax(
                c1,
                c2,
                eval(GraphType::Leapfrog7_3(a, b, c, d, e, f, g)),
                layer,
                max_value,
            );
        }
        {
            lemma_kernel_done_relax(
                c1,
                c2,
                eval(GraphType::Leapfrog7_4(a, b, c, d, e, f, g)),
                layer,
                max_value,
            );
        }
        {
            lemma_kernel_done_relax(
                c1,
                c2,
                eval(GraphType::Leapfrog7_5(a, b, c, d, e, f, g)),
                layer,
                max_value,
            );
        }
        {
            lemma_kernel_done_relax(
                c1,
                c2,
                eval(GraphType::Leapfrog7_6(a, b, c, d, e, f, g)),
                layer,
                max_value,
            );
        }
        {
            lemma_kernel_done_relax(
                c1,
                c2,
                eval(GraphType::Leapfrog7_7(a, b, c, d, e, f, g)),
                layer,
                max_value,
            );
        }
        {
            lemma_kernel_done_relax(
                c1,
                c2,
                eval(GraphType::Leapfrog7_8(a, b, c, d, e, f, g)),
                layer,
                max_value,
            );
        }
    }
}

/// Offer variant expressions 1 through 2 of one kept
/// 4-parameter tuple to the table.
#[verifier::rlimit(100)]
fn lf4_relax_part_one(
    adder_count: &mut Vec<u8>,
    adder_structures: &mut Vec<Vec<GraphType>>,
    term1: usize,
    term2: usize,
    term4: usize,
    term5: usize,
    adder_cost: u8,
    max_value: usize,
    Ghost(p): Ghost<spec_fn(GraphType, int) -> bool>,
)
    requires
        table_wf(old(adder_count)@, old(adder_structures)@, adder_cost),
        0 < adder_cost < COST_SENTINEL,
        max_value < old(adder_count)@.len(),
        lf4_parity(term1, term2, term4, term5),
        leaf_below(old(adder_count)@, term1, adder_cost) && term1 <= TERM_LIMIT,
        leaf_below(old(adder_count)@, term2, adder_cost) && term2 <= TERM_LIMIT,
        leaf_below(old(adder_count)@, term4, adder_cost) && term4 <= TERM_LIMIT,
        leaf_below(old(adder_count)@, term5, adder_cost) && term5 <= TERM_LIMIT,
        forall|gr: GraphType, nn: int|
            lf4_tuple_record(term1, term2, term4, term5, max_value, gr, nn) ==> #[trigger] p(gr, nn),
    ensures
        table_wf(final(adder_count)@, final(adder_structures)@, adder_cost),
        cost_relaxed_to(old(adder_count)@, final(adder_count)@, adder_cost),
        final(adder_structures)@.len() == old(adder_structures)@.len(),
        (lf4_keep1(term1, term2, term4, term5) ==> kernel_done(
            final(adder_count)@,
            eval(GraphType::Leapfrog4_1(term1, term2, term4, term5)),
            adder_cost,
            max_value,
        )),
        (lf4_keep2(term1, term2, term4, term5) ==> kernel_done(
            final(adder_count)@,
            eval(GraphType::Leapfrog4_2(term1, term2, term4, term5)),
            adder_cost,
            max_value,
        )),
        ({
            let m = odd_kernel(eval(GraphType::Leapfrog4_1(term1, term2, term4, term5)) as nat) as int;
            lf4_keep1(term1, term2, term4, term5) && 1 <= m <= max_value && old(adder_count)@[m] >= adder_cost
                ==> final(adder_structures)@[m]@.contains(GraphType::Leapfrog4_1(term1, term2, term4, term5))
        }),
        ({
            let m = odd_kernel(eval(GraphType::Leapfrog4_2(term1, term2, term4, term5)) as nat) as int;
            lf4_keep2(term1, term2, term4, term5) && 1 <= m <= max_value && old(adder_count)@[m] >= adder_cost
                ==> final(adder_structures)@[m]@.contains(GraphType::Leapfrog4_2(term1, term2, term4, term5))
        }),
        table_evolution(
            old(adder_count)@,
            old(adder_structures)@,
            final(adder_count)@,
            final(adder_structures)@,
            adder_cost,
            p,
        ),
{
    let t1 = term1 as u128;
    let t2 = term2 as u128;
    let t4 = term4 as u128;
    let t5 = term5 as u128;
    let t1_odd = term1 % 2 == 1;
    let t5_odd = term5 % 2 == 1;
    proof {
        vstd::arithmetic::mul::lemma_mul_upper_bound(
            t5 as int,
            TERM_LIMIT as int,
            (t1 + t2) as int,
            2 * TERM_LIMIT as int,
        );
        vstd::arithmetic::mul::lemma_mul_upper_bound(
            t1 as int,
            TERM_LIMIT as int,
            t4 as int,
            TERM_LIMIT as int,
        );
        vstd::arithmetic::mul::lemma_mul_upper_bound(
            t5 as int,
            TERM_LIMIT as int,
            dist(t1 as int, t2 as int),
            TERM_LIMIT as int,
        );
    }
    let diff12 = dist_u128(t1, t2);
    let m_sum = t5 * (t1 + t2);
    let m_diff = t5 * diff12;
    let m_ad = t1 * t4;
    let v1 = m_sum + m_ad;
    let v2 = dist_u128(m_sum, m_ad);
    let v3 = m_diff + m_ad;
    let v4 = dist_u128(m_diff, m_ad);
    proof {
        assert(eval(GraphType::Leapfrog4_1(term1, term2, term4, term5)) == v1 as int);
        assert(eval(GraphType::Leapfrog4_2(term1, term2, term4, term5)) == v2 as int);
        assert(eval(GraphType::Leapfrog4_3(term1, term2, term4, term5)) == v3 as int);
        assert(eval(GraphType::Leapfrog4_4(term1, term2, term4, term5)) == v4 as int);
    }
    let ghost c_base = adder_count@;
    let ghost g_base = adder_structures@;
    proof {
        lemma_evolution_refl(c_base, g_base, adder_cost, p);
    }
    let ghost cs1 = adder_count@;
    let ghost gs1 = adder_structures@;
    if !(t1_odd && t5_odd && t1 >= t5) && !(t2 == t4 && t1 >= t5) {
        let gr = GraphType::Leapfrog4_1(term1, term2, term4, term5);
        proof {
                lemma_leaf_still_below(c_base, adder_count@, term1, adder_cost);
                lemma_leaf_still_below(c_base, adder_count@, term2, adder_cost);
                lemma_leaf_still_below(c_base, adder_count@, term4, adder_cost);
                lemma_leaf_still_below(c_base, adder_count@, term5, adder_cost);
        }
        relax_graph(adder_count, adder_structures, v1, gr, adder_cost, max_value);
        proof {
            if !(adder_count@ == cs1 && adder_structures@ == gs1) {
                let m = odd_kernel(v1 as nat) as int;
                assert(lf4_tuple_record(term1, term2, term4, term5, max_value, gr, m));
                assert(p(gr, m));
                lemma_evolution_push(
                    c_base,
                    g_base,
                    cs1,
                    gs1,
                    adder_count@,
                    adder_structures@,
                    m,
                    gr,
                    adder_cost,
                    p,
                );
            }
            {
                let m = odd_kernel(v1 as nat) as int;
                if 1 <= m <= max_value && c_base[m] >= adder_cost {
                    // the guard still held at this candidate, so it appended
                    assert(cs1[m] == c_base[m] || (c_base[m] >= adder_cost && cs1[m]
                        == adder_cost));
                    assert(adder_structures@[m]@ == gs1[m]@.push(gr));
                    assert(adder_structures@[m]@[gs1[m]@.len() as int] == gr);
                    assert(adder_structures@[m]@.contains(gr));
                }
            }
        }
    }
    proof {
        assert(cost_relaxed_to(cs1, adder_count@, adder_cost));
        lemma_cost_relaxed_trans(c_base, cs1, adder_count@, adder_cost);
    }
    let ghost cs2 = adder_count@;
    let ghost gs2 = adder_structures@;
    if !(t1_odd && t5_odd && t1 >= t5) {
        let gr = GraphType::Leapfrog4_2(term1, term2, term4, term5);
        proof {
                lemma_leaf_still_below(c_base, adder_count@, term1, adder_cost);
                lemma_leaf_still_below(c_base, adder_count@, term2, adder_cost);
                lemma_leaf_still_below(c_base, adder_count@, term4, adder_cost);
                lemma_leaf_still_below(c_base, adder_count@, term5, adder_cost);
        }
        relax_graph(adder_count, adder_structures, v2, gr, adder_cost, max_value);
        proof {
            if !(adder_count@ == cs2 && adder_structures@ == gs2) {
                let m = odd_kernel(v2 as nat) as int;
                assert(lf4_tuple_record(term1, term2, term4, term5, max_value, gr, m));
                assert(p(gr, m));
                lemma_evolution_push(
                    c_base,
                    g_base,
                    cs2,
                    gs2,
                    adder_count@,
                    adder_structures@,
                    m,
                    gr,
                    adder_cost,
                    p,
                );
            }
            {
                let m = odd_kernel(v2 as nat) as int;
                if 1 <= m <= max_value && c_base[m] >= adder_cost {
                    // the guard still held at this candidate, so it appended
                    assert(cs2[m] == c_base[m] || (c_base[m] >= adder_cost && cs2[m]
                        == adder_cost));
                    assert(adder_structures@[m]@ == gs2[m]@.push(gr));
                    assert(adder_structures@[m]@[gs2[m]@.len() as int] == gr);
                    assert(adder_structures@[m]@.contains(gr));
                }
            }
        }
    }
    proof {
        assert(cost_relaxed_to(cs2, adder_count@, adder_cost));
        lemma_cost_relaxed_trans(c_base, cs2, adder_count@, adder_cost);
        if lf4_keep1(term1, term2, term4, term5) {
            lemma_kernel_done_relax(cs2, adder_count@, v1 as int, adder_cost, max_value);
            let m_w = odd_kernel(v1 as nat) as int;
            if 1 <= m_w <= max_value && c_base[m_w] >= adder_cost {
                if adder_structures@[m_w] != gs2[m_w] {
                    assert(adder_structures@[m_w]@ == gs2[m_w]@.push(
                        GraphType::Leapfrog4_2(term1, term2, term4, term5),
                    ));
                    lemma_graph_contains_push(
                        gs2[m_w]@,
                        GraphType::Leapfrog4_2(term1, term2, term4, term5),
                        GraphType::Leapfrog4_1(term1, term2, term4, term5),
                    );
                }
                assert(adder_structures@[m_w]@.contains(GraphType::Leapfrog4_1(term1, term2, term4, term5)));
            }
        }
    }
    proof {
        if lf4_keep1(term1, term2, term4, term5) {
            assert(kernel_done(adder_count@, v1 as int, adder_cost, max_value));
            assert(eval(GraphType::Leapfrog4_1(term1, term2, term4, term5)) == v1 as int);
            let m = odd_kernel(v1 as nat) as int;
            if 1 <= m <= max_value && c_base[m] >= adder_cost {
                assert(adder_structures@[m]@.contains(GraphType::Leapfrog4_1(term1, term2, term4, term5)));
            }
        }
        if lf4_keep2(term1, term2, term4, term5) {
            assert(kernel_done(adder_count@, v2 as int, adder_cost, max_value));
            assert(eval(GraphType::Leapfrog4_2(term1, term2, term4, term5)) == v2 as int);
            let m = odd_kernel(v2 as nat) as int;
            if 1 <= m <= max_value && c_base[m] >= adder_cost {
                assert(adder_structures@[m]@.contains(GraphType::Leapfrog4_2(term1, term2, term4, term5)));
            }
        }
    }
}

/// Offer variant expressions 3 through 4 of one kept
/// 4-parameter tuple to the table.
#[verifier::rlimit(100)]
fn lf4_relax_part_two(
    adder_count: &mut Vec<u8>,
    adder_structures: &mut Vec<Vec<GraphType>>,
    term1: usize,
    term2: usize,
    term4: usize,
    term5: usize,
    adder_cost: u8,
    max_value: usize,
    Ghost(p): Ghost<spec_fn(GraphType, int) -> bool>,
)
    requires
        table_wf(old(adder_count)@, old(adder_structures)@, adder_cost),
        0 < adder_cost < COST_SENTINEL,
        max_value < old(adder_count)@.len(),
        lf4_parity(term1, term2, term4, term5),
        leaf_below(old(adder_count)@, term1, adder_cost) && term1 <= TERM_LIMIT,
        leaf_below(old(adder_count)@, term2, adder_cost) && term2 <= TERM_LIMIT,
        leaf_below(old(adder_count)@, term4, adder_cost) && term4 <= TERM_LIMIT,
        leaf_below(old(adder_count)@, term5, adder_cost) && term5 <= TERM_LIMIT,
        forall|gr: GraphType, nn: int|
            lf4_tuple_record(term1, term2, term4, term5, max_value, gr, nn) ==> #[trigger] p(gr, nn),
    ensures
        table_wf(final(adder_count)@, final(adder_structures)@, adder_cost),
        cost_relaxed_to(old(adder_count)@, final(adder_count)@, adder_cost),
        final(adder_structures)@.len() == old(adder_structures)@.len(),
        (lf4_keep3(term1, term2, term4, term5) ==> kernel_done(
            final(adder_count)@,
            eval(GraphType::Leapfrog4_3(term1, term2, term4, term5)),
            adder_cost,
            max_value,
        )),
        (lf4_keep4(term1, term2, term4, term5) ==> kernel_done(
            final(adder_count)@,
            eval(GraphType::Leapfrog4_4(term1, term2, term4, term5)),
            adder_cost,
            max_value,
        )),
        ({
            let m = odd_kernel(eval(GraphType::Leapfrog4_3(term1, term2, term4, term5)) as nat) as int;
            lf4_keep3(term1, term2, term4, term5) && 1 <= m <= max_value && old(adder_count)@[m] >= adder_cost
                ==> final(adder_structures)@[m]@.contains(GraphType::Leapfrog4_3(term1, term2, term4, term5))
        }),
        ({
            let m = odd_kernel(eval(GraphType::Leapfrog4_4(term1, term2, term4, term5)) as nat) as int;
            lf4_keep4(term1, term2, term4, term5) && 1 <= m <= max_value && old(adder_count)@[m] >= adder_cost
                ==> final(adder_structures)@[m]@.contains(GraphType::Leapfrog4_4(term1, term2, term4, term5))
        }),
        table_evolution(
            old(adder_count)@,
            old(adder_structures)@,
            final(adder_count)@,
            final(adder_structures)@,
            adder_cost,
            p,
        ),
{
    let t1 = term1 as u128;
    let t2 = term2 as u128;
    let t4 = term4 as u128;
    let t5 = term5 as u128;
    let t1_odd = term1 % 2 == 1;
    let t5_odd = term5 % 2 == 1;
    proof {
        vstd::arithmetic::mul::lemma_mul_upper_bound(
            t5 as int,
            TERM_LIMIT as int,
            (t1 + t2) as int,
            2 * TERM_LIMIT as int,
        );
        vstd::arithmetic::mul::lemma_mul_upper_bound(
            t1 as int,
            TERM_LIMIT as int,
            t4 as int,
            TERM_LIMIT as int,
        );
        vstd::arithmetic::mul::lemma_mul_upper_bound(
            t5 as int,
            TERM_LIMIT as int,
            dist(t1 as int, t2 as int),
            TERM_LIMIT as int,
        );
    }
    let diff12 = dist_u128(t1, t2);
    let m_sum = t5 * (t1 + t2);
    let m_diff = t5 * diff12;
    let m_ad = t1 * t4;
    let v1 = m_sum + m_ad;
    let v2 = dist_u128(m_sum, m_ad);
    let v3 = m_diff + m_ad;
    let v4 = dist_u128(m_diff, m_ad);
    proof {
        assert(eval(GraphType::Leapfrog4_1(term1, term2, term4, term5)) == v1 as int);
        assert(eval(GraphType::Leapfrog4_2(term1, term2, term4, term5)) == v2 as int);
        assert(eval(GraphType::Leapfrog4_3(term1, term2, term4, term5)) == v3 as int);
        assert(eval(GraphType::Leapfrog4_4(term1, term2, term4, term5)) == v4 as int);
    }
    let ghost c_base = adder_count@;
    let ghost g_base = adder_structures@;
    proof {
        lemma_evolution_refl(c_base, g_base, adder_cost, p);
    }
    let ghost cs3 = adder_count@;
    let ghost gs3 = adder_structures@;
    if !(t1_odd && t5_odd && t1 >= t5) && !(term2 == 1 && term4 == 1 && term1 % 2 == 0 && term5 % 2 == 0) {
        let gr = GraphType::Leapfrog4_3(term1, term2, term4, term5);
        proof {
                lemma_leaf_still_below(c_base, adder_count@, term1, adder_cost);
                lemma_leaf_still_below(c_base, adder_count@, term2, adder_cost);
                lemma_leaf_still_below(c_base, adder_count@, term4, adder_cost);
                lemma_leaf_still_below(c_base, adder_count@, term5, adder_cost);
        }
        relax_graph(adder_count, adder_structures, v3, gr, adder_cost, max_value);
        proof {
            if !(adder_count@ == cs3 && adder_structures@ == gs3) {
                let m = odd_kernel(v3 as nat) as int;
                assert(lf4_tuple_record(term1, term2, term4, term5, max_value, gr, m));
                assert(p(gr, m));
                lemma_evolution_push(
                    c_base,
                    g_base,
                    cs3,
                    gs3,
                    adder_count@,
                    adder_structures@,
                    m,
                    gr,
                    adder_cost,
                    p,
                );
            }
            {
                let m = odd_kernel(v3 as nat) as int;
                if 1 <= m <= max_value && c_base[m] >= adder_cost {
                    // the guard still held at this candidate, so it appended
                    assert(cs3[m] == c_base[m] || (c_base[m] >= adder_cost && cs3[m]
                        == adder_cost));
                    assert(adder_structures@[m]@ == gs3[m]@.push(gr));
                    assert(adder_structures@[m]@[gs3[m]@.len() as int] == gr);
                    assert(adder_structures@[m]@.contains(gr));
                }
            }
        }
    }
    proof {
        assert(cost_relaxed_to(cs3, adder_count@, adder_cost));
        lemma_cost_relaxed_trans(c_base, cs3, adder_count@, adder_cost);
    }
    let ghost cs4 = adder_count@;
    let ghost gs4 = adder_structures@;
    if !(t1_odd && t5_odd && t1 >= t5) && !(term1 >= term5 && term2 == 1 && term4 == 1) {
        let gr = GraphType::Leapfrog4_4(term1, term2, term4, term5);
        proof {
                lemma_leaf_still_below(c_base, adder_count@, term1, adder_cost);
                lemma_leaf_still_below(c_base, adder_count@, term2, adder_cost);
                lemma_leaf_still_below(c_base, adder_count@, term4, adder_cost);
                lemma_leaf_still_below(c_base, adder_count@, term5, adder_cost);
        }
        relax_graph(adder_count, adder_structures, v4, gr, adder_cost, max_value);
        proof {
            if !(adder_count@ == cs4 && adder_structures@ == gs4) {
                let m = odd_kernel(v4 as nat) as int;
                assert(lf4_tuple_record(term1, term2, term4, term5, max_value, gr, m));
                assert(p(gr, m));
                lemma_evolution_push(
                    c_base,
                    g_base,
                    cs4,
                    gs4,
                    adder_count@,
                    adder_structures@,
                    m,
                    gr,
                    adder_cost,
                    p,
                );
            }
            {
                let m = odd_kernel(v4 as nat) as int;
                if 1 <= m <= max_value && c_base[m] >= adder_cost {
                    // the guard still held at this candidate, so it appended
                    assert(cs4[m] == c_base[m] || (c_base[m] >= adder_cost && cs4[m]
                        == adder_cost));
                    assert(adder_structures@[m]@ == gs4[m]@.push(gr));
                    assert(adder_structures@[m]@[gs4[m]@.len() as int] == gr);
                    assert(adder_structures@[m]@.contains(gr));
                }
            }
        }
    }
    proof {
        assert(cost_relaxed_to(cs4, adder_count@, adder_cost));
        lemma_cost_relaxed_trans(c_base, cs4, adder_count@, adder_cost);
        if lf4_keep3(term1, term2, term4, term5) {
            lemma_kernel_done_relax(cs4, adder_count@, v3 as int, adder_cost, max_value);
            let m_w = odd_kernel(v3 as nat) as int;
            if 1 <= m_w <= max_value && c_base[m_w] >= adder_cost {
                if adder_structures@[m_w] != gs4[m_w] {
                    assert(adder_structures@[m_w]@ == gs4[m_w]@.push(
                        GraphType::Leapfrog4_4(term1, term2, term4, term5),
                    ));
                    lemma_graph_contains_push(
                        gs4[m_w]@,
                        GraphType::Leapfrog4_4(term1, term2, term4, term5),
                        GraphType::Leapfrog4_3(term1, term2, term4, term5),
                    );
                }
                assert(adder_structures@[m_w]@.contains(GraphType::Leapfrog4_3(term1, term2, term4, term5)));
            }
        }
    }
    proof {
        if lf4_keep3(term1, term2, term4, term5) {
            assert(kernel_done(adder_count@, v3 as int, adder_cost, max_value));
            assert(eval(GraphType::Leapfrog4_3(term1, term2, term4, term5)) == v3 as int);
            let m = odd_kernel(v3 as nat) as int;
            if 1 <= m <= max_value && c_base[m] >= adder_cost {
                assert(adder_structures@[m]@.contains(GraphType::Leapfrog4_3(term1, term2, term4, term5)));
            }
        }
        if lf4_keep4(term1, term2, term4, term5) {
            assert(kernel_done(adder_count@, v4 as int, adder_cost, max_value));
            assert(eval(GraphType::Leapfrog4_4(term1, term2, term4, term5)) == v4 as int);
            let m = odd_kernel(v4 as nat) as int;
            if 1 <= m <= max_value && c_base[m] >= adder_cost {
                assert(adder_structures@[m]@.contains(GraphType::Leapfrog4_4(term1, term2, term4, term5)));
            }
        }
    }
}

/// Offer every variant expression of one kept 4-parameter tuple to the
/// table.
#[verifier::rlimit(100)]
fn lf4_relax_tuple(
    adder_count: &mut Vec<u8>,
    adder_structures: &mut Vec<Vec<GraphType>>,
    term1: usize,
    term2: usize,
    term4: usize,
    term5: usize,
    adder_cost: u8,
    max_value: usize,
    Ghost(p): Ghost<spec_fn(GraphType, int) -> bool>,
)
    requires
        table_wf(old(adder_count)@, old(adder_structures)@, adder_cost),
        0 < adder_cost < COST_SENTINEL,
        max_value < old(adder_count)@.len(),
        lf4_parity(term1, term2, term4, term5),
        leaf_below(old(adder_count)@, term1, adder_cost) && term1 <= TERM_LIMIT,
        leaf_below(old(adder_count)@, term2, adder_cost) && term2 <= TERM_LIMIT,
        leaf_below(old(adder_count)@, term4, adder_cost) && term4 <= TERM_LIMIT,
        leaf_below(old(adder_count)@, term5, adder_cost) && term5 <= TERM_LIMIT,
        forall|gr: GraphType, nn: int|
            lf4_tuple_record(term1, term2, term4, term5, max_value, gr, nn) ==> #[trigger] p(gr, nn),
    ensures
        table_wf(final(adder_count)@, final(adder_structures)@, adder_cost),
        cost_relaxed_to(old(adder_count)@, final(adder_count)@, adder_cost),
        final(adder_structures)@.len() == old(adder_structures)@.len(),
        lf4_tuple_done(final(adder_count)@, term1, term2, term4, term5, adder_cost, max_value),
        lf4_tuple_recorded(
            old(adder_count)@,
            final(adder_structures)@,
            term1, term2, term4, term5,
            adder_cost,
            max_value,
        ),
        table_evolution(
            old(adder_count)@,
            old(adder_structures)@,
            final(adder_count)@,
            final(adder_structures)@,
            adder_cost,
            p,
        ),
{
    let ghost c_base = adder_count@;
    let ghost g_base = adder_structures@;
    let ghost c_p0 = adder_count@;
    let ghost g_p0 = adder_structures@;
    lf4_relax_part_one(
        adder_count,
        adder_structures,
        term1, term2, term4, term5,
        adder_cost,
        max_value,
        Ghost(p),
    );
    proof {
        lemma_cost_relaxed_trans(c_base, c_p0, adder_count@, adder_cost);
        if lf4_keep1(term1, term2, term4, term5) {
            let m_v = odd_kernel(eval(GraphType::Leapfrog4_1(term1, term2, term4, term5)) as nat) as int;
            if 1 <= m_v <= max_value && c_base[m_v] >= adder_cost {
                assert(c_p0[m_v] == c_base[m_v] || (c_base[m_v] >= adder_cost && c_p0[m_v]
                    == adder_cost));
                assert(adder_structures@[m_v]@.contains(GraphType::Leapfrog4_1(term1, term2, term4, term5)));
            }
        }
        if lf4_keep2(term1, term2, term4, term5) {
            let m_v = odd_kernel(eval(GraphType::Leapfrog4_2(term1, term2, term4, term5)) as nat) as int;
            if 1 <= m_v <= max_value && c_base[m_v] >= adder_cost {
                assert(c_p0[m_v] == c_base[m_v] || (c_base[m_v] >= adder_cost && c_p0[m_v]
                    == adder_cost));
                assert(adder_structures@[m_v]@.contains(GraphType::Leapfrog4_2(term1, term2, term4, term5)));
            }
        }
    }
    let ghost c_p1 = adder_count@;
    let ghost g_p1 = adder_structures@;
    proof {
        lemma_leaf_still_below(c_base, adder_count@, term1, adder_cost);
        lemma_leaf_still_below(c_base, adder_count@, term2, adder_cost);
        lemma_leaf_still_below(c_base, adder_count@, term4, adder_cost);
        lemma_leaf_still_below(c_base, adder_count@, term5, adder_cost);
    }
    lf4_relax_part_two(
        adder_count,
        adder_structures,
        term1, term2, term4, term5,
        adder_cost,
        max_value,
        Ghost(p),
    );
    proof {
        lemma_cost_relaxed_trans(c_base, c_p1, adder_count@, adder_cost);
        lemma_evolution_trans(
            c_base,
            g_base,
            c_p1,
            g_p1,
            adder_count@,
            adder_structures@,
            adder_cost,
            p,
        );
        if lf4_keep1(term1, term2, term4, term5) {
            lemma_kernel_done_relax(
                c_p1,
                adder_count@,
                eval(GraphType::Leapfrog4_1(term1, term2, term4, term5)),
                adder_cost,
                max_value,
            );
            let m_w = odd_kernel(eval(GraphType::Leapfrog4_1(term1, term2, term4, term5)) as nat) as int;
            if 1 <= m_w <= max_value && c_base[m_w] >= adder_cost {
                lemma_graph_contains_prefix(
                    g_p1[m_w]@,
                    adder_structures@[m_w]@,
                    GraphType::Leapfrog4_1(term1, term2, term4, term5),
                );
            }
        }
        if lf4_keep2(term1, term2, term4, term5) {
            lemma_kernel_done_relax(
                c_p1,
                adder_count@,
                eval(GraphType::Leapfrog4_2(term1, term2, term4, term5)),
                adder_cost,
                max_value,
            );
            let m_w = odd_kernel(eval(GraphType::Leapfrog4_2(term1, term2, term4, term5)) as nat) as int;
            if 1 <= m_w <= max_value && c_base[m_w] >= adder_cost {
                lemma_graph_contains_prefix(
                    g_p1[m_w]@,
                    adder_structures@[m_w]@,
                    GraphType::Leapfrog4_2(term1, term2, term4, term5),
                );
            }
        }
        if lf4_keep3(term1, term2, term4, term5) {
            let m_v = odd_kernel(eval(GraphType::Leapfrog4_3(term1, term2, term4, term5)) as nat) as int;
            if 1 <= m_v <= max_value && c_base[m_v] >= adder_cost {
                assert(c_p1[m_v] == c_base[m_v] || (c_base[m_v] >= adder_cost && c_p1[m_v]
                    == adder_cost));
                assert(adder_structures@[m_v]@.contains(GraphType::Leapfrog4_3(term1, term2, term4, term5)));
            }
        }
        if lf4_keep4(term1, term2, term4, term5) {
            let m_v = odd_kernel(eval(GraphType::Leapfrog4_4(term1, term2, term4, term5)) as nat) as int;
            if 1 <= m_v <= max_value && c_base[m_v] >= adder_cost {
                assert(c_p1[m_v] == c_base[m_v] || (c_base[m_v] >= adder_cost && c_p1[m_v]
                    == adder_cost));
                assert(adder_structures@[m_v]@.contains(GraphType::Leapfrog4_4(term1, term2, term4, term5)));
            }
        }
    }
    proof {
        assert(lf4_tuple_recorded(
            c_base,
            adder_structures@,
            term1, term2, term4, term5,
            adder_cost,
            max_value,
        ));
    }
}

/// Offer variant expressions 1 through 2 of one kept
/// 5-parameter tuple to the table.
#[verifier::rlimit(100)]
fn lf5_relax_part_one(
    adder_count: &mut Vec<u8>,
    adder_structures: &mut Vec<Vec<GraphType>>,
    term1: usize,
    term2: usize,
    term3: usize,
    term4: usize,
    term5: usize,
    adder_cost: u8,
    max_value: usize,
    Ghost(p): Ghost<spec_fn(GraphType, int) -> bool>,
)
    requires
        table_wf(old(adder_count)@, old(adder_structures)@, adder_cost),
        0 < adder_cost < COST_SENTINEL,
        max_value < old(adder_count)@.len(),
        lf5_parity(term1, term2, term3, term4, term5),
        leaf_below(old(adder_count)@, term1, adder_cost) && term1 <= TERM_LIMIT,
        leaf_below(old(adder_count)@, term2, adder_cost) && term2 <= TERM_LIMIT,
        leaf_below(old(adder_count)@, term3, adder_cost) && term3 <= TERM_LIMIT,
        leaf_below(old(adder_count)@, term4, adder_cost) && term4 <= TERM_LIMIT,
        leaf_below(old(adder_count)@, term5, adder_cost) && term5 <= TERM_LIMIT,
        forall|gr: GraphType, nn: int|
            lf5_tuple_record(term1, term2, term3, term4, term5, max_value, gr, nn) ==> #[trigger] p(gr, nn),
    ensures
        table_wf(final(adder_count)@, final(adder_structures)@, adder_cost),
        cost_relaxed_to(old(adder_count)@, final(adder_count)@, adder_cost),
        final(adder_structures)@.len() == old(adder_structures)@.len(),
        (lf5_keep1(term1, term2, term3, term4, term5) ==> kernel_done(
            final(adder_count)@,
            eval(GraphType::Leapfrog5_1(term1, term2, term3, term4, term5)),
            adder_cost,
            max_value,
        )),
        (lf5_keep2(term1, term2, term3, term4, term5) ==> kernel_done(
            final(adder_count)@,
            eval(GraphType::Leapfrog5_2(term1, term2, term3, term4, term5)),
            adder_cost,
            max_value,
        )),
        ({
            let m = odd_kernel(eval(GraphType::Leapfrog5_1(term1, term2, term3, term4, term5)) as nat) as int;
            lf5_keep1(term1, term2, term3, term4, term5) && 1 <= m <= max_value && old(adder_count)@[m] >= adder_cost
                ==> final(adder_structures)@[m]@.contains(GraphType::Leapfrog5_1(term1, term2, term3, term4, term5))
        }),
        ({
            let m = odd_kernel(eval(GraphType::Leapfrog5_2(term1, term2, term3, term4, term5)) as nat) as int;
            lf5_keep2(term1, term2, term3, term4, term5) && 1 <= m <= max_value && old(adder_count)@[m] >= adder_cost
                ==> final(adder_structures)@[m]@.contains(GraphType::Leapfrog5_2(term1, term2, term3, term4, term5))
        }),
        table_evolution(
            old(adder_count)@,
            old(adder_structures)@,
            final(adder_count)@,
            final(adder_structures)@,
            adder_cost,
            p,
        ),
{
    let t1 = term1 as u128;
    let t2 = term2 as u128;
    let t3 = term3 as u128;
    let t4 = term4 as u128;
    let t5 = term5 as u128;
    let t1_odd = term1 % 2 == 1;
    let t5_odd = term5 % 2 == 1;
    proof {
        vstd::arithmetic::mul::lemma_mul_upper_bound(
            t1 as int,
            TERM_LIMIT as int,
            t3 as int,
            TERM_LIMIT as int,
        );
        vstd::arithmetic::mul::lemma_mul_upper_bound(
            t1 as int,
            TERM_LIMIT as int,
            t4 as int,
            TERM_LIMIT as int,
        );
        vstd::arithmetic::mul::lemma_mul_upper_bound(
            t3 as int,
            TERM_LIMIT as int,
            t5 as int,
            TERM_LIMIT as int,
        );
    }
    let ac = t1 * t3;
    let m_ad = t1 * t4;
    proof {
        vstd::arithmetic::mul::lemma_mul_upper_bound(
            t5 as int,
            TERM_LIMIT as int,
            (ac + t2) as int,
            TERM_LIMIT as int * TERM_LIMIT as int + TERM_LIMIT as int,
        );
        vstd::arithmetic::mul::lemma_mul_upper_bound(
            t5 as int,
            TERM_LIMIT as int,
            dist(ac as int, t2 as int),
            TERM_LIMIT as int * TERM_LIMIT as int,
        );
    }
    let diff_acb = dist_u128(ac, t2);
    let m_sum = t5 * (ac + t2);
    let m_diff = t5 * diff_acb;
    let v1 = m_sum + m_ad;
    let v2 = dist_u128(m_sum, m_ad);
    let v3 = m_diff + m_ad;
    let v4 = dist_u128(m_diff, m_ad);
    proof {
        assert(eval(GraphType::Leapfrog5_1(term1, term2, term3, term4, term5)) == v1 as int);
        assert(eval(GraphType::Leapfrog5_2(term1, term2, term3, term4, term5)) == v2 as int);
        assert(eval(GraphType::Leapfrog5_3(term1, term2, term3, term4, term5)) == v3 as int);
        assert(eval(GraphType::Leapfrog5_4(term1, term2, term3, term4, term5)) == v4 as int);
    }
    let ghost c_base = adder_count@;
    let ghost g_base = adder_structures@;
    proof {
        lemma_evolution_refl(c_base, g_base, adder_cost, p);
    }
    let ghost cs1 = adder_count@;
    let ghost gs1 = adder_structures@;
    if t2 != t4 {
        let gr = GraphType::Leapfrog5_1(term1, term2, term3, term4, term5);
        proof {
                lemma_leaf_still_below(c_base, adder_count@, term1, adder_cost);
                lemma_leaf_still_below(c_base, adder_count@, term2, adder_cost);
                lemma_leaf_still_below(c_base, adder_count@, term3, adder_cost);
                lemma_leaf_still_below(c_base, adder_count@, term4, adder_cost);
                lemma_leaf_still_below(c_base, adder_count@, term5, adder_cost);
        }
        relax_graph(adder_count, adder_structures, v1, gr, adder_cost, max_value);
        proof {
            if !(adder_count@ == cs1 && adder_structures@ == gs1) {
                let m = odd_kernel(v1 as nat) as int;
                assert(lf5_tuple_record(term1, term2, term3, term4, term5, max_value, gr, m));
                assert(p(gr, m));
                lemma_evolution_push(
                    c_base,
                    g_base,
                    cs1,
                    gs1,
                    adder_count@,
                    adder_structures@,
                    m,
                    gr,
                    adder_cost,
                    p,
                );
            }
            {
                let m = odd_kernel(v1 as nat) as int;
                if 1 <= m <= max_value && c_base[m] >= adder_cost {
                    // the guard still held at this candidate, so it appended
                    assert(cs1[m] == c_base[m] || (c_base[m] >= adder_cost && cs1[m]
                        == adder_cost));
                    assert(adder_structures@[m]@ == gs1[m]@.push(gr));
                    assert(adder_structures@[m]@[gs1[m]@.len() as int] == gr);
                    assert(adder_structures@[m]@.contains(gr));
                }
            }
        }
    }
    proof {
        assert(cost_relaxed_to(cs1, adder_count@, adder_cost));
        lemma_cost_relaxed_trans(c_base, cs1, adder_count@, adder_cost);
    }
    let ghost cs2 = adder_count@;
    let ghost gs2 = adder_structures@;
    if !(t1_odd && t5_odd && t1 >= t5) {
        let gr = GraphType::Leapfrog5_2(term1, term2, term3, term4, term5);
        proof {
                lemma_leaf_still_below(c_base, adder_count@, term1, adder_cost);
                lemma_leaf_still_below(c_base, adder_count@, term2, adder_cost);
                lemma_leaf_still_below(c_base, adder_count@, term3, adder_cost);
                lemma_leaf_still_below(c_base, adder_count@, term4, adder_cost);
                lemma_leaf_still_below(c_base, adder_count@, term5, adder_cost);
        }
        relax_graph(adder_count, adder_structures, v2, gr, adder_cost, max_value);
        proof {
            if !(adder_count@ == cs2 && adder_structures@ == gs2) {
                let m = odd_kernel(v2 as nat) as int;
                assert(lf5_tuple_record(term1, term2, term3, term4, term5, max_value, gr, m));
                assert(p(gr, m));
                lemma_evolution_push(
                    c_base,
                    g_base,
                    cs2,
                    gs2,
                    adder_count@,
                    adder_structures@,
                    m,
                    gr,
                    adder_cost,
                    p,
                );
            }
            {
                let m = odd_kernel(v2 as nat) as int;
                if 1 <= m <= max_value && c_base[m] >= adder_cost {
                    // the guard still held at this candidate, so it appended
                    assert(cs2[m] == c_base[m] || (c_base[m] >= adder_cost && cs2[m]
                        == adder_cost));
                    assert(adder_structures@[m]@ == gs2[m]@.push(gr));
                    assert(adder_structures@[m]@[gs2[m]@.len() as int] == gr);
                    assert(adder_structures@[m]@.contains(gr));
                }
            }
        }
    }
    proof {
        assert(cost_relaxed_to(cs2, adder_count@, adder_cost));
        lemma_cost_relaxed_trans(c_base, cs2, adder_count@, adder_cost);
        if lf5_keep1(term1, term2, term3, term4, term5) {
            lemma_kernel_done_relax(cs2, adder_count@, v1 as int, adder_cost, max_value);
            let m_w = odd_kernel(v1 as nat) as int;
            if 1 <= m_w <= max_value && c_base[m_w] >= adder_cost {
                if adder_structures@[m_w] != gs2[m_w] {
                    assert(adder_structures@[m_w]@ == gs2[m_w]@.push(
                        GraphType::Leapfrog5_2(term1, term2, term3, term4, term5),
                    ));
                    lemma_graph_contains_push(
                        gs2[m_w]@,
                        GraphType::Leapfrog5_2(term1, term2, term3, term4, term5),
                        GraphType::Leapfrog5_1(term1, term2, term3, term4, term5),
                    );
                }
                assert(adder_structures@[m_w]@.contains(GraphType::Leapfrog5_1(term1, term2, term3, term4, term5)));
            }
        }
    }
    proof {
        if lf5_keep1(term1, term2, term3, term4, term5) {
            assert(kernel_done(adder_count@, v1 as int, adder_cost, max_value));
            assert(eval(GraphType::Leapfrog5_1(term1, term2, term3, term4, term5)) == v1 as int);
            let m = odd_kernel(v1 as nat) as int;
            if 1 <= m <= max_value && c_base[m] >= adder_cost {
                assert(adder_structures@[m]@.contains(GraphType::Leapfrog5_1(term1, term2, term3, term4, term5)));
            }
        }
        if lf5_keep2(term1, term2, term3, term4, term5) {
            assert(kernel_done(adder_count@, v2 as int, adder_cost, max_value));
            assert(eval(GraphType::Leapfrog5_2(term1, term2, term3, term4, term5)) == v2 as int);
            let m = odd_kernel(v2 as nat) as int;
            if 1 <= m <= max_value && c_base[m] >= adder_cost {
                assert(adder_structures@[m]@.contains(GraphType::Leapfrog5_2(term1, term2, term3, term4, term5)));
            }
        }
    }
}

/// Offer variant expressions 3 through 4 of one kept
/// 5-parameter tuple to the table.
#[verifier::rlimit(100)]
fn lf5_relax_part_two(
    adder_count: &mut Vec<u8>,
    adder_structures: &mut Vec<Vec<GraphType>>,
    term1: usize,
    term2: usize,
    term3: usize,
    term4: usize,
    term5: usize,
    adder_cost: u8,
    max_value: usize,
    Ghost(p): Ghost<spec_fn(GraphType, int) -> bool>,
)
    requires
        table_wf(old(adder_count)@, old(adder_structures)@, adder_cost),
        0 < adder_cost < COST_SENTINEL,
        max_value < old(adder_count)@.len(),
        lf5_parity(term1, term2, term3, term4, term5),
        leaf_below(old(adder_count)@, term1, adder_cost) && term1 <= TERM_LIMIT,
        leaf_below(old(adder_count)@, term2, adder_cost) && term2 <= TERM_LIMIT,
        leaf_below(old(adder_count)@, term3, adder_cost) && term3 <= TERM_LIMIT,
        leaf_below(old(adder_count)@, term4, adder_cost) && term4 <= TERM_LIMIT,
        leaf_below(old(adder_count)@, term5, adder_cost) && term5 <= TERM_LIMIT,
        forall|gr: GraphType, nn: int|
            lf5_tuple_record(term1, term2, term3, term4, term5, max_value, gr, nn) ==> #[trigger] p(gr, nn),
    ensures
        table_wf(final(adder_count)@, final(adder_structures)@, adder_cost),
        cost_relaxed_to(old(adder_count)@, final(adder_count)@, adder_cost),
        final(adder_structures)@.len() == old(adder_structures)@.len(),
        (lf5_keep3(term1, term2, term3, term4, term5) ==> kernel_done(
            final(adder_count)@,
            eval(GraphType::Leapfrog5_3(term1, term2, term3, term4, term5)),
            adder_cost,
            max_value,
        )),
        (lf5_keep4(term1, term2, term3, term4, term5) ==> kernel_done(
            final(adder_count)@,
            eval(GraphType::Leapfrog5_4(term1, term2, term3, term4, term5)),
            adder_cost,
            max_value,
        )),
        ({
            let m = odd_kernel(eval(GraphType::Leapfrog5_3(term1, term2, term3, term4, term5)) as nat) as int;
            lf5_keep3(term1, term2, term3, term4, term5) && 1 <= m <= max_value && old(adder_count)@[m] >= adder_cost
                ==> final(adder_structures)@[m]@.contains(GraphType::Leapfrog5_3(term1, term2, term3, term4, term5))
        }),
        ({
            let m = odd_kernel(eval(GraphType::Leapfrog5_4(term1, term2, term3, term4, term5)) as nat) as int;
            lf5_keep4(term1, term2, term3, term4, term5) && 1 <= m <= max_value && old(adder_count)@[m] >= adder_cost
                ==> final(adder_structures)@[m]@.contains(GraphType::Leapfrog5_4(term1, term2, term3, term4, term5))
        }),
        table_evolution(
            old(adder_count)@,
            old(adder_structures)@,
            final(adder_count)@,
            final(adder_structures)@,
            adder_cost,
            p,
        ),
{
    let t1 = term1 as u128;
    let t2 = term2 as u128;
    let t3 = term3 as u128;
    let t4 = term4 as u128;
    let t5 = term5 as u128;
    let t1_odd = term1 % 2 == 1;
    let t5_odd = term5 % 2 == 1;
    proof {
        vstd::arithmetic::mul::lemma_mul_upper_bound(
            t1 as int,
            TERM_LIMIT as int,
            t3 as int,
            TERM_LIMIT as int,
        );
        vstd::arithmetic::mul::lemma_mul_upper_bound(
            t1 as int,
            TERM_LIMIT as int,
            t4 as int,
            TERM_LIMIT as int,
        );
        vstd::arithmetic::mul::lemma_mul_upper_bound(
            t3 as int,
            TERM_LIMIT as int,
            t5 as int,
            TERM_LIMIT as int,
        );
    }
    let ac = t1 * t3;
    let m_ad = t1 * t4;
    proof {
        vstd::arithmetic::mul::lemma_mul_upper_bound(
            t5 as int,
            TERM_LIMIT as int,
            (ac + t2) as int,
            TERM_LIMIT as int * TERM_LIMIT as int + TERM_LIMIT as int,
        );
        vstd::arithmetic::mul::lemma_mul_upper_bound(
            t5 as int,
            TERM_LIMIT as int,
            dist(ac as int, t2 as int),
            TERM_LIMIT as int * TERM_LIMIT as int,
        );
    }
    let diff_acb = dist_u128(ac, t2);
    let m_sum = t5 * (ac + t2);
    let m_diff = t5 * diff_acb;
    let v1 = m_sum + m_ad;
    let v2 = dist_u128(m_sum, m_ad);
    let v3 = m_diff + m_ad;
    let v4 = dist_u128(m_diff, m_ad);
    proof {
        assert(eval(GraphType::Leapfrog5_1(term1, term2, term3, term4, term5)) == v1 as int);
        assert(eval(GraphType::Leapfrog5_2(term1, term2, term3, term4, term5)) == v2 as int);
        assert(eval(GraphType::Leapfrog5_3(term1, term2, term3, term4, term5)) == v3 as int);
        assert(eval(GraphType::Leapfrog5_4(term1, term2, term3, term4, term5)) == v4 as int);
    }
    let ghost c_base = adder_count@;
    let ghost g_base = adder_structures@;
    proof {
        lemma_evolution_refl(c_base, g_base, adder_cost, p);
    }
    let ghost cs3 = adder_count@;
    let ghost gs3 = adder_structures@;
    if !(t2 == 1 && t4 == 1) && !(t2 == t4 && t4 > t3 * t5 && t1 >= t5) && !(t1_odd && t5_odd && t1 >= t5) {
        let gr = GraphType::Leapfrog5_3(term1, term2, term3, term4, term5);
        proof {
                lemma_leaf_still_below(c_base, adder_count@, term1, adder_cost);
                lemma_leaf_still_below(c_base, adder_count@, term2, adder_cost);
                lemma_leaf_still_below(c_base, adder_count@, term3, adder_cost);
                lemma_leaf_still_below(c_base, adder_count@, term4, adder_cost);
                lemma_leaf_still_below(c_base, adder_count@, term5, adder_cost);
        }
        relax_graph(adder_count, adder_structures, v3, gr, adder_cost, max_value);
        proof {
            if !(adder_count@ == cs3 && adder_structures@ == gs3) {
                let m = odd_kernel(v3 as nat) as int;
                assert(lf5_tuple_record(term1, term2, term3, term4, term5, max_value, gr, m));
                assert(p(gr, m));
                lemma_evolution_push(
                    c_base,
                    g_base,
                    cs3,
                    gs3,
                    adder_count@,
                    adder_structures@,
                    m,
                    gr,
                    adder_cost,
                    p,
                );
            }
            {
                let m = odd_kernel(v3 as nat) as int;
                if 1 <= m <= max_value && c_base[m] >= adder_cost {
                    // the guard still held at this candidate, so it appended
                    assert(cs3[m] == c_base[m] || (c_base[m] >= adder_cost && cs3[m]
                        == adder_cost));
                    assert(adder_structures@[m]@ == gs3[m]@.push(gr));
                    assert(adder_structures@[m]@[gs3[m]@.len() as int] == gr);
                    assert(adder_structures@[m]@.contains(gr));
                }
            }
        }
    }
    proof {
        assert(cost_relaxed_to(cs3, adder_count@, adder_cost));
        lemma_cost_relaxed_trans(c_base, cs3, adder_count@, adder_cost);
    }
    let ghost cs4 = adder_count@;
    let ghost gs4 = adder_structures@;
    if !(t1_odd && t5_odd && t1 >= t5) && !(term1 >= term5 && term2 == 1 && term4 == 1 && term1 % 2 == 0 && term5 % 2 == 0) {
        let gr = GraphType::Leapfrog5_4(term1, term2, term3, term4, term5);
        proof {
                lemma_leaf_still_below(c_base, adder_count@, term1, adder_cost);
                lemma_leaf_still_below(c_base, adder_count@, term2, adder_cost);
                lemma_leaf_still_below(c_base, adder_count@, term3, adder_cost);
                lemma_leaf_still_below(c_base, adder_count@, term4, adder_cost);
                lemma_leaf_still_below(c_base, adder_count@, term5, adder_cost);
        }
        relax_graph(adder_count, adder_structures, v4, gr, adder_cost, max_value);
        proof {
            if !(adder_count@ == cs4 && adder_structures@ == gs4) {
                let m = odd_kernel(v4 as nat) as int;
                assert(lf5_tuple_record(term1, term2, term3, term4, term5, max_value, gr, m));
                assert(p(gr, m));
                lemma_evolution_push(
                    c_base,
                    g_base,
                    cs4,
                    gs4,
                    adder_count@,
                    adder_structures@,
                    m,
                    gr,
                    adder_cost,
                    p,
                );
            }
            {
                let m = odd_kernel(v4 as nat) as int;
                if 1 <= m <= max_value && c_base[m] >= adder_cost {
                    // the guard still held at this candidate, so it appended
                    assert(cs4[m] == c_base[m] || (c_base[m] >= adder_cost && cs4[m]
                        == adder_cost));
                    assert(adder_structures@[m]@ == gs4[m]@.push(gr));
                    assert(adder_structures@[m]@[gs4[m]@.len() as int] == gr);
                    assert(adder_structures@[m]@.contains(gr));
                }
            }
        }
    }
    proof {
        assert(cost_relaxed_to(cs4, adder_count@, adder_cost));
        lemma_cost_relaxed_trans(c_base, cs4, adder_count@, adder_cost);
        if lf5_keep3(term1, term2, term3, term4, term5) {
            lemma_kernel_done_relax(cs4, adder_count@, v3 as int, adder_cost, max_value);
            let m_w = odd_kernel(v3 as nat) as int;
            if 1 <= m_w <= max_value && c_base[m_w] >= adder_cost {
                if adder_structures@[m_w] != gs4[m_w] {
                    assert(adder_structures@[m_w]@ == gs4[m_w]@.push(
                        GraphType::Leapfrog5_4(term1, term2, term3, term4, term5),
                    ));
                    lemma_graph_contains_push(
                        gs4[m_w]@,
                        GraphType::Leapfrog5_4(term1, term2, term3, term4, term5),
                        GraphType::Leapfrog5_3(term1, term2, term3, term4, term5),
                    );
                }
                assert(adder_structures@[m_w]@.contains(GraphType::Leapfrog5_3(term1, term2, term3, term4, term5)));
            }
        }
    }
    proof {
        if lf5_keep3(term1, term2, term3, term4, term5) {
            assert(kernel_done(adder_count@, v3 as int, adder_cost, max_value));
            assert(eval(GraphType::Leapfrog5_3(term1, term2, term3, term4, term5)) == v3 as int);
            let m = odd_kernel(v3 as nat) as int;
            if 1 <= m <= max_value && c_base[m] >= adder_cost {
                assert(adder_structures@[m]@.contains(GraphType::Leapfrog5_3(term1, term2, term3, term4, term5)));
            }
        }
        if lf5_keep4(term1, term2, term3, term4, term5) {
            assert(kernel_done(adder_count@, v4 as int, adder_cost, max_value));
            assert(eval(GraphType::Leapfrog5_4(term1, term2, term3, term4, term5)) == v4 as int);
            let m = odd_kernel(v4 as nat) as int;
            if 1 <= m <= max_value && c_base[m] >= adder_cost {
                assert(adder_structures@[m]@.contains(GraphType::Leapfrog5_4(term1, term2, term3, term4, term5)));
            }
        }
    }
}

/// Offer every variant expression of one kept 5-parameter tuple to the
/// table.
#[verifier::rlimit(100)]
fn lf5_relax_tuple(
    adder_count: &mut Vec<u8>,
    adder_structures: &mut Vec<Vec<GraphType>>,
    term1: usize,
    term2: usize,
    term3: usize,
    term4: usize,
    term5: usize,
    adder_cost: u8,
    max_value: usize,
    Ghost(p): Ghost<spec_fn(GraphType, int) -> bool>,
)
    requires
        table_wf(old(adder_count)@, old(adder_structures)@, adder_cost),
        0 < adder_cost < COST_SENTINEL,
        max_value < old(adder_count)@.len(),
        lf5_parity(term1, term2, term3, term4, term5),
        leaf_below(old(adder_count)@, term1, adder_cost) && term1 <= TERM_LIMIT,
        leaf_below(old(adder_count)@, term2, adder_cost) && term2 <= TERM_LIMIT,
        leaf_below(old(adder_count)@, term3, adder_cost) && term3 <= TERM_LIMIT,
        leaf_below(old(adder_count)@, term4, adder_cost) && term4 <= TERM_LIMIT,
        leaf_below(old(adder_count)@, term5, adder_cost) && term5 <= TERM_LIMIT,
        forall|gr: GraphType, nn: int|
            lf5_tuple_record(term1, term2, term3, term4, term5, max_value, gr, nn) ==> #[trigger] p(gr, nn),
    ensures
        table_wf(final(adder_count)@, final(adder_structures)@, adder_cost),
        cost_relaxed_to(old(adder_count)@, final(adder_count)@, adder_cost),
        final(adder_structures)@.len() == old(adder_structures)@.len(),
        lf5_tuple_done(final(adder_count)@, term1, term2, term3, term4, term5, adder_cost, max_value),
        lf5_tuple_recorded(
            old(adder_count)@,
            final(adder_structures)@,
            term1, term2, term3, term4, term5,
            adder_cost,
            max_value,
        ),
        table_evolution(
            old(adder_count)@,
            old(adder_structures)@,
            final(adder_count)@,
            final(adder_structures)@,
            adder_cost,
            p,
        ),
{
    let ghost c_base = adder_count@;
    let ghost g_base = adder_structures@;
    let ghost c_p0 = adder_count@;
    let ghost g_p0 = adder_structures@;
    lf5_relax_part_one(
        adder_count,
        adder_structures,
        term1, term2, term3, term4, term5,
        adder_cost,
        max_value,
        Ghost(p),
    );
    proof {
        lemma_cost_relaxed_trans(c_base, c_p0, adder_count@, adder_cost);
        if lf5_keep1(term1, term2, term3, term4, term5) {
            let m_v = odd_kernel(eval(GraphType::Leapfrog5_1(term1, term2, term3, term4, term5)) as nat) as int;
            if 1 <= m_v <= max_value && c_base[m_v] >= adder_cost {
                assert(c_p0[m_v] == c_base[m_v] || (c_base[m_v] >= adder_cost && c_p0[m_v]
                    == adder_cost));
                assert(adder_structures@[m_v]@.contains(GraphType::Leapfrog5_1(term1, term2, term3, term4, term5)));
            }
        }
        if lf5_keep2(term1, term2, term3, term4, term5) {
            let m_v = odd_kernel(eval(GraphType::Leapfrog5_2(term1, term2, term3, term4, term5)) as nat) as int;
            if 1 <= m_v <= max_value && c_base[m_v] >= adder_cost {
                assert(c_p0[m_v] == c_base[m_v] || (c_base[m_v] >= adder_cost && c_p0[m_v]
                    == adder_cost));
                assert(adder_structures@[m_v]@.contains(GraphType::Leapfrog5_2(term1, term2, term3, term4, term5)));
            }
        }
    }
    let ghost c_p1 = adder_count@;
    let ghost g_p1 = adder_structures@;
    proof {
        lemma_leaf_still_below(c_base, adder_count@, term1, adder_cost);
        lemma_leaf_still_below(c_base, adder_count@, term2, adder_cost);
        lemma_leaf_still_below(c_base, adder_count@, term3, adder_cost);
        lemma_leaf_still_below(c_base, adder_count@, term4, adder_cost);
        lemma_leaf_still_below(c_base, adder_count@, term5, adder_cost);
    }
    lf5_relax_part_two(
        adder_count,
        adder_structures,
        term1, term2, term3, term4, term5,
        adder_cost,
        max_value,
        Ghost(p),
    );
    proof {
        lemma_cost_relaxed_trans(c_base, c_p1, adder_count@, adder_cost);
        lemma_evolution_trans(
            c_base,
            g_base,
            c_p1,
            g_p1,
            adder_count@,
            adder_structures@,
            adder_cost,
            p,
        );
        if lf5_keep1(term1, term2, term3, term4, term5) {
            lemma_kernel_done_relax(
                c_p1,
                adder_count@,
                eval(GraphType::Leapfrog5_1(term1, term2, term3, term4, term5)),
                adder_cost,
                max_value,
            );
            let m_w = odd_kernel(eval(GraphType::Leapfrog5_1(term1, term2, term3, term4, term5)) as nat) as int;
            if 1 <= m_w <= max_value && c_base[m_w] >= adder_cost {
                lemma_graph_contains_prefix(
                    g_p1[m_w]@,
                    adder_structures@[m_w]@,
                    GraphType::Leapfrog5_1(term1, term2, term3, term4, term5),
                );
            }
        }
        if lf5_keep2(term1, term2, term3, term4, term5) {
            lemma_kernel_done_relax(
                c_p1,
                adder_count@,
                eval(GraphType::Leapfrog5_2(term1, term2, term3, term4, term5)),
                adder_cost,
                max_value,
            );
            let m_w = odd_kernel(eval(GraphType::Leapfrog5_2(term1, term2, term3, term4, term5)) as nat) as int;
            if 1 <= m_w <= max_value && c_base[m_w] >= adder_cost {
                lemma_graph_contains_prefix(
                    g_p1[m_w]@,
                    adder_structures@[m_w]@,
                    GraphType::Leapfrog5_2(term1, term2, term3, term4, term5),
                );
            }
        }
        if lf5_keep3(term1, term2, term3, term4, term5) {
            let m_v = odd_kernel(eval(GraphType::Leapfrog5_3(term1, term2, term3, term4, term5)) as nat) as int;
            if 1 <= m_v <= max_value && c_base[m_v] >= adder_cost {
                assert(c_p1[m_v] == c_base[m_v] || (c_base[m_v] >= adder_cost && c_p1[m_v]
                    == adder_cost));
                assert(adder_structures@[m_v]@.contains(GraphType::Leapfrog5_3(term1, term2, term3, term4, term5)));
            }
        }
        if lf5_keep4(term1, term2, term3, term4, term5) {
            let m_v = odd_kernel(eval(GraphType::Leapfrog5_4(term1, term2, term3, term4, term5)) as nat) as int;
            if 1 <= m_v <= max_value && c_base[m_v] >= adder_cost {
                assert(c_p1[m_v] == c_base[m_v] || (c_base[m_v] >= adder_cost && c_p1[m_v]
                    == adder_cost));
                assert(adder_structures@[m_v]@.contains(GraphType::Leapfrog5_4(term1, term2, term3, term4, term5)));
            }
        }
    }
    proof {
        assert(lf5_tuple_recorded(
            c_base,
            adder_structures@,
            term1, term2, term3, term4, term5,
            adder_cost,
            max_value,
        ));
    }
}

/// Offer variant expressions 1 through 2 of one kept
/// 7-parameter tuple to the table.
#[verifier::rlimit(100)]
fn lf7_relax_part_one(
    adder_count: &mut Vec<u8>,
    adder_structures: &mut Vec<Vec<GraphType>>,
    term1: usize,
    term2: usize,
    term3: usize,
    term4: usize,
    term5: usize,
    term6: usize,
    term7: usize,
    adder_cost: u8,
    max_value: usize,
    Ghost(p): Ghost<spec_fn(GraphType, int) -> bool>,
)
    requires
        table_wf(old(adder_count)@, old(adder_structures)@, adder_cost),
        0 < adder_cost < COST_SENTINEL,
        max_value < old(adder_count)@.len(),
        lf7_parity(term1, term2, term3, term4, term5, term6, term7),
        leaf_below(old(adder_count)@, term1, adder_cost) && term1 <= TERM_LIMIT,
        leaf_below(old(adder_count)@, term2, adder_cost) && term2 <= TERM_LIMIT,
        leaf_below(old(adder_count)@, term3, adder_cost) && term3 <= TERM_LIMIT,
        leaf_below(old(adder_count)@, term4, adder_cost) && term4 <= TERM_LIMIT,
        leaf_below(old(adder_count)@, term5, adder_cost) && term5 <= TERM_LIMIT,
        leaf_below(old(adder_count)@, term6, adder_cost) && term6 <= TERM_LIMIT,
        leaf_below(old(adder_count)@, term7, adder_cost) && term7 <= TERM_LIMIT,
        forall|gr: GraphType, nn: int|
            lf7_tuple_record(term1, term2, term3, term4, term5, term6, term7, max_value, gr, nn) ==> #[trigger] p(gr, nn),
    ensures
        table_wf(final(adder_count)@, final(adder_structures)@, adder_cost),
        cost_relaxed_to(old(adder_count)@, final(adder_count)@, adder_cost),
        final(adder_structures)@.len() == old(adder_structures)@.len(),
        kernel_done(
            final(adder_count)@,
            eval(GraphType::Leapfrog7_1(term1, term2, term3, term4, term5, term6, term7)),
            adder_cost,
            max_value,
        ),
        kernel_done(
            final(adder_count)@,
            eval(GraphType::Leapfrog7_2(term1, term2, term3, term4, term5, term6, term7)),
            adder_cost,
            max_value,
        ),
        ({
            let m = odd_kernel(eval(GraphType::Leapfrog7_1(term1, term2, term3, term4, term5, term6, term7)) as nat) as int;
            1 <= m <= max_value && old(adder_count)@[m] >= adder_cost
                ==> final(adder_structures)@[m]@.contains(GraphType::Leapfrog7_1(term1, term2, term3, term4, term5, term6, term7))
        }),
        ({
            let m = odd_kernel(eval(GraphType::Leapfrog7_2(term1, term2, term3, term4, term5, term6, term7)) as nat) as int;
            1 <= m <= max_value && old(adder_count)@[m] >= adder_cost
                ==> final(adder_structures)@[m]@.contains(GraphType::Leapfrog7_2(term1, term2, term3, term4, term5, term6, term7))
        }),
        table_evolution(
            old(adder_count)@,
            old(adder_structures)@,
            final(adder_count)@,
            final(adder_structures)@,
            adder_cost,
            p,
        ),
{
    let t1 = term1 as u128;
    let t2 = term2 as u128;
    let t3 = term3 as u128;
    let t4 = term4 as u128;
    let t5 = term5 as u128;
    let t6 = term6 as u128;
    let t7 = term7 as u128;
    proof {
        vstd::arithmetic::mul::lemma_mul_upper_bound(
            t1 as int,
            TERM_LIMIT as int,
            t3 as int,
            TERM_LIMIT as int,
        );
        vstd::arithmetic::mul::lemma_mul_upper_bound(
            t1 as int,
            TERM_LIMIT as int,
            t4 as int,
            TERM_LIMIT as int,
        );
    }
    let ac = t1 * t3;
    let m_ad = t1 * t4;
    let p_sum = ac + t2;
    let q_diff = dist_u128(ac, t2);
    proof {
        vstd::arithmetic::mul::lemma_mul_upper_bound(
            t5 as int,
            TERM_LIMIT as int,
            p_sum as int,
            TERM_LIMIT as int * TERM_LIMIT as int + TERM_LIMIT as int,
        );
        vstd::arithmetic::mul::lemma_mul_upper_bound(
            t5 as int,
            TERM_LIMIT as int,
            q_diff as int,
            TERM_LIMIT as int * TERM_LIMIT as int,
        );
        vstd::arithmetic::mul::lemma_mul_upper_bound(
            t6 as int,
            TERM_LIMIT as int,
            p_sum as int,
            TERM_LIMIT as int * TERM_LIMIT as int + TERM_LIMIT as int,
        );
        vstd::arithmetic::mul::lemma_mul_upper_bound(
            t6 as int,
            TERM_LIMIT as int,
            q_diff as int,
            TERM_LIMIT as int * TERM_LIMIT as int,
        );
    }
    let inner_pp = t5 * p_sum + m_ad;
    let inner_qp = t5 * q_diff + m_ad;
    let inner_pm = dist_u128(t5 * p_sum, m_ad);
    let inner_qm = dist_u128(t5 * q_diff, m_ad);
    let f6p = t6 * p_sum;
    let f6q = t6 * q_diff;
    proof {
        vstd::arithmetic::mul::lemma_mul_upper_bound(
            t7 as int,
            TERM_LIMIT as int,
            inner_pp as int,
            TERM_LIMIT as int * TERM_LIMIT as int * TERM_LIMIT as int + 2 * TERM_LIMIT as int * TERM_LIMIT as int,
        );
        vstd::arithmetic::mul::lemma_mul_upper_bound(
            t7 as int,
            TERM_LIMIT as int,
            inner_qp as int,
            TERM_LIMIT as int * TERM_LIMIT as int * TERM_LIMIT as int + 2 * TERM_LIMIT as int * TERM_LIMIT as int,
        );
        vstd::arithmetic::mul::lemma_mul_upper_bound(
            t7 as int,
            TERM_LIMIT as int,
            inner_pm as int,
            TERM_LIMIT as int * TERM_LIMIT as int * TERM_LIMIT as int + 2 * TERM_LIMIT as int * TERM_LIMIT as int,
        );
        vstd::arithmetic::mul::lemma_mul_upper_bound(
            t7 as int,
            TERM_LIMIT as int,
            inner_qm as int,
            TERM_LIMIT as int * TERM_LIMIT as int * TERM_LIMIT as int + 2 * TERM_LIMIT as int * TERM_LIMIT as int,
        );
    }
    let v1 = t7 * inner_pp + f6p;
    let v2 = t7 * inner_qp + f6q;
    let v3 = t7 * inner_pm + f6p;
    let v4 = dist_u128(t7 * inner_pp, f6p);
    let v5 = t7 * inner_qm + f6q;
    let v6 = dist_u128(t7 * inner_qp, f6q);
    let v7 = dist_u128(t7 * inner_pm, f6p);
    let v8 = dist_u128(t7 * inner_qm, f6q);
    proof {
        assert(eval(GraphType::Leapfrog7_1(term1, term2, term3, term4, term5, term6, term7))
            == v1 as int);
        assert(eval(GraphType::Leapfrog7_2(term1, term2, term3, term4, term5, term6, term7))
            == v2 as int);
    }
    let ghost c_base = adder_count@;
    let ghost g_base = adder_structures@;
    proof {
        lemma_evolution_refl(c_base, g_base, adder_cost, p);
    }
    let ghost cs1 = adder_count@;
    let ghost gs1 = adder_structures@;
    {
        let gr = GraphType::Leapfrog7_1(term1, term2, term3, term4, term5, term6, term7);
        proof {
                lemma_leaf_still_below(c_base, adder_count@, term1, adder_cost);
                lemma_leaf_still_below(c_base, adder_count@, term2, adder_cost);
                lemma_leaf_still_below(c_base, adder_count@, term3, adder_cost);
                lemma_leaf_still_below(c_base, adder_count@, term4, adder_cost);
                lemma_leaf_still_below(c_base, adder_count@, term5, adder_cost);
                lemma_leaf_still_below(c_base, adder_count@, term6, adder_cost);
                lemma_leaf_still_below(c_base, adder_count@, term7, adder_cost);
        }
        relax_graph(adder_count, adder_structures, v1, gr, adder_cost, max_value);
        proof {
            if !(adder_count@ == cs1 && adder_structures@ == gs1) {
                let m = odd_kernel(v1 as nat) as int;
                assert(lf7_tuple_record(term1, term2, term3, term4, term5, term6, term7, max_value, gr, m));
                assert(p(gr, m));
                lemma_evolution_push(
                    c_base,
                    g_base,
                    cs1,
                    gs1,
                    adder_count@,
                    adder_structures@,
                    m,
                    gr,
                    adder_cost,
                    p,
                );
            }
            {
                let m = odd_kernel(v1 as nat) as int;
                if 1 <= m <= max_value && c_base[m] >= adder_cost {
                    // the guard still held at this candidate, so it appended
                    assert(cs1[m] == c_base[m] || (c_base[m] >= adder_cost && cs1[m]
                        == adder_cost));
                    assert(adder_structures@[m]@ == gs1[m]@.push(gr));
                    assert(adder_structures@[m]@[gs1[m]@.len() as int] == gr);
                    assert(adder_structures@[m]@.contains(gr));
                }
            }
        }
    }
    proof {
        assert(cost_relaxed_to(cs1, adder_count@, adder_cost));
        lemma_cost_relaxed_trans(c_base, cs1, adder_count@, adder_cost);
    }
    let ghost cs2 = adder_count@;
    let ghost gs2 = adder_structures@;
    {
        let gr = GraphType::Leapfrog7_2(term1, term2, term3, term4, term5, term6, term7);
        proof {
                lemma_leaf_still_below(c_base, adder_count@, term1, adder_cost);
                lemma_leaf_still_below(c_base, adder_count@, term2, adder_cost);
                lemma_leaf_still_below(c_base, adder_count@, term3, adder_cost);
                lemma_leaf_still_below(c_base, adder_count@, term4, adder_cost);
                lemma_leaf_still_below(c_base, adder_count@, term5, adder_cost);
                lemma_leaf_still_below(c_base, adder_count@, term6, adder_cost);
                lemma_leaf_still_below(c_base, adder_count@, term7, adder_cost);
        }
        relax_graph(adder_count, adder_structures, v2, gr, adder_cost, max_value);
        proof {
            if !(adder_count@ == cs2 && adder_structures@ == gs2) {
                let m = odd_kernel(v2 as nat) as int;
                assert(lf7_tuple_record(term1, term2, term3, term4, term5, term6, term7, max_value, gr, m));
                assert(p(gr, m));
                lemma_evolution_push(
                    c_base,
                    g_base,
                    cs2,
                    gs2,
                    adder_count@,
                    adder_structures@,
                    m,
                    gr,
                    adder_cost,
                    p,
                );
            }
            {
                let m = odd_kernel(v2 as nat) as int;
                if 1 <= m <= max_value && c_base[m] >= adder_cost {
                    // the guard still held at this candidate, so it appended
                    assert(cs2[m] == c_base[m] || (c_base[m] >= adder_cost && cs2[m]
                        == adder_cost));
                    assert(adder_structures@[m]@ == gs2[m]@.push(gr));
                    assert(adder_structures@[m]@[gs2[m]@.len() as int] == gr);
                    assert(adder_structures@[m]@.contains(gr));
                }
            }
        }
    }
    proof {
        assert(cost_relaxed_to(cs2, adder_count@, adder_cost));
        lemma_cost_relaxed_trans(c_base, cs2, adder_count@, adder_cost);
        {
            lemma_kernel_done_relax(cs2, adder_count@, v1 as int, adder_cost, max_value);
            let m_w = odd_kernel(v1 as nat) as int;
            if 1 <= m_w <= max_value && c_base[m_w] >= adder_cost {
                if adder_structures@[m_w] != gs2[m_w] {
                    assert(adder_structures@[m_w]@ == gs2[m_w]@.push(
                        GraphType::Leapfrog7_2(term1, term2, term3, term4, term5, term6, term7),
                    ));
                    lemma_graph_contains_push(
                        gs2[m_w]@,
                        GraphType::Leapfrog7_2(term1, term2, term3, term4, term5, term6, term7),
                        GraphType::Leapfrog7_1(term1, term2, term3, term4, term5, term6, term7),
                    );
                }
                assert(adder_structures@[m_w]@.contains(GraphType::Leapfrog7_1(term1, term2, term3, term4, term5, term6, term7)));
            }
        }
    }
    proof {
        {
            assert(kernel_done(adder_count@, v1 as int, adder_cost, max_value));
            assert(eval(GraphType::Leapfrog7_1(term1, term2, term3, term4, term5, term6, term7)) == v1 as int);
            let m = odd_kernel(v1 as nat) as int;
            if 1 <= m <= max_value && c_base[m] >= adder_cost {
                assert(adder_structures@[m]@.contains(GraphType::Leapfrog7_1(term1, term2, term3, term4, term5, term6, term7)));
            }
        }
        {
            assert(kernel_done(adder_count@, v2 as int, adder_cost, max_value));
            assert(eval(GraphType::Leapfrog7_2(term1, term2, term3, term4, term5, term6, term7)) == v2 as int);
            let m = odd_kernel(v2 as nat) as int;
            if 1 <= m <= max_value && c_base[m] >= adder_cost {
                assert(adder_structures@[m]@.contains(GraphType::Leapfrog7_2(term1, term2, term3, term4, term5, term6, term7)));
            }
        }
    }
}

/// Offer variant expressions 3 through 4 of one kept
/// 7-parameter tuple to the table.
#[verifier::rlimit(100)]
fn lf7_relax_part_two(
    adder_count: &mut Vec<u8>,
    adder_structures: &mut Vec<Vec<GraphType>>,
    term1: usize,
    term2: usize,
    term3: usize,
    term4: usize,
    term5: usize,
    term6: usize,
    term7: usize,
    adder_cost: u8,
    max_value: usize,
    Ghost(p): Ghost<spec_fn(GraphType, int) -> bool>,
)
    requires
        table_wf(old(adder_count)@, old(adder_structures)@, adder_cost),
        0 < adder_cost < COST_SENTINEL,
        max_value < old(adder_count)@.len(),
        lf7_parity(term1, term2, term3, term4, term5, term6, term7),
        leaf_below(old(adder_count)@, term1, adder_cost) && term1 <= TERM_LIMIT,
        leaf_below(old(adder_count)@, term2, adder_cost) && term2 <= TERM_LIMIT,
        leaf_below(old(adder_count)@, term3, adder_cost) && term3 <= TERM_LIMIT,
        leaf_below(old(adder_count)@, term4, adder_cost) && term4 <= TERM_LIMIT,
        leaf_below(old(adder_count)@, term5, adder_cost) && term5 <= TERM_LIMIT,
        leaf_below(old(adder_count)@, term6, adder_cost) && term6 <= TERM_LIMIT,
        leaf_below(old(adder_count)@, term7, adder_cost) && term7 <= TERM_LIMIT,
        forall|gr: GraphType, nn: int|
            lf7_tuple_record(term1, term2, term3, term4, term5, term6, term7, max_value, gr, nn) ==> #[trigger] p(gr, nn),
    ensures
        table_wf(final(adder_count)@, final(adder_structures)@, adder_cost),
        cost_relaxed_to(old(adder_count)@, final(adder_count)@, adder_cost),
        final(adder_structures)@.len() == old(adder_structures)@.len(),
        kernel_done(
            final(adder_count)@,
            eval(GraphType::Leapfrog7_3(term1, term2, term3, term4, term5, term6, term7)),
            adder_cost,
            max_value,
        ),
        kernel_done(
            final(adder_count)@,
            eval(GraphType::Leapfrog7_4(term1, term2, term3, term4, term5, term6, term7)),
            adder_cost,
            max_value,
        ),
        ({
            let m = odd_kernel(eval(GraphType::Leapfrog7_3(term1, term2, term3, term4, term5, term6, term7)) as nat) as int;
            1 <= m <= max_value && old(adder_count)@[m] >= adder_cost
                ==> final(adder_structures)@[m]@.contains(GraphType::Leapfrog7_3(term1, term2, term3, term4, term5, term6, term7))
        }),
        ({
            let m = odd_kernel(eval(GraphType::Leapfrog7_4(term1, term2, term3, term4, term5, term6, term7)) as nat) as int;
            1 <= m <= max_value && old(adder_count)@[m] >= adder_cost
                ==> final(adder_structures)@[m]@.contains(GraphType::Leapfrog7_4(term1, term2, term3, term4, term5, term6, term7))
        }),
        table_evolution(
            old(adder_count)@,
            old(adder_structures)@,
            final(adder_count)@,
            final(adder_structures)@,
            adder_cost,
            p,
        ),
{
    let t1 = term1 as u128;
    let t2 = term2 as u128;
    let t3 = term3 as u128;
    let t4 = term4 as u128;
    let t5 = term5 as u128;
    let t6 = term6 as u128;
    let t7 = term7 as u128;
    proof {
        vstd::arithmetic::mul::lemma_mul_upper_bound(
            t1 as int,
            TERM_LIMIT as int,
            t3 as int,
            TERM_LIMIT as int,
        );
        vstd::arithmetic::mul::lemma_mul_upper_bound(
            t1 as int,
            TERM_LIMIT as int,
            t4 as int,
            TERM_LIMIT as int,
        );
    }
    let ac = t1 * t3;
    let m_ad = t1 * t4;
    let p_sum = ac + t2;
    let q_diff = dist_u128(ac, t2);
    proof {
        vstd::arithmetic::mul::lemma_mul_upper_bound(
            t5 as int,
            TERM_LIMIT as int,
            p_sum as int,
            TERM_LIMIT as int * TERM_LIMIT as int + TERM_LIMIT as int,
        );
        vstd::arithmetic::mul::lemma_mul_upper_bound(
            t5 as int,
            TERM_LIMIT as int,
            q_diff as int,
            TERM_LIMIT as int * TERM_LIMIT as int,
        );
        vstd::arithmetic::mul::lemma_mul_upper_bound(
            t6 as int,
            TERM_LIMIT as int,
            p_sum as int,
            TERM_LIMIT as int * TERM_LIMIT as int + TERM_LIMIT as int,
        );
        vstd::arithmetic::mul::lemma_mul_upper_bound(
            t6 as int,
            TERM_LIMIT as int,
            q_diff as int,
            TERM_LIMIT as int * TERM_LIMIT as int,
        );
    }
    let inner_pp = t5 * p_sum + m_ad;
    let inner_qp = t5 * q_diff + m_ad;
    let inner_pm = dist_u128(t5 * p_sum, m_ad);
    let inner_qm = dist_u128(t5 * q_diff, m_ad);
    let f6p = t6 * p_sum;
    let f6q = t6 * q_diff;
    proof {
        vstd::arithmetic::mul::lemma_mul_upper_bound(
            t7 as int,
            TERM_LIMIT as int,
            inner_pp as int,
            TERM_LIMIT as int * TERM_LIMIT as int * TERM_LIMIT as int + 2 * TERM_LIMIT as int * TERM_LIMIT as int,
        );
        vstd::arithmetic::mul::lemma_mul_upper_bound(
            t7 as int,
            TERM_LIMIT as int,
            inner_qp as int,
            TERM_LIMIT as int * TERM_LIMIT as int * TERM_LIMIT as int + 2 * TERM_LIMIT as int * TERM_LIMIT as int,
        );
        vstd::arithmetic::mul::lemma_mul_upper_bound(
            t7 as int,
            TERM_LIMIT as int,
            inner_pm as int,
            TERM_LIMIT as int * TERM_LIMIT as int * TERM_LIMIT as int + 2 * TERM_LIMIT as int * TERM_LIMIT as int,
        );
        vstd::arithmetic::mul::lemma_mul_upper_bound(
            t7 as int,
            TERM_LIMIT as int,
            inner_qm as int,
            TERM_LIMIT as int * TERM_LIMIT as int * TERM_LIMIT as int + 2 * TERM_LIMIT as int * TERM_LIMIT as int,
        );
    }
    let v1 = t7 * inner_pp + f6p;
    let v2 = t7 * inner_qp + f6q;
    let v3 = t7 * inner_pm + f6p;
    let v4 = dist_u128(t7 * inner_pp, f6p);
    let v5 = t7 * inner_qm + f6q;
    let v6 = dist_u128(t7 * inner_qp, f6q);
    let v7 = dist_u128(t7 * inner_pm, f6p);
    let v8 = dist_u128(t7 * inner_qm, f6q);
    proof {
        assert(eval(GraphType::Leapfrog7_3(term1, term2, term3, term4, term5, term6, term7))
            == v3 as int);
        assert(eval(GraphType::Leapfrog7_4(term1, term2, term3, term4, term5, term6, term7))
            == v4 as int);
    }
    let ghost c_base = adder_count@;
    let ghost g_base = adder_structures@;
    proof {
        lemma_evolution_refl(c_base, g_base, adder_cost, p);
    }
    let ghost cs3 = adder_count@;
    let ghost gs3 = adder_structures@;
    {
        let gr = GraphType::Leapfrog7_3(term1, term2, term3, term4, term5, term6, term7);
        proof {
                lemma_leaf_still_below(c_base, adder_count@, term1, adder_cost);
                lemma_leaf_still_below(c_base, adder_count@, term2, adder_cost);
                lemma_leaf_still_below(c_base, adder_count@, term3, adder_cost);
                lemma_leaf_still_below(c_base, adder_count@, term4, adder_cost);
                lemma_leaf_still_below(c_base, adder_count@, term5, adder_cost);
                lemma_leaf_still_below(c_base, adder_count@, term6, adder_cost);
                lemma_leaf_still_below(c_base, adder_count@, term7, adder_cost);
        }
        relax_graph(adder_count, adder_structures, v3, gr, adder_cost, max_value);
        proof {
            if !(adder_count@ == cs3 && adder_structures@ == gs3) {
                let m = odd_kernel(v3 as nat) as int;
                assert(lf7_tuple_record(term1, term2, term3, term4, term5, term6, term7, max_value, gr, m));
                assert(p(gr, m));
                lemma_evolution_push(
                    c_base,
                    g_base,
                    cs3,
                    gs3,
                    adder_count@,
                    adder_structures@,
                    m,
                    gr,
                    adder_cost,
                    p,
                );
            }
            {
                let m = odd_kernel(v3 as nat) as int;
                if 1 <= m <= max_value && c_base[m] >= adder_cost {
                    // the guard still held at this candidate, so it appended
                    assert(cs3[m] == c_base[m] || (c_base[m] >= adder_cost && cs3[m]
                        == adder_cost));
                    assert(adder_structures@[m]@ == gs3[m]@.push(gr));
                    assert(adder_structures@[m]@[gs3[m]@.len() as int] == gr);
                    assert(adder_structures@[m]@.contains(gr));
                }
            }
        }
    }
    proof {
        assert(cost_relaxed_to(cs3, adder_count@, adder_cost));
        lemma_cost_relaxed_trans(c_base, cs3, adder_count@, adder_cost);
    }
    let ghost cs4 = adder_count@;
    let ghost gs4 = adder_structures@;
    {
        let gr = GraphType::Leapfrog7_4(term1, term2, term3, term4, term5, term6, term7);
        proof {
                lemma_leaf_still_below(c_base, adder_count@, term1, adder_cost);
                lemma_leaf_still_below(c_base, adder_count@, term2, adder_cost);
                lemma_leaf_still_below(c_base, adder_count@, term3, adder_cost);
                lemma_leaf_still_below(c_base, adder_count@, term4, adder_cost);
                lemma_leaf_still_below(c_base, adder_count@, term5, adder_cost);
                lemma_leaf_still_below(c_base, adder_count@, term6, adder_cost);
                lemma_leaf_still_below(c_base, adder_count@, term7, adder_cost);
        }
        relax_graph(adder_count, adder_structures, v4, gr, adder_cost, max_value);
        proof {
            if !(adder_count@ == cs4 && adder_structures@ == gs4) {
                let m = odd_kernel(v4 as nat) as int;
                assert(lf7_tuple_record(term1, term2, term3, term4, term5, term6, term7, max_value, gr, m));
                assert(p(gr, m));
                lemma_evolution_push(
                    c_base,
                    g_base,
                    cs4,
                    gs4,
                    adder_count@,
                    adder_structures@,
                    m,
                    gr,
                    adder_cost,
                    p,
                );
            }
            {
                let m = odd_kernel(v4 as nat) as int;
                if 1 <= m <= max_value && c_base[m] >= adder_cost {
                    // the guard still held at this candidate, so it appended
                    assert(cs4[m] == c_base[m] || (c_base[m] >= adder_cost && cs4[m]
                        == adder_cost));
                    assert(adder_structures@[m]@ == gs4[m]@.push(gr));
                    assert(adder_structures@[m]@[gs4[m]@.len() as int] == gr);
                    assert(adder_structures@[m]@.contains(gr));
                }
            }
        }
    }
    proof {
        assert(cost_relaxed_to(cs4, adder_count@, adder_cost));
        lemma_cost_relaxed_trans(c_base, cs4, adder_count@, adder_cost);
        {
            lemma_kernel_done_relax(cs4, adder_count@, v3 as int, adder_cost, max_value);
            let m_w = odd_kernel(v3 as nat) as int;
            if 1 <= m_w <= max_value && c_base[m_w] >= adder_cost {
                if adder_structures@[m_w] != gs4[m_w] {
                    assert(adder_structures@[m_w]@ == gs4[m_w]@.push(
                        GraphType::Leapfrog7_4(term1, term2, term3, term4, term5, term6, term7),
                    ));
                    lemma_graph_contains_push(
                        gs4[m_w]@,
                        GraphType::Leapfrog7_4(term1, term2, term3, term4, term5, term6, term7),
                        GraphType::Leapfrog7_3(term1, term2, term3, term4, term5, term6, term7),
                    );
                }
                assert(adder_structures@[m_w]@.contains(GraphType::Leapfrog7_3(term1, term2, term3, term4, term5, term6, term7)));
            }
        }
    }
    proof {
        {
            assert(kernel_done(adder_count@, v3 as int, adder_cost, max_value));
            assert(eval(GraphType::Leapfrog7_3(term1, term2, term3, term4, term5, term6, term7)) == v3 as int);
            let m = odd_kernel(v3 as nat) as int;
            if 1 <= m <= max_value && c_base[m] >= adder_cost {
                assert(adder_structures@[m]@.contains(GraphType::Leapfrog7_3(term1, term2, term3, term4, term5, term6, term7)));
            }
        }
        {
            assert(kernel_done(adder_count@, v4 as int, adder_cost, max_value));
            assert(eval(GraphType::Leapfrog7_4(term1, term2, term3, term4, term5, term6, term7)) == v4 as int);
            let m = odd_kernel(v4 as nat) as int;
            if 1 <= m <= max_value && c_base[m] >= adder_cost {
                assert(adder_structures@[m]@.contains(GraphType::Leapfrog7_4(term1, term2, term3, term4, term5, term6, term7)));
            }
        }
    }
}

/// Offer variant expressions 5 through 6 of one kept
/// 7-parameter tuple to the table.
#[verifier::rlimit(100)]
fn lf7_relax_part_three(
    adder_count: &mut Vec<u8>,
    adder_structures: &mut Vec<Vec<GraphType>>,
    term1: usize,
    term2: usize,
    term3: usize,
    term4: usize,
    term5: usize,
    term6: usize,
    term7: usize,
    adder_cost: u8,
    max_value: usize,
    Ghost(p): Ghost<spec_fn(GraphType, int) -> bool>,
)
    requires
        table_wf(old(adder_count)@, old(adder_structures)@, adder_cost),
        0 < adder_cost < COST_SENTINEL,
        max_value < old(adder_count)@.len(),
        lf7_parity(term1, term2, term3, term4, term5, term6, term7),
        leaf_below(old(adder_count)@, term1, adder_cost) && term1 <= TERM_LIMIT,
        leaf_below(old(adder_count)@, term2, adder_cost) && term2 <= TERM_LIMIT,
        leaf_below(old(adder_count)@, term3, adder_cost) && term3 <= TERM_LIMIT,
        leaf_below(old(adder_count)@, term4, adder_cost) && term4 <= TERM_LIMIT,
        leaf_below(old(adder_count)@, term5, adder_cost) && term5 <= TERM_LIMIT,
        leaf_below(old(adder_count)@, term6, adder_cost) && term6 <= TERM_LIMIT,
        leaf_below(old(adder_count)@, term7, adder_cost) && term7 <= TERM_LIMIT,
        forall|gr: GraphType, nn: int|
            lf7_tuple_record(term1, term2, term3, term4, term5, term6, term7, max_value, gr, nn) ==> #[trigger] p(gr, nn),
    ensures
        table_wf(final(adder_count)@, final(adder_structures)@, adder_cost),
        cost_relaxed_to(old(adder_count)@, final(adder_count)@, adder_cost),
        final(adder_structures)@.len() == old(adder_structures)@.len(),
        kernel_done(
            final(adder_count)@,
            eval(GraphType::Leapfrog7_5(term1, term2, term3, term4, term5, term6, term7)),
            adder_cost,
            max_value,
        ),
        kernel_done(
            final(adder_count)@,
            eval(GraphType::Leapfrog7_6(term1, term2, term3, term4, term5, term6, term7)),
            adder_cost,
            max_value,
        ),
        ({
            let m = odd_kernel(eval(GraphType::Leapfrog7_5(term1, term2, term3, term4, term5, term6, term7)) as nat) as int;
            1 <= m <= max_value && old(adder_count)@[m] >= adder_cost
                ==> final(adder_structures)@[m]@.contains(GraphType::Leapfrog7_5(term1, term2, term3, term4, term5, term6, term7))
        }),
        ({
            let m = odd_kernel(eval(GraphType::Leapfrog7_6(term1, term2, term3, term4, term5, term6, term7)) as nat) as int;
            1 <= m <= max_value && old(adder_count)@[m] >= adder_cost
                ==> final(adder_structures)@[m]@.contains(GraphType::Leapfrog7_6(term1, term2, term3, term4, term5, term6, term7))
        }),
        table_evolution(
            old(adder_count)@,
            old(adder_structures)@,
            final(adder_count)@,
            final(adder_structures)@,
            adder_cost,
            p,
        ),
{
    let t1 = term1 as u128;
    let t2 = term2 as u128;
    let t3 = term3 as u128;
    let t4 = term4 as u128;
    let t5 = term5 as u128;
    let t6 = term6 as u128;
    let t7 = term7 as u128;
    proof {
        vstd::arithmetic::mul::lemma_mul_upper_bound(
            t1 as int,
            TERM_LIMIT as int,
            t3 as int,
            TERM_LIMIT as int,
        );
        vstd::arithmetic::mul::lemma_mul_upper_bound(
            t1 as int,
            TERM_LIMIT as int,
            t4 as int,
            TERM_LIMIT as int,
        );
    }
    let ac = t1 * t3;
    let m_ad = t1 * t4;
    let p_sum = ac + t2;
    let q_diff = dist_u128(ac, t2);
    proof {
        vstd::arithmetic::mul::lemma_mul_upper_bound(
            t5 as int,
            TERM_LIMIT as int,
            p_sum as int,
            TERM_LIMIT as int * TERM_LIMIT as int + TERM_LIMIT as int,
        );
        vstd::arithmetic::mul::lemma_mul_upper_bound(
            t5 as int,
            TERM_LIMIT as int,
            q_diff as int,
            TERM_LIMIT as int * TERM_LIMIT as int,
        );
        vstd::arithmetic::mul::lemma_mul_upper_bound(
            t6 as int,
            TERM_LIMIT as int,
            p_sum as int,
            TERM_LIMIT as int * TERM_LIMIT as int + TERM_LIMIT as int,
        );
        vstd::arithmetic::mul::lemma_mul_upper_bound(
            t6 as int,
            TERM_LIMIT as int,
            q_diff as int,
            TERM_LIMIT as int * TERM_LIMIT as int,
        );
    }
    let inner_pp = t5 * p_sum + m_ad;
    let inner_qp = t5 * q_diff + m_ad;
    let inner_pm = dist_u128(t5 * p_sum, m_ad);
    let inner_qm = dist_u128(t5 * q_diff, m_ad);
    let f6p = t6 * p_sum;
    let f6q = t6 * q_diff;
    proof {
        vstd::arithmetic::mul::lemma_mul_upper_bound(
            t7 as int,
            TERM_LIMIT as int,
            inner_pp as int,
            TERM_LIMIT as int * TERM_LIMIT as int * TERM_LIMIT as int + 2 * TERM_LIMIT as int * TERM_LIMIT as int,
        );
        vstd::arithmetic::mul::lemma_mul_upper_bound(
            t7 as int,
            TERM_LIMIT as int,
            inner_qp as int,
            TERM_LIMIT as int * TERM_LIMIT as int * TERM_LIMIT as int + 2 * TERM_LIMIT as int * TERM_LIMIT as int,
        );
        vstd::arithmetic::mul::lemma_mul_upper_bound(
            t7 as int,
            TERM_LIMIT as int,
            inner_pm as int,
            TERM_LIMIT as int * TERM_LIMIT as int * TERM_LIMIT as int + 2 * TERM_LIMIT as int * TERM_LIMIT as int,
        );
        vstd::arithmetic::mul::lemma_mul_upper_bound(
            t7 as int,
            TERM_LIMIT as int,
            inner_qm as int,
            TERM_LIMIT as int * TERM_LIMIT as int * TERM_LIMIT as int + 2 * TERM_LIMIT as int * TERM_LIMIT as int,
        );
    }
    let v1 = t7 * inner_pp + f6p;
    let v2 = t7 * inner_qp + f6q;
    let v3 = t7 * inner_pm + f6p;
    let v4 = dist_u128(t7 * inner_pp, f6p);
    let v5 = t7 * inner_qm + f6q;
    let v6 = dist_u128(t7 * inner_qp, f6q);
    let v7 = dist_u128(t7 * inner_pm, f6p);
    let v8 = dist_u128(t7 * inner_qm, f6q);
    proof {
        assert(eval(GraphType::Leapfrog7_5(term1, term2, term3, term4, term5, term6, term7))
            == v5 as int);
        assert(eval(GraphType::Leapfrog7_6(term1, term2, term3, term4, term5, term6, term7))
            == v6 as int);
    }
    let ghost c_base = adder_count@;
    let ghost g_base = adder_structures@;
    proof {
        lemma_evolution_refl(c_base, g_base, adder_cost, p);
    }
    let ghost cs5 = adder_count@;
    let ghost gs5 = adder_structures@;
    {
        let gr = GraphType::Leapfrog7_5(term1, term2, term3, term4, term5, term6, term7);
        proof {
                lemma_leaf_still_below(c_base, adder_count@, term1, adder_cost);
                lemma_leaf_still_below(c_base, adder_count@, term2, adder_cost);
                lemma_leaf_still_below(c_base, adder_count@, term3, adder_cost);
                lemma_leaf_still_below(c_base, adder_count@, term4, adder_cost);
                lemma_leaf_still_below(c_base, adder_count@, term5, adder_cost);
                lemma_leaf_still_below(c_base, adder_count@, term6, adder_cost);
                lemma_leaf_still_below(c_base, adder_count@, term7, adder_cost);
        }
        relax_graph(adder_count, adder_structures, v5, gr, adder_cost, max_value);
        proof {
            if !(adder_count@ == cs5 && adder_structures@ == gs5) {
                let m = odd_kernel(v5 as nat) as int;
                assert(lf7_tuple_record(term1, term2, term3, term4, term5, term6, term7, max_value, gr, m));
                assert(p(gr, m));
                lemma_evolution_push(
                    c_base,
                    g_base,
                    cs5,
                    gs5,
                    adder_count@,
                    adder_structures@,
                    m,
                    gr,
                    adder_cost,
                    p,
                );
            }
            {
                let m = odd_kernel(v5 as nat) as int;
                if 1 <= m <= max_value && c_base[m] >= adder_cost {
                    // the guard still held at this candidate, so it appended
                    assert(cs5[m] == c_base[m] || (c_base[m] >= adder_cost && cs5[m]
                        == adder_cost));
                    assert(adder_structures@[m]@ == gs5[m]@.push(gr));
                    assert(adder_structures@[m]@[gs5[m]@.len() as int] == gr);
                    assert(adder_structures@[m]@.contains(gr));
                }
            }
        }
    }
    proof {
        assert(cost_relaxed_to(cs5, adder_count@, adder_cost));
        lemma_cost_relaxed_trans(c_base, cs5, adder_count@, adder_cost);
    }
    let ghost cs6 = adder_count@;
    let ghost gs6 = adder_structures@;
    {
        let gr = GraphType::Leapfrog7_6(term1, term2, term3, term4, term5, term6, term7);
        proof {
                lemma_leaf_still_below(c_base, adder_count@, term1, adder_cost);
                lemma_leaf_still_below(c_base, adder_count@, term2, adder_cost);
                lemma_leaf_still_below(c_base, adder_count@, term3, adder_cost);
                lemma_leaf_still_below(c_base, adder_count@, term4, adder_cost);
                lemma_leaf_still_below(c_base, adder_count@, term5, adder_cost);
                lemma_leaf_still_below(c_base, adder_count@, term6, adder_cost);
                lemma_leaf_still_below(c_base, adder_count@, term7, adder_cost);
        }
        relax_graph(adder_count, adder_structures, v6, gr, adder_cost, max_value);
        proof {
            if !(adder_count@ == cs6 && adder_structures@ == gs6) {
                let m = odd_kernel(v6 as nat) as int;
                assert(lf7_tuple_record(term1, term2, term3, term4, term5, term6, term7, max_value, gr, m));
                assert(p(gr, m));
                lemma_evolution_push(
                    c_base,
                    g_base,
                    cs6,
                    gs6,
                    adder_count@,
                    adder_structures@,
                    m,
                    gr,
                    adder_cost,
                    p,
                );
            }
            {
                let m = odd_kernel(v6 as nat) as int;
                if 1 <= m <= max_value && c_base[m] >= adder_cost {
                    // the guard still held at this candidate, so it appended
                    assert(cs6[m] == c_base[m] || (c_base[m] >= adder_cost && cs6[m]
                        == adder_cost));
                    assert(adder_structures@[m]@ == gs6[m]@.push(gr));
                    assert(adder_structures@[m]@[gs6[m]@.len() as int] == gr);
                    assert(adder_structures@[m]@.contains(gr));
                }
            }
        }
    }
    proof {
        assert(cost_relaxed_to(cs6, adder_count@, adder_cost));
        lemma_cost_relaxed_trans(c_base, cs6, adder_count@, adder_cost);
        {
            lemma_kernel_done_relax(cs6, adder_count@, v5 as int, adder_cost, max_value);
            let m_w = odd_kernel(v5 as nat) as int;
            if 1 <= m_w <= max_value && c_base[m_w] >= adder_cost {
                if adder_structures@[m_w] != gs6[m_w] {
                    assert(adder_structures@[m_w]@ == gs6[m_w]@.push(
                        GraphType::Leapfrog7_6(term1, term2, term3, term4, term5, term6, term7),
                    ));
                    lemma_graph_contains_push(
                        gs6[m_w]@,
                        GraphType::Leapfrog7_6(term1, term2, term3, term4, term5, term6, term7),
                        GraphType::Leapfrog7_5(term1, term2, term3, term4, term5, term6, term7),
                    );
                }
                assert(adder_structures@[m_w]@.contains(GraphType::Leapfrog7_5(term1, term2, term3, term4, term5, term6, term7)));
            }
        }
    }
    proof {
        {
            assert(kernel_done(adder_count@, v5 as int, adder_cost, max_value));
            assert(eval(GraphType::Leapfrog7_5(term1, term2, term3, term4, term5, term6, term7)) == v5 as int);
            let m = odd_kernel(v5 as nat) as int;
            if 1 <= m <= max_value && c_base[m] >= adder_cost {
                assert(adder_structures@[m]@.contains(GraphType::Leapfrog7_5(term1, term2, term3, term4, term5, term6, term7)));
            }
        }
        {
            assert(kernel_done(adder_count@, v6 as int, adder_cost, max_value));
            assert(eval(GraphType::Leapfrog7_6(term1, term2, term3, term4, term5, term6, term7)) == v6 as int);
            let m = odd_kernel(v6 as nat) as int;
            if 1 <= m <= max_value && c_base[m] >= adder_cost {
                assert(adder_structures@[m]@.contains(GraphType::Leapfrog7_6(term1, term2, term3, term4, term5, term6, term7)));
            }
        }
    }
}

/// Offer variant expressions 7 through 8 of one kept
/// 7-parameter tuple to the table.
#[verifier::rlimit(100)]
fn lf7_relax_part_four(
    adder_count: &mut Vec<u8>,
    adder_structures: &mut Vec<Vec<GraphType>>,
    term1: usize,
    term2: usize,
    term3: usize,
    term4: usize,
    term5: usize,
    term6: usize,
    term7: usize,
    adder_cost: u8,
    max_value: usize,
    Ghost(p): Ghost<spec_fn(GraphType, int) -> bool>,
)
    requires
        table_wf(old(adder_count)@, old(adder_structures)@, adder_cost),
        0 < adder_cost < COST_SENTINEL,
        max_value < old(adder_count)@.len(),
        lf7_parity(term1, term2, term3, term4, term5, term6, term7),
        leaf_below(old(adder_count)@, term1, adder_cost) && term1 <= TERM_LIMIT,
        leaf_below(old(adder_count)@, term2, adder_cost) && term2 <= TERM_LIMIT,
        leaf_below(old(adder_count)@, term3, adder_cost) && term3 <= TERM_LIMIT,
        leaf_below(old(adder_count)@, term4, adder_cost) && term4 <= TERM_LIMIT,
        leaf_below(old(adder_count)@, term5, adder_cost) && term5 <= TERM_LIMIT,
        leaf_below(old(adder_count)@, term6, adder_cost) && term6 <= TERM_LIMIT,
        leaf_below(old(adder_count)@, term7, adder_cost) && term7 <= TERM_LIMIT,
        forall|gr: GraphType, nn: int|
            lf7_tuple_record(term1, term2, term3, term4, term5, term6, term7, max_value, gr, nn) ==> #[trigger] p(gr, nn),
    ensures
        table_wf(final(adder_count)@, final(adder_structures)@, adder_cost),
        cost_relaxed_to(old(adder_count)@, final(adder_count)@, adder_cost),
        final(adder_structures)@.len() == old(adder_structures)@.len(),
        kernel_done(
            final(adder_count)@,
            eval(GraphType::Leapfrog7_7(term1, term2, term3, term4, term5, term6, term7)),
            adder_cost,
            max_value,
        ),
        kernel_done(
            final(adder_count)@,
            eval(GraphType::Leapfrog7_8(term1, term2, term3, term4, term5, term6, term7)),
            adder_cost,
            max_value,
        ),
        ({
            let m = odd_kernel(eval(GraphType::Leapfrog7_7(term1, term2, term3, term4, term5, term6, term7)) as nat) as int;
            1 <= m <= max_value && old(adder_count)@[m] >= adder_cost
                ==> final(adder_structures)@[m]@.contains(GraphType::Leapfrog7_7(term1, term2, term3, term4, term5, term6, term7))
        }),
        ({
            let m = odd_kernel(eval(GraphType::Leapfrog7_8(term1, term2, term3, term4, term5, term6, term7)) as nat) as int;
            1 <= m <= max_value && old(adder_count)@[m] >= adder_cost
                ==> final(adder_structures)@[m]@.contains(GraphType::Leapfrog7_8(term1, term2, term3, term4, term5, term6, term7))
        }),
        table_evolution(
            old(adder_count)@,
            old(adder_structures)@,
            final(adder_count)@,
            final(adder_structures)@,
            adder_cost,
            p,
        ),
{
    let t1 = term1 as u128;
    let t2 = term2 as u128;
    let t3 = term3 as u128;
    let t4 = term4 as u128;
    let t5 = term5 as u128;
    let t6 = term6 as u128;
    let t7 = term7 as u128;
    proof {
        vstd::arithmetic::mul::lemma_mul_upper_bound(
            t1 as int,
            TERM_LIMIT as int,
            t3 as int,
            TERM_LIMIT as int,
        );
        vstd::arithmetic::mul::lemma_mul_upper_bound(
            t1 as int,
            TERM_LIMIT as int,
            t4 as int,
            TERM_LIMIT as int,
        );
    }
    let ac = t1 * t3;
    let m_ad = t1 * t4;
    let p_sum = ac + t2;
    let q_diff = dist_u128(ac, t2);
    proof {
        vstd::arithmetic::mul::lemma_mul_upper_bound(
            t5 as int,
            TERM_LIMIT as int,
            p_sum as int,
            TERM_LIMIT as int * TERM_LIMIT as int + TERM_LIMIT as int,
        );
        vstd::arithmetic::mul::lemma_mul_upper_bound(
            t5 as int,
            TERM_LIMIT as int,
            q_diff as int,
            TERM_LIMIT as int * TERM_LIMIT as int,
        );
        vstd::arithmetic::mul::lemma_mul_upper_bound(
            t6 as int,
            TERM_LIMIT as int,
            p_sum as int,
            TERM_LIMIT as int * TERM_LIMIT as int + TERM_LIMIT as int,
        );
        vstd::arithmetic::mul::lemma_mul_upper_bound(
            t6 as int,
            TERM_LIMIT as int,
            q_diff as int,
            TERM_LIMIT as int * TERM_LIMIT as int,
        );
    }
    let inner_pp = t5 * p_sum + m_ad;
    let inner_qp = t5 * q_diff + m_ad;
    let inner_pm = dist_u128(t5 * p_sum, m_ad);
    let inner_qm = dist_u128(t5 * q_diff, m_ad);
    let f6p = t6 * p_sum;
    let f6q = t6 * q_diff;
    proof {
        vstd::arithmetic::mul::lemma_mul_upper_bound(
            t7 as int,
            TERM_LIMIT as int,
            inner_pp as int,
            TERM_LIMIT as int * TERM_LIMIT as int * TERM_LIMIT as int + 2 * TERM_LIMIT as int * TERM_LIMIT as int,
        );
        vstd::arithmetic::mul::lemma_mul_upper_bound(
            t7 as int,
            TERM_LIMIT as int,
            inner_qp as int,
            TERM_LIMIT as int * TERM_LIMIT as int * TERM_LIMIT as int + 2 * TERM_LIMIT as int * TERM_LIMIT as int,
        );
        vstd::arithmetic::mul::lemma_mul_upper_bound(
            t7 as int,
            TERM_LIMIT as int,
            inner_pm as int,
            TERM_LIMIT as int * TERM_LIMIT as int * TERM_LIMIT as int + 2 * TERM_LIMIT as int * TERM_LIMIT as int,
        );
        vstd::arithmetic::mul::lemma_mul_upper_bound(
            t7 as int,
            TERM_LIMIT as int,
            inner_qm as int,
            TERM_LIMIT as int * TERM_LIMIT as int * TERM_LIMIT as int + 2 * TERM_LIMIT as int * TERM_LIMIT as int,
        );
    }
    let v1 = t7 * inner_pp + f6p;
    let v2 = t7 * inner_qp + f6q;
    let v3 = t7 * inner_pm + f6p;
    let v4 = dist_u128(t7 * inner_pp, f6p);
    let v5 = t7 * inner_qm + f6q;
    let v6 = dist_u128(t7 * inner_qp, f6q);
    let v7 = dist_u128(t7 * inner_pm, f6p);
    let v8 = dist_u128(t7 * inner_qm, f6q);
    proof {
        assert(eval(GraphType::Leapfrog7_7(term1, term2, term3, term4, term5, term6, term7))
            == v7 as int);
        assert(eval(GraphType::Leapfrog7_8(term1, term2, term3, term4, term5, term6, term7))
            == v8 as int);
    }
    let ghost c_base = adder_count@;
    let ghost g_base = adder_structures@;
    proof {
        lemma_evolution_refl(c_base, g_base, adder_cost, p);
    }
    let ghost cs7 = adder_count@;
    let ghost gs7 = adder_structures@;
    {
        let gr = GraphType::Leapfrog7_7(term1, term2, term3, term4, term5, term6, term7);
        proof {
                lemma_leaf_still_below(c_base, adder_count@, term1, adder_cost);
                lemma_leaf_still_below(c_base, adder_count@, term2, adder_cost);
                lemma_leaf_still_below(c_base, adder_count@, term3, adder_cost);
                lemma_leaf_still_below(c_base, adder_count@, term4, adder_cost);
                lemma_leaf_still_below(c_base, adder_count@, term5, adder_cost);
                lemma_leaf_still_below(c_base, adder_count@, term6, adder_cost);
                lemma_leaf_still_below(c_base, adder_count@, term7, adder_cost);
        }
        relax_graph(adder_count, adder_structures, v7, gr, adder_cost, max_value);
        proof {
            if !(adder_count@ == cs7 && adder_structures@ == gs7) {
                let m = odd_kernel(v7 as nat) as int;
                assert(lf7_tuple_record(term1, term2, term3, term4, term5, term6, term7, max_value, gr, m));
                assert(p(gr, m));
                lemma_evolution_push(
                    c_base,
                    g_base,
                    cs7,
                    gs7,
                    adder_count@,
                    adder_structures@,
                    m,
                    gr,
                    adder_cost,
                    p,
                );
            }
            {
                let m = odd_kernel(v7 as nat) as int;
                if 1 <= m <= max_value && c_base[m] >= adder_cost {
                    // the guard still held at this candidate, so it appended
                    assert(cs7[m] == c_base[m] || (c_base[m] >= adder_cost && cs7[m]
                        == adder_cost));
                    assert(adder_structures@[m]@ == gs7[m]@.push(gr));
                    assert(adder_structures@[m]@[gs7[m]@.len() as int] == gr);
                    assert(adder_structures@[m]@.contains(gr));
                }
            }
        }
    }
    proof {
        assert(cost_relaxed_to(cs7, adder_count@, adder_cost));
        lemma_cost_relaxed_trans(c_base, cs7, adder_count@, adder_cost);
    }
    let ghost cs8 = adder_count@;
    let ghost gs8 = adder_structures@;
    {
        let gr = GraphType::Leapfrog7_8(term1, term2, term3, term4, term5, term6, term7);
        proof {
                lemma_leaf_still_below(c_base, adder_count@, term1, adder_cost);
                lemma_leaf_still_below(c_base, adder_count@, term2, adder_cost);
                lemma_leaf_still_below(c_base, adder_count@, term3, adder_cost);
                lemma_leaf_still_below(c_base, adder_count@, term4, adder_cost);
                lemma_leaf_still_below(c_base, adder_count@, term5, adder_cost);
                lemma_leaf_still_below(c_base, adder_count@, term6, adder_cost);
                lemma_leaf_still_below(c_base, adder_count@, term7, adder_cost);
        }
        relax_graph(adder_count, adder_structures, v8, gr, adder_cost, max_value);
        proof {
            if !(adder_count@ == cs8 && adder_structures@ == gs8) {
                let m = odd_kernel(v8 as nat) as int;
                assert(lf7_tuple_record(term1, term2, term3, term4, term5, term6, term7, max_value, gr, m));
                assert(p(gr, m));
                lemma_evolution_push(
                    c_base,
                    g_base,
                    cs8,
                    gs8,
                    adder_count@,
                    adder_structures@,
                    m,
                    gr,
                    adder_cost,
                    p,
                );
            }
            {
                let m = odd_kernel(v8 as nat) as int;
                if 1 <= m <= max_value && c_base[m] >= adder_cost {
                    // the guard still held at this candidate, so it appended
                    assert(cs8[m] == c_base[m] || (c_base[m] >= adder_cost && cs8[m]
                        == adder_cost));
                    assert(adder_structures@[m]@ == gs8[m]@.push(gr));
                    assert(adder_structures@[m]@[gs8[m]@.len() as int] == gr);
                    assert(adder_structures@[m]@.contains(gr));
                }
            }
        }
    }
    proof {
        assert(cost_relaxed_to(cs8, adder_count@, adder_cost));
        lemma_cost_relaxed_trans(c_base, cs8, adder_count@, adder_cost);
        {
            lemma_kernel_done_relax(cs8, adder_count@, v7 as int, adder_cost, max_value);
            let m_w = odd_kernel(v7 as nat) as int;
            if 1 <= m_w <= max_value && c_base[m_w] >= adder_cost {
                if adder_structures@[m_w] != gs8[m_w] {
                    assert(adder_structures@[m_w]@ == gs8[m_w]@.push(
                        GraphType::Leapfrog7_8(term1, term2, term3, term4, term5, term6, term7),
                    ));
                    lemma_graph_contains_push(
                        gs8[m_w]@,
                        GraphType::Leapfrog7_8(term1, term2, term3, term4, term5, term6, term7),
                        GraphType::Leapfrog7_7(term1, term2, term3, term4, term5, term6, term7),
                    );
                }
                assert(adder_structures@[m_w]@.contains(GraphType::Leapfrog7_7(term1, term2, term3, term4, term5, term6, term7)));
            }
        }
    }
    proof {
        {
            assert(kernel_done(adder_count@, v7 as int, adder_cost, max_value));
            assert(eval(GraphType::Leapfrog7_7(term1, term2, term3, term4, term5, term6, term7)) == v7 as int);
            let m = odd_kernel(v7 as nat) as int;
            if 1 <= m <= max_value && c_base[m] >= adder_cost {
                assert(adder_structures@[m]@.contains(GraphType::Leapfrog7_7(term1, term2, term3, term4, term5, term6, term7)));
            }
        }
        {
            assert(kernel_done(adder_count@, v8 as int, adder_cost, max_value));
            assert(eval(GraphType::Leapfrog7_8(term1, term2, term3, term4, term5, term6, term7)) == v8 as int);
            let m = odd_kernel(v8 as nat) as int;
            if 1 <= m <= max_value && c_base[m] >= adder_cost {
                assert(adder_structures@[m]@.contains(GraphType::Leapfrog7_8(term1, term2, term3, term4, term5, term6, term7)));
            }
        }
    }
}

/// Offer every variant expression of one kept 7-parameter tuple to the
/// table.
#[verifier::rlimit(100)]
fn lf7_relax_tuple(
    adder_count: &mut Vec<u8>,
    adder_structures: &mut Vec<Vec<GraphType>>,
    term1: usize,
    term2: usize,
    term3: usize,
    term4: usize,
    term5: usize,
    term6: usize,
    term7: usize,
    adder_cost: u8,
    max_value: usize,
    Ghost(p): Ghost<spec_fn(GraphType, int) -> bool>,
)
    requires
        table_wf(old(adder_count)@, old(adder_structures)@, adder_cost),
        0 < adder_cost < COST_SENTINEL,
        max_value < old(adder_count)@.len(),
        lf7_parity(term1, term2, term3, term4, term5, term6, term7),
        leaf_below(old(adder_count)@, term1, adder_cost) && term1 <= TERM_LIMIT,
        leaf_below(old(adder_count)@, term2, adder_cost) && term2 <= TERM_LIMIT,
        leaf_below(old(adder_count)@, term3, adder_cost) && term3 <= TERM_LIMIT,
        leaf_below(old(adder_count)@, term4, adder_cost) && term4 <= TERM_LIMIT,
        leaf_below(old(adder_count)@, term5, adder_cost) && term5 <= TERM_LIMIT,
        leaf_below(old(adder_count)@, term6, adder_cost) && term6 <= TERM_LIMIT,
        leaf_below(old(adder_count)@, term7, adder_cost) && term7 <= TERM_LIMIT,
        forall|gr: GraphType, nn: int|
            lf7_tuple_record(term1, term2, term3, term4, term5, term6, term7, max_value, gr, nn) ==> #[trigger] p(gr, nn),
    ensures
        table_wf(final(adder_count)@, final(adder_structures)@, adder_cost),
        cost_relaxed_to(old(adder_count)@, final(adder_count)@, adder_cost),
        final(adder_structures)@.len() == old(adder_structures)@.len(),
        lf7_tuple_done(final(adder_count)@, term1, term2, term3, term4, term5, term6, term7, adder_cost, max_value),
        lf7_tuple_recorded(
            old(adder_count)@,
            final(adder_structures)@,
            term1, term2, term3, term4, term5, term6, term7,
            adder_cost,
            max_value,
        ),
        table_evolution(
            old(adder_count)@,
            old(adder_structures)@,
            final(adder_count)@,
            final(adder_structures)@,
            adder_cost,
            p,
        ),
{
    let ghost c_base = adder_count@;
    let ghost g_base = adder_structures@;
    let ghost c_p0 = adder_count@;
    let ghost g_p0 = adder_structures@;
    lf7_relax_part_one(
        adder_count,
        adder_structures,
        term1, term2, term3, term4, term5, term6, term7,
        adder_cost,
        max_value,
        Ghost(p),
    );
    proof {
        lemma_cost_relaxed_trans(c_base, c_p0, adder_count@, adder_cost);
        {
            let m_v = odd_kernel(eval(GraphType::Leapfrog7_1(term1, term2, term3, term4, term5, term6, term7)) as nat) as int;
            if 1 <= m_v <= max_value && c_base[m_v] >= adder_cost {
                assert(c_p0[m_v] == c_base[m_v] || (c_base[m_v] >= adder_cost && c_p0[m_v]
                    == adder_cost));
                assert(adder_structures@[m_v]@.contains(GraphType::Leapfrog7_1(term1, term2, term3, term4, term5, term6, term7)));
            }
        }
        {
            let m_v = odd_kernel(eval(GraphType::Leapfrog7_2(term1, term2, term3, term4, term5, term6, term7)) as nat) as int;
            if 1 <= m_v <= max_value && c_base[m_v] >= adder_cost {
                assert(c_p0[m_v] == c_base[m_v] || (c_base[m_v] >= adder_cost && c_p0[m_v]
                    == adder_cost));
                assert(adder_structures@[m_v]@.contains(GraphType::Leapfrog7_2(term1, term2, term3, term4, term5, term6, term7)));
            }
        }
    }
    let ghost c_p1 = adder_count@;
    let ghost g_p1 = adder_structures@;
    proof {
        lemma_leaf_still_below(c_base, adder_count@, term1, adder_cost);
        lemma_leaf_still_below(c_base, adder_count@, term2, adder_cost);
        lemma_leaf_still_below(c_base, adder_count@, term3, adder_cost);
        lemma_leaf_still_below(c_base, adder_count@, term4, adder_cost);
        lemma_leaf_still_below(c_base, adder_count@, term5, adder_cost);
        lemma_leaf_still_below(c_base, adder_count@, term6, adder_cost);
        lemma_leaf_still_below(c_base, adder_count@, term7, adder_cost);
    }
    lf7_relax_part_two(
        adder_count,
        adder_structures,
        term1, term2, term3, term4, term5, term6, term7,
        adder_cost,
        max_value,
        Ghost(p),
    );
    proof {
        lemma_cost_relaxed_trans(c_base, c_p1, adder_count@, adder_cost);
        lemma_evolution_trans(
            c_base,
            g_base,
            c_p1,
            g_p1,
            adder_count@,
            adder_structures@,
            adder_cost,
            p,
        );
        {
            lemma_kernel_done_relax(
                c_p1,
                adder_count@,
                eval(GraphType::Leapfrog7_1(term1, term2, term3, term4, term5, term6, term7)),
                adder_cost,
                max_value,
            );
            let m_w = odd_kernel(eval(GraphType::Leapfrog7_1(term1, term2, term3, term4, term5, term6, term7)) as nat) as int;
            if 1 <= m_w <= max_value && c_base[m_w] >= adder_cost {
                lemma_graph_contains_prefix(
                    g_p1[m_w]@,
                    adder_structures@[m_w]@,
                    GraphType::Leapfrog7_1(term1, term2, term3, term4, term5, term6, term7),
                );
            }
        }
        {
            lemma_kernel_done_relax(
                c_p1,
                adder_count@,
                eval(GraphType::Leapfrog7_2(term1, term2, term3, term4, term5, term6, term7)),
                adder_cost,
                max_value,
            );
            let m_w = odd_kernel(eval(GraphType::Leapfrog7_2(term1, term2, term3, term4, term5, term6, term7)) as nat) as int;
            if 1 <= m_w <= max_value && c_base[m_w] >= adder_cost {
                lemma_graph_contains_prefix(
                    g_p1[m_w]@,
                    adder_structures@[m_w]@,
                    GraphType::Leapfrog7_2(term1, term2, term3, term4, term5, term6, term7),
                );
            }
        }
        {
            let m_v = odd_kernel(eval(GraphType::Leapfrog7_3(term1, term2, term3, term4, term5, term6, term7)) as nat) as int;
            if 1 <= m_v <= max_value && c_base[m_v] >= adder_cost {
                assert(c_p1[m_v] == c_base[m_v] || (c_base[m_v] >= adder_cost && c_p1[m_v]
                    == adder_cost));
                assert(adder_structures@[m_v]@.contains(GraphType::Leapfrog7_3(term1, term2, term3, term4, term5, term6, term7)));
            }
        }
        {
            let m_v = odd_kernel(eval(GraphType::Leapfrog7_4(term1, term2, term3, term4, term5, term6, term7)) as nat) as int;
            if 1 <= m_v <= max_value && c_base[m_v] >= adder_cost {
                assert(c_p1[m_v] == c_base[m_v] || (c_base[m_v] >= adder_cost && c_p1[m_v]
                    == adder_cost));
                assert(adder_structures@[m_v]@.contains(GraphType::Leapfrog7_4(term1, term2, term3, term4, term5, term6, term7)));
            }
        }
    }
    let ghost c_p2 = adder_count@;
    let ghost g_p2 = adder_structures@;
    proof {
        lemma_leaf_still_below(c_base, adder_count@, term1, adder_cost);
        lemma_leaf_still_below(c_base, adder_count@, term2, adder_cost);
        lemma_leaf_still_below(c_base, adder_count@, term3, adder_cost);
        lemma_leaf_still_below(c_base, adder_count@, term4, adder_cost);
        lemma_leaf_still_below(c_base, adder_count@, term5, adder_cost);
        lemma_leaf_still_below(c_base, adder_count@, term6, adder_cost);
        lemma_leaf_still_below(c_base, adder_count@, term7, adder_cost);
    }
    lf7_relax_part_three(
        adder_count,
        adder_structures,
        term1, term2, term3, term4, term5, term6, term7,
        adder_cost,
        max_value,
        Ghost(p),
    );
    proof {
        lemma_cost_relaxed_trans(c_base, c_p2, adder_count@, adder_cost);
        lemma_evolution_trans(
            c_base,
            g_base,
            c_p2,
            g_p2,
            adder_count@,
            adder_structures@,
            adder_cost,
            p,
        );
        {
            lemma_kernel_done_relax(
                c_p2,
                adder_count@,
                eval(GraphType::Leapfrog7_1(term1, term2, term3, term4, term5, term6, term7)),
                adder_cost,
                max_value,
            );
            let m_w = odd_kernel(eval(GraphType::Leapfrog7_1(term1, term2, term3, term4, term5, term6, term7)) as nat) as int;
            if 1 <= m_w <= max_value && c_base[m_w] >= adder_cost {
                lemma_graph_contains_prefix(
                    g_p2[m_w]@,
                    adder_structures@[m_w]@,
                    GraphType::Leapfrog7_1(term1, term2, term3, term4, term5, term6, term7),
                );
            }
        }
        {
            lemma_kernel_done_relax(
                c_p2,
                adder_count@,
                eval(GraphType::Leapfrog7_2(term1, term2, term3, term4, term5, term6, term7)),
                adder_cost,
                max_value,
            );
            let m_w = odd_kernel(eval(GraphType::Leapfrog7_2(term1, term2, term3, term4, term5, term6, term7)) as nat) as int;
            if 1 <= m_w <= max_value && c_base[m_w] >= adder_cost {
                lemma_graph_contains_prefix(
                    g_p2[m_w]@,
                    adder_structures@[m_w]@,
                    GraphType::Leapfrog7_2(term1, term2, term3, term4, term5, term6, term7),
                );
            }
        }
        {
            lemma_kernel_done_relax(
                c_p2,
                adder_count@,
                eval(GraphType::Leapfrog7_3(term1, term2, term3, term4, term5, term6, term7)),
                adder_cost,
                max_value,
            );
            let m_w = odd_kernel(eval(GraphType::Leapfrog7_3(term1, term2, term3, term4, term5, term6, term7)) as nat) as int;
            if 1 <= m_w <= max_value && c_base[m_w] >= adder_cost {
                lemma_graph_contains_prefix(
                    g_p2[m_w]@,
                    adder_structures@[m_w]@,
                    GraphType::Leapfrog7_3(term1, term2, term3, term4, term5, term6, term7),
                );
            }
        }
        {
            lemma_kernel_done_relax(
                c_p2,
                adder_count@,
                eval(GraphType::Leapfrog7_4(term1, term2, term3, term4, term5, term6, term7)),
                adder_cost,
                max_value,
            );
            let m_w = odd_kernel(eval(GraphType::Leapfrog7_4(term1, term2, term3, term4, term5, term6, term7)) as nat) as int;
            if 1 <= m_w <= max_value && c_base[m_w] >= adder_cost {
                lemma_graph_contains_prefix(
                    g_p2[m_w]@,
                    adder_structures@[m_w]@,
                    GraphType::Leapfrog7_4(term1, term2, term3, term4, term5, term6, term7),
                );
            }
        }
        {
            let m_v = odd_kernel(eval(GraphType::Leapfrog7_5(term1, term2, term3, term4, term5, term6, term7)) as nat) as int;
            if 1 <= m_v <= max_value && c_base[m_v] >= adder_cost {
                assert(c_p2[m_v] == c_base[m_v] || (c_base[m_v] >= adder_cost && c_p2[m_v]
                    == adder_cost));
                assert(adder_structures@[m_v]@.contains(GraphType::Leapfrog7_5(term1, term2, term3, term4, term5, term6, term7)));
            }
        }
        {
            let m_v = odd_kernel(eval(GraphType::Leapfrog7_6(term1, term2, term3, term4, term5, term6, term7)) as nat) as int;
            if 1 <= m_v <= max_value && c_base[m_v] >= adder_cost {
                assert(c_p2[m_v] == c_base[m_v] || (c_base[m_v] >= adder_cost && c_p2[m_v]
                    == adder_cost));
                assert(adder_structures@[m_v]@.contains(GraphType::Leapfrog7_6(term1, term2, term3, term4, term5, term6, term7)));
            }
        }
    }
    let ghost c_p3 = adder_count@;
    let ghost g_p3 = adder_structures@;
    proof {
        lemma_leaf_still_below(c_base, adder_count@, term1, adder_cost);
        lemma_leaf_still_below(c_base, adder_count@, term2, adder_cost);
        lemma_leaf_still_below(c_base, adder_count@, term3, adder_cost);
        lemma_leaf_still_below(c_base, adder_count@, term4, adder_cost);
        lemma_leaf_still_below(c_base, adder_count@, term5, adder_cost);
        lemma_leaf_still_below(c_base, adder_count@, term6, adder_cost);
        lemma_leaf_still_below(c_base, adder_count@, term7, adder_cost);
    }
    lf7_relax_part_four(
        adder_count,
        adder_structures,
        term1, term2, term3, term4, term5, term6, term7,
        adder_cost,
        max_value,
        Ghost(p),
    );
    proof {
        lemma_cost_relaxed_trans(c_base, c_p3, adder_count@, adder_cost);
        lemma_evolution_trans(
            c_base,
            g_base,
            c_p3,
            g_p3,
            adder_count@,
            adder_structures@,
            adder_cost,
            p,
        );
        {
            lemma_kernel_done_relax(
                c_p3,
                adder_count@,
                eval(GraphType::Leapfrog7_1(term1, term2, term3, term4, term5, term6, term7)),
                adder_cost,
                max_value,
            );
            let m_w = odd_kernel(eval(GraphType::Leapfrog7_1(term1, term2, term3, term4, term5, term6, term7)) as nat) as int;
            if 1 <= m_w <= max_value && c_base[m_w] >= adder_cost {
                lemma_graph_contains_prefix(
                    g_p3[m_w]@,
                    adder_structures@[m_w]@,
                    GraphType::Leapfrog7_1(term1, term2, term3, term4, term5, term6, term7),
                );
            }
        }
        {
            lemma_kernel_done_relax(
                c_p3,
                adder_count@,
                eval(GraphType::Leapfrog7_2(term1, term2, term3, term4, term5, term6, term7)),
                adder_cost,
                max_value,
            );
            let m_w = odd_kernel(eval(GraphType::Leapfrog7_2(term1, term2, term3, term4, term5, term6, term7)) as nat) as int;
            if 1 <= m_w <= max_value && c_base[m_w] >= adder_cost {
                lemma_graph_contains_prefix(
                    g_p3[m_w]@,
                    adder_structures@[m_w]@,
                    GraphType::Leapfrog7_2(term1, term2, term3, term4, term5, term6, term7),
                );
            }
        }
        {
            lemma_kernel_done_relax(
                c_p3,
                adder_count@,
                eval(GraphType::Leapfrog7_3(term1, term2, term3, term4, term5, term6, term7)),
                adder_cost,
                max_value,
            );
            let m_w = odd_kernel(eval(GraphType::Leapfrog7_3(term1, term2, term3, term4, term5, term6, term7)) as nat) as int;
            if 1 <= m_w <= max_value && c_base[m_w] >= adder_cost {
                lemma_graph_contains_prefix(
                    g_p3[m_w]@,
                    adder_structures@[m_w]@,
                    GraphType::Leapfrog7_3(term1, term2, term3, term4, term5, term6, term7),
                );
            }
        }
        {
            lemma_kernel_done_relax(
                c_p3,
                adder_count@,
                eval(GraphType::Leapfrog7_4(term1, term2, term3, term4, term5, term6, term7)),
                adder_cost,
                max_value,
            );
            let m_w = odd_kernel(eval(GraphType::Leapfrog7_4(term1, term2, term3, term4, term5, term6, term7)) as nat) as int;
            if 1 <= m_w <= max_value && c_base[m_w] >= adder_cost {
                lemma_graph_contains_prefix(
                    g_p3[m_w]@,
                    adder_structures@[m_w]@,
                    GraphType::Leapfrog7_4(term1, term2, term3, term4, term5, term6, term7),
                );
            }
        }
        {
            lemma_kernel_done_relax(
                c_p3,
                adder_count@,
                eval(GraphType::Leapfrog7_5(term1, term2, term3, term4, term5, term6, term7)),
                adder_cost,
                max_value,
            );
            let m_w = odd_kernel(eval(GraphType::Leapfrog7_5(term1, term2, term3, term4, term5, term6, term7)) as nat) as int;
            if 1 <= m_w <= max_value && c_base[m_w] >= adder_cost {
                lemma_graph_contains_prefix(
                    g_p3[m_w]@,
                    adder_structures@[m_w]@,
                    GraphType::Leapfrog7_5(term1, term2, term3, term4, term5, term6, term7),
                );
            }
        }
        {
            lemma_kernel_done_relax(
                c_p3,
                adder_count@,
                eval(GraphType::Leapfrog7_6(term1, term2, term3, term4, term5, term6, term7)),
                adder_cost,
                max_value,
            );
            let m_w = odd_kernel(eval(GraphType::Leapfrog7_6(term1, term2, term3, term4, term5, term6, term7)) as nat) as int;
            if 1 <= m_w <= max_value && c_base[m_w] >= adder_cost {
                lemma_graph_contains_prefix(
                    g_p3[m_w]@,
                    adder_structures@[m_w]@,
                    GraphType::Leapfrog7_6(term1, term2, term3, term4, term5, term6, term7),
                );
            }
        }
        {
            let m_v = odd_kernel(eval(GraphType::Leapfrog7_7(term1, term2, term3, term4, term5, term6, term7)) as nat) as int;
            if 1 <= m_v <= max_value && c_base[m_v] >= adder_cost {
                assert(c_p3[m_v] == c_base[m_v] || (c_base[m_v] >= adder_cost && c_p3[m_v]
                    == adder_cost));
                assert(adder_structures@[m_v]@.contains(GraphType::Leapfrog7_7(term1, term2, term3, term4, term5, term6, term7)));
            }
        }
        {
            let m_v = odd_kernel(eval(GraphType::Leapfrog7_8(term1, term2, term3, term4, term5, term6, term7)) as nat) as int;
            if 1 <= m_v <= max_value && c_base[m_v] >= adder_cost {
                assert(c_p3[m_v] == c_base[m_v] || (c_base[m_v] >= adder_cost && c_p3[m_v]
                    == adder_cost));
                assert(adder_structures@[m_v]@.contains(GraphType::Leapfrog7_8(term1, term2, term3, term4, term5, term6, term7)));
            }
        }
    }
    proof {
        assert(lf7_tuple_recorded(
            c_base,
            adder_structures@,
            term1, term2, term3, term4, term5, term6, term7,
            adder_cost,
            max_value,
        ));
    }
}


/// The four selected operands of a leapfrog tuple are acceptable leaves at
/// the current state of the cost table.
proof fn leapfrog4_leaf_facts(
    c_in: Seq<u8>,
    cur: Seq<u8>,
    terms1: Seq<usize>,
    terms2: Seq<usize>,
    terms4: Seq<usize>,
    terms5: Seq<usize>,
    i1: int,
    i2: int,
    i4: int,
    i5: int,
    layer: u8,
)
    requires
        cost_relaxed_to(c_in, cur, layer),
        terms_below(c_in, terms1, layer),
        terms_below(c_in, terms2, layer),
        terms_below(c_in, terms4, layer),
        terms_below(c_in, terms5, layer),
        0 <= i1 < terms1.len(),
        0 <= i2 < terms2.len(),
        0 <= i4 < terms4.len(),
        0 <= i5 < terms5.len(),
    ensures
        leaf_below(cur, terms1[i1], layer),
        leaf_below(cur, terms2[i2], layer),
        leaf_below(cur, terms4[i4], layer),
        leaf_below(cur, terms5[i5], layer),
{
    lemma_terms_still_below(c_in, cur, terms1, layer);
    lemma_terms_still_below(c_in, cur, terms2, layer);
    lemma_terms_still_below(c_in, cur, terms4, layer);
    lemma_terms_still_below(c_in, cur, terms5, layer);
}

/// The selected operands of a leapfrog tuple are acceptable leaves at the
/// current state of the cost table.
proof fn leapfrog5_leaf_facts(
    c_in: Seq<u8>,
    cur: Seq<u8>,
    terms1: Seq<usize>,
    terms2: Seq<usize>,
    terms3: Seq<usize>,
    terms4: Seq<usize>,
    terms5: Seq<usize>,
    i1: int,
    i2: int,
    i3: int,
    i4: int,
    i5: int,
    layer: u8,
)
    requires
        cost_relaxed_to(c_in, cur, layer),
        terms_below(c_in, terms1, layer),
        terms_below(c_in, terms2, layer),
        terms_below(c_in, terms3, layer),
        terms_below(c_in, terms4, layer),
        terms_below(c_in, terms5, layer),
        0 <= i1 < terms1.len(),
        0 <= i2 < terms2.len(),
        0 <= i3 < terms3.len(),
        0 <= i4 < terms4.len(),
        0 <= i5 < terms5.len(),
    ensures
        leaf_below(cur, terms1[i1], layer),
        leaf_below(cur, terms2[i2], layer),
        leaf_below(cur, terms3[i3], layer),
        leaf_below(cur, terms4[i4], layer),
        leaf_below(cur, terms5[i5], layer),
{
    lemma_terms_still_below(c_in, cur, terms1, layer);
    lemma_terms_still_below(c_in, cur, terms2, layer);
    lemma_terms_still_below(c_in, cur, terms3, layer);
    lemma_terms_still_below(c_in, cur, terms4, layer);
    lemma_terms_still_below(c_in, cur, terms5, layer);
}

/// The selected operands of a leapfrog tuple are acceptable leaves at the
/// current state of the cost table.
proof fn leapfrog7_leaf_facts(
    c_in: Seq<u8>,
    cur: Seq<u8>,
    terms1: Seq<usize>,
    terms2: Seq<usize>,
    terms3: Seq<usize>,
    terms4: Seq<usize>,
    terms5: Seq<usize>,
    terms6: Seq<usize>,
    terms7: Seq<usize>,
    i1: int,
    i2: int,
    i3: int,
    i4: int,
    i5: int,
    i6: int,
    i7: int,
    layer: u8,
)
    requires
        cost_relaxed_to(c_in, cur, layer),
        terms_below(c_in, terms1, layer),
        terms_below(c_in, terms2, layer),
        terms_below(c_in, terms3, layer),
        terms_below(c_in, terms4, layer),
        terms_below(c_in, terms5, layer),
        terms_below(c_in, terms6, layer),
        terms_below(c_in, terms7, layer),
        0 <= i1 < terms1.len(),
        0 <= i2 < terms2.len(),
        0 <= i3 < terms3.len(),
        0 <= i4 < terms4.len(),
        0 <= i5 < terms5.len(),
        0 <= i6 < terms6.len(),
        0 <= i7 < terms7.len(),
    ensures
        leaf_below(cur, terms1[i1], layer),
        leaf_below(cur, terms2[i2], layer),
        leaf_below(cur, terms3[i3], layer),
        leaf_below(cur, terms4[i4], layer),
        leaf_below(cur, terms5[i5], layer),
        leaf_below(cur, terms6[i6], layer),
        leaf_below(cur, terms7[i7], layer),
{
    lemma_terms_still_below(c_in, cur, terms1, layer);
    lemma_terms_still_below(c_in, cur, terms2, layer);
    lemma_terms_still_below(c_in, cur, terms3, layer);
    lemma_terms_still_below(c_in, cur, terms4, layer);
    lemma_terms_still_below(c_in, cur, terms5, layer);
    lemma_terms_still_below(c_in, cur, terms6, layer);
    lemma_terms_still_below(c_in, cur, terms7, layer);
}

/// Relax the table with the four sign variants of `e*(a ± b) ± a*d` over the cross product of the operand
/// lists, skipping tuples with adjacent even parameters and variants that a
/// symmetry predicate shows another invocation covers.  Every kept variant of
/// every kept tuple is offered to the table and, wherever its guard held on
/// entry, its record stands in the final table; every appended record is a
/// kept variant of some kept tuple.
#[verifier::rlimit(100)]
pub fn leapfrog4_combinations(
    adder_count: &mut Vec<u8>,
    adder_structures: &mut Vec<Vec<GraphType>>,
    terms1: &Vec<usize>,
    terms2: &Vec<usize>,
    terms4: &Vec<usize>,
    terms5: &Vec<usize>,
    adder_cost: u8,
    max_value: usize,
)
    requires
        table_wf(old(adder_count)@, old(adder_structures)@, adder_cost),
        0 < adder_cost < COST_SENTINEL,
        max_value < old(adder_count)@.len(),
        terms_below(old(adder_count)@, terms1@, adder_cost),
        terms_below(old(adder_count)@, terms2@, adder_cost),
        terms_below(old(adder_count)@, terms4@, adder_cost),
        terms_below(old(adder_count)@, terms5@, adder_cost),
    ensures
        table_wf(final(adder_count)@, final(adder_structures)@, adder_cost),
        cost_relaxed_to(old(adder_count)@, final(adder_count)@, adder_cost),
        final(adder_structures)@.len() == old(adder_structures)@.len(),
        forall|j1: int, j2: int, j4: int, j5: int|
            #![trigger terms1@[j1], terms2@[j2], terms4@[j4], terms5@[j5]]
            0 <= j1 < terms1@.len() && 0 <= j2 < terms2@.len() && 0 <= j4 < terms4@.len() && 0 <= j5 < terms5@.len() ==> lf4_tuple_done(
            final(adder_count)@,
            terms1@[j1], terms2@[j2], terms4@[j4], terms5@[j5],
            adder_cost,
            max_value,
        ),
        forall|j1: int, j2: int, j4: int, j5: int|
            #![trigger terms1@[j1], terms2@[j2], terms4@[j4], terms5@[j5]]
            0 <= j1 < terms1@.len() && 0 <= j2 < terms2@.len() && 0 <= j4 < terms4@.len() && 0 <= j5 < terms5@.len() ==> lf4_tuple_recorded(
            old(adder_count)@,
            final(adder_structures)@,
            terms1@[j1], terms2@[j2], terms4@[j4], terms5@[j5],
            adder_cost,
            max_value,
        ),
        table_evolution(
            old(adder_count)@,
            old(adder_structures)@,
            final(adder_count)@,
            final(adder_structures)@,
            adder_cost,
            |gg: GraphType, nn: int| lf4_record_ok(terms1@, terms2@, terms4@, terms5@, max_value, gg, nn),
        ),
{
    let ghost c_in = old(adder_count)@;
    let ghost g_in = old(adder_structures)@;
    proof {
        lemma_evolution_refl(c_in, g_in, adder_cost, |gg: GraphType, nn: int| lf4_record_ok(terms1@, terms2@, terms4@, terms5@, max_value, gg, nn));
    }
        let mut i1: usize = 0;
        while i1 < terms1.len()
            invariant
            table_wf(adder_count@, adder_structures@, adder_cost),
            cost_relaxed_to(c_in, adder_count@, adder_cost),
            adder_structures@.len() == old(adder_structures)@.len(),
            adder_structures@.len() == adder_count@.len(),
            0 < adder_cost < COST_SENTINEL,
            max_value < adder_count@.len(),
            terms_below(c_in, terms1@, adder_cost),
            terms_below(c_in, terms2@, adder_cost),
            terms_below(c_in, terms4@, adder_cost),
            terms_below(c_in, terms5@, adder_cost),
            table_evolution(
                c_in,
                g_in,
                adder_count@,
                adder_structures@,
                adder_cost,
                |gg: GraphType, nn: int| lf4_record_ok(terms1@, terms2@, terms4@, terms5@, max_value, gg, nn),
            ),
            i1 <= terms1@.len(),
            forall|j1: int, j2: int, j4: int, j5: int|
                #![trigger terms1@[j1], terms2@[j2], terms4@[j4], terms5@[j5]]
                0 <= j1 < i1 && 0 <= j2 < terms2@.len() && 0 <= j4 < terms4@.len() && 0 <= j5 < terms5@.len() ==> lf4_tuple_done(
                adder_count@,
                terms1@[j1], terms2@[j2], terms4@[j4], terms5@[j5],
                adder_cost,
                max_value,
            ),
            forall|j1: int, j2: int, j4: int, j5: int|
                #![trigger terms1@[j1], terms2@[j2], terms4@[j4], terms5@[j5]]
                0 <= j1 < i1 && 0 <= j2 < terms2@.len() && 0 <= j4 < terms4@.len() && 0 <= j5 < terms5@.len() ==> lf4_tuple_recorded(
                c_in,
                adder_structures@,
                terms1@[j1], terms2@[j2], terms4@[j4], terms5@[j5],
                adder_cost,
                max_value,
            ),
            decreases terms1@.len() - i1,
        {
            let term1 = terms1[i1];
        let mut i2: usize = 0;
        while i2 < terms2.len()
            invariant
            table_wf(adder_count@, adder_structures@, adder_cost),
            cost_relaxed_to(c_in, adder_count@, adder_cost),
            adder_structures@.len() == old(adder_structures)@.len(),
            adder_structures@.len() == adder_count@.len(),
            0 < adder_cost < COST_SENTINEL,
            max_value < adder_count@.len(),
            terms_below(c_in, terms1@, adder_cost),
            terms_below(c_in, terms2@, adder_cost),
            terms_below(c_in, terms4@, adder_cost),
            terms_below(c_in, terms5@, adder_cost),
            table_evolution(
                c_in,
                g_in,
                adder_count@,
                adder_structures@,
                adder_cost,
                |gg: GraphType, nn: int| lf4_record_ok(terms1@, terms2@, terms4@, terms5@, max_value, gg, nn),
            ),
            i1 < terms1@.len(),
            term1 == terms1@[i1 as int],
            i2 <= terms2@.len(),
            forall|j1: int, j2: int, j4: int, j5: int|
                #![trigger terms1@[j1], terms2@[j2], terms4@[j4], terms5@[j5]]
                0 <= j1 < i1 && 0 <= j2 < terms2@.len() && 0 <= j4 < terms4@.len() && 0 <= j5 < terms5@.len() ==> lf4_tuple_done(
                adder_count@,
                terms1@[j1], terms2@[j2], terms4@[j4], terms5@[j5],
                adder_cost,
                max_value,
            ),
            forall|j1: int, j2: int, j4: int, j5: int|
                #![trigger terms1@[j1], terms2@[j2], terms4@[j4], terms5@[j5]]
                0 <= j1 < i1 && 0 <= j2 < terms2@.len() && 0 <= j4 < terms4@.len() && 0 <= j5 < terms5@.len() ==> lf4_tuple_recorded(
                c_in,
                adder_structures@,
                terms1@[j1], terms2@[j2], terms4@[j4], terms5@[j5],
                adder_cost,
                max_value,
            ),
            forall|j2: int, j4: int, j5: int|
                #![trigger terms2@[j2], terms4@[j4], terms5@[j5]]
                0 <= j2 < i2 && 0 <= j4 < terms4@.len() && 0 <= j5 < terms5@.len() ==> lf4_tuple_done(
                adder_count@,
                term1, terms2@[j2], terms4@[j4], terms5@[j5],
                adder_cost,
                max_value,
            ),
            forall|j2: int, j4: int, j5: int|
                #![trigger terms2@[j2], terms4@[j4], terms5@[j5]]
                0 <= j2 < i2 && 0 <= j4 < terms4@.len() && 0 <= j5 < terms5@.len() ==> lf4_tuple_recorded(
                c_in,
                adder_structures@,
                term1, terms2@[j2], terms4@[j4], terms5@[j5],
                adder_cost,
                max_value,
            ),
            decreases terms2@.len() - i2,
        {
            let term2 = terms2[i2];
            if !(term1 % 2 == 0 && term2 % 2 == 0) {
        let mut i4: usize = 0;
        while i4 < terms4.len()
            invariant
            table_wf(adder_count@, adder_structures@, adder_cost),
            cost_relaxed_to(c_in, adder_count@, adder_cost),
            adder_structures@.len() == old(adder_structures)@.len(),
            adder_structures@.len() == adder_count@.len(),
            0 < adder_cost < COST_SENTINEL,
            max_value < adder_count@.len(),
            terms_below(c_in, terms1@, adder_cost),
            terms_below(c_in, terms2@, adder_cost),
            terms_below(c_in, terms4@, adder_cost),
            terms_below(c_in, terms5@, adder_cost),
            table_evolution(
                c_in,
                g_in,
                adder_count@,
                adder_structures@,
                adder_cost,
                |gg: GraphType, nn: int| lf4_record_ok(terms1@, terms2@, terms4@, terms5@, max_value, gg, nn),
            ),
            i1 < terms1@.len(),
            term1 == terms1@[i1 as int],
            i2 < terms2@.len(),
            term2 == terms2@[i2 as int],
            !(term1 % 2 == 0 && term2 % 2 == 0),
            i4 <= terms4@.len(),
            forall|j1: int, j2: int, j4: int, j5: int|
                #![trigger terms1@[j1], terms2@[j2], terms4@[j4], terms5@[j5]]
                0 <= j1 < i1 && 0 <= j2 < terms2@.len() && 0 <= j4 < terms4@.len() && 0 <= j5 < terms5@.len() ==> lf4_tuple_done(
                adder_count@,
                terms1@[j1], terms2@[j2], terms4@[j4], terms5@[j5],
                adder_cost,
                max_value,
            ),
            forall|j1: int, j2: int, j4: int, j5: int|
                #![trigger terms1@[j1], terms2@[j2], terms4@[j4], terms5@[j5]]
                0 <= j1 < i1 && 0 <= j2 < terms2@.len() && 0 <= j4 < terms4@.len() && 0 <= j5 < terms5@.len() ==> lf4_tuple_recorded(
                c_in,
                adder_structures@,
                terms1@[j1], terms2@[j2], terms4@[j4], terms5@[j5],
                adder_cost,
                max_value,
            ),
            forall|j2: int, j4: int, j5: int|
                #![trigger terms2@[j2], terms4@[j4], terms5@[j5]]
                0 <= j2 < i2 && 0 <= j4 < terms4@.len() && 0 <= j5 < terms5@.len() ==> lf4_tuple_done(
                adder_count@,
                term1, terms2@[j2], terms4@[j4], terms5@[j5],
                adder_cost,
                max_value,
            ),
            forall|j2: int, j4: int, j5: int|
                #![trigger terms2@[j2], terms4@[j4], terms5@[j5]]
                0 <= j2 < i2 && 0 <= j4 < terms4@.len() && 0 <= j5 < terms5@.len() ==> lf4_tuple_recorded(
                c_in,
                adder_structures@,
                term1, terms2@[j2], terms4@[j4], terms5@[j5],
                adder_cost,
                max_value,
            ),
            forall|j4: int, j5: int|
                #![trigger terms4@[j4], terms5@[j5]]
                0 <= j4 < i4 && 0 <= j5 < terms5@.len() ==> lf4_tuple_done(
                adder_count@,
                term1, term2, terms4@[j4], terms5@[j5],
                adder_cost,
                max_value,
            ),
            forall|j4: int, j5: int|
                #![trigger terms4@[j4], terms5@[j5]]
                0 <= j4 < i4 && 0 <= j5 < terms5@.len() ==> lf4_tuple_recorded(
                c_in,
                adder_structures@,
                term1, term2, terms4@[j4], terms5@[j5],
                adder_cost,
                max_value,
            ),
            decreases terms4@.len() - i4,
        {
            let term4 = terms4[i4];
            if !(term1 % 2 == 0 && term4 % 2 == 0) {
        let mut i5: usize = 0;
        while i5 < terms5.len()
            invariant
            table_wf(adder_count@, adder_structures@, adder_cost),
            cost_relaxed_to(c_in, adder_count@, adder_cost),
            adder_structures@.len() == old(adder_structures)@.len(),
            adder_structures@.len() == adder_count@.len(),
            0 < adder_cost < COST_SENTINEL,
            max_value < adder_count@.len(),
            terms_below(c_in, terms1@, adder_cost),
            terms_below(c_in, terms2@, adder_cost),
            terms_below(c_in, terms4@, adder_cost),
            terms_below(c_in, terms5@, adder_cost),
            table_evolution(
                c_in,
                g_in,
                adder_count@,
                adder_structures@,
                adder_cost,
                |gg: GraphType, nn: int| lf4_record_ok(terms1@, terms2@, terms4@, terms5@, max_value, gg, nn),
            ),
            i1 < terms1@.len(),
            term1 == terms1@[i1 as int],
            i2 < terms2@.len(),
            term2 == terms2@[i2 as int],
            i4 < terms4@.len(),
            term4 == terms4@[i4 as int],
            !(term1 % 2 == 0 && term2 % 2 == 0),
            !(term1 % 2 == 0 && term4 % 2 == 0),
            i5 <= terms5@.len(),
            forall|j1: int, j2: int, j4: int, j5: int|
                #![trigger terms1@[j1], terms2@[j2], terms4@[j4], terms5@[j5]]
                0 <= j1 < i1 && 0 <= j2 < terms2@.len() && 0 <= j4 < terms4@.len() && 0 <= j5 < terms5@.len() ==> lf4_tuple_done(
                adder_count@,
                terms1@[j1], terms2@[j2], terms4@[j4], terms5@[j5],
                adder_cost,
                max_value,
            ),
            forall|j1: int, j2: int, j4: int, j5: int|
                #![trigger terms1@[j1], terms2@[j2], terms4@[j4], terms5@[j5]]
                0 <= j1 < i1 && 0 <= j2 < terms2@.len() && 0 <= j4 < terms4@.len() && 0 <= j5 < terms5@.len() ==> lf4_tuple_recorded(
                c_in,
                adder_structures@,
                terms1@[j1], terms2@[j2], terms4@[j4], terms5@[j5],
                adder_cost,
                max_value,
            ),
            forall|j2: int, j4: int, j5: int|
                #![trigger terms2@[j2], terms4@[j4], terms5@[j5]]
                0 <= j2 < i2 && 0 <= j4 < terms4@.len() && 0 <= j5 < terms5@.len() ==> lf4_tuple_done(
                adder_count@,
                term1, terms2@[j2], terms4@[j4], terms5@[j5],
                adder_cost,
                max_value,
            ),
            forall|j2: int, j4: int, j5: int|
                #![trigger terms2@[j2], terms4@[j4], terms5@[j5]]
                0 <= j2 < i2 && 0 <= j4 < terms4@.len() && 0 <= j5 < terms5@.len() ==> lf4_tuple_recorded(
                c_in,
                adder_structures@,
                term1, terms2@[j2], terms4@[j4], terms5@[j5],
                adder_cost,
                max_value,
            ),
            forall|j4: int, j5: int|
                #![trigger terms4@[j4], terms5@[j5]]
                0 <= j4 < i4 && 0 <= j5 < terms5@.len() ==> lf4_tuple_done(
                adder_count@,
                term1, term2, terms4@[j4], terms5@[j5],
                adder_cost,
                max_value,
            ),
            forall|j4: int, j5: int|
                #![trigger terms4@[j4], terms5@[j5]]
                0 <= j4 < i4 && 0 <= j5 < terms5@.len() ==> lf4_tuple_recorded(
                c_in,
                adder_structures@,
                term1, term2, terms4@[j4], terms5@[j5],
                adder_cost,
                max_value,
            ),
            forall|j5: int|
                #![trigger terms5@[j5]]
                0 <= j5 < i5 ==> lf4_tuple_done(
                adder_count@,
                term1, term2, term4, terms5@[j5],
                adder_cost,
                max_value,
            ),
            forall|j5: int|
                #![trigger terms5@[j5]]
                0 <= j5 < i5 ==> lf4_tuple_recorded(
                c_in,
                adder_structures@,
                term1, term2, term4, terms5@[j5],
                adder_cost,
                max_value,
            ),
            decreases terms5@.len() - i5,
        {
            let term5 = terms5[i5];
            if !(term4 % 2 == 0 && term5 % 2 == 0) {
        let ghost cB = adder_count@;
        let ghost gB = adder_structures@;
        proof {
            leapfrog4_leaf_facts(
                c_in,
                adder_count@,
                terms1@,
                terms2@,
                terms4@,
                terms5@,
                i1 as int,
                i2 as int,
                i4 as int,
                i5 as int,
                adder_cost,
            );
            assert forall|gr: GraphType, nn: int|
                lf4_tuple_record(term1, term2, term4, term5, max_value, gr, nn) implies lf4_record_ok(
                terms1@, terms2@, terms4@, terms5@,
                max_value,
                gr,
                nn,
            ) by {
                assert(terms1@[i1 as int] == term1);
                assert(terms2@[i2 as int] == term2);
                assert(terms4@[i4 as int] == term4);
                assert(terms5@[i5 as int] == term5);
                assert(lf4_tuple_record(terms1@[i1 as int], terms2@[i2 as int], terms4@[i4 as int], terms5@[i5 as int], max_value, gr, nn));
            }
        }
        lf4_relax_tuple(
            adder_count,
            adder_structures,
            term1, term2, term4, term5,
            adder_cost,
            max_value,
            Ghost(|gg: GraphType, nn: int| lf4_record_ok(terms1@, terms2@, terms4@, terms5@, max_value, gg, nn)),
        );
        proof {
            lemma_cost_relaxed_trans(c_in, cB, adder_count@, adder_cost);
            lemma_evolution_trans(
                c_in,
                g_in,
                cB,
                gB,
                adder_count@,
                adder_structures@,
                adder_cost,
                |gg: GraphType, nn: int| lf4_record_ok(terms1@, terms2@, terms4@, terms5@, max_value, gg, nn),
            );
            lemma_lf4_recorded_anchor(
                c_in,
                cB,
                adder_structures@,
                term1, term2, term4, term5,
                adder_cost,
                max_value,
            );
            assert forall|j1: int, j2: int, j4: int, j5: int|
                #![trigger terms1@[j1], terms2@[j2], terms4@[j4], terms5@[j5]]
                0 <= j1 < i1 && 0 <= j2 < terms2@.len() && 0 <= j4 < terms4@.len() && 0 <= j5 < terms5@.len() implies lf4_tuple_done(
                adder_count@,
                terms1@[j1], terms2@[j2], terms4@[j4], terms5@[j5],
                adder_cost,
                max_value,
            ) by {
                lemma_lf4_done_relax(
                    cB,
                    adder_count@,
                    terms1@[j1], terms2@[j2], terms4@[j4], terms5@[j5],
                    adder_cost,
                    max_value,
                );
            }
            assert forall|j1: int, j2: int, j4: int, j5: int|
                #![trigger terms1@[j1], terms2@[j2], terms4@[j4], terms5@[j5]]
                0 <= j1 < i1 && 0 <= j2 < terms2@.len() && 0 <= j4 < terms4@.len() && 0 <= j5 < terms5@.len() implies lf4_tuple_recorded(
                c_in,
                adder_structures@,
                terms1@[j1], terms2@[j2], terms4@[j4], terms5@[j5],
                adder_cost,
                max_value,
            ) by {
                lemma_lf4_recorded_prefix(
                    c_in,
                    gB,
                    adder_structures@,
                    terms1@[j1], terms2@[j2], terms4@[j4], terms5@[j5],
                    adder_cost,
                    max_value,
                );
            }
            assert forall|j2: int, j4: int, j5: int|
                #![trigger terms2@[j2], terms4@[j4], terms5@[j5]]
                0 <= j2 < i2 && 0 <= j4 < terms4@.len() && 0 <= j5 < terms5@.len() implies lf4_tuple_done(
                adder_count@,
                term1, terms2@[j2], terms4@[j4], terms5@[j5],
                adder_cost,
                max_value,
            ) by {
                lemma_lf4_done_relax(
                    cB,
                    adder_count@,
                    term1, terms2@[j2], terms4@[j4], terms5@[j5],
                    adder_cost,
                    max_value,
                );
            }
            assert forall|j2: int, j4: int, j5: int|
                #![trigger terms2@[j2], terms4@[j4], terms5@[j5]]
                0 <= j2 < i2 && 0 <= j4 < terms4@.len() && 0 <= j5 < terms5@.len() implies lf4_tuple_recorded(
                c_in,
                adder_structures@,
                term1, terms2@[j2], terms4@[j4], terms5@[j5],
                adder_cost,
                max_value,
            ) by {
                lemma_lf4_recorded_prefix(
                    c_in,
                    gB,
                    adder_structures@,
                    term1, terms2@[j2], terms4@[j4], terms5@[j5],
                    adder_cost,
                    max_value,
                );
            }
            assert forall|j4: int, j5: int|
                #![trigger terms4@[j4], terms5@[j5]]
                0 <= j4 < i4 && 0 <= j5 < terms5@.len() implies lf4_tuple_done(
                adder_count@,
                term1, term2, terms4@[j4], terms5@[j5],
                adder_cost,
                max_value,
            ) by {
                lemma_lf4_done_relax(
                    cB,
                    adder_count@,
                    term1, term2, terms4@[j4], terms5@[j5],
                    adder_cost,
                    max_value,
                );
            }
            assert forall|j4: int, j5: int|
                #![trigger terms4@[j4], terms5@[j5]]
                0 <= j4 < i4 && 0 <= j5 < terms5@.len() implies lf4_tuple_recorded(
                c_in,
                adder_structures@,
                term1, term2, terms4@[j4], terms5@[j5],
                adder_cost,
                max_value,
            ) by {
                lemma_lf4_recorded_prefix(
                    c_in,
                    gB,
                    adder_structures@,
                    term1, term2, terms4@[j4], terms5@[j5],
                    adder_cost,
                    max_value,
                );
            }
            assert forall|j5: int|
                #![trigger terms5@[j5]]
                0 <= j5 < i5 implies lf4_tuple_done(
                adder_count@,
                term1, term2, term4, terms5@[j5],
                adder_cost,
                max_value,
            ) by {
                lemma_lf4_done_relax(
                    cB,
                    adder_count@,
                    term1, term2, term4, terms5@[j5],
                    adder_cost,
                    max_value,
                );
            }
            assert forall|j5: int|
                #![trigger terms5@[j5]]
                0 <= j5 < i5 implies lf4_tuple_recorded(
                c_in,
                adder_structures@,
                term1, term2, term4, terms5@[j5],
                adder_cost,
                max_value,
            ) by {
                lemma_lf4_recorded_prefix(
                    c_in,
                    gB,
                    adder_structures@,
                    term1, term2, term4, terms5@[j5],
                    adder_cost,
                    max_value,
                );
            }
        }

            }

            i5 = i5 + 1;
        }

            }

            i4 = i4 + 1;
        }

            }

            i2 = i2 + 1;
        }

            i1 = i1 + 1;
        }
}

/// Relax the table with the four sign variants of `e*(a*c ± b) ± a*d` over the cross product of the operand
/// lists, skipping tuples with adjacent even parameters and variants that a
/// symmetry predicate shows another invocation covers.  Every kept variant of
/// every kept tuple is offered to the table and, wherever its guard held on
/// entry, its record stands in the final table; every appended record is a
/// kept variant of some kept tuple.
#[verifier::rlimit(100)]
pub fn leapfrog5_combinations(
    adder_count: &mut Vec<u8>,
    adder_structures: &mut Vec<Vec<GraphType>>,
    terms1: &Vec<usize>,
    terms2: &Vec<usize>,
    terms3: &Vec<usize>,
    terms4: &Vec<usize>,
    terms5: &Vec<usize>,
    adder_cost: u8,
    max_value: usize,
)
    requires
        table_wf(old(adder_count)@, old(adder_structures)@, adder_cost),
        0 < adder_cost < COST_SENTINEL,
        max_value < old(adder_count)@.len(),
        terms_below(old(adder_count)@, terms1@, adder_cost),
        terms_below(old(adder_count)@, terms2@, adder_cost),
        terms_below(old(adder_count)@, terms3@, adder_cost),
        terms_below(old(adder_count)@, terms4@, adder_cost),
        terms_below(old(adder_count)@, terms5@, adder_cost),
    ensures
        table_wf(final(adder_count)@, final(adder_structures)@, adder_cost),
        cost_relaxed_to(old(adder_count)@, final(adder_count)@, adder_cost),
        final(adder_structures)@.len() == old(adder_structures)@.len(),
        forall|j1: int, j2: int, j3: int, j4: int, j5: int|
            #![trigger terms1@[j1], terms2@[j2], terms3@[j3], terms4@[j4], terms5@[j5]]
            0 <= j1 < terms1@.len() && 0 <= j2 < terms2@.len() && 0 <= j3 < terms3@.len() && 0 <= j4 < terms4@.len() && 0 <= j5 < terms5@.len() ==> lf5_tuple_done(
            final(adder_count)@,
            terms1@[j1], terms2@[j2], terms3@[j3], terms4@[j4], terms5@[j5],
            adder_cost,
            max_value,
        ),
        forall|j1: int, j2: int, j3: int, j4: int, j5: int|
            #![trigger terms1@[j1], terms2@[j2], terms3@[j3], terms4@[j4], terms5@[j5]]
            0 <= j1 < terms1@.len() && 0 <= j2 < terms2@.len() && 0 <= j3 < terms3@.len() && 0 <= j4 < terms4@.len() && 0 <= j5 < terms5@.len() ==> lf5_tuple_recorded(
            old(adder_count)@,
            final(adder_structures)@,
            terms1@[j1], terms2@[j2], terms3@[j3], terms4@[j4], terms5@[j5],
            adder_cost,
            max_value,
        ),
        table_evolution(
            old(adder_count)@,
            old(adder_structures)@,
            final(adder_count)@,
            final(adder_structures)@,
            adder_cost,
            |gg: GraphType, nn: int| lf5_record_ok(terms1@, terms2@, terms3@, terms4@, terms5@, max_value, gg, nn),
        ),
{
    let ghost c_in = old(adder_count)@;
    let ghost g_in = old(adder_structures)@;
    proof {
        lemma_evolution_refl(c_in, g_in, adder_cost, |gg: GraphType, nn: int| lf5_record_ok(terms1@, terms2@, terms3@, terms4@, terms5@, max_value, gg, nn));
    }
        let mut i1: usize = 0;
        while i1 < terms1.len()
            invariant
            table_wf(adder_count@, adder_structures@, adder_cost),
            cost_relaxed_to(c_in, adder_count@, adder_cost),
            adder_structures@.len() == old(adder_structures)@.len(),
            adder_structures@.len() == adder_count@.len(),
            0 < adder_cost < COST_SENTINEL,
            max_value < adder_count@.len(),
            terms_below(c_in, terms1@, adder_cost),
            terms_below(c_in, terms2@, adder_cost),
            terms_below(c_in, terms3@, adder_cost),
            terms_below(c_in, terms4@, adder_cost),
            terms_below(c_in, terms5@, adder_cost),
            table_evolution(
                c_in,
                g_in,
                adder_count@,
                adder_structures@,
                adder_cost,
                |gg: GraphType, nn: int| lf5_record_ok(terms1@, terms2@, terms3@, terms4@, terms5@, max_value, gg, nn),
            ),
            i1 <= terms1@.len(),
            forall|j1: int, j2: int, j3: int, j4: int, j5: int|
                #![trigger terms1@[j1], terms2@[j2], terms3@[j3], terms4@[j4], terms5@[j5]]
                0 <= j1 < i1 && 0 <= j2 < terms2@.len() && 0 <= j3 < terms3@.len() && 0 <= j4 < terms4@.len() && 0 <= j5 < terms5@.len() ==> lf5_tuple_done(
                adder_count@,
                terms1@[j1], terms2@[j2], terms3@[j3], terms4@[j4], terms5@[j5],
                adder_cost,
                max_value,
            ),
            forall|j1: int, j2: int, j3: int, j4: int, j5: int|
                #![trigger terms1@[j1], terms2@[j2], terms3@[j3], terms4@[j4], terms5@[j5]]
                0 <= j1 < i1 && 0 <= j2 < terms2@.len() && 0 <= j3 < terms3@.len() && 0 <= j4 < terms4@.len() && 0 <= j5 < terms5@.len() ==> lf5_tuple_recorded(
                c_in,
                adder_structures@,
                terms1@[j1], terms2@[j2], terms3@[j3], terms4@[j4], terms5@[j5],
                adder_cost,
                max_value,
            ),
            decreases terms1@.len() - i1,
        {
            let term1 = terms1[i1];
        let mut i2: usize = 0;
        while i2 < terms2.len()
            invariant
            table_wf(adder_count@, adder_structures@, adder_cost),
            cost_relaxed_to(c_in, adder_count@, adder_cost),
            adder_structures@.len() == old(adder_structures)@.len(),
            adder_structures@.len() == adder_count@.len(),
            0 < adder_cost < COST_SENTINEL,
            max_value < adder_count@.len(),
            terms_below(c_in, terms1@, adder_cost),
            terms_below(c_in, terms2@, adder_cost),
            terms_below(c_in, terms3@, adder_cost),
            terms_below(c_in, terms4@, adder_cost),
            terms_below(c_in, terms5@, adder_cost),
            table_evolution(
                c_in,
                g_in,
                adder_count@,
                adder_structures@,
                adder_cost,
                |gg: GraphType, nn: int| lf5_record_ok(terms1@, terms2@, terms3@, terms4@, terms5@, max_value, gg, nn),
            ),
            i1 < terms1@.len(),
            term1 == terms1@[i1 as int],
            i2 <= terms2@.len(),
            forall|j1: int, j2: int, j3: int, j4: int, j5: int|
                #![trigger terms1@[j1], terms2@[j2], terms3@[j3], terms4@[j4], terms5@[j5]]
                0 <= j1 < i1 && 0 <= j2 < terms2@.len() && 0 <= j3 < terms3@.len() && 0 <= j4 < terms4@.len() && 0 <= j5 < terms5@.len() ==> lf5_tuple_done(
                adder_count@,
                terms1@[j1], terms2@[j2], terms3@[j3], terms4@[j4], terms5@[j5],
                adder_cost,
                max_value,
            ),
            forall|j1: int, j2: int, j3: int, j4: int, j5: int|
                #![trigger terms1@[j1], terms2@[j2], terms3@[j3], terms4@[j4], terms5@[j5]]
                0 <= j1 < i1 && 0 <= j2 < terms2@.len() && 0 <= j3 < terms3@.len() && 0 <= j4 < terms4@.len() && 0 <= j5 < terms5@.len() ==> lf5_tuple_recorded(
                c_in,
                adder_structures@,
                terms1@[j1], terms2@[j2], terms3@[j3], terms4@[j4], terms5@[j5],
                adder_cost,
                max_value,
            ),
            forall|j2: int, j3: int, j4: int, j5: int|
                #![trigger terms2@[j2], terms3@[j3], terms4@[j4], terms5@[j5]]
                0 <= j2 < i2 && 0 <= j3 < terms3@.len() && 0 <= j4 < terms4@.len() && 0 <= j5 < terms5@.len() ==> lf5_tuple_done(
                adder_count@,
                term1, terms2@[j2], terms3@[j3], terms4@[j4], terms5@[j5],
                adder_cost,
                max_value,
            ),
            forall|j2: int, j3: int, j4: int, j5: int|
                #![trigger terms2@[j2], terms3@[j3], terms4@[j4], terms5@[j5]]
                0 <= j2 < i2 && 0 <= j3 < terms3@.len() && 0 <= j4 < terms4@.len() && 0 <= j5 < terms5@.len() ==> lf5_tuple_recorded(
                c_in,
                adder_structures@,
                term1, terms2@[j2], terms3@[j3], terms4@[j4], terms5@[j5],
                adder_cost,
                max_value,
            ),
            decreases terms2@.len() - i2,
        {
            let term2 = terms2[i2];
            if !(term1 % 2 == 0 && term2 % 2 == 0) {
        let mut i3: usize = 0;
        while i3 < terms3.len()
            invariant
            table_wf(adder_count@, adder_structures@, adder_cost),
            cost_relaxed_to(c_in, adder_count@, adder_cost),
            adder_structures@.len() == old(adder_structures)@.len(),
            adder_structures@.len() == adder_count@.len(),
            0 < adder_cost < COST_SENTINEL,
            max_value < adder_count@.len(),
            terms_below(c_in, terms1@, adder_cost),
            terms_below(c_in, terms2@, adder_cost),
            terms_below(c_in, terms3@, adder_cost),
            terms_below(c_in, terms4@, adder_cost),
            terms_below(c_in, terms5@, adder_cost),
            table_evolution(
                c_in,
                g_in,
                adder_count@,
                adder_structures@,
                adder_cost,
                |gg: GraphType, nn: int| lf5_record_ok(terms1@, terms2@, terms3@, terms4@, terms5@, max_value, gg, nn),
            ),
            i1 < terms1@.len(),
            term1 == terms1@[i1 as int],
            i2 < terms2@.len(),
            term2 == terms2@[i2 as int],
            !(term1 % 2 == 0 && term2 % 2 == 0),
            i3 <= terms3@.len(),
            forall|j1: int, j2: int, j3: int, j4: int, j5: int|
                #![trigger terms1@[j1], terms2@[j2], terms3@[j3], terms4@[j4], terms5@[j5]]
                0 <= j1 < i1 && 0 <= j2 < terms2@.len() && 0 <= j3 < terms3@.len() && 0 <= j4 < terms4@.len() && 0 <= j5 < terms5@.len() ==> lf5_tuple_done(
                adder_count@,
                terms1@[j1], terms2@[j2], terms3@[j3], terms4@[j4], terms5@[j5],
                adder_cost,
                max_value,
            ),
            forall|j1: int, j2: int, j3: int, j4: int, j5: int|
                #![trigger terms1@[j1], terms2@[j2], terms3@[j3], terms4@[j4], terms5@[j5]]
                0 <= j1 < i1 && 0 <= j2 < terms2@.len() && 0 <= j3 < terms3@.len() && 0 <= j4 < terms4@.len() && 0 <= j5 < terms5@.len() ==> lf5_tuple_recorded(
                c_in,
                adder_structures@,
                terms1@[j1], terms2@[j2], terms3@[j3], terms4@[j4], terms5@[j5],
                adder_cost,
                max_value,
            ),
            forall|j2: int, j3: int, j4: int, j5: int|
                #![trigger terms2@[j2], terms3@[j3], terms4@[j4], terms5@[j5]]
                0 <= j2 < i2 && 0 <= j3 < terms3@.len() && 0 <= j4 < terms4@.len() && 0 <= j5 < terms5@.len() ==> lf5_tuple_done(
                adder_count@,
                term1, terms2@[j2], terms3@[j3], terms4@[j4], terms5@[j5],
                adder_cost,
                max_value,
            ),
            forall|j2: int, j3: int, j4: int, j5: int|
                #![trigger terms2@[j2], terms3@[j3], terms4@[j4], terms5@[j5]]
                0 <= j2 < i2 && 0 <= j3 < terms3@.len() && 0 <= j4 < terms4@.len() && 0 <= j5 < terms5@.len() ==> lf5_tuple_recorded(
                c_in,
                adder_structures@,
                term1, terms2@[j2], terms3@[j3], terms4@[j4], terms5@[j5],
                adder_cost,
                max_value,
            ),
            forall|j3: int, j4: int, j5: int|
                #![trigger terms3@[j3], terms4@[j4], terms5@[j5]]
                0 <= j3 < i3 && 0 <= j4 < terms4@.len() && 0 <= j5 < terms5@.len() ==> lf5_tuple_done(
                adder_count@,
                term1, term2, terms3@[j3], terms4@[j4], terms5@[j5],
                adder_cost,
                max_value,
            ),
            forall|j3: int, j4: int, j5: int|
                #![trigger terms3@[j3], terms4@[j4], terms5@[j5]]
                0 <= j3 < i3 && 0 <= j4 < terms4@.len() && 0 <= j5 < terms5@.len() ==> lf5_tuple_recorded(
                c_in,
                adder_structures@,
                term1, term2, terms3@[j3], terms4@[j4], terms5@[j5],
                adder_cost,
                max_value,
            ),
            decreases terms3@.len() - i3,
        {
            let term3 = terms3[i3];
            if !(findodd(term3) == 1 || ((term1 % 2 == 0 || term2 % 2 == 0) && term3 % 2 == 0)) {
        let mut i4: usize = 0;
        while i4 < terms4.len()
            invariant
            table_wf(adder_count@, adder_structures@, adder_cost),
            cost_relaxed_to(c_in, adder_count@, adder_cost),
            adder_structures@.len() == old(adder_structures)@.len(),
            adder_structures@.len() == adder_count@.len(),
            0 < adder_cost < COST_SENTINEL,
            max_value < adder_count@.len(),
            terms_below(c_in, terms1@, adder_cost),
            terms_below(c_in, terms2@, adder_cost),
            terms_below(c_in, terms3@, adder_cost),
            terms_below(c_in, terms4@, adder_cost),
            terms_below(c_in, terms5@, adder_cost),
            table_evolution(
                c_in,
                g_in,
                adder_count@,
                adder_structures@,
                adder_cost,
                |gg: GraphType, nn: int| lf5_record_ok(terms1@, terms2@, terms3@, terms4@, terms5@, max_value, gg, nn),
            ),
            i1 < terms1@.len(),
            term1 == terms1@[i1 as int],
            i2 < terms2@.len(),
            term2 == terms2@[i2 as int],
            i3 < terms3@.len(),
            term3 == terms3@[i3 as int],
            !(term1 % 2 == 0 && term2 % 2 == 0),
            !(odd_kernel(term3 as nat) == 1 || ((term1 % 2 == 0 || term2 % 2 == 0) && term3 % 2 == 0)),
            i4 <= terms4@.len(),
            forall|j1: int, j2: int, j3: int, j4: int, j5: int|
                #![trigger terms1@[j1], terms2@[j2], terms3@[j3], terms4@[j4], terms5@[j5]]
                0 <= j1 < i1 && 0 <= j2 < terms2@.len() && 0 <= j3 < terms3@.len() && 0 <= j4 < terms4@.len() && 0 <= j5 < terms5@.len() ==> lf5_tuple_done(
                adder_count@,
                terms1@[j1], terms2@[j2], terms3@[j3], terms4@[j4], terms5@[j5],
                adder_cost,
                max_value,
            ),
            forall|j1: int, j2: int, j3: int, j4: int, j5: int|
                #![trigger terms1@[j1], terms2@[j2], terms3@[j3], terms4@[j4], terms5@[j5]]
                0 <= j1 < i1 && 0 <= j2 < terms2@.len() && 0 <= j3 < terms3@.len() && 0 <= j4 < terms4@.len() && 0 <= j5 < terms5@.len() ==> lf5_tuple_recorded(
                c_in,
                adder_structures@,
                terms1@[j1], terms2@[j2], terms3@[j3], terms4@[j4], terms5@[j5],
                adder_cost,
                max_value,
            ),
            forall|j2: int, j3: int, j4: int, j5: int|
                #![trigger terms2@[j2], terms3@[j3], terms4@[j4], terms5@[j5]]
                0 <= j2 < i2 && 0 <= j3 < terms3@.len() && 0 <= j4 < terms4@.len() && 0 <= j5 < terms5@.len() ==> lf5_tuple_done(
                adder_count@,
                term1, terms2@[j2], terms3@[j3], terms4@[j4], terms5@[j5],
                adder_cost,
                max_value,
            ),
            forall|j2: int, j3: int, j4: int, j5: int|
                #![trigger terms2@[j2], terms3@[j3], terms4@[j4], terms5@[j5]]
                0 <= j2 < i2 && 0 <= j3 < terms3@.len() && 0 <= j4 < terms4@.len() && 0 <= j5 < terms5@.len() ==> lf5_tuple_recorded(
                c_in,
                adder_structures@,
                term1, terms2@[j2], terms3@[j3], terms4@[j4], terms5@[j5],
                adder_cost,
                max_value,
            ),
            forall|j3: int, j4: int, j5: int|
                #![trigger terms3@[j3], terms4@[j4], terms5@[j5]]
                0 <= j3 < i3 && 0 <= j4 < terms4@.len() && 0 <= j5 < terms5@.len() ==> lf5_tuple_done(
                adder_count@,
                term1, term2, terms3@[j3], terms4@[j4], terms5@[j5],
                adder_cost,
                max_value,
            ),
            forall|j3: int, j4: int, j5: int|
                #![trigger terms3@[j3], terms4@[j4], terms5@[j5]]
                0 <= j3 < i3 && 0 <= j4 < terms4@.len() && 0 <= j5 < terms5@.len() ==> lf5_tuple_recorded(
                c_in,
                adder_structures@,
                term1, term2, terms3@[j3], terms4@[j4], terms5@[j5],
                adder_cost,
                max_value,
            ),
            forall|j4: int, j5: int|
                #![trigger terms4@[j4], terms5@[j5]]
                0 <= j4 < i4 && 0 <= j5 < terms5@.len() ==> lf5_tuple_done(
                adder_count@,
                term1, term2, term3, terms4@[j4], terms5@[j5],
                adder_cost,
                max_value,
            ),
            forall|j4: int, j5: int|
                #![trigger terms4@[j4], terms5@[j5]]
                0 <= j4 < i4 && 0 <= j5 < terms5@.len() ==> lf5_tuple_recorded(
                c_in,
                adder_structures@,
                term1, term2, term3, terms4@[j4], terms5@[j5],
                adder_cost,
                max_value,
            ),
            decreases terms4@.len() - i4,
        {
            let term4 = terms4[i4];
            if !((term1 % 2 == 0 || term3 % 2 == 0) && term4 % 2 == 0) {
        let mut i5: usize = 0;
        while i5 < terms5.len()
            invariant
            table_wf(adder_count@, adder_structures@, adder_cost),
            cost_relaxed_to(c_in, adder_count@, adder_cost),
            adder_structures@.len() == old(adder_structures)@.len(),
            adder_structures@.len() == adder_count@.len(),
            0 < adder_cost < COST_SENTINEL,
            max_value < adder_count@.len(),
            terms_below(c_in, terms1@, adder_cost),
            terms_below(c_in, terms2@, adder_cost),
            terms_below(c_in, terms3@, adder_cost),
            terms_below(c_in, terms4@, adder_cost),
            terms_below(c_in, terms5@, adder_cost),
            table_evolution(
                c_in,
                g_in,
                adder_count@,
                adder_structures@,
                adder_cost,
                |gg: GraphType, nn: int| lf5_record_ok(terms1@, terms2@, terms3@, terms4@, terms5@, max_value, gg, nn),
            ),
            i1 < terms1@.len(),
            term1 == terms1@[i1 as int],
            i2 < terms2@.len(),
            term2 == terms2@[i2 as int],
            i3 < terms3@.len(),
            term3 == terms3@[i3 as int],
            i4 < terms4@.len(),
            term4 == terms4@[i4 as int],
            !(term1 % 2 == 0 && term2 % 2 == 0),
            !(odd_kernel(term3 as nat) == 1 || ((term1 % 2 == 0 || term2 % 2 == 0) && term3 % 2 == 0)),
            !((term1 % 2 == 0 || term3 % 2 == 0) && term4 % 2 == 0),
            i5 <= terms5@.len(),
            forall|j1: int, j2: int, j3: int, j4: int, j5: int|
                #![trigger terms1@[j1], terms2@[j2], terms3@[j3], terms4@[j4], terms5@[j5]]
                0 <= j1 < i1 && 0 <= j2 < terms2@.len() && 0 <= j3 < terms3@.len() && 0 <= j4 < terms4@.len() && 0 <= j5 < terms5@.len() ==> lf5_tuple_done(
                adder_count@,
                terms1@[j1], terms2@[j2], terms3@[j3], terms4@[j4], terms5@[j5],
                adder_cost,
                max_value,
            ),
            forall|j1: int, j2: int, j3: int, j4: int, j5: int|
                #![trigger terms1@[j1], terms2@[j2], terms3@[j3], terms4@[j4], terms5@[j5]]
                0 <= j1 < i1 && 0 <= j2 < terms2@.len() && 0 <= j3 < terms3@.len() && 0 <= j4 < terms4@.len() && 0 <= j5 < terms5@.len() ==> lf5_tuple_recorded(
                c_in,
                adder_structures@,
                terms1@[j1], terms2@[j2], terms3@[j3], terms4@[j4], terms5@[j5],
                adder_cost,
                max_value,
            ),
            forall|j2: int, j3: int, j4: int, j5: int|
                #![trigger terms2@[j2], terms3@[j3], terms4@[j4], terms5@[j5]]
                0 <= j2 < i2 && 0 <= j3 < terms3@.len() && 0 <= j4 < terms4@.len() && 0 <= j5 < terms5@.len() ==> lf5_tuple_done(
                adder_count@,
                term1, terms2@[j2], terms3@[j3], terms4@[j4], terms5@[j5],
                adder_cost,
                max_value,
            ),
            forall|j2: int, j3: int, j4: int, j5: int|
                #![trigger terms2@[j2], terms3@[j3], terms4@[j4], terms5@[j5]]
                0 <= j2 < i2 && 0 <= j3 < terms3@.len() && 0 <= j4 < terms4@.len() && 0 <= j5 < terms5@.len() ==> lf5_tuple_recorded(
                c_in,
                adder_structures@,
                term1, terms2@[j2], terms3@[j3], terms4@[j4], terms5@[j5],
                adder_cost,
                max_value,
            ),
            forall|j3: int, j4: int, j5: int|
                #![trigger terms3@[j3], terms4@[j4], terms5@[j5]]
                0 <= j3 < i3 && 0 <= j4 < terms4@.len() && 0 <= j5 < terms5@.len() ==> lf5_tuple_done(
                adder_count@,
                term1, term2, terms3@[j3], terms4@[j4], terms5@[j5],
                adder_cost,
                max_value,
            ),
            forall|j3: int, j4: int, j5: int|
                #![trigger terms3@[j3], terms4@[j4], terms5@[j5]]
                0 <= j3 < i3 && 0 <= j4 < terms4@.len() && 0 <= j5 < terms5@.len() ==> lf5_tuple_recorded(
                c_in,
                adder_structures@,
                term1, term2, terms3@[j3], terms4@[j4], terms5@[j5],
                adder_cost,
                max_value,
            ),
            forall|j4: int, j5: int|
                #![trigger terms4@[j4], terms5@[j5]]
                0 <= j4 < i4 && 0 <= j5 < terms5@.len() ==> lf5_tuple_done(
                adder_count@,
                term1, term2, term3, terms4@[j4], terms5@[j5],
                adder_cost,
                max_value,
            ),
            forall|j4: int, j5: int|
                #![trigger terms4@[j4], terms5@[j5]]
                0 <= j4 < i4 && 0 <= j5 < terms5@.len() ==> lf5_tuple_recorded(
                c_in,
                adder_structures@,
                term1, term2, term3, terms4@[j4], terms5@[j5],
                adder_cost,
                max_value,
            ),
            forall|j5: int|
                #![trigger terms5@[j5]]
                0 <= j5 < i5 ==> lf5_tuple_done(
                adder_count@,
                term1, term2, term3, term4, terms5@[j5],
                adder_cost,
                max_value,
            ),
            forall|j5: int|
                #![trigger terms5@[j5]]
                0 <= j5 < i5 ==> lf5_tuple_recorded(
                c_in,
                adder_structures@,
                term1, term2, term3, term4, terms5@[j5],
                adder_cost,
                max_value,
            ),
            decreases terms5@.len() - i5,
        {
            let term5 = terms5[i5];
            if !((term3 % 2 == 0 || term4 % 2 == 0) && term5 % 2 == 0) {
        let ghost cB = adder_count@;
        let ghost gB = adder_structures@;
        proof {
            leapfrog5_leaf_facts(
                c_in,
                adder_count@,
                terms1@,
                terms2@,
                terms3@,
                terms4@,
                terms5@,
                i1 as int,
                i2 as int,
                i3 as int,
                i4 as int,
                i5 as int,
                adder_cost,
            );
            assert forall|gr: GraphType, nn: int|
                lf5_tuple_record(term1, term2, term3, term4, term5, max_value, gr, nn) implies lf5_record_ok(
                terms1@, terms2@, terms3@, terms4@, terms5@,
                max_value,
                gr,
                nn,
            ) by {
                assert(terms1@[i1 as int] == term1);
                assert(terms2@[i2 as int] == term2);
                assert(terms3@[i3 as int] == term3);
                assert(terms4@[i4 as int] == term4);
                assert(terms5@[i5 as int] == term5);
                assert(lf5_tuple_record(terms1@[i1 as int], terms2@[i2 as int], terms3@[i3 as int], terms4@[i4 as int], terms5@[i5 as int], max_value, gr, nn));
            }
        }
        lf5_relax_tuple(
            adder_count,
            adder_structures,
            term1, term2, term3, term4, term5,
            adder_cost,
            max_value,
            Ghost(|gg: GraphType, nn: int| lf5_record_ok(terms1@, terms2@, terms3@, terms4@, terms5@, max_value, gg, nn)),
        );
        proof {
            lemma_cost_relaxed_trans(c_in, cB, adder_count@, adder_cost);
            lemma_evolution_trans(
                c_in,
                g_in,
                cB,
                gB,
                adder_count@,
                adder_structures@,
                adder_cost,
                |gg: GraphType, nn: int| lf5_record_ok(terms1@, terms2@, terms3@, terms4@, terms5@, max_value, gg, nn),
            );
            lemma_lf5_recorded_anchor(
                c_in,
                cB,
                adder_structures@,
                term1, term2, term3, term4, term5,
                adder_cost,
                max_value,
            );
            assert forall|j1: int, j2: int, j3: int, j4: int, j5: int|
                #![trigger terms1@[j1], terms2@[j2], terms3@[j3], terms4@[j4], terms5@[j5]]
                0 <= j1 < i1 && 0 <= j2 < terms2@.len() && 0 <= j3 < terms3@.len() && 0 <= j4 < terms4@.len() && 0 <= j5 < terms5@.len() implies lf5_tuple_done(
                adder_count@,
                terms1@[j1], terms2@[j2], terms3@[j3], terms4@[j4], terms5@[j5],
                adder_cost,
                max_value,
            ) by {
                lemma_lf5_done_relax(
                    cB,
                    adder_count@,
                    terms1@[j1], terms2@[j2], terms3@[j3], terms4@[j4], terms5@[j5],
                    adder_cost,
                    max_value,
                );
            }
            assert forall|j1: int, j2: int, j3: int, j4: int, j5: int|
                #![trigger terms1@[j1], terms2@[j2], terms3@[j3], terms4@[j4], terms5@[j5]]
                0 <= j1 < i1 && 0 <= j2 < terms2@.len() && 0 <= j3 < terms3@.len() && 0 <= j4 < terms4@.len() && 0 <= j5 < terms5@.len() implies lf5_tuple_recorded(
                c_in,
                adder_structures@,
                terms1@[j1], terms2@[j2], terms3@[j3], terms4@[j4], terms5@[j5],
                adder_cost,
                max_value,
            ) by {
                lemma_lf5_recorded_prefix(
                    c_in,
                    gB,
                    adder_structures@,
                    terms1@[j1], terms2@[j2], terms3@[j3], terms4@[j4], terms5@[j5],
                    adder_cost,
                    max_value,
                );
            }
            assert forall|j2: int, j3: int, j4: int, j5: int|
                #![trigger terms2@[j2], terms3@[j3], terms4@[j4], terms5@[j5]]
                0 <= j2 < i2 && 0 <= j3 < terms3@.len() && 0 <= j4 < terms4@.len() && 0 <= j5 < terms5@.len() implies lf5_tuple_done(
                adder_count@,
                term1, terms2@[j2], terms3@[j3], terms4@[j4], terms5@[j5],
                adder_cost,
                max_value,
            ) by {
                lemma_lf5_done_relax(
                    cB,
                    adder_count@,
                    term1, terms2@[j2], terms3@[j3], terms4@[j4], terms5@[j5],
                    adder_cost,
                    max_value,
                );
            }
            assert forall|j2: int, j3: int, j4: int, j5: int|
                #![trigger terms2@[j2], terms3@[j3], terms4@[j4], terms5@[j5]]
                0 <= j2 < i2 && 0 <= j3 < terms3@.len() && 0 <= j4 < terms4@.len() && 0 <= j5 < terms5@.len() implies lf5_tuple_recorded(
                c_in,
                adder_structures@,
                term1, terms2@[j2], terms3@[j3], terms4@[j4], terms5@[j5],
                adder_cost,
                max_value,
            ) by {
                lemma_lf5_recorded_prefix(
                    c_in,
                    gB,
                    adder_structures@,
                    term1, terms2@[j2], terms3@[j3], terms4@[j4], terms5@[j5],
                    adder_cost,
                    max_value,
                );
            }
            assert forall|j3: int, j4: int, j5: int|
                #![trigger terms3@[j3], terms4@[j4], terms5@[j5]]
                0 <= j3 < i3 && 0 <= j4 < terms4@.len() && 0 <= j5 < terms5@.len() implies lf5_tuple_done(
                adder_count@,
                term1, term2, terms3@[j3], terms4@[j4], terms5@[j5],
                adder_cost,
                max_value,
            ) by {
                lemma_lf5_done_relax(
                    cB,
                    adder_count@,
                    term1, term2, terms3@[j3], terms4@[j4], terms5@[j5],
                    adder_cost,
                    max_value,
                );
            }
            assert forall|j3: int, j4: int, j5: int|
                #![trigger terms3@[j3], terms4@[j4], terms5@[j5]]
                0 <= j3 < i3 && 0 <= j4 < terms4@.len() && 0 <= j5 < terms5@.len() implies lf5_tuple_recorded(
                c_in,
                adder_structures@,
                term1, term2, terms3@[j3], terms4@[j4], terms5@[j5],
                adder_cost,
                max_value,
            ) by {
                lemma_lf5_recorded_prefix(
                    c_in,
                    gB,
                    adder_structures@,
                    term1, term2, terms3@[j3], terms4@[j4], terms5@[j5],
                    adder_cost,
                    max_value,
                );
            }
            assert forall|j4: int, j5: int|
                #![trigger terms4@[j4], terms5@[j5]]
                0 <= j4 < i4 && 0 <= j5 < terms5@.len() implies lf5_tuple_done(
                adder_count@,
                term1, term2, term3, terms4@[j4], terms5@[j5],
                adder_cost,
                max_value,
            ) by {
                lemma_lf5_done_relax(
                    cB,
                    adder_count@,
                    term1, term2, term3, terms4@[j4], terms5@[j5],
                    adder_cost,
                    max_value,
                );
            }
            assert forall|j4: int, j5: int|
                #![trigger terms4@[j4], terms5@[j5]]
                0 <= j4 < i4 && 0 <= j5 < terms5@.len() implies lf5_tuple_recorded(
                c_in,
                adder_structures@,
                term1, term2, term3, terms4@[j4], terms5@[j5],
                adder_cost,
                max_value,
            ) by {
                lemma_lf5_recorded_prefix(
                    c_in,
                    gB,
                    adder_structures@,
                    term1, term2, term3, terms4@[j4], terms5@[j5],
                    adder_cost,
                    max_value,
                );
            }
            assert forall|j5: int|
                #![trigger terms5@[j5]]
                0 <= j5 < i5 implies lf5_tuple_done(
                adder_count@,
                term1, term2, term3, term4, terms5@[j5],
                adder_cost,
                max_value,
            ) by {
                lemma_lf5_done_relax(
                    cB,
                    adder_count@,
                    term1, term2, term3, term4, terms5@[j5],
                    adder_cost,
                    max_value,
                );
            }
            assert forall|j5: int|
                #![trigger terms5@[j5]]
                0 <= j5 < i5 implies lf5_tuple_recorded(
                c_in,
                adder_structures@,
                term1, term2, term3, term4, terms5@[j5],
                adder_cost,
                max_value,
            ) by {
                lemma_lf5_recorded_prefix(
                    c_in,
                    gB,
                    adder_structures@,
                    term1, term2, term3, term4, terms5@[j5],
                    adder_cost,
                    max_value,
                );
            }
        }

            }

            i5 = i5 + 1;
        }

            }

            i4 = i4 + 1;
        }

            }

            i3 = i3 + 1;
        }

            }

            i2 = i2 + 1;
        }

            i1 = i1 + 1;
        }
}

/// Relax the table with the eight sign variants of `g*(e*(a*c ± b) ± a*d) ± f*(a*c ± b)` over the cross product of the operand
/// lists, skipping tuples with adjacent even parameters and variants that a
/// symmetry predicate shows another invocation covers.  Every kept variant of
/// every kept tuple is offered to the table and, wherever its guard held on
/// entry, its record stands in the final table; every appended record is a
/// kept variant of some kept tuple.
#[verifier::rlimit(100)]
pub fn leapfrog7_combinations(
    adder_count: &mut Vec<u8>,
    adder_structures: &mut Vec<Vec<GraphType>>,
    terms1: &Vec<usize>,
    terms2: &Vec<usize>,
    terms3: &Vec<usize>,
    terms4: &Vec<usize>,
    terms5: &Vec<usize>,
    terms6: &Vec<usize>,
    terms7: &Vec<usize>,
    adder_cost: u8,
    max_value: usize,
)
    requires
        table_wf(old(adder_count)@, old(adder_structures)@, adder_cost),
        0 < adder_cost < COST_SENTINEL,
        max_value < old(adder_count)@.len(),
        terms_below(old(adder_count)@, terms1@, adder_cost),
        terms_below(old(adder_count)@, terms2@, adder_cost),
        terms_below(old(adder_count)@, terms3@, adder_cost),
        terms_below(old(adder_count)@, terms4@, adder_cost),
        terms_below(old(adder_count)@, terms5@, adder_cost),
        terms_below(old(adder_count)@, terms6@, adder_cost),
        terms_below(old(adder_count)@, terms7@, adder_cost),
    ensures
        table_wf(final(adder_count)@, final(adder_structures)@, adder_cost),
        cost_relaxed_to(old(adder_count)@, final(adder_count)@, adder_cost),
        final(adder_structures)@.len() == old(adder_structures)@.len(),
        forall|j1: int, j2: int, j3: int, j4: int, j5: int, j6: int, j7: int|
            #![trigger terms1@[j1], terms2@[j2], terms3@[j3], terms4@[j4], terms5@[j5], terms6@[j6], terms7@[j7]]
            0 <= j1 < terms1@.len() && 0 <= j2 < terms2@.len() && 0 <= j3 < terms3@.len() && 0 <= j4 < terms4@.len() && 0 <= j5 < terms5@.len() && 0 <= j6 < terms6@.len() && 0 <= j7 < terms7@.len() ==> lf7_tuple_done(
            final(adder_count)@,
            terms1@[j1], terms2@[j2], terms3@[j3], terms4@[j4], terms5@[j5], terms6@[j6], terms7@[j7],
            adder_cost,
            max_value,
        ),
        forall|j1: int, j2: int, j3: int, j4: int, j5: int, j6: int, j7: int|
            #![trigger terms1@[j1], terms2@[j2], terms3@[j3], terms4@[j4], terms5@[j5], terms6@[j6], terms7@[j7]]
            0 <= j1 < terms1@.len() && 0 <= j2 < terms2@.len() && 0 <= j3 < terms3@.len() && 0 <= j4 < terms4@.len() && 0 <= j5 < terms5@.len() && 0 <= j6 < terms6@.len() && 0 <= j7 < terms7@.len() ==> lf7_tuple_recorded(
            old(adder_count)@,
            final(adder_structures)@,
            terms1@[j1], terms2@[j2], terms3@[j3], terms4@[j4], terms5@[j5], terms6@[j6], terms7@[j7],
            adder_cost,
            max_value,
        ),
        table_evolution(
            old(adder_count)@,
            old(adder_structures)@,
            final(adder_count)@,
            final(adder_structures)@,
            adder_cost,
            |gg: GraphType, nn: int| lf7_record_ok(terms1@, terms2@, terms3@, terms4@, terms5@, terms6@, terms7@, max_value, gg, nn),
        ),
{
    let ghost c_in = old(adder_count)@;
    let ghost g_in = old(adder_structures)@;
    proof {
        lemma_evolution_refl(c_in, g_in, adder_cost, |gg: GraphType, nn: int| lf7_record_ok(terms1@, terms2@, terms3@, terms4@, terms5@, terms6@, terms7@, max_value, gg, nn));
    }
        let mut i1: usize = 0;
        while i1 < terms1.len()
            invariant
            table_wf(adder_count@, adder_structures@, adder_cost),
            cost_relaxed_to(c_in, adder_count@, adder_cost),
            adder_structures@.len() == old(adder_structures)@.len(),
            adder_structures@.len() == adder_count@.len(),
            0 < adder_cost < COST_SENTINEL,
            max_value < adder_count@.len(),
            terms_below(c_in, terms1@, adder_cost),
            terms_below(c_in, terms2@, adder_cost),
            terms_below(c_in, terms3@, adder_cost),
            terms_below(c_in, terms4@, adder_cost),
            terms_below(c_in, terms5@, adder_cost),
            terms_below(c_in, terms6@, adder_cost),
            terms_below(c_in, terms7@, adder_cost),
            table_evolution(
                c_in,
                g_in,
                adder_count@,
                adder_structures@,
                adder_cost,
                |gg: GraphType, nn: int| lf7_record_ok(terms1@, terms2@, terms3@, terms4@, terms5@, terms6@, terms7@, max_value, gg, nn),
            ),
            i1 <= terms1@.len(),
            forall|j1: int, j2: int, j3: int, j4: int, j5: int, j6: int, j7: int|
                #![trigger terms1@[j1], terms2@[j2], terms3@[j3], terms4@[j4], terms5@[j5], terms6@[j6], terms7@[j7]]
                0 <= j1 < i1 && 0 <= j2 < terms2@.len() && 0 <= j3 < terms3@.len() && 0 <= j4 < terms4@.len() && 0 <= j5 < terms5@.len() && 0 <= j6 < terms6@.len() && 0 <= j7 < terms7@.len() ==> lf7_tuple_done(
                adder_count@,
                terms1@[j1], terms2@[j2], terms3@[j3], terms4@[j4], terms5@[j5], terms6@[j6], terms7@[j7],
                adder_cost,
                max_value,
            ),
            forall|j1: int, j2: int, j3: int, j4: int, j5: int, j6: int, j7: int|
                #![trigger terms1@[j1], terms2@[j2], terms3@[j3], terms4@[j4], terms5@[j5], terms6@[j6], terms7@[j7]]
                0 <= j1 < i1 && 0 <= j2 < terms2@.len() && 0 <= j3 < terms3@.len() && 0 <= j4 < terms4@.len() && 0 <= j5 < terms5@.len() && 0 <= j6 < terms6@.len() && 0 <= j7 < terms7@.len() ==> lf7_tuple_recorded(
                c_in,
                adder_structures@,
                terms1@[j1], terms2@[j2], terms3@[j3], terms4@[j4], terms5@[j5], terms6@[j6], terms7@[j7],
                adder_cost,
                max_value,
            ),
            decreases terms1@.len() - i1,
        {
            let term1 = terms1[i1];
        let mut i2: usize = 0;
        while i2 < terms2.len()
            invariant
            table_wf(adder_count@, adder_structures@, adder_cost),
            cost_relaxed_to(c_in, adder_count@, adder_cost),
            adder_structures@.len() == old(adder_structures)@.len(),
            adder_structures@.len() == adder_count@.len(),
            0 < adder_cost < COST_SENTINEL,
            max_value < adder_count@.len(),
            terms_below(c_in, terms1@, adder_cost),
            terms_below(c_in, terms2@, adder_cost),
            terms_below(c_in, terms3@, adder_cost),
            terms_below(c_in, terms4@, adder_cost),
            terms_below(c_in, terms5@, adder_cost),
            terms_below(c_in, terms6@, adder_cost),
            terms_below(c_in, terms7@, adder_cost),
            table_evolution(
                c_in,
                g_in,
                adder_count@,
                adder_structures@,
                adder_cost,
                |gg: GraphType, nn: int| lf7_record_ok(terms1@, terms2@, terms3@, terms4@, terms5@, terms6@, terms7@, max_value, gg, nn),
            ),
            i1 < terms1@.len(),
            term1 == terms1@[i1 as int],
            i2 <= terms2@.len(),
            forall|j1: int, j2: int, j3: int, j4: int, j5: int, j6: int, j7: int|
                #![trigger terms1@[j1], terms2@[j2], terms3@[j3], terms4@[j4], terms5@[j5], terms6@[j6], terms7@[j7]]
                0 <= j1 < i1 && 0 <= j2 < terms2@.len() && 0 <= j3 < terms3@.len() && 0 <= j4 < terms4@.len() && 0 <= j5 < terms5@.len() && 0 <= j6 < terms6@.len() && 0 <= j7 < terms7@.len() ==> lf7_tuple_done(
                adder_count@,
                terms1@[j1], terms2@[j2], terms3@[j3], terms4@[j4], terms5@[j5], terms6@[j6], terms7@[j7],
                adder_cost,
                max_value,
            ),
            forall|j1: int, j2: int, j3: int, j4: int, j5: int, j6: int, j7: int|
                #![trigger terms1@[j1], terms2@[j2], terms3@[j3], terms4@[j4], terms5@[j5], terms6@[j6], terms7@[j7]]
                0 <= j1 < i1 && 0 <= j2 < terms2@.len() && 0 <= j3 < terms3@.len() && 0 <= j4 < terms4@.len() && 0 <= j5 < terms5@.len() && 0 <= j6 < terms6@.len() && 0 <= j7 < terms7@.len() ==> lf7_tuple_recorded(
                c_in,
                adder_structures@,
                terms1@[j1], terms2@[j2], terms3@[j3], terms4@[j4], terms5@[j5], terms6@[j6], terms7@[j7],
                adder_cost,
                max_value,
            ),
            forall|j2: int, j3: int, j4: int, j5: int, j6: int, j7: int|
                #![trigger terms2@[j2], terms3@[j3], terms4@[j4], terms5@[j5], terms6@[j6], terms7@[j7]]
                0 <= j2 < i2 && 0 <= j3 < terms3@.len() && 0 <= j4 < terms4@.len() && 0 <= j5 < terms5@.len() && 0 <= j6 < terms6@.len() && 0 <= j7 < terms7@.len() ==> lf7_tuple_done(
                adder_count@,
                term1, terms2@[j2], terms3@[j3], terms4@[j4], terms5@[j5], terms6@[j6], terms7@[j7],
                adder_cost,
                max_value,
            ),
            forall|j2: int, j3: int, j4: int, j5: int, j6: int, j7: int|
                #![trigger terms2@[j2], terms3@[j3], terms4@[j4], terms5@[j5], terms6@[j6], terms7@[j7]]
                0 <= j2 < i2 && 0 <= j3 < terms3@.len() && 0 <= j4 < terms4@.len() && 0 <= j5 < terms5@.len() && 0 <= j6 < terms6@.len() && 0 <= j7 < terms7@.len() ==> lf7_tuple_recorded(
                c_in,
                adder_structures@,
                term1, terms2@[j2], terms3@[j3], terms4@[j4], terms5@[j5], terms6@[j6], terms7@[j7],
                adder_cost,
                max_value,
            ),
            decreases terms2@.len() - i2,
        {
            let term2 = terms2[i2];
            if !(term1 % 2 == 0 && term2 % 2 == 0) {
        let mut i3: usize = 0;
        while i3 < terms3.len()
            invariant
            table_wf(adder_count@, adder_structures@, adder_cost),
            cost_relaxed_to(c_in, adder_count@, adder_cost),
            adder_structures@.len() == old(adder_structures)@.len(),
            adder_structures@.len() == adder_count@.len(),
            0 < adder_cost < COST_SENTINEL,
            max_value < adder_count@.len(),
            terms_below(c_in, terms1@, adder_cost),
            terms_below(c_in, terms2@, adder_cost),
            terms_below(c_in, terms3@, adder_cost),
            terms_below(c_in, terms4@, adder_cost),
            terms_below(c_in, terms5@, adder_cost),
            terms_below(c_in, terms6@, adder_cost),
            terms_below(c_in, terms7@, adder_cost),
            table_evolution(
                c_in,
                g_in,
                adder_count@,
                adder_structures@,
                adder_cost,
                |gg: GraphType, nn: int| lf7_record_ok(terms1@, terms2@, terms3@, terms4@, terms5@, terms6@, terms7@, max_value, gg, nn),
            ),
            i1 < terms1@.len(),
            term1 == terms1@[i1 as int],
            i2 < terms2@.len(),
            term2 == terms2@[i2 as int],
            !(term1 % 2 == 0 && term2 % 2 == 0),
            i3 <= terms3@.len(),
            forall|j1: int, j2: int, j3: int, j4: int, j5: int, j6: int, j7: int|
                #![trigger terms1@[j1], terms2@[j2], terms3@[j3], terms4@[j4], terms5@[j5], terms6@[j6], terms7@[j7]]
                0 <= j1 < i1 && 0 <= j2 < terms2@.len() && 0 <= j3 < terms3@.len() && 0 <= j4 < terms4@.len() && 0 <= j5 < terms5@.len() && 0 <= j6 < terms6@.len() && 0 <= j7 < terms7@.len() ==> lf7_tuple_done(
                adder_count@,
                terms1@[j1], terms2@[j2], terms3@[j3], terms4@[j4], terms5@[j5], terms6@[j6], terms7@[j7],
                adder_cost,
                max_value,
            ),
            forall|j1: int, j2: int, j3: int, j4: int, j5: int, j6: int, j7: int|
                #![trigger terms1@[j1], terms2@[j2], terms3@[j3], terms4@[j4], terms5@[j5], terms6@[j6], terms7@[j7]]
                0 <= j1 < i1 && 0 <= j2 < terms2@.len() && 0 <= j3 < terms3@.len() && 0 <= j4 < terms4@.len() && 0 <= j5 < terms5@.len() && 0 <= j6 < terms6@.len() && 0 <= j7 < terms7@.len() ==> lf7_tuple_recorded(
                c_in,
                adder_structures@,
                terms1@[j1], terms2@[j2], terms3@[j3], terms4@[j4], terms5@[j5], terms6@[j6], terms7@[j7],
                adder_cost,
                max_value,
            ),
            forall|j2: int, j3: int, j4: int, j5: int, j6: int, j7: int|
                #![trigger terms2@[j2], terms3@[j3], terms4@[j4], terms5@[j5], terms6@[j6], terms7@[j7]]
                0 <= j2 < i2 && 0 <= j3 < terms3@.len() && 0 <= j4 < terms4@.len() && 0 <= j5 < terms5@.len() && 0 <= j6 < terms6@.len() && 0 <= j7 < terms7@.len() ==> lf7_tuple_done(
                adder_count@,
                term1, terms2@[j2], terms3@[j3], terms4@[j4], terms5@[j5], terms6@[j6], terms7@[j7],
                adder_cost,
                max_value,
            ),
            forall|j2: int, j3: int, j4: int, j5: int, j6: int, j7: int|
                #![trigger terms2@[j2], terms3@[j3], terms4@[j4], terms5@[j5], terms6@[j6], terms7@[j7]]
                0 <= j2 < i2 && 0 <= j3 < terms3@.len() && 0 <= j4 < terms4@.len() && 0 <= j5 < terms5@.len() && 0 <= j6 < terms6@.len() && 0 <= j7 < terms7@.len() ==> lf7_tuple_recorded(
                c_in,
                adder_structures@,
                term1, terms2@[j2], terms3@[j3], terms4@[j4], terms5@[j5], terms6@[j6], terms7@[j7],
                adder_cost,
                max_value,
            ),
            forall|j3: int, j4: int, j5: int, j6: int, j7: int|
                #![trigger terms3@[j3], terms4@[j4], terms5@[j5], terms6@[j6], terms7@[j7]]
                0 <= j3 < i3 && 0 <= j4 < terms4@.len() && 0 <= j5 < terms5@.len() && 0 <= j6 < terms6@.len() && 0 <= j7 < terms7@.len() ==> lf7_tuple_done(
                adder_count@,
                term1, term2, terms3@[j3], terms4@[j4], terms5@[j5], terms6@[j6], terms7@[j7],
                adder_cost,
                max_value,
            ),
            forall|j3: int, j4: int, j5: int, j6: int, j7: int|
                #![trigger terms3@[j3], terms4@[j4], terms5@[j5], terms6@[j6], terms7@[j7]]
                0 <= j3 < i3 && 0 <= j4 < terms4@.len() && 0 <= j5 < terms5@.len() && 0 <= j6 < terms6@.len() && 0 <= j7 < terms7@.len() ==> lf7_tuple_recorded(
                c_in,
                adder_structures@,
                term1, term2, terms3@[j3], terms4@[j4], terms5@[j5], terms6@[j6], terms7@[j7],
                adder_cost,
                max_value,
            ),
            decreases terms3@.len() - i3,
        {
            let term3 = terms3[i3];
            if !(term2 % 2 == 0 && term3 % 2 == 0) {
        let mut i4: usize = 0;
        while i4 < terms4.len()
            invariant
            table_wf(adder_count@, adder_structures@, adder_cost),
            cost_relaxed_to(c_in, adder_count@, adder_cost),
            adder_structures@.len() == old(adder_structures)@.len(),
            adder_structures@.len() == adder_count@.len(),
            0 < adder_cost < COST_SENTINEL,
            max_value < adder_count@.len(),
            terms_below(c_in, terms1@, adder_cost),
            terms_below(c_in, terms2@, adder_cost),
            terms_below(c_in, terms3@, adder_cost),
            terms_below(c_in, terms4@, adder_cost),
            terms_below(c_in, terms5@, adder_cost),
            terms_below(c_in, terms6@, adder_cost),
            terms_below(c_in, terms7@, adder_cost),
            table_evolution(
                c_in,
                g_in,
                adder_count@,
                adder_structures@,
                adder_cost,
                |gg: GraphType, nn: int| lf7_record_ok(terms1@, terms2@, terms3@, terms4@, terms5@, terms6@, terms7@, max_value, gg, nn),
            ),
            i1 < terms1@.len(),
            term1 == terms1@[i1 as int],
            i2 < terms2@.len(),
            term2 == terms2@[i2 as int],
            i3 < terms3@.len(),
            term3 == terms3@[i3 as int],
            !(term1 % 2 == 0 && term2 % 2 == 0),
            !(term2 % 2 == 0 && term3 % 2 == 0),
            i4 <= terms4@.len(),
            forall|j1: int, j2: int, j3: int, j4: int, j5: int, j6: int, j7: int|
                #![trigger terms1@[j1], terms2@[j2], terms3@[j3], terms4@[j4], terms5@[j5], terms6@[j6], terms7@[j7]]
                0 <= j1 < i1 && 0 <= j2 < terms2@.len() && 0 <= j3 < terms3@.len() && 0 <= j4 < terms4@.len() && 0 <= j5 < terms5@.len() && 0 <= j6 < terms6@.len() && 0 <= j7 < terms7@.len() ==> lf7_tuple_done(
                adder_count@,
                terms1@[j1], terms2@[j2], terms3@[j3], terms4@[j4], terms5@[j5], terms6@[j6], terms7@[j7],
                adder_cost,
                max_value,
            ),
            forall|j1: int, j2: int, j3: int, j4: int, j5: int, j6: int, j7: int|
                #![trigger terms1@[j1], terms2@[j2], terms3@[j3], terms4@[j4], terms5@[j5], terms6@[j6], terms7@[j7]]
                0 <= j1 < i1 && 0 <= j2 < terms2@.len() && 0 <= j3 < terms3@.len() && 0 <= j4 < terms4@.len() && 0 <= j5 < terms5@.len() && 0 <= j6 < terms6@.len() && 0 <= j7 < terms7@.len() ==> lf7_tuple_recorded(
                c_in,
                adder_structures@,
                terms1@[j1], terms2@[j2], terms3@[j3], terms4@[j4], terms5@[j5], terms6@[j6], terms7@[j7],
                adder_cost,
                max_value,
            ),
            forall|j2: int, j3: int, j4: int, j5: int, j6: int, j7: int|
                #![trigger terms2@[j2], terms3@[j3], terms4@[j4], terms5@[j5], terms6@[j6], terms7@[j7]]
                0 <= j2 < i2 && 0 <= j3 < terms3@.len() && 0 <= j4 < terms4@.len() && 0 <= j5 < terms5@.len() && 0 <= j6 < terms6@.len() && 0 <= j7 < terms7@.len() ==> lf7_tuple_done(
                adder_count@,
                term1, terms2@[j2], terms3@[j3], terms4@[j4], terms5@[j5], terms6@[j6], terms7@[j7],
                adder_cost,
                max_value,
            ),
            forall|j2: int, j3: int, j4: int, j5: int, j6: int, j7: int|
                #![trigger terms2@[j2], terms3@[j3], terms4@[j4], terms5@[j5], terms6@[j6], terms7@[j7]]
                0 <= j2 < i2 && 0 <= j3 < terms3@.len() && 0 <= j4 < terms4@.len() && 0 <= j5 < terms5@.len() && 0 <= j6 < terms6@.len() && 0 <= j7 < terms7@.len() ==> lf7_tuple_recorded(
                c_in,
                adder_structures@,
                term1, terms2@[j2], terms3@[j3], terms4@[j4], terms5@[j5], terms6@[j6], terms7@[j7],
                adder_cost,
                max_value,
            ),
            forall|j3: int, j4: int, j5: int, j6: int, j7: int|
                #![trigger terms3@[j3], terms4@[j4], terms5@[j5], terms6@[j6], terms7@[j7]]
                0 <= j3 < i3 && 0 <= j4 < terms4@.len() && 0 <= j5 < terms5@.len() && 0 <= j6 < terms6@.len() && 0 <= j7 < terms7@.len() ==> lf7_tuple_done(
                adder_count@,
                term1, term2, terms3@[j3], terms4@[j4], terms5@[j5], terms6@[j6], terms7@[j7],
                adder_cost,
                max_value,
            ),
            forall|j3: int, j4: int, j5: int, j6: int, j7: int|
                #![trigger terms3@[j3], terms4@[j4], terms5@[j5], terms6@[j6], terms7@[j7]]
                0 <= j3 < i3 && 0 <= j4 < terms4@.len() && 0 <= j5 < terms5@.len() && 0 <= j6 < terms6@.len() && 0 <= j7 < terms7@.len() ==> lf7_tuple_recorded(
                c_in,
                adder_structures@,
                term1, term2, terms3@[j3], terms4@[j4], terms5@[j5], terms6@[j6], terms7@[j7],
                adder_cost,
                max_value,
            ),
            forall|j4: int, j5: int, j6: int, j7: int|
                #![trigger terms4@[j4], terms5@[j5], terms6@[j6], terms7@[j7]]
                0 <= j4 < i4 && 0 <= j5 < terms5@.len() && 0 <= j6 < terms6@.len() && 0 <= j7 < terms7@.len() ==> lf7_tuple_done(
                adder_count@,
                term1, term2, term3, terms4@[j4], terms5@[j5], terms6@[j6], terms7@[j7],
                adder_cost,
                max_value,
            ),
            forall|j4: int, j5: int, j6: int, j7: int|
                #![trigger terms4@[j4], terms5@[j5], terms6@[j6], terms7@[j7]]
                0 <= j4 < i4 && 0 <= j5 < terms5@.len() && 0 <= j6 < terms6@.len() && 0 <= j7 < terms7@.len() ==> lf7_tuple_recorded(
                c_in,
                adder_structures@,
                term1, term2, term3, terms4@[j4], terms5@[j5], terms6@[j6], terms7@[j7],
                adder_cost,
                max_value,
            ),
            decreases terms4@.len() - i4,
        {
            let term4 = terms4[i4];
            if !((term2 % 2 == 0 || term3 % 2 == 0) && term4 % 2 == 0) {
        let mut i5: usize = 0;
        while i5 < terms5.len()
            invariant
            table_wf(adder_count@, adder_structures@, adder_cost),
            cost_relaxed_to(c_in, adder_count@, adder_cost),
            adder_structures@.len() == old(adder_structures)@.len(),
            adder_structures@.len() == adder_count@.len(),
            0 < adder_cost < COST_SENTINEL,
            max_value < adder_count@.len(),
            terms_below(c_in, terms1@, adder_cost),
            terms_below(c_in, terms2@, adder_cost),
            terms_below(c_in, terms3@, adder_cost),
            terms_below(c_in, terms4@, adder_cost),
            terms_below(c_in, terms5@, adder_cost),
            terms_below(c_in, terms6@, adder_cost),
            terms_below(c_in, terms7@, adder_cost),
            table_evolution(
                c_in,
                g_in,
                adder_count@,
                adder_structures@,
                adder_cost,
                |gg: GraphType, nn: int| lf7_record_ok(terms1@, terms2@, terms3@, terms4@, terms5@, terms6@, terms7@, max_value, gg, nn),
            ),
            i1 < terms1@.len(),
            term1 == terms1@[i1 as int],
            i2 < terms2@.len(),
            term2 == terms2@[i2 as int],
            i3 < terms3@.len(),
            term3 == terms3@[i3 as int],
            i4 < terms4@.len(),
            term4 == terms4@[i4 as int],
            !(term1 % 2 == 0 && term2 % 2 == 0),
            !(term2 % 2 == 0 && term3 % 2 == 0),
            !((term2 % 2 == 0 || term3 % 2 == 0) && term4 % 2 == 0),
            i5 <= terms5@.len(),
            forall|j1: int, j2: int, j3: int, j4: int, j5: int, j6: int, j7: int|
                #![trigger terms1@[j1], terms2@[j2], terms3@[j3], terms4@[j4], terms5@[j5], terms6@[j6], terms7@[j7]]
                0 <= j1 < i1 && 0 <= j2 < terms2@.len() && 0 <= j3 < terms3@.len() && 0 <= j4 < terms4@.len() && 0 <= j5 < terms5@.len() && 0 <= j6 < terms6@.len() && 0 <= j7 < terms7@.len() ==> lf7_tuple_done(
                adder_count@,
                terms1@[j1], terms2@[j2], terms3@[j3], terms4@[j4], terms5@[j5], terms6@[j6], terms7@[j7],
                adder_cost,
                max_value,
            ),
            forall|j1: int, j2: int, j3: int, j4: int, j5: int, j6: int, j7: int|
                #![trigger terms1@[j1], terms2@[j2], terms3@[j3], terms4@[j4], terms5@[j5], terms6@[j6], terms7@[j7]]
                0 <= j1 < i1 && 0 <= j2 < terms2@.len() && 0 <= j3 < terms3@.len() && 0 <= j4 < terms4@.len() && 0 <= j5 < terms5@.len() && 0 <= j6 < terms6@.len() && 0 <= j7 < terms7@.len() ==> lf7_tuple_recorded(
                c_in,
                adder_structures@,
                terms1@[j1], terms2@[j2], terms3@[j3], terms4@[j4], terms5@[j5], terms6@[j6], terms7@[j7],
                adder_cost,
                max_value,
            ),
            forall|j2: int, j3: int, j4: int, j5: int, j6: int, j7: int|
                #![trigger terms2@[j2], terms3@[j3], terms4@[j4], terms5@[j5], terms6@[j6], terms7@[j7]]
                0 <= j2 < i2 && 0 <= j3 < terms3@.len() && 0 <= j4 < terms4@.len() && 0 <= j5 < terms5@.len() && 0 <= j6 < terms6@.len() && 0 <= j7 < terms7@.len() ==> lf7_tuple_done(
                adder_count@,
                term1, terms2@[j2], terms3@[j3], terms4@[j4], terms5@[j5], terms6@[j6], terms7@[j7],
                adder_cost,
                max_value,
            ),
            forall|j2: int, j3: int, j4: int, j5: int, j6: int, j7: int|
                #![trigger terms2@[j2], terms3@[j3], terms4@[j4], terms5@[j5], terms6@[j6], terms7@[j7]]
                0 <= j2 < i2 && 0 <= j3 < terms3@.len() && 0 <= j4 < terms4@.len() && 0 <= j5 < terms5@.len() && 0 <= j6 < terms6@.len() && 0 <= j7 < terms7@.len() ==> lf7_tuple_recorded(
                c_in,
                adder_structures@,
                term1, terms2@[j2], terms3@[j3], terms4@[j4], terms5@[j5], terms6@[j6], terms7@[j7],
                adder_cost,
                max_value,
            ),
            forall|j3: int, j4: int, j5: int, j6: int, j7: int|
                #![trigger terms3@[j3], terms4@[j4], terms5@[j5], terms6@[j6], terms7@[j7]]
                0 <= j3 < i3 && 0 <= j4 < terms4@.len() && 0 <= j5 < terms5@.len() && 0 <= j6 < terms6@.len() && 0 <= j7 < terms7@.len() ==> lf7_tuple_done(
                adder_count@,
                term1, term2, terms3@[j3], terms4@[j4], terms5@[j5], terms6@[j6], terms7@[j7],
                adder_cost,
                max_value,
            ),
            forall|j3: int, j4: int, j5: int, j6: int, j7: int|
                #![trigger terms3@[j3], terms4@[j4], terms5@[j5], terms6@[j6], terms7@[j7]]
                0 <= j3 < i3 && 0 <= j4 < terms4@.len() && 0 <= j5 < terms5@.len() && 0 <= j6 < terms6@.len() && 0 <= j7 < terms7@.len() ==> lf7_tuple_recorded(
                c_in,
                adder_structures@,
                term1, term2, terms3@[j3], terms4@[j4], terms5@[j5], terms6@[j6], terms7@[j7],
                adder_cost,
                max_value,
            ),
            forall|j4: int, j5: int, j6: int, j7: int|
                #![trigger terms4@[j4], terms5@[j5], terms6@[j6], terms7@[j7]]
                0 <= j4 < i4 && 0 <= j5 < terms5@.len() && 0 <= j6 < terms6@.len() && 0 <= j7 < terms7@.len() ==> lf7_tuple_done(
                adder_count@,
                term1, term2, term3, terms4@[j4], terms5@[j5], terms6@[j6], terms7@[j7],
                adder_cost,
                max_value,
            ),
            forall|j4: int, j5: int, j6: int, j7: int|
                #![trigger terms4@[j4], terms5@[j5], terms6@[j6], terms7@[j7]]
                0 <= j4 < i4 && 0 <= j5 < terms5@.len() && 0 <= j6 < terms6@.len() && 0 <= j7 < terms7@.len() ==> lf7_tuple_recorded(
                c_in,
                adder_structures@,
                term1, term2, term3, terms4@[j4], terms5@[j5], terms6@[j6], terms7@[j7],
                adder_cost,
                max_value,
            ),
            forall|j5: int, j6: int, j7: int|
                #![trigger terms5@[j5], terms6@[j6], terms7@[j7]]
                0 <= j5 < i5 && 0 <= j6 < terms6@.len() && 0 <= j7 < terms7@.len() ==> lf7_tuple_done(
                adder_count@,
                term1, term2, term3, term4, terms5@[j5], terms6@[j6], terms7@[j7],
                adder_cost,
                max_value,
            ),
            forall|j5: int, j6: int, j7: int|
                #![trigger terms5@[j5], terms6@[j6], terms7@[j7]]
                0 <= j5 < i5 && 0 <= j6 < terms6@.len() && 0 <= j7 < terms7@.len() ==> lf7_tuple_recorded(
                c_in,
                adder_structures@,
                term1, term2, term3, term4, terms5@[j5], terms6@[j6], terms7@[j7],
                adder_cost,
                max_value,
            ),
            decreases terms5@.len() - i5,
        {
            let term5 = terms5[i5];
            if !(term4 % 2 == 0 && term5 % 2 == 0) {
        let mut i6: usize = 0;
        while i6 < terms6.len()
            invariant
            table_wf(adder_count@, adder_structures@, adder_cost),
            cost_relaxed_to(c_in, adder_count@, adder_cost),
            adder_structures@.len() == old(adder_structures)@.len(),
            adder_structures@.len() == adder_count@.len(),
            0 < adder_cost < COST_SENTINEL,
            max_value < adder_count@.len(),
            terms_below(c_in, terms1@, adder_cost),
            terms_below(c_in, terms2@, adder_cost),
            terms_below(c_in, terms3@, adder_cost),
            terms_below(c_in, terms4@, adder_cost),
            terms_below(c_in, terms5@, adder_cost),
            terms_below(c_in, terms6@, adder_cost),
            terms_below(c_in, terms7@, adder_cost),
            table_evolution(
                c_in,
                g_in,
                adder_count@,
                adder_structures@,
                adder_cost,
                |gg: GraphType, nn: int| lf7_record_ok(terms1@, terms2@, terms3@, terms4@, terms5@, terms6@, terms7@, max_value, gg, nn),
            ),
            i1 < terms1@.len(),
            term1 == terms1@[i1 as int],
            i2 < terms2@.len(),
            term2 == terms2@[i2 as int],
            i3 < terms3@.len(),
            term3 == terms3@[i3 as int],
            i4 < terms4@.len(),
            term4 == terms4@[i4 as int],
            i5 < terms5@.len(),
            term5 == terms5@[i5 as int],
            !(term1 % 2 == 0 && term2 % 2 == 0),
            !(term2 % 2 == 0 && term3 % 2 == 0),
            !((term2 % 2 == 0 || term3 % 2 == 0) && term4 % 2 == 0),
            !(term4 % 2 == 0 && term5 % 2 == 0),
            i6 <= terms6@.len(),
            forall|j1: int, j2: int, j3: int, j4: int, j5: int, j6: int, j7: int|
                #![trigger terms1@[j1], terms2@[j2], terms3@[j3], terms4@[j4], terms5@[j5], terms6@[j6], terms7@[j7]]
                0 <= j1 < i1 && 0 <= j2 < terms2@.len() && 0 <= j3 < terms3@.len() && 0 <= j4 < terms4@.len() && 0 <= j5 < terms5@.len() && 0 <= j6 < terms6@.len() && 0 <= j7 < terms7@.len() ==> lf7_tuple_done(
                adder_count@,
                terms1@[j1], terms2@[j2], terms3@[j3], terms4@[j4], terms5@[j5], terms6@[j6], terms7@[j7],
                adder_cost,
                max_value,
            ),
            forall|j1: int, j2: int, j3: int, j4: int, j5: int, j6: int, j7: int|
                #![trigger terms1@[j1], terms2@[j2], terms3@[j3], terms4@[j4], terms5@[j5], terms6@[j6], terms7@[j7]]
                0 <= j1 < i1 && 0 <= j2 < terms2@.len() && 0 <= j3 < terms3@.len() && 0 <= j4 < terms4@.len() && 0 <= j5 < terms5@.len() && 0 <= j6 < terms6@.len() && 0 <= j7 < terms7@.len() ==> lf7_tuple_recorded(
                c_in,
                adder_structures@,
                terms1@[j1], terms2@[j2], terms3@[j3], terms4@[j4], terms5@[j5], terms6@[j6], terms7@[j7],
                adder_cost,
                max_value,
            ),
            forall|j2: int, j3: int, j4: int, j5: int, j6: int, j7: int|
                #![trigger terms2@[j2], terms3@[j3], terms4@[j4], terms5@[j5], terms6@[j6], terms7@[j7]]
                0 <= j2 < i2 && 0 <= j3 < terms3@.len() && 0 <= j4 < terms4@.len() && 0 <= j5 < terms5@.len() && 0 <= j6 < terms6@.len() && 0 <= j7 < terms7@.len() ==> lf7_tuple_done(
                adder_count@,
                term1, terms2@[j2], terms3@[j3], terms4@[j4], terms5@[j5], terms6@[j6], terms7@[j7],
                adder_cost,
                max_value,
            ),
            forall|j2: int, j3: int, j4: int, j5: int, j6: int, j7: int|
                #![trigger terms2@[j2], terms3@[j3], terms4@[j4], terms5@[j5], terms6@[j6], terms7@[j7]]
                0 <= j2 < i2 && 0 <= j3 < terms3@.len() && 0 <= j4 < terms4@.len() && 0 <= j5 < terms5@.len() && 0 <= j6 < terms6@.len() && 0 <= j7 < terms7@.len() ==> lf7_tuple_recorded(
                c_in,
                adder_structures@,
                term1, terms2@[j2], terms3@[j3], terms4@[j4], terms5@[j5], terms6@[j6], terms7@[j7],
                adder_cost,
                max_value,
            ),
            forall|j3: int, j4: int, j5: int, j6: int, j7: int|
                #![trigger terms3@[j3], terms4@[j4], terms5@[j5], terms6@[j6], terms7@[j7]]
                0 <= j3 < i3 && 0 <= j4 < terms4@.len() && 0 <= j5 < terms5@.len() && 0 <= j6 < terms6@.len() && 0 <= j7 < terms7@.len() ==> lf7_tuple_done(
                adder_count@,
                term1, term2, terms3@[j3], terms4@[j4], terms5@[j5], terms6@[j6], terms7@[j7],
                adder_cost,
                max_value,
            ),
            forall|j3: int, j4: int, j5: int, j6: int, j7: int|
                #![trigger terms3@[j3], terms4@[j4], terms5@[j5], terms6@[j6], terms7@[j7]]
                0 <= j3 < i3 && 0 <= j4 < terms4@.len() && 0 <= j5 < terms5@.len() && 0 <= j6 < terms6@.len() && 0 <= j7 < terms7@.len() ==> lf7_tuple_recorded(
                c_in,
                adder_structures@,
                term1, term2, terms3@[j3], terms4@[j4], terms5@[j5], terms6@[j6], terms7@[j7],
                adder_cost,
                max_value,
            ),
            forall|j4: int, j5: int, j6: int, j7: int|
                #![trigger terms4@[j4], terms5@[j5], terms6@[j6], terms7@[j7]]
                0 <= j4 < i4 && 0 <= j5 < terms5@.len() && 0 <= j6 < terms6@.len() && 0 <= j7 < terms7@.len() ==> lf7_tuple_done(
                adder_count@,
                term1, term2, term3, terms4@[j4], terms5@[j5], terms6@[j6], terms7@[j7],
                adder_cost,
                max_value,
            ),
            forall|j4: int, j5: int, j6: int, j7: int|
                #![trigger terms4@[j4], terms5@[j5], terms6@[j6], terms7@[j7]]
                0 <= j4 < i4 && 0 <= j5 < terms5@.len() && 0 <= j6 < terms6@.len() && 0 <= j7 < terms7@.len() ==> lf7_tuple_recorded(
                c_in,
                adder_structures@,
                term1, term2, term3, terms4@[j4], terms5@[j5], terms6@[j6], terms7@[j7],
                adder_cost,
                max_value,
            ),
            forall|j5: int, j6: int, j7: int|
                #![trigger terms5@[j5], terms6@[j6], terms7@[j7]]
                0 <= j5 < i5 && 0 <= j6 < terms6@.len() && 0 <= j7 < terms7@.len() ==> lf7_tuple_done(
                adder_count@,
                term1, term2, term3, term4, terms5@[j5], terms6@[j6], terms7@[j7],
                adder_cost,
                max_value,
            ),
            forall|j5: int, j6: int, j7: int|
                #![trigger terms5@[j5], terms6@[j6], terms7@[j7]]
                0 <= j5 < i5 && 0 <= j6 < terms6@.len() && 0 <= j7 < terms7@.len() ==> lf7_tuple_recorded(
                c_in,
                adder_structures@,
                term1, term2, term3, term4, terms5@[j5], terms6@[j6], terms7@[j7],
                adder_cost,
                max_value,
            ),
            forall|j6: int, j7: int|
                #![trigger terms6@[j6], terms7@[j7]]
                0 <= j6 < i6 && 0 <= j7 < terms7@.len() ==> lf7_tuple_done(
                adder_count@,
                term1, term2, term3, term4, term5, terms6@[j6], terms7@[j7],
                adder_cost,
                max_value,
            ),
            forall|j6: int, j7: int|
                #![trigger terms6@[j6], terms7@[j7]]
                0 <= j6 < i6 && 0 <= j7 < terms7@.len() ==> lf7_tuple_recorded(
                c_in,
                adder_structures@,
                term1, term2, term3, term4, term5, terms6@[j6], terms7@[j7],
                adder_cost,
                max_value,
            ),
            decreases terms6@.len() - i6,
        {
            let term6 = terms6[i6];
            if !((term4 % 2 == 0 || term5 % 2 == 0) && term6 % 2 == 0) {
        let mut i7: usize = 0;
        while i7 < terms7.len()
            invariant
            table_wf(adder_count@, adder_structures@, adder_cost),
            cost_relaxed_to(c_in, adder_count@, adder_cost),
            adder_structures@.len() == old(adder_structures)@.len(),
            adder_structures@.len() == adder_count@.len(),
            0 < adder_cost < COST_SENTINEL,
            max_value < adder_count@.len(),
            terms_below(c_in, terms1@, adder_cost),
            terms_below(c_in, terms2@, adder_cost),
            terms_below(c_in, terms3@, adder_cost),
            terms_below(c_in, terms4@, adder_cost),
            terms_below(c_in, terms5@, adder_cost),
            terms_below(c_in, terms6@, adder_cost),
            terms_below(c_in, terms7@, adder_cost),
            table_evolution(
                c_in,
                g_in,
                adder_count@,
                adder_structures@,
                adder_cost,
                |gg: GraphType, nn: int| lf7_record_ok(terms1@, terms2@, terms3@, terms4@, terms5@, terms6@, terms7@, max_value, gg, nn),
            ),
            i1 < terms1@.len(),
            term1 == terms1@[i1 as int],
            i2 < terms2@.len(),
            term2 == terms2@[i2 as int],
            i3 < terms3@.len(),
            term3 == terms3@[i3 as int],
            i4 < terms4@.len(),
            term4 == terms4@[i4 as int],
            i5 < terms5@.len(),
            term5 == terms5@[i5 as int],
            i6 < terms6@.len(),
            term6 == terms6@[i6 as int],
            !(term1 % 2 == 0 && term2 % 2 == 0),
            !(term2 % 2 == 0 && term3 % 2 == 0),
            !((term2 % 2 == 0 || term3 % 2 == 0) && term4 % 2 == 0),
            !(term4 % 2 == 0 && term5 % 2 == 0),
            !((term4 % 2 == 0 || term5 % 2 == 0) && term6 % 2 == 0),
            i7 <= terms7@.len(),
            forall|j1: int, j2: int, j3: int, j4: int, j5: int, j6: int, j7: int|
                #![trigger terms1@[j1], terms2@[j2], terms3@[j3], terms4@[j4], terms5@[j5], terms6@[j6], terms7@[j7]]
                0 <= j1 < i1 && 0 <= j2 < terms2@.len() && 0 <= j3 < terms3@.len() && 0 <= j4 < terms4@.len() && 0 <= j5 < terms5@.len() && 0 <= j6 < terms6@.len() && 0 <= j7 < terms7@.len() ==> lf7_tuple_done(
                adder_count@,
                terms1@[j1], terms2@[j2], terms3@[j3], terms4@[j4], terms5@[j5], terms6@[j6], terms7@[j7],
                adder_cost,
                max_value,
            ),
            forall|j1: int, j2: int, j3: int, j4: int, j5: int, j6: int, j7: int|
                #![trigger terms1@[j1], terms2@[j2], terms3@[j3], terms4@[j4], terms5@[j5], terms6@[j6], terms7@[j7]]
                0 <= j1 < i1 && 0 <= j2 < terms2@.len() && 0 <= j3 < terms3@.len() && 0 <= j4 < terms4@.len() && 0 <= j5 < terms5@.len() && 0 <= j6 < terms6@.len() && 0 <= j7 < terms7@.len() ==> lf7_tuple_recorded(
                c_in,
                adder_structures@,
                terms1@[j1], terms2@[j2], terms3@[j3], terms4@[j4], terms5@[j5], terms6@[j6], terms7@[j7],
                adder_cost,
                max_value,
            ),
            forall|j2: int, j3: int, j4: int, j5: int, j6: int, j7: int|
                #![trigger terms2@[j2], terms3@[j3], terms4@[j4], terms5@[j5], terms6@[j6], terms7@[j7]]
                0 <= j2 < i2 && 0 <= j3 < terms3@.len() && 0 <= j4 < terms4@.len() && 0 <= j5 < terms5@.len() && 0 <= j6 < terms6@.len() && 0 <= j7 < terms7@.len() ==> lf7_tuple_done(
                adder_count@,
                term1, terms2@[j2], terms3@[j3], terms4@[j4], terms5@[j5], terms6@[j6], terms7@[j7],
                adder_cost,
                max_value,
            ),
            forall|j2: int, j3: int, j4: int, j5: int, j6: int, j7: int|
                #![trigger terms2@[j2], terms3@[j3], terms4@[j4], terms5@[j5], terms6@[j6], terms7@[j7]]
                0 <= j2 < i2 && 0 <= j3 < terms3@.len() && 0 <= j4 < terms4@.len() && 0 <= j5 < terms5@.len() && 0 <= j6 < terms6@.len() && 0 <= j7 < terms7@.len() ==> lf7_tuple_recorded(
                c_in,
                adder_structures@,
                term1, terms2@[j2], terms3@[j3], terms4@[j4], terms5@[j5], terms6@[j6], terms7@[j7],
                adder_cost,
                max_value,
            ),
            forall|j3: int, j4: int, j5: int, j6: int, j7: int|
                #![trigger terms3@[j3], terms4@[j4], terms5@[j5], terms6@[j6], terms7@[j7]]
                0 <= j3 < i3 && 0 <= j4 < terms4@.len() && 0 <= j5 < terms5@.len() && 0 <= j6 < terms6@.len() && 0 <= j7 < terms7@.len() ==> lf7_tuple_done(
                adder_count@,
                term1, term2, terms3@[j3], terms4@[j4], terms5@[j5], terms6@[j6], terms7@[j7],
                adder_cost,
                max_value,
            ),
            forall|j3: int, j4: int, j5: int, j6: int, j7: int|
                #![trigger terms3@[j3], terms4@[j4], terms5@[j5], terms6@[j6], terms7@[j7]]
                0 <= j3 < i3 && 0 <= j4 < terms4@.len() && 0 <= j5 < terms5@.len() && 0 <= j6 < terms6@.len() && 0 <= j7 < terms7@.len() ==> lf7_tuple_recorded(
                c_in,
                adder_structures@,
                term1, term2, terms3@[j3], terms4@[j4], terms5@[j5], terms6@[j6], terms7@[j7],
                adder_cost,
                max_value,
            ),
            forall|j4: int, j5: int, j6: int, j7: int|
                #![trigger terms4@[j4], terms5@[j5], terms6@[j6], terms7@[j7]]
                0 <= j4 < i4 && 0 <= j5 < terms5@.len() && 0 <= j6 < terms6@.len() && 0 <= j7 < terms7@.len() ==> lf7_tuple_done(
                adder_count@,
                term1, term2, term3, terms4@[j4], terms5@[j5], terms6@[j6], terms7@[j7],
                adder_cost,
                max_value,
            ),
            forall|j4: int, j5: int, j6: int, j7: int|
                #![trigger terms4@[j4], terms5@[j5], terms6@[j6], terms7@[j7]]
                0 <= j4 < i4 && 0 <= j5 < terms5@.len() && 0 <= j6 < terms6@.len() && 0 <= j7 < terms7@.len() ==> lf7_tuple_recorded(
                c_in,
                adder_structures@,
                term1, term2, term3, terms4@[j4], terms5@[j5], terms6@[j6], terms7@[j7],
                adder_cost,
                max_value,
            ),
            forall|j5: int, j6: int, j7: int|
                #![trigger terms5@[j5], terms6@[j6], terms7@[j7]]
                0 <= j5 < i5 && 0 <= j6 < terms6@.len() && 0 <= j7 < terms7@.len() ==> lf7_tuple_done(
                adder_count@,
                term1, term2, term3, term4, terms5@[j5], terms6@[j6], terms7@[j7],
                adder_cost,
                max_value,
            ),
            forall|j5: int, j6: int, j7: int|
                #![trigger terms5@[j5], terms6@[j6], terms7@[j7]]
                0 <= j5 < i5 && 0 <= j6 < terms6@.len() && 0 <= j7 < terms7@.len() ==> lf7_tuple_recorded(
                c_in,
                adder_structures@,
                term1, term2, term3, term4, terms5@[j5], terms6@[j6], terms7@[j7],
                adder_cost,
                max_value,
            ),
            forall|j6: int, j7: int|
                #![trigger terms6@[j6], terms7@[j7]]
                0 <= j6 < i6 && 0 <= j7 < terms7@.len() ==> lf7_tuple_done(
                adder_count@,
                term1, term2, term3, term4, term5, terms6@[j6], terms7@[j7],
                adder_cost,
                max_value,
            ),
            forall|j6: int, j7: int|
                #![trigger terms6@[j6], terms7@[j7]]
                0 <= j6 < i6 && 0 <= j7 < terms7@.len() ==> lf7_tuple_recorded(
                c_in,
                adder_structures@,
                term1, term2, term3, term4, term5, terms6@[j6], terms7@[j7],
                adder_cost,
                max_value,
            ),
            forall|j7: int|
                #![trigger terms7@[j7]]
                0 <= j7 < i7 ==> lf7_tuple_done(
                adder_count@,
                term1, term2, term3, term4, term5, term6, terms7@[j7],
                adder_cost,
                max_value,
            ),
            forall|j7: int|
                #![trigger terms7@[j7]]
                0 <= j7 < i7 ==> lf7_tuple_recorded(
                c_in,
                adder_structures@,
                term1, term2, term3, term4, term5, term6, terms7@[j7],
                adder_cost,
                max_value,
            ),
            decreases terms7@.len() - i7,
        {
            let term7 = terms7[i7];
            if !(term6 % 2 == 0 && term7 % 2 == 0) {
        let ghost cB = adder_count@;
        let ghost gB = adder_structures@;
        proof {
            leapfrog7_leaf_facts(
                c_in,
                adder_count@,
                terms1@,
                terms2@,
                terms3@,
                terms4@,
                terms5@,
                terms6@,
                terms7@,
                i1 as int,
                i2 as int,
                i3 as int,
                i4 as int,
                i5 as int,
                i6 as int,
                i7 as int,
                adder_cost,
            );
            assert forall|gr: GraphType, nn: int|
                lf7_tuple_record(term1, term2, term3, term4, term5, term6, term7, max_value, gr, nn) implies lf7_record_ok(
                terms1@, terms2@, terms3@, terms4@, terms5@, terms6@, terms7@,
                max_value,
                gr,
                nn,
            ) by {
                assert(terms1@[i1 as int] == term1);
                assert(terms2@[i2 as int] == term2);
                assert(terms3@[i3 as int] == term3);
                assert(terms4@[i4 as int] == term4);
                assert(terms5@[i5 as int] == term5);
                assert(terms6@[i6 as int] == term6);
                assert(terms7@[i7 as int] == term7);
                assert(lf7_tuple_record(terms1@[i1 as int], terms2@[i2 as int], terms3@[i3 as int], terms4@[i4 as int], terms5@[i5 as int], terms6@[i6 as int], terms7@[i7 as int], max_value, gr, nn));
            }
        }
        lf7_relax_tuple(
            adder_count,
            adder_structures,
            term1, term2, term3, term4, term5, term6, term7,
            adder_cost,
            max_value,
            Ghost(|gg: GraphType, nn: int| lf7_record_ok(terms1@, terms2@, terms3@, terms4@, terms5@, terms6@, terms7@, max_value, gg, nn)),
        );
        proof {
            lemma_cost_relaxed_trans(c_in, cB, adder_count@, adder_cost);
            lemma_evolution_trans(
                c_in,
                g_in,
                cB,
                gB,
                adder_count@,
                adder_structures@,
                adder_cost,
                |gg: GraphType, nn: int| lf7_record_ok(terms1@, terms2@, terms3@, terms4@, terms5@, terms6@, terms7@, max_value, gg, nn),
            );
            lemma_lf7_recorded_anchor(
                c_in,
                cB,
                adder_structures@,
                term1, term2, term3, term4, term5, term6, term7,
                adder_cost,
                max_value,
            );
            assert forall|j1: int, j2: int, j3: int, j4: int, j5: int, j6: int, j7: int|
                #![trigger terms1@[j1], terms2@[j2], terms3@[j3], terms4@[j4], terms5@[j5], terms6@[j6], terms7@[j7]]
                0 <= j1 < i1 && 0 <= j2 < terms2@.len() && 0 <= j3 < terms3@.len() && 0 <= j4 < terms4@.len() && 0 <= j5 < terms5@.len() && 0 <= j6 < terms6@.len() && 0 <= j7 < terms7@.len() implies lf7_tuple_done(
                adder_count@,
                terms1@[j1], terms2@[j2], terms3@[j3], terms4@[j4], terms5@[j5], terms6@[j6], terms7@[j7],
                adder_cost,
                max_value,
            ) by {
                lemma_lf7_done_relax(
                    cB,
                    adder_count@,
                    terms1@[j1], terms2@[j2], terms3@[j3], terms4@[j4], terms5@[j5], terms6@[j6], terms7@[j7],
                    adder_cost,
                    max_value,
                );
            }
            assert forall|j1: int, j2: int, j3: int, j4: int, j5: int, j6: int, j7: int|
                #![trigger terms1@[j1], terms2@[j2], terms3@[j3], terms4@[j4], terms5@[j5], terms6@[j6], terms7@[j7]]
                0 <= j1 < i1 && 0 <= j2 < terms2@.len() && 0 <= j3 < terms3@.len() && 0 <= j4 < terms4@.len() && 0 <= j5 < terms5@.len() && 0 <= j6 < terms6@.len() && 0 <= j7 < terms7@.len() implies lf7_tuple_recorded(
                c_in,
                adder_structures@,
                terms1@[j1], terms2@[j2], terms3@[j3], terms4@[j4], terms5@[j5], terms6@[j6], terms7@[j7],
                adder_cost,
                max_value,
            ) by {
                lemma_lf7_recorded_prefix(
                    c_in,
                    gB,
                    adder_structures@,
                    terms1@[j1], terms2@[j2], terms3@[j3], terms4@[j4], terms5@[j5], terms6@[j6], terms7@[j7],
                    adder_cost,
                    max_value,
                );
            }
            assert forall|j2: int, j3: int, j4: int, j5: int, j6: int, j7: int|
                #![trigger terms2@[j2], terms3@[j3], terms4@[j4], terms5@[j5], terms6@[j6], terms7@[j7]]
                0 <= j2 < i2 && 0 <= j3 < terms3@.len() && 0 <= j4 < terms4@.len() && 0 <= j5 < terms5@.len() && 0 <= j6 < terms6@.len() && 0 <= j7 < terms7@.len() implies lf7_tuple_done(
                adder_count@,
                term1, terms2@[j2], terms3@[j3], terms4@[j4], terms5@[j5], terms6@[j6], terms7@[j7],
                adder_cost,
                max_value,
            ) by {
                lemma_lf7_done_relax(
                    cB,
                    adder_count@,
                    term1, terms2@[j2], terms3@[j3], terms4@[j4], terms5@[j5], terms6@[j6], terms7@[j7],
                    adder_cost,
                    max_value,
                );
            }
            assert forall|j2: int, j3: int, j4: int, j5: int, j6: int, j7: int|
                #![trigger terms2@[j2], terms3@[j3], terms4@[j4], terms5@[j5], terms6@[j6], terms7@[j7]]
                0 <= j2 < i2 && 0 <= j3 < terms3@.len() && 0 <= j4 < terms4@.len() && 0 <= j5 < terms5@.len() && 0 <= j6 < terms6@.len() && 0 <= j7 < terms7@.len() implies lf7_tuple_recorded(
                c_in,
                adder_structures@,
                term1, terms2@[j2], terms3@[j3], terms4@[j4], terms5@[j5], terms6@[j6], terms7@[j7],
                adder_cost,
                max_value,
            ) by {
                lemma_lf7_recorded_prefix(
                    c_in,
                    gB,
                    adder_structures@,
                    term1, terms2@[j2], terms3@[j3], terms4@[j4], terms5@[j5], terms6@[j6], terms7@[j7],
                    adder_cost,
                    max_value,
                );
            }
            assert forall|j3: int, j4: int, j5: int, j6: int, j7: int|
                #![trigger terms3@[j3], terms4@[j4], terms5@[j5], terms6@[j6], terms7@[j7]]
                0 <= j3 < i3 && 0 <= j4 < terms4@.len() && 0 <= j5 < terms5@.len() && 0 <= j6 < terms6@.len() && 0 <= j7 < terms7@.len() implies lf7_tuple_done(
                adder_count@,
                term1, term2, terms3@[j3], terms4@[j4], terms5@[j5], terms6@[j6], terms7@[j7],
                adder_cost,
                max_value,
            ) by {
                lemma_lf7_done_relax(
                    cB,
                    adder_count@,
                    term1, term2, terms3@[j3], terms4@[j4], terms5@[j5], terms6@[j6], terms7@[j7],
                    adder_cost,
                    max_value,
                );
            }
            assert forall|j3: int, j4: int, j5: int, j6: int, j7: int|
                #![trigger terms3@[j3], terms4@[j4], terms5@[j5], terms6@[j6], terms7@[j7]]
                0 <= j3 < i3 && 0 <= j4 < terms4@.len() && 0 <= j5 < terms5@.len() && 0 <= j6 < terms6@.len() && 0 <= j7 < terms7@.len() implies lf7_tuple_recorded(
                c_in,
                adder_structures@,
                term1, term2, terms3@[j3], terms4@[j4], terms5@[j5], terms6@[j6], terms7@[j7],
                adder_cost,
                max_value,
            ) by {
                lemma_lf7_recorded_prefix(
                    c_in,
                    gB,
                    adder_structures@,
                    term1, term2, terms3@[j3], terms4@[j4], terms5@[j5], terms6@[j6], terms7@[j7],
                    adder_cost,
                    max_value,
                );
            }
            assert forall|j4: int, j5: int, j6: int, j7: int|
                #![trigger terms4@[j4], terms5@[j5], terms6@[j6], terms7@[j7]]
                0 <= j4 < i4 && 0 <= j5 < terms5@.len() && 0 <= j6 < terms6@.len() && 0 <= j7 < terms7@.len() implies lf7_tuple_done(
                adder_count@,
                term1, term2, term3, terms4@[j4], terms5@[j5], terms6@[j6], terms7@[j7],
                adder_cost,
                max_value,
            ) by {
                lemma_lf7_done_relax(
                    cB,
                    adder_count@,
                    term1, term2, term3, terms4@[j4], terms5@[j5], terms6@[j6], terms7@[j7],
                    adder_cost,
                    max_value,
                );
            }
            assert forall|j4: int, j5: int, j6: int, j7: int|
                #![trigger terms4@[j4], terms5@[j5], terms6@[j6], terms7@[j7]]
                0 <= j4 < i4 && 0 <= j5 < terms5@.len() && 0 <= j6 < terms6@.len() && 0 <= j7 < terms7@.len() implies lf7_tuple_recorded(
                c_in,
                adder_structures@,
                term1, term2, term3, terms4@[j4], terms5@[j5], terms6@[j6], terms7@[j7],
                adder_cost,
                max_value,
            ) by {
                lemma_lf7_recorded_prefix(
                    c_in,
                    gB,
                    adder_structures@,
                    term1, term2, term3, terms4@[j4], terms5@[j5], terms6@[j6], terms7@[j7],
                    adder_cost,
                    max_value,
                );
            }
            assert forall|j5: int, j6: int, j7: int|
                #![trigger terms5@[j5], terms6@[j6], terms7@[j7]]
                0 <= j5 < i5 && 0 <= j6 < terms6@.len() && 0 <= j7 < terms7@.len() implies lf7_tuple_done(
                adder_count@,
                term1, term2, term3, term4, terms5@[j5], terms6@[j6], terms7@[j7],
                adder_cost,
                max_value,
            ) by {
                lemma_lf7_done_relax(
                    cB,
                    adder_count@,
                    term1, term2, term3, term4, terms5@[j5], terms6@[j6], terms7@[j7],
                    adder_cost,
                    max_value,
                );
            }
            assert forall|j5: int, j6: int, j7: int|
                #![trigger terms5@[j5], terms6@[j6], terms7@[j7]]
                0 <= j5 < i5 && 0 <= j6 < terms6@.len() && 0 <= j7 < terms7@.len() implies lf7_tuple_recorded(
                c_in,
                adder_structures@,
                term1, term2, term3, term4, terms5@[j5], terms6@[j6], terms7@[j7],
                adder_cost,
                max_value,
            ) by {
                lemma_lf7_recorded_prefix(
                    c_in,
                    gB,
                    adder_structures@,
                    term1, term2, term3, term4, terms5@[j5], terms6@[j6], terms7@[j7],
                    adder_cost,
                    max_value,
                );
            }
            assert forall|j6: int, j7: int|
                #![trigger terms6@[j6], terms7@[j7]]
                0 <= j6 < i6 && 0 <= j7 < terms7@.len() implies lf7_tuple_done(
                adder_count@,
                term1, term2, term3, term4, term5, terms6@[j6], terms7@[j7],
                adder_cost,
                max_value,
            ) by {
                lemma_lf7_done_relax(
                    cB,
                    adder_count@,
                    term1, term2, term3, term4, term5, terms6@[j6], terms7@[j7],
                    adder_cost,
                    max_value,
                );
            }
            assert forall|j6: int, j7: int|
                #![trigger terms6@[j6], terms7@[j7]]
                0 <= j6 < i6 && 0 <= j7 < terms7@.len() implies lf7_tuple_recorded(
                c_in,
                adder_structures@,
                term1, term2, term3, term4, term5, terms6@[j6], terms7@[j7],
                adder_cost,
                max_value,
            ) by {
                lemma_lf7_recorded_prefix(
                    c_in,
                    gB,
                    adder_structures@,
                    term1, term2, term3, term4, term5, terms6@[j6], terms7@[j7],
                    adder_cost,
                    max_value,
                );
            }
            assert forall|j7: int|
                #![trigger terms7@[j7]]
                0 <= j7 < i7 implies lf7_tuple_done(
                adder_count@,
                term1, term2, term3, term4, term5, term6, terms7@[j7],
                adder_cost,
                max_value,
            ) by {
                lemma_lf7_done_relax(
                    cB,
                    adder_count@,
                    term1, term2, term3, term4, term5, term6, terms7@[j7],
                    adder_cost,
                    max_value,
                );
            }
            assert forall|j7: int|
                #![trigger terms7@[j7]]
                0 <= j7 < i7 implies lf7_tuple_recorded(
                c_in,
                adder_structures@,
                term1, term2, term3, term4, term5, term6, terms7@[j7],
                adder_cost,
                max_value,
            ) by {
                lemma_lf7_recorded_prefix(
                    c_in,
                    gB,
                    adder_structures@,
                    term1, term2, term3, term4, term5, term6, terms7@[j7],
                    adder_cost,
                    max_value,
                );
            }
        }

            }

            i7 = i7 + 1;
        }

            }

            i6 = i6 + 1;
        }

            }

            i5 = i5 + 1;
        }

            }

            i4 = i4 + 1;
        }

            }

            i3 = i3 + 1;
        }

            }

            i2 = i2 + 1;
        }

            i1 = i1 + 1;
        }
}

/// Extract all indices holding a given cost, in ascending order.
pub fn extract_cost_values(adder_count: &Vec<u8>, cost: u8) -> (r: Vec<usize>)
    ensures
        forall|i: int|
            0 <= i < r@.len() ==> #[trigger] r@[i] < adder_count@.len()
                && adder_count@[r@[i] as int] == cost,
        forall|n: usize|
            n < adder_count@.len() && adder_count@[n as int] == cost ==> r@.contains(n),
        forall|i: int, j: int| 0 <= i < j < r@.len() ==> r@[i] < r@[j],
{
    let mut r: Vec<usize> = Vec::new();
    let mut idx: usize = 0;
    while idx < adder_count.len()
        invariant
            idx <= adder_count@.len(),
            forall|i: int|
                0 <= i < r@.len() ==> #[trigger] r@[i] < idx && adder_count@[r@[i] as int] == cost,
            forall|n: usize|
                n < idx && adder_count@[n as int] == cost ==> r@.contains(n),
            forall|i: int, j: int| 0 <= i < j < r@.len() ==> r@[i] < r@[j],
        decreases adder_count@.len() - idx,
    {
        let ghost r0 = r@;
        if adder_count[idx] == cost {
            r.push(idx);
        }
        proof {
            assert forall|n: usize|
                n < idx + 1 && adder_count@[n as int] == cost implies r@.contains(n) by {
                if n < idx {
                    let i = choose|i: int| 0 <= i < r0.len() && r0[i] == n;
                    assert(r@[i] == n);
                } else {
                    assert(r@[r@.len() - 1] == n);
                }
            }
        }
        idx = idx + 1;
    }
    r
}

/// List every left shift of every value that stays within `max_value`,
/// outer over the values, inner over ascending shift amounts.
/// The number of left shifts of `v` that stay within `mv`: the length of
/// the chain v, 2v, 4v, ... truncated at the bound.
pub open spec fn num_shifts(v: int, mv: int) -> nat
    decreases (if v <= mv { mv + 1 - v } else { 0 }),
{
    if v < 1 || v > mv {
        0
    } else {
        1 + num_shifts(2 * v, mv)
    }
}

/// The ascending chain of shifts of `v` within `mv`.
pub open spec fn shift_chain(v: int, mv: int) -> Seq<usize> {
    Seq::new(num_shifts(v, mv), |s: int| (v * pow2(s as nat)) as usize)
}

/// A shift stays within the bound exactly when it is shorter than the chain.
pub proof fn lemma_num_shifts(v: int, mv: int, s: nat)
    requires
        1 <= v,
    ensures
        v * pow2(s) <= mv <==> s < num_shifts(v, mv),
    decreases s,
{
    vstd::arithmetic::power2::lemma2_to64();
    if v > mv {
        vstd::arithmetic::power2::lemma_pow2_pos(s);
        assert(v * pow2(s) >= v) by (nonlinear_arith)
            requires
                v >= 1,
                pow2(s) >= 1,
        ;
    } else {
        if s == 0 {
        } else {
            lemma_num_shifts(2 * v, mv, (s - 1) as nat);
            vstd::arithmetic::power2::lemma_pow2_unfold(s);
            assert(v * pow2(s) == (2 * v) * pow2((s - 1) as nat)) by (nonlinear_arith)
                requires
                    pow2(s) == 2 * pow2((s - 1) as nat),
            ;
        }
    }
}

/// The ordered concatenation of the shift chains of a list of values.
pub open spec fn closure_from(values: Seq<usize>, i: int, mv: int) -> Seq<usize>
    decreases values.len() - i,
{
    if 0 <= i < values.len() {
        shift_chain(values[i] as int, mv) + closure_from(values, i + 1, mv)
    } else {
        Seq::empty()
    }
}

/// A pushed sequence keeps containing what it contained.
proof fn lemma_contains_push(s: Seq<usize>, x: usize, y: usize)
    requires
        s.contains(y),
    ensures
        s.push(x).contains(y),
{
    let i = choose|i: int| 0 <= i < s.len() && s[i] == y;
    assert(s.push(x)[i] == y);
}

pub fn create_shifted_variants(values: &Vec<usize>, max_value: usize) -> (r: Vec<usize>)
    requires
        forall|i: int| 0 <= i < values@.len() ==> 1 <= #[trigger] values@[i],
        max_value <= usize::MAX / 2,
    ensures
        forall|i: int|
            0 <= i < r@.len() ==> {
                &&& 1 <= #[trigger] r@[i] <= max_value
                &&& exists|j: int|
                    0 <= j < values@.len() && odd_kernel(r@[i] as nat) == odd_kernel(
                        #[trigger] values@[j] as nat,
                    )
            },
        forall|j: int, s: nat|
            0 <= j < values@.len() && #[trigger] (values@[j] * pow2(s)) <= max_value
                ==> r@.contains((values@[j] * pow2(s)) as usize),
        // the result is exactly the concatenation of the per-value shift
        // chains, outer over the values, inner over ascending shifts
        r@ == closure_from(values@, 0, max_value as int),
{
    let mut r: Vec<usize> = Vec::new();
    let mut vi: usize = 0;
    while vi < values.len()
        invariant
            vi <= values@.len(),
            max_value <= usize::MAX / 2,
            forall|i: int| 0 <= i < values@.len() ==> 1 <= #[trigger] values@[i],
            forall|i: int|
                0 <= i < r@.len() ==> {
                    &&& 1 <= #[trigger] r@[i] <= max_value
                    &&& exists|j: int|
                        0 <= j < values@.len() && odd_kernel(r@[i] as nat) == odd_kernel(
                            #[trigger] values@[j] as nat,
                        )
                },
            forall|j: int, s: nat|
                0 <= j < vi && #[trigger] (values@[j] * pow2(s)) <= max_value ==> r@.contains(
                    (values@[j] * pow2(s)) as usize,
                ),
            r@ + closure_from(values@, vi as int, max_value as int) == closure_from(
                values@,
                0,
                max_value as int,
            ),
        decreases values@.len() - vi,
    {
        let v = values[vi];
        let mut cur: usize = v;
        let ghost mut sh: nat = 0;
        let ghost r_at_value = r@;
        proof {
            vstd::arithmetic::power2::lemma2_to64();
            assert(shift_chain(v as int, max_value as int).take(0) =~= Seq::<usize>::empty());
            assert(r@ =~= r_at_value + shift_chain(v as int, max_value as int).take(0));
        }
        while cur <= max_value
            invariant
                1 <= v,
                vi < values@.len(),
                values@[vi as int] == v,
                max_value <= usize::MAX / 2,
                1 <= cur,
                odd_kernel(cur as nat) == odd_kernel(v as nat),
                cur as nat == v as nat * pow2(sh),
                sh <= num_shifts(v as int, max_value as int),
                r@ == r_at_value + shift_chain(v as int, max_value as int).take(sh as int),
                r_at_value + closure_from(values@, vi as int, max_value as int) == closure_from(
                    values@,
                    0,
                    max_value as int,
                ),
                forall|s: nat| s < sh ==> v as nat * pow2(s) <= max_value,
                forall|s: nat|
                    s < sh ==> r@.contains(((v as nat * #[trigger] pow2(s))) as usize),
                forall|i: int|
                    0 <= i < r@.len() ==> {
                        &&& 1 <= #[trigger] r@[i] <= max_value
                        &&& exists|j: int|
                            0 <= j < values@.len() && odd_kernel(r@[i] as nat) == odd_kernel(
                                #[trigger] values@[j] as nat,
                            )
                    },
                forall|j: int, s: nat|
                    0 <= j < vi && #[trigger] (values@[j] * pow2(s)) <= max_value ==> r@.contains(
                        (values@[j] * pow2(s)) as usize,
                    ),
            decreases 2 * max_value - cur,
        {
            let ghost r0 = r@;
            r.push(cur);
            proof {
                crate::num::lemma_odd_kernel_double(cur as nat);
                // earlier members stay present
                assert forall|j: int, s: nat|
                    0 <= j < vi && #[trigger] (values@[j] * pow2(s)) <= max_value implies r@
                    .contains((values@[j] * pow2(s)) as usize) by {
                    lemma_contains_push(r0, cur, (values@[j] * pow2(s)) as usize);
                }
                assert forall|s: nat| s < sh + 1 implies r@.contains(
                    ((v as nat * #[trigger] pow2(s))) as usize,
                ) by {
                    if s < sh {
                        lemma_contains_push(r0, cur, (v as nat * pow2(s)) as usize);
                    } else {
                        assert(r@[r@.len() - 1] == cur);
                    }
                }
                vstd::arithmetic::power2::lemma_pow2_adds(sh, 1);
                vstd::arithmetic::power2::lemma2_to64();
                assert((cur * 2) as nat == v as nat * pow2(sh + 1)) by (nonlinear_arith)
                    requires
                        cur as nat == v as nat * pow2(sh),
                        pow2(sh + 1) == pow2(sh) * 2,
                ;
                lemma_num_shifts(v as int, max_value as int, sh);
                assert(shift_chain(v as int, max_value as int)[sh as int] == cur);
                assert(r@ =~= r_at_value + shift_chain(v as int, max_value as int).take(
                    sh as int + 1,
                ));
                sh = sh + 1;
            }
            cur = cur * 2;
        }
        proof {
            // every shift that stays within the bound was taken
            assert forall|s: nat| v as nat * pow2(s) <= max_value implies s < sh by {
                if s >= sh {
                    vstd::arithmetic::power2::lemma_pow2_adds(sh, (s - sh) as nat);
                    vstd::arithmetic::power2::lemma_pow2_pos((s - sh) as nat);
                    assert(v as nat * pow2(s) >= cur as nat) by (nonlinear_arith)
                        requires
                            pow2(s) == pow2(sh) * pow2((s - sh) as nat),
                            cur as nat == v as nat * pow2(sh),
                            pow2((s - sh) as nat) >= 1,
                            cur >= 1,
                    ;
                }
            }
            // the whole chain of this value was emitted, in order
            lemma_num_shifts(v as int, max_value as int, sh);
            assert(sh == num_shifts(v as int, max_value as int));
            assert(shift_chain(v as int, max_value as int).take(sh as int) =~= shift_chain(
                v as int,
                max_value as int,
            ));
            assert(closure_from(values@, vi as int, max_value as int) == shift_chain(
                v as int,
                max_value as int,
            ) + closure_from(values@, vi as int + 1, max_value as int));
            assert(r@ + closure_from(values@, vi as int + 1, max_value as int) =~= closure_from(
                values@,
                0,
                max_value as int,
            ));
        }
        vi = vi + 1;
    }
    r
}

} // verus!
