//! The layer driver: the fixed recipe of combiner invocations that layer k
//! runs over the frontiers of layers below it, and the search entry point.

use vstd::prelude::*;
use vstd::arithmetic::power2::pow2;
use crate::graph::{GraphType, dist};
use crate::num::odd_kernel;
use crate::search::{
    COST_SENTINEL, TERM_LIMIT, addsub_combinations, addsub_pair_done, cascade_combinations,
    cost_relaxed_to, create_shifted_variants, extract_cost_values, leaf_below,
    leapfrog4_combinations, leapfrog5_combinations, leapfrog7_combinations,
    addsub_pair_recorded, adder_canon, cascade_canon, cascade_pair_recorded, cost_le,
    cost_above, graphs_prefix, lemma_graph_contains_prefix, sub_canon,
    lemma_cascade_recorded_anchor, lemma_cost_le_trans,
    lemma_graphs_prefix_refl,
    lemma_cost_relaxed_trans, lemma_graphs_prefix_trans, lemma_pair_done_le,
    lemma_relaxed_le, lemma_table_wf_weaken,
    lemma_above_step, lemma_terms_still_below, table_wf, terms_below,
};

verus! {

/// Every element of a list is odd.
pub open spec fn all_odd(terms: Seq<usize>) -> bool {
    forall|i: int| 0 <= i < terms.len() ==> #[trigger] terms[i] % 2 == 1
}

/// Terms acceptable at one layer stay acceptable at every later layer.
proof fn lemma_terms_carry(c0: Seq<u8>, c1: Seq<u8>, terms: Seq<usize>, k: u8, k1: u8)
    requires
        terms_below(c0, terms, k),
        cost_relaxed_to(c0, c1, k),
        k <= k1,
    ensures
        terms_below(c1, terms, k1),
{
    assert forall|i: int|
        0 <= i < terms.len() implies leaf_below(c1, #[trigger] terms[i], k1) && terms[i]
        <= TERM_LIMIT by {
        let kv = odd_kernel(terms[i] as nat) as int;
        assert(leaf_below(c0, terms[i], k));
        assert(c1[kv] == c0[kv] || (c0[kv] >= k && c1[kv] == k));
    }
}

/// A shift closure is acceptable wherever its source list is, since shifting
/// does not change the odd kernel.
proof fn lemma_shifted_below(
    c: Seq<u8>,
    values: Seq<usize>,
    shifted: Seq<usize>,
    layer: u8,
    bound: usize,
)
    requires
        terms_below(c, values, layer),
        bound <= TERM_LIMIT,
        forall|i: int|
            0 <= i < shifted.len() ==> {
                &&& 1 <= #[trigger] shifted[i] <= bound
                &&& exists|j: int|
                    0 <= j < values.len() && odd_kernel(shifted[i] as nat) == odd_kernel(
                        #[trigger] values[j] as nat,
                    )
            },
    ensures
        terms_below(c, shifted, layer),
{
    assert forall|i: int|
        0 <= i < shifted.len() implies leaf_below(c, #[trigger] shifted[i], layer) && shifted[i]
        <= TERM_LIMIT by {
        let j = choose|j: int|
            0 <= j < values.len() && odd_kernel(shifted[i] as nat) == odd_kernel(
                #[trigger] values[j] as nat,
            );
        assert(leaf_below(c, values[j], layer));
    }
}

/// A vector of `n` copies of `v`.
fn filled_u8(n: usize, v: u8) -> (r: Vec<u8>)
    ensures
        r@.len() == n,
        forall|i: int| 0 <= i < n ==> r@[i] == v,
{
    let mut r: Vec<u8> = Vec::new();
    let mut i: usize = 0;
    while i < n
        invariant
            i <= n,
            r@.len() == i,
            forall|j: int| 0 <= j < i ==> r@[j] == v,
        decreases n - i,
    {
        r.push(v);
        i = i + 1;
    }
    r
}

/// A vector of `n` empty graph lists.
fn empty_graph_lists(n: usize) -> (r: Vec<Vec<GraphType>>)
    ensures
        r@.len() == n,
        forall|i: int| 0 <= i < n ==> r@[i]@.len() == 0,
{
    let mut r: Vec<Vec<GraphType>> = Vec::new();
    let mut i: usize = 0;
    while i < n
        invariant
            i <= n,
            r@.len() == i,
            forall|j: int| 0 <= j < i ==> r@[j]@.len() == 0,
        decreases n - i,
    {
        r.push(Vec::new());
        i = i + 1;
    }
    r
}

/// Two to the power `k`, as a machine word.
pub fn pow2_usize(k: usize) -> (r: usize)
    requires
        k <= 25,
    ensures
        r as nat == pow2(k as nat),
        1 <= r <= 0x2000000,
{
    proof {
        vstd::arithmetic::power2::lemma2_to64();
    }
    let mut r: usize = 1;
    let mut i: usize = 0;
    while i < k
        invariant
            i <= k <= 25,
            r as nat == pow2(i as nat),
            r <= 0x2000000,
        decreases k - i,
    {
        proof {
            let next = (i + 1) as nat;
            vstd::arithmetic::power2::lemma_pow2_unfold(next);
            if next < 25 {
                vstd::arithmetic::power2::lemma_pow2_strictly_increases(next, 25);
            }
            vstd::arithmetic::power2::lemma2_to64();
        }
        r = r * 2;
        i = i + 1;
    }
    proof {
        vstd::arithmetic::power2::lemma_pow2_pos(k as nat);
    }
    r
}

/// The combiner recipe of layer 1.
#[verifier::rlimit(100)]
#[verifier::spinoff_prover]
fn search_layer_one(
    adder_count: &mut Vec<u8>,
    adder_structures: &mut Vec<Vec<GraphType>>,
    cost0: &Vec<usize>,
    cost0_shifted: &Vec<usize>,
    table_max: usize,
)
    requires
        table_wf(old(adder_count)@, old(adder_structures)@, 1),
        table_max < old(adder_count)@.len(),
        terms_below(old(adder_count)@, cost0@, 1),
        terms_below(old(adder_count)@, cost0_shifted@, 1),
        all_odd(cost0@),
    ensures
        table_wf(final(adder_count)@, final(adder_structures)@, 1),
        cost_relaxed_to(old(adder_count)@, final(adder_count)@, 1),
        final(adder_structures)@.len() == old(adder_structures)@.len(),
        graphs_prefix(old(adder_structures)@, final(adder_structures)@),
        forall|i: int, j: int|
            0 <= i < cost0@.len() && 0 <= j < cost0_shifted@.len() ==> addsub_pair_done(
                final(adder_count)@,
                #[trigger] cost0@[i],
                #[trigger] cost0_shifted@[j],
                1,
                table_max,
            ),
        forall|i: int, j: int|
            0 <= i < cost0@.len() && 0 <= j < cost0_shifted@.len() ==> addsub_pair_recorded(
                old(adder_count)@,
                final(adder_structures)@,
                #[trigger] cost0@[i],
                #[trigger] cost0_shifted@[j],
                1,
                table_max,
            ),
{
    let ghost c_in = old(adder_count)@;
    let ghost cprev0 = adder_count@;
    let ghost gprev0 = adder_structures@;
    proof {
        lemma_terms_still_below(c_in, adder_count@, cost0@, 1);
        lemma_terms_still_below(c_in, adder_count@, cost0_shifted@, 1);
    }
    addsub_combinations(adder_count, adder_structures, cost0, cost0_shifted, 1, table_max);
    proof {
        lemma_cost_relaxed_trans(c_in, cprev0, adder_count@, 1);
    }
    proof {
        // the graph lists only ever grow across the layer
        assert(graphs_prefix(gprev0, adder_structures@));
    }
}

/// The combiner recipe of layer 2.
#[verifier::rlimit(100)]
#[verifier::spinoff_prover]
fn search_layer_two(
    adder_count: &mut Vec<u8>,
    adder_structures: &mut Vec<Vec<GraphType>>,
    cost0: &Vec<usize>,
    cost1: &Vec<usize>,
    cost0_shifted: &Vec<usize>,
    cost1_shifted: &Vec<usize>,
    table_max: usize,
)
    requires
        table_wf(old(adder_count)@, old(adder_structures)@, 2),
        table_max < old(adder_count)@.len(),
        terms_below(old(adder_count)@, cost0@, 2),
        terms_below(old(adder_count)@, cost1@, 2),
        terms_below(old(adder_count)@, cost0_shifted@, 2),
        terms_below(old(adder_count)@, cost1_shifted@, 2),
        all_odd(cost0@),
        all_odd(cost1@),
    ensures
        table_wf(final(adder_count)@, final(adder_structures)@, 2),
        cost_relaxed_to(old(adder_count)@, final(adder_count)@, 2),
        final(adder_structures)@.len() == old(adder_structures)@.len(),
        graphs_prefix(old(adder_structures)@, final(adder_structures)@),
        forall|i: int, j: int|
            0 <= i < cost1@.len() && 0 <= j < cost1@.len() && !(cost1@[j] < cost1@[i])
                && cost1@[i] * cost1@[j] <= table_max ==> final(adder_count)@[(
            #[trigger] cost1@[i] * #[trigger] cost1@[j]) as int] <= 2,
        forall|i: int, j: int|
            0 <= i < cost1@.len() && 0 <= j < cost1@.len() && !(cost1@[j] < cost1@[i])
                ==> cascade_pair_recorded(
                old(adder_count)@,
                final(adder_structures)@,
                #[trigger] cost1@[i],
                #[trigger] cost1@[j],
                2,
                table_max,
            ),
{
    let ghost c_in = old(adder_count)@;
    let ghost cprev0 = adder_count@;
    let ghost gprev0 = adder_structures@;
    proof {
        lemma_terms_still_below(c_in, adder_count@, cost0_shifted@, 2);
        lemma_terms_still_below(c_in, adder_count@, cost1@, 2);
    }
    addsub_combinations(adder_count, adder_structures, cost1, cost0_shifted, 2, table_max);
    proof {
        lemma_cost_relaxed_trans(c_in, cprev0, adder_count@, 2);
    }
    let ghost cprev1 = adder_count@;
    let ghost gprev1 = adder_structures@;
    proof {
        lemma_terms_still_below(c_in, adder_count@, cost0@, 2);
        lemma_terms_still_below(c_in, adder_count@, cost1_shifted@, 2);
    }
    addsub_combinations(adder_count, adder_structures, cost0, cost1_shifted, 2, table_max);
    proof {
        lemma_cost_relaxed_trans(c_in, cprev1, adder_count@, 2);
    }
    let ghost cprev2 = adder_count@;
    let ghost gprev2 = adder_structures@;
    proof {
        lemma_terms_still_below(c_in, adder_count@, cost1@, 2);
    }
    cascade_combinations(adder_count, adder_structures, cost1, cost1, 2, table_max, true);
    proof {
        lemma_cost_relaxed_trans(c_in, cprev2, adder_count@, 2);
    }
    proof {
        // the cascade call was last: convert its guard anchor to the
        // layer's entry table
        assert forall|i: int, j: int|
            0 <= i < cost1@.len() && 0 <= j < cost1@.len() && !(cost1@[j]
                < cost1@[i]) implies cascade_pair_recorded(
            c_in,
            adder_structures@,
            #[trigger] cost1@[i],
            #[trigger] cost1@[j],
            2,
            table_max,
        ) by {
            assert(leaf_below(c_in, cost1@[i], 2) && leaf_below(c_in, cost1@[j], 2));
            lemma_cascade_recorded_anchor(
                c_in,
                cprev2,
                adder_structures@,
                cost1@[i],
                cost1@[j],
                2,
                table_max,
            );
        }
        // the graph lists only ever grow across the layer
        assert(graphs_prefix(gprev0, gprev1));
        assert(graphs_prefix(gprev1, gprev2));
        assert(graphs_prefix(gprev2, adder_structures@));
        lemma_graphs_prefix_trans(gprev0, gprev1, gprev2);
        lemma_graphs_prefix_trans(gprev0, gprev2, adder_structures@);
    }
}

/// The combiner recipe of layer 3.
#[verifier::rlimit(100)]
#[verifier::spinoff_prover]
fn search_layer_three(
    adder_count: &mut Vec<u8>,
    adder_structures: &mut Vec<Vec<GraphType>>,
    cost0: &Vec<usize>,
    cost1: &Vec<usize>,
    cost2: &Vec<usize>,
    cost0_shifted: &Vec<usize>,
    cost1_shifted: &Vec<usize>,
    cost2_shifted: &Vec<usize>,
    table_max: usize,
)
    requires
        table_wf(old(adder_count)@, old(adder_structures)@, 3),
        table_max < old(adder_count)@.len(),
        terms_below(old(adder_count)@, cost0@, 3),
        terms_below(old(adder_count)@, cost1@, 3),
        terms_below(old(adder_count)@, cost2@, 3),
        terms_below(old(adder_count)@, cost0_shifted@, 3),
        terms_below(old(adder_count)@, cost1_shifted@, 3),
        terms_below(old(adder_count)@, cost2_shifted@, 3),
        all_odd(cost0@),
        all_odd(cost1@),
        all_odd(cost2@),
    ensures
        table_wf(final(adder_count)@, final(adder_structures)@, 3),
        cost_relaxed_to(old(adder_count)@, final(adder_count)@, 3),
        final(adder_structures)@.len() == old(adder_structures)@.len(),
        graphs_prefix(old(adder_structures)@, final(adder_structures)@),
{
    let ghost c_in = old(adder_count)@;
    let ghost cprev0 = adder_count@;
    let ghost gprev0 = adder_structures@;
    proof {
        lemma_terms_still_below(c_in, adder_count@, cost0_shifted@, 3);
        lemma_terms_still_below(c_in, adder_count@, cost2@, 3);
    }
    addsub_combinations(adder_count, adder_structures, cost2, cost0_shifted, 3, table_max);
    proof {
        lemma_cost_relaxed_trans(c_in, cprev0, adder_count@, 3);
    }
    let ghost cprev1 = adder_count@;
    let ghost gprev1 = adder_structures@;
    proof {
        lemma_terms_still_below(c_in, adder_count@, cost1@, 3);
        lemma_terms_still_below(c_in, adder_count@, cost1_shifted@, 3);
    }
    addsub_combinations(adder_count, adder_structures, cost1, cost1_shifted, 3, table_max);
    proof {
        lemma_cost_relaxed_trans(c_in, cprev1, adder_count@, 3);
    }
    let ghost cprev2 = adder_count@;
    let ghost gprev2 = adder_structures@;
    proof {
        lemma_terms_still_below(c_in, adder_count@, cost0@, 3);
        lemma_terms_still_below(c_in, adder_count@, cost2_shifted@, 3);
    }
    addsub_combinations(adder_count, adder_structures, cost0, cost2_shifted, 3, table_max);
    proof {
        lemma_cost_relaxed_trans(c_in, cprev2, adder_count@, 3);
    }
    let ghost cprev3 = adder_count@;
    let ghost gprev3 = adder_structures@;
    proof {
        lemma_terms_still_below(c_in, adder_count@, cost1@, 3);
        lemma_terms_still_below(c_in, adder_count@, cost2@, 3);
    }
    cascade_combinations(adder_count, adder_structures, cost1, cost2, 3, table_max, false);
    proof {
        lemma_cost_relaxed_trans(c_in, cprev3, adder_count@, 3);
    }
    proof {
        // the graph lists only ever grow across the layer
        assert(graphs_prefix(gprev0, gprev1));
        assert(graphs_prefix(gprev1, gprev2));
        assert(graphs_prefix(gprev2, gprev3));
        assert(graphs_prefix(gprev3, adder_structures@));
        lemma_graphs_prefix_trans(gprev0, gprev1, gprev2);
        lemma_graphs_prefix_trans(gprev0, gprev2, gprev3);
        lemma_graphs_prefix_trans(gprev0, gprev3, adder_structures@);
    }
}

/// The combiner recipe of layer 4.
#[verifier::rlimit(100)]
#[verifier::spinoff_prover]
fn search_layer_four(
    adder_count: &mut Vec<u8>,
    adder_structures: &mut Vec<Vec<GraphType>>,
    cost0: &Vec<usize>,
    cost1: &Vec<usize>,
    cost2: &Vec<usize>,
    cost3: &Vec<usize>,
    cost0_shifted: &Vec<usize>,
    cost1_shifted: &Vec<usize>,
    cost2_shifted: &Vec<usize>,
    cost3_shifted: &Vec<usize>,
    table_max: usize,
)
    requires
        table_wf(old(adder_count)@, old(adder_structures)@, 4),
        table_max < old(adder_count)@.len(),
        terms_below(old(adder_count)@, cost0@, 4),
        terms_below(old(adder_count)@, cost1@, 4),
        terms_below(old(adder_count)@, cost2@, 4),
        terms_below(old(adder_count)@, cost3@, 4),
        terms_below(old(adder_count)@, cost0_shifted@, 4),
        terms_below(old(adder_count)@, cost1_shifted@, 4),
        terms_below(old(adder_count)@, cost2_shifted@, 4),
        terms_below(old(adder_count)@, cost3_shifted@, 4),
        all_odd(cost0@),
        all_odd(cost1@),
        all_odd(cost2@),
        all_odd(cost3@),
    ensures
        table_wf(final(adder_count)@, final(adder_structures)@, 4),
        cost_relaxed_to(old(adder_count)@, final(adder_count)@, 4),
        final(adder_structures)@.len() == old(adder_structures)@.len(),
        graphs_prefix(old(adder_structures)@, final(adder_structures)@),
{
    let ghost c_in = old(adder_count)@;
    let ghost cprev0 = adder_count@;
    let ghost gprev0 = adder_structures@;
    proof {
        lemma_terms_still_below(c_in, adder_count@, cost0_shifted@, 4);
        lemma_terms_still_below(c_in, adder_count@, cost3@, 4);
    }
    addsub_combinations(adder_count, adder_structures, cost3, cost0_shifted, 4, table_max);
    proof {
        lemma_cost_relaxed_trans(c_in, cprev0, adder_count@, 4);
    }
    let ghost cprev1 = adder_count@;
    let ghost gprev1 = adder_structures@;
    proof {
        lemma_terms_still_below(c_in, adder_count@, cost1_shifted@, 4);
        lemma_terms_still_below(c_in, adder_count@, cost2@, 4);
    }
    addsub_combinations(adder_count, adder_structures, cost2, cost1_shifted, 4, table_max);
    proof {
        lemma_cost_relaxed_trans(c_in, cprev1, adder_count@, 4);
    }
    let ghost cprev2 = adder_count@;
    let ghost gprev2 = adder_structures@;
    proof {
        lemma_terms_still_below(c_in, adder_count@, cost1@, 4);
        lemma_terms_still_below(c_in, adder_count@, cost2_shifted@, 4);
    }
    addsub_combinations(adder_count, adder_structures, cost1, cost2_shifted, 4, table_max);
    proof {
        lemma_cost_relaxed_trans(c_in, cprev2, adder_count@, 4);
    }
    let ghost cprev3 = adder_count@;
    let ghost gprev3 = adder_structures@;
    proof {
        lemma_terms_still_below(c_in, adder_count@, cost0@, 4);
        lemma_terms_still_below(c_in, adder_count@, cost3_shifted@, 4);
    }
    addsub_combinations(adder_count, adder_structures, cost0, cost3_shifted, 4, table_max);
    proof {
        lemma_cost_relaxed_trans(c_in, cprev3, adder_count@, 4);
    }
    let ghost cprev4 = adder_count@;
    let ghost gprev4 = adder_structures@;
    proof {
        lemma_terms_still_below(c_in, adder_count@, cost1@, 4);
        lemma_terms_still_below(c_in, adder_count@, cost3@, 4);
    }
    cascade_combinations(adder_count, adder_structures, cost1, cost3, 4, table_max, false);
    proof {
        lemma_cost_relaxed_trans(c_in, cprev4, adder_count@, 4);
    }
    let ghost cprev5 = adder_count@;
    let ghost gprev5 = adder_structures@;
    proof {
        lemma_terms_still_below(c_in, adder_count@, cost2@, 4);
    }
    cascade_combinations(adder_count, adder_structures, cost2, cost2, 4, table_max, true);
    proof {
        lemma_cost_relaxed_trans(c_in, cprev5, adder_count@, 4);
    }
    let ghost cprev6 = adder_count@;
    let ghost gprev6 = adder_structures@;
    proof {
        lemma_terms_still_below(c_in, adder_count@, cost0_shifted@, 4);
        lemma_terms_still_below(c_in, adder_count@, cost1_shifted@, 4);
    }
    leapfrog4_combinations(adder_count, adder_structures, cost1_shifted, cost0_shifted, cost0_shifted, cost1_shifted, 4, table_max);
    proof {
        lemma_cost_relaxed_trans(c_in, cprev6, adder_count@, 4);
    }
    proof {
        // the graph lists only ever grow across the layer
        assert(graphs_prefix(gprev0, gprev1));
        assert(graphs_prefix(gprev1, gprev2));
        assert(graphs_prefix(gprev2, gprev3));
        assert(graphs_prefix(gprev3, gprev4));
        assert(graphs_prefix(gprev4, gprev5));
        assert(graphs_prefix(gprev5, gprev6));
        assert(graphs_prefix(gprev6, adder_structures@));
        lemma_graphs_prefix_trans(gprev0, gprev1, gprev2);
        lemma_graphs_prefix_trans(gprev0, gprev2, gprev3);
        lemma_graphs_prefix_trans(gprev0, gprev3, gprev4);
        lemma_graphs_prefix_trans(gprev0, gprev4, gprev5);
        lemma_graphs_prefix_trans(gprev0, gprev5, gprev6);
        lemma_graphs_prefix_trans(gprev0, gprev6, adder_structures@);
    }
}

/// The combiner recipe of layer 5.
#[verifier::rlimit(100)]
#[verifier::spinoff_prover]
fn search_layer_five(
    adder_count: &mut Vec<u8>,
    adder_structures: &mut Vec<Vec<GraphType>>,
    cost0: &Vec<usize>,
    cost1: &Vec<usize>,
    cost2: &Vec<usize>,
    cost3: &Vec<usize>,
    cost4: &Vec<usize>,
    cost0_shifted: &Vec<usize>,
    cost1_shifted: &Vec<usize>,
    cost2_shifted: &Vec<usize>,
    cost3_shifted: &Vec<usize>,
    cost4_shifted: &Vec<usize>,
    table_max: usize,
)
    requires
        table_wf(old(adder_count)@, old(adder_structures)@, 5),
        table_max < old(adder_count)@.len(),
        terms_below(old(adder_count)@, cost0@, 5),
        terms_below(old(adder_count)@, cost1@, 5),
        terms_below(old(adder_count)@, cost2@, 5),
        terms_below(old(adder_count)@, cost3@, 5),
        terms_below(old(adder_count)@, cost4@, 5),
        terms_below(old(adder_count)@, cost0_shifted@, 5),
        terms_below(old(adder_count)@, cost1_shifted@, 5),
        terms_below(old(adder_count)@, cost2_shifted@, 5),
        terms_below(old(adder_count)@, cost3_shifted@, 5),
        terms_below(old(adder_count)@, cost4_shifted@, 5),
        all_odd(cost0@),
        all_odd(cost1@),
        all_odd(cost2@),
        all_odd(cost3@),
        all_odd(cost4@),
    ensures
        table_wf(final(adder_count)@, final(adder_structures)@, 5),
        cost_relaxed_to(old(adder_count)@, final(adder_count)@, 5),
        final(adder_structures)@.len() == old(adder_structures)@.len(),
        graphs_prefix(old(adder_structures)@, final(adder_structures)@),
{
    let ghost c_in = old(adder_count)@;
    let ghost cprev0 = adder_count@;
    let ghost gprev0 = adder_structures@;
    proof {
        lemma_terms_still_below(c_in, adder_count@, cost0_shifted@, 5);
        lemma_terms_still_below(c_in, adder_count@, cost4@, 5);
    }
    addsub_combinations(adder_count, adder_structures, cost4, cost0_shifted, 5, table_max);
    proof {
        lemma_cost_relaxed_trans(c_in, cprev0, adder_count@, 5);
    }
    let ghost cprev1 = adder_count@;
    let ghost gprev1 = adder_structures@;
    proof {
        lemma_terms_still_below(c_in, adder_count@, cost1_shifted@, 5);
        lemma_terms_still_below(c_in, adder_count@, cost3@, 5);
    }
    addsub_combinations(adder_count, adder_structures, cost3, cost1_shifted, 5, table_max);
    proof {
        lemma_cost_relaxed_trans(c_in, cprev1, adder_count@, 5);
    }
    let ghost cprev2 = adder_count@;
    let ghost gprev2 = adder_structures@;
    proof {
        lemma_terms_still_below(c_in, adder_count@, cost2@, 5);
        lemma_terms_still_below(c_in, adder_count@, cost2_shifted@, 5);
    }
    addsub_combinations(adder_count, adder_structures, cost2, cost2_shifted, 5, table_max);
    proof {
        lemma_cost_relaxed_trans(c_in, cprev2, adder_count@, 5);
    }
    let ghost cprev3 = adder_count@;
    let ghost gprev3 = adder_structures@;
    proof {
        lemma_terms_still_below(c_in, adder_count@, cost1@, 5);
        lemma_terms_still_below(c_in, adder_count@, cost3_shifted@, 5);
    }
    addsub_combinations(adder_count, adder_structures, cost1, cost3_shifted, 5, table_max);
    proof {
        lemma_cost_relaxed_trans(c_in, cprev3, adder_count@, 5);
    }
    let ghost cprev4 = adder_count@;
    let ghost gprev4 = adder_structures@;
    proof {
        lemma_terms_still_below(c_in, adder_count@, cost0@, 5);
        lemma_terms_still_below(c_in, adder_count@, cost4_shifted@, 5);
    }
    addsub_combinations(adder_count, adder_structures, cost0, cost4_shifted, 5, table_max);
    proof {
        lemma_cost_relaxed_trans(c_in, cprev4, adder_count@, 5);
    }
    let ghost cprev5 = adder_count@;
    let ghost gprev5 = adder_structures@;
    proof {
        lemma_terms_still_below(c_in, adder_count@, cost1@, 5);
        lemma_terms_still_below(c_in, adder_count@, cost4@, 5);
    }
    cascade_combinations(adder_count, adder_structures, cost1, cost4, 5, table_max, false);
    proof {
        lemma_cost_relaxed_trans(c_in, cprev5, adder_count@, 5);
    }
    let ghost cprev6 = adder_count@;
    let ghost gprev6 = adder_structures@;
    proof {
        lemma_terms_still_below(c_in, adder_count@, cost2@, 5);
        lemma_terms_still_below(c_in, adder_count@, cost3@, 5);
    }
    cascade_combinations(adder_count, adder_structures, cost2, cost3, 5, table_max, false);
    proof {
        lemma_cost_relaxed_trans(c_in, cprev6, adder_count@, 5);
    }
    let ghost cprev7 = adder_count@;
    let ghost gprev7 = adder_structures@;
    proof {
        lemma_terms_still_below(c_in, adder_count@, cost0_shifted@, 5);
        lemma_terms_still_below(c_in, adder_count@, cost1@, 5);
        lemma_terms_still_below(c_in, adder_count@, cost1_shifted@, 5);
    }
    leapfrog5_combinations(adder_count, adder_structures, cost1_shifted, cost0_shifted, cost1, cost0_shifted, cost1_shifted, 5, table_max);
    proof {
        lemma_cost_relaxed_trans(c_in, cprev7, adder_count@, 5);
    }
    let ghost cprev8 = adder_count@;
    let ghost gprev8 = adder_structures@;
    proof {
        lemma_terms_still_below(c_in, adder_count@, cost0_shifted@, 5);
        lemma_terms_still_below(c_in, adder_count@, cost1_shifted@, 5);
        lemma_terms_still_below(c_in, adder_count@, cost2_shifted@, 5);
    }
    leapfrog4_combinations(adder_count, adder_structures, cost2_shifted, cost0_shifted, cost0_shifted, cost1_shifted, 5, table_max);
    proof {
        lemma_cost_relaxed_trans(c_in, cprev8, adder_count@, 5);
    }
    let ghost cprev9 = adder_count@;
    let ghost gprev9 = adder_structures@;
    proof {
        lemma_terms_still_below(c_in, adder_count@, cost0_shifted@, 5);
        lemma_terms_still_below(c_in, adder_count@, cost1_shifted@, 5);
    }
    leapfrog4_combinations(adder_count, adder_structures, cost1_shifted, cost1_shifted, cost0_shifted, cost1_shifted, 5, table_max);
    proof {
        lemma_cost_relaxed_trans(c_in, cprev9, adder_count@, 5);
    }
    let ghost cprev10 = adder_count@;
    let ghost gprev10 = adder_structures@;
    proof {
        lemma_terms_still_below(c_in, adder_count@, cost0_shifted@, 5);
        lemma_terms_still_below(c_in, adder_count@, cost1_shifted@, 5);
        lemma_terms_still_below(c_in, adder_count@, cost2_shifted@, 5);
    }
    leapfrog4_combinations(adder_count, adder_structures, cost1_shifted, cost0_shifted, cost0_shifted, cost2_shifted, 5, table_max);
    proof {
        lemma_cost_relaxed_trans(c_in, cprev10, adder_count@, 5);
    }
    let ghost cprev11 = adder_count@;
    let ghost gprev11 = adder_structures@;
    proof {
        lemma_terms_still_below(c_in, adder_count@, cost0_shifted@, 5);
        lemma_terms_still_below(c_in, adder_count@, cost1_shifted@, 5);
    }
    leapfrog7_combinations(adder_count, adder_structures, cost1_shifted, cost0_shifted, cost0_shifted, cost0_shifted, cost0_shifted, cost0_shifted, cost1_shifted, 5, table_max);
    proof {
        lemma_cost_relaxed_trans(c_in, cprev11, adder_count@, 5);
    }
    proof {
        // the graph lists only ever grow across the layer
        assert(graphs_prefix(gprev0, gprev1));
        assert(graphs_prefix(gprev1, gprev2));
        assert(graphs_prefix(gprev2, gprev3));
        assert(graphs_prefix(gprev3, gprev4));
        assert(graphs_prefix(gprev4, gprev5));
        assert(graphs_prefix(gprev5, gprev6));
        assert(graphs_prefix(gprev6, gprev7));
        assert(graphs_prefix(gprev7, gprev8));
        assert(graphs_prefix(gprev8, gprev9));
        assert(graphs_prefix(gprev9, gprev10));
        assert(graphs_prefix(gprev10, gprev11));
        assert(graphs_prefix(gprev11, adder_structures@));
        lemma_graphs_prefix_trans(gprev0, gprev1, gprev2);
        lemma_graphs_prefix_trans(gprev0, gprev2, gprev3);
        lemma_graphs_prefix_trans(gprev0, gprev3, gprev4);
        lemma_graphs_prefix_trans(gprev0, gprev4, gprev5);
        lemma_graphs_prefix_trans(gprev0, gprev5, gprev6);
        lemma_graphs_prefix_trans(gprev0, gprev6, gprev7);
        lemma_graphs_prefix_trans(gprev0, gprev7, gprev8);
        lemma_graphs_prefix_trans(gprev0, gprev8, gprev9);
        lemma_graphs_prefix_trans(gprev0, gprev9, gprev10);
        lemma_graphs_prefix_trans(gprev0, gprev10, gprev11);
        lemma_graphs_prefix_trans(gprev0, gprev11, adder_structures@);
    }
}

/// The combiner recipe of layer 6.
#[verifier::rlimit(100)]
#[verifier::spinoff_prover]
fn search_layer_six(
    adder_count: &mut Vec<u8>,
    adder_structures: &mut Vec<Vec<GraphType>>,
    cost0: &Vec<usize>,
    cost1: &Vec<usize>,
    cost2: &Vec<usize>,
    cost3: &Vec<usize>,
    cost4: &Vec<usize>,
    cost5: &Vec<usize>,
    cost0_shifted: &Vec<usize>,
    cost1_shifted: &Vec<usize>,
    cost2_shifted: &Vec<usize>,
    cost3_shifted: &Vec<usize>,
    cost4_shifted: &Vec<usize>,
    cost5_shifted: &Vec<usize>,
    table_max: usize,
)
    requires
        table_wf(old(adder_count)@, old(adder_structures)@, 6),
        table_max < old(adder_count)@.len(),
        terms_below(old(adder_count)@, cost0@, 6),
        terms_below(old(adder_count)@, cost1@, 6),
        terms_below(old(adder_count)@, cost2@, 6),
        terms_below(old(adder_count)@, cost3@, 6),
        terms_below(old(adder_count)@, cost4@, 6),
        terms_below(old(adder_count)@, cost5@, 6),
        terms_below(old(adder_count)@, cost0_shifted@, 6),
        terms_below(old(adder_count)@, cost1_shifted@, 6),
        terms_below(old(adder_count)@, cost2_shifted@, 6),
        terms_below(old(adder_count)@, cost3_shifted@, 6),
        terms_below(old(adder_count)@, cost4_shifted@, 6),
        terms_below(old(adder_count)@, cost5_shifted@, 6),
        all_odd(cost0@),
        all_odd(cost1@),
        all_odd(cost2@),
        all_odd(cost3@),
        all_odd(cost4@),
        all_odd(cost5@),
    ensures
        table_wf(final(adder_count)@, final(adder_structures)@, 6),
        cost_relaxed_to(old(adder_count)@, final(adder_count)@, 6),
        final(adder_structures)@.len() == old(adder_structures)@.len(),
        graphs_prefix(old(adder_structures)@, final(adder_structures)@),
{
    let ghost c_in = old(adder_count)@;
    let ghost cprev0 = adder_count@;
    let ghost gprev0 = adder_structures@;
    proof {
        lemma_terms_still_below(c_in, adder_count@, cost0_shifted@, 6);
        lemma_terms_still_below(c_in, adder_count@, cost5@, 6);
    }
    addsub_combinations(adder_count, adder_structures, cost5, cost0_shifted, 6, table_max);
    proof {
        lemma_cost_relaxed_trans(c_in, cprev0, adder_count@, 6);
    }
    let ghost cprev1 = adder_count@;
    let ghost gprev1 = adder_structures@;
    proof {
        lemma_terms_still_below(c_in, adder_count@, cost1_shifted@, 6);
        lemma_terms_still_below(c_in, adder_count@, cost4@, 6);
    }
    addsub_combinations(adder_count, adder_structures, cost4, cost1_shifted, 6, table_max);
    proof {
        lemma_cost_relaxed_trans(c_in, cprev1, adder_count@, 6);
    }
    let ghost cprev2 = adder_count@;
    let ghost gprev2 = adder_structures@;
    proof {
        lemma_terms_still_below(c_in, adder_count@, cost2_shifted@, 6);
        lemma_terms_still_below(c_in, adder_count@, cost3@, 6);
    }
    addsub_combinations(adder_count, adder_structures, cost3, cost2_shifted, 6, table_max);
    proof {
        lemma_cost_relaxed_trans(c_in, cprev2, adder_count@, 6);
    }
    let ghost cprev3 = adder_count@;
    let ghost gprev3 = adder_structures@;
    proof {
        lemma_terms_still_below(c_in, adder_count@, cost2@, 6);
        lemma_terms_still_below(c_in, adder_count@, cost3_shifted@, 6);
    }
    addsub_combinations(adder_count, adder_structures, cost2, cost3_shifted, 6, table_max);
    proof {
        lemma_cost_relaxed_trans(c_in, cprev3, adder_count@, 6);
    }
    let ghost cprev4 = adder_count@;
    let ghost gprev4 = adder_structures@;
    proof {
        lemma_terms_still_below(c_in, adder_count@, cost1@, 6);
        lemma_terms_still_below(c_in, adder_count@, cost4_shifted@, 6);
    }
    addsub_combinations(adder_count, adder_structures, cost1, cost4_shifted, 6, table_max);
    proof {
        lemma_cost_relaxed_trans(c_in, cprev4, adder_count@, 6);
    }
    let ghost cprev5 = adder_count@;
    let ghost gprev5 = adder_structures@;
    proof {
        lemma_terms_still_below(c_in, adder_count@, cost0@, 6);
        lemma_terms_still_below(c_in, adder_count@, cost5_shifted@, 6);
    }
    addsub_combinations(adder_count, adder_structures, cost0, cost5_shifted, 6, table_max);
    proof {
        lemma_cost_relaxed_trans(c_in, cprev5, adder_count@, 6);
    }
    let ghost cprev6 = adder_count@;
    let ghost gprev6 = adder_structures@;
    proof {
        lemma_terms_still_below(c_in, adder_count@, cost1@, 6);
        lemma_terms_still_below(c_in, adder_count@, cost5@, 6);
    }
    cascade_combinations(adder_count, adder_structures, cost1, cost5, 6, table_max, false);
    proof {
        lemma_cost_relaxed_trans(c_in, cprev6, adder_count@, 6);
    }
    let ghost cprev7 = adder_count@;
    let ghost gprev7 = adder_structures@;
    proof {
        lemma_terms_still_below(c_in, adder_count@, cost2@, 6);
        lemma_terms_still_below(c_in, adder_count@, cost4@, 6);
    }
    cascade_combinations(adder_count, adder_structures, cost2, cost4, 6, table_max, false);
    proof {
        lemma_cost_relaxed_trans(c_in, cprev7, adder_count@, 6);
    }
    let ghost cprev8 = adder_count@;
    let ghost gprev8 = adder_structures@;
    proof {
        lemma_terms_still_below(c_in, adder_count@, cost3@, 6);
    }
    cascade_combinations(adder_count, adder_structures, cost3, cost3, 6, table_max, true);
    proof {
        lemma_cost_relaxed_trans(c_in, cprev8, adder_count@, 6);
    }
    let ghost cprev9 = adder_count@;
    let ghost gprev9 = adder_structures@;
    proof {
        lemma_terms_still_below(c_in, adder_count@, cost0_shifted@, 6);
        lemma_terms_still_below(c_in, adder_count@, cost1@, 6);
        lemma_terms_still_below(c_in, adder_count@, cost1_shifted@, 6);
        lemma_terms_still_below(c_in, adder_count@, cost2_shifted@, 6);
    }
    leapfrog5_combinations(adder_count, adder_structures, cost2_shifted, cost0_shifted, cost1, cost0_shifted, cost1_shifted, 6, table_max);
    proof {
        lemma_cost_relaxed_trans(c_in, cprev9, adder_count@, 6);
    }
    let ghost cprev10 = adder_count@;
    let ghost gprev10 = adder_structures@;
    proof {
        lemma_terms_still_below(c_in, adder_count@, cost0_shifted@, 6);
        lemma_terms_still_below(c_in, adder_count@, cost1_shifted@, 6);
        lemma_terms_still_below(c_in, adder_count@, cost3_shifted@, 6);
    }
    leapfrog4_combinations(adder_count, adder_structures, cost3_shifted, cost0_shifted, cost0_shifted, cost1_shifted, 6, table_max);
    proof {
        lemma_cost_relaxed_trans(c_in, cprev10, adder_count@, 6);
    }
    let ghost cprev11 = adder_count@;
    let ghost gprev11 = adder_structures@;
    proof {
        lemma_terms_still_below(c_in, adder_count@, cost0_shifted@, 6);
        lemma_terms_still_below(c_in, adder_count@, cost2_shifted@, 6);
    }
    leapfrog4_combinations(adder_count, adder_structures, cost2_shifted, cost0_shifted, cost0_shifted, cost2_shifted, 6, table_max);
    proof {
        lemma_cost_relaxed_trans(c_in, cprev11, adder_count@, 6);
    }
    let ghost cprev12 = adder_count@;
    let ghost gprev12 = adder_structures@;
    proof {
        lemma_terms_still_below(c_in, adder_count@, cost0_shifted@, 6);
        lemma_terms_still_below(c_in, adder_count@, cost1_shifted@, 6);
        lemma_terms_still_below(c_in, adder_count@, cost2_shifted@, 6);
    }
    leapfrog4_combinations(adder_count, adder_structures, cost1_shifted, cost1_shifted, cost0_shifted, cost2_shifted, 6, table_max);
    proof {
        lemma_cost_relaxed_trans(c_in, cprev12, adder_count@, 6);
    }
    let ghost cprev13 = adder_count@;
    let ghost gprev13 = adder_structures@;
    proof {
        lemma_terms_still_below(c_in, adder_count@, cost1_shifted@, 6);
    }
    leapfrog4_combinations(adder_count, adder_structures, cost1_shifted, cost1_shifted, cost1_shifted, cost1_shifted, 6, table_max);
    proof {
        lemma_cost_relaxed_trans(c_in, cprev13, adder_count@, 6);
    }
    let ghost cprev14 = adder_count@;
    let ghost gprev14 = adder_structures@;
    proof {
        lemma_terms_still_below(c_in, adder_count@, cost0_shifted@, 6);
        lemma_terms_still_below(c_in, adder_count@, cost1_shifted@, 6);
        lemma_terms_still_below(c_in, adder_count@, cost2_shifted@, 6);
    }
    leapfrog4_combinations(adder_count, adder_structures, cost2_shifted, cost1_shifted, cost0_shifted, cost1_shifted, 6, table_max);
    proof {
        lemma_cost_relaxed_trans(c_in, cprev14, adder_count@, 6);
    }
    let ghost cprev15 = adder_count@;
    let ghost gprev15 = adder_structures@;
    proof {
        lemma_terms_still_below(c_in, adder_count@, cost0_shifted@, 6);
        lemma_terms_still_below(c_in, adder_count@, cost1_shifted@, 6);
        lemma_terms_still_below(c_in, adder_count@, cost2@, 6);
    }
    leapfrog5_combinations(adder_count, adder_structures, cost1_shifted, cost0_shifted, cost2, cost0_shifted, cost1_shifted, 6, table_max);
    proof {
        lemma_cost_relaxed_trans(c_in, cprev15, adder_count@, 6);
    }
    let ghost cprev16 = adder_count@;
    let ghost gprev16 = adder_structures@;
    proof {
        lemma_terms_still_below(c_in, adder_count@, cost0_shifted@, 6);
        lemma_terms_still_below(c_in, adder_count@, cost1_shifted@, 6);
        lemma_terms_still_below(c_in, adder_count@, cost2_shifted@, 6);
    }
    leapfrog7_combinations(adder_count, adder_structures, cost2_shifted, cost0_shifted, cost0_shifted, cost0_shifted, cost0_shifted, cost0_shifted, cost1_shifted, 6, table_max);
    proof {
        lemma_cost_relaxed_trans(c_in, cprev16, adder_count@, 6);
    }
    let ghost cprev17 = adder_count@;
    let ghost gprev17 = adder_structures@;
    proof {
        lemma_terms_still_below(c_in, adder_count@, cost0_shifted@, 6);
        lemma_terms_still_below(c_in, adder_count@, cost1_shifted@, 6);
    }
    leapfrog7_combinations(adder_count, adder_structures, cost1_shifted, cost1_shifted, cost0_shifted, cost0_shifted, cost0_shifted, cost0_shifted, cost1_shifted, 6, table_max);
    proof {
        lemma_cost_relaxed_trans(c_in, cprev17, adder_count@, 6);
    }
    let ghost cprev18 = adder_count@;
    let ghost gprev18 = adder_structures@;
    proof {
        lemma_terms_still_below(c_in, adder_count@, cost0_shifted@, 6);
        lemma_terms_still_below(c_in, adder_count@, cost1_shifted@, 6);
    }
    leapfrog7_combinations(adder_count, adder_structures, cost1_shifted, cost0_shifted, cost1_shifted, cost0_shifted, cost0_shifted, cost0_shifted, cost1_shifted, 6, table_max);
    proof {
        lemma_cost_relaxed_trans(c_in, cprev18, adder_count@, 6);
    }
    let ghost cprev19 = adder_count@;
    let ghost gprev19 = adder_structures@;
    proof {
        lemma_terms_still_below(c_in, adder_count@, cost0_shifted@, 6);
        lemma_terms_still_below(c_in, adder_count@, cost1_shifted@, 6);
    }
    leapfrog7_combinations(adder_count, adder_structures, cost1_shifted, cost0_shifted, cost0_shifted, cost1_shifted, cost0_shifted, cost0_shifted, cost1_shifted, 6, table_max);
    proof {
        lemma_cost_relaxed_trans(c_in, cprev19, adder_count@, 6);
    }
    proof {
        // the graph lists only ever grow across the layer
        assert(graphs_prefix(gprev0, gprev1));
        assert(graphs_prefix(gprev1, gprev2));
        assert(graphs_prefix(gprev2, gprev3));
        assert(graphs_prefix(gprev3, gprev4));
        assert(graphs_prefix(gprev4, gprev5));
        assert(graphs_prefix(gprev5, gprev6));
        assert(graphs_prefix(gprev6, gprev7));
        assert(graphs_prefix(gprev7, gprev8));
        assert(graphs_prefix(gprev8, gprev9));
        assert(graphs_prefix(gprev9, gprev10));
        assert(graphs_prefix(gprev10, gprev11));
        assert(graphs_prefix(gprev11, gprev12));
        assert(graphs_prefix(gprev12, gprev13));
        assert(graphs_prefix(gprev13, gprev14));
        assert(graphs_prefix(gprev14, gprev15));
        assert(graphs_prefix(gprev15, gprev16));
        assert(graphs_prefix(gprev16, gprev17));
        assert(graphs_prefix(gprev17, gprev18));
        assert(graphs_prefix(gprev18, gprev19));
        assert(graphs_prefix(gprev19, adder_structures@));
        lemma_graphs_prefix_trans(gprev0, gprev1, gprev2);
        lemma_graphs_prefix_trans(gprev0, gprev2, gprev3);
        lemma_graphs_prefix_trans(gprev0, gprev3, gprev4);
        lemma_graphs_prefix_trans(gprev0, gprev4, gprev5);
        lemma_graphs_prefix_trans(gprev0, gprev5, gprev6);
        lemma_graphs_prefix_trans(gprev0, gprev6, gprev7);
        lemma_graphs_prefix_trans(gprev0, gprev7, gprev8);
        lemma_graphs_prefix_trans(gprev0, gprev8, gprev9);
        lemma_graphs_prefix_trans(gprev0, gprev9, gprev10);
        lemma_graphs_prefix_trans(gprev0, gprev10, gprev11);
        lemma_graphs_prefix_trans(gprev0, gprev11, gprev12);
        lemma_graphs_prefix_trans(gprev0, gprev12, gprev13);
        lemma_graphs_prefix_trans(gprev0, gprev13, gprev14);
        lemma_graphs_prefix_trans(gprev0, gprev14, gprev15);
        lemma_graphs_prefix_trans(gprev0, gprev15, gprev16);
        lemma_graphs_prefix_trans(gprev0, gprev16, gprev17);
        lemma_graphs_prefix_trans(gprev0, gprev17, gprev18);
        lemma_graphs_prefix_trans(gprev0, gprev18, gprev19);
        lemma_graphs_prefix_trans(gprev0, gprev19, adder_structures@);
    }
}

/// The first layer's recipe is reflected in a finished cost table: the odd
/// kernels of the sum and of the absolute difference of 1 with every power
/// of two within the operand bound are recorded at cost at most 1.
pub open spec fn first_layer_complete(cost: Seq<u8>, max_value: nat) -> bool {
    forall|s: nat|
        pow2(s) <= max_value ==> #[trigger] addsub_pair_done(
            cost,
            1,
            pow2(s) as usize,
            1,
            (cost.len() - 1) as usize,
        )
}

/// Assembles the first layer's completeness law over the final cost table
/// from the layer's pair facts and the pointwise relaxation of later layers.
proof fn lemma_assemble_first_complete(
    fin: Seq<u8>,
    post1: Seq<u8>,
    cost0: Seq<usize>,
    cost0_shifted: Seq<usize>,
    table_max: usize,
    max_value: nat,
)
    requires
        fin.len() == table_max + 1,
        post1.len() == fin.len(),
        cost_le(fin, post1),
        cost0.len() == 1 && cost0[0] == 1,
        forall|j: int, s: nat|
            0 <= j < cost0.len() && #[trigger] (cost0[j] * pow2(s)) <= max_value
                ==> cost0_shifted.contains((cost0[j] * pow2(s)) as usize),
        forall|i: int, j: int|
            0 <= i < cost0.len() && 0 <= j < cost0_shifted.len() ==> addsub_pair_done(
                post1,
                #[trigger] cost0[i],
                #[trigger] cost0_shifted[j],
                1,
                table_max,
            ),
        max_value <= usize::MAX,
    ensures
        first_layer_complete(fin, max_value),
{
    assert forall|sh: nat|
        pow2(sh) <= max_value implies #[trigger] addsub_pair_done(
        fin,
        1,
        pow2(sh) as usize,
        1,
        (fin.len() - 1) as usize,
    ) by {
        vstd::arithmetic::power2::lemma_pow2_pos(sh);
        assert(cost0[0] * pow2(sh) == pow2(sh));
        assert(cost0_shifted.contains((cost0[0] * pow2(sh)) as usize));
        let jj = choose|j: int|
            0 <= j < cost0_shifted.len() && cost0_shifted[j] == (pow2(sh) as usize);
        assert(addsub_pair_done(post1, cost0[0], cost0_shifted[jj], 1, table_max));
        lemma_pair_done_le(post1, fin, 1, pow2(sh) as usize, 1, table_max);
    }
}

/// Assembles the first layer's record law over the final graph table from
/// the layer's recorded pairs and the prefix growth of the lists.
proof fn lemma_assemble_first_layer(
    base: Seq<u8>,
    gpost1: Seq<Vec<GraphType>>,
    fing: Seq<Vec<GraphType>>,
    cost0: Seq<usize>,
    cost0_shifted: Seq<usize>,
    table_max: usize,
    max_value: nat,
)
    requires
        base.len() == table_max + 1,
        gpost1.len() == base.len(),
        forall|x: int| 0 <= x < base.len() && x != 1 ==> #[trigger] base[x] == COST_SENTINEL,
        cost0.len() == 1 && cost0[0] == 1,
        forall|j: int, s: nat|
            0 <= j < cost0.len() && #[trigger] (cost0[j] * pow2(s)) <= max_value
                ==> cost0_shifted.contains((cost0[j] * pow2(s)) as usize),
        forall|i: int, j: int|
            0 <= i < cost0.len() && 0 <= j < cost0_shifted.len() ==> addsub_pair_recorded(
                base,
                gpost1,
                #[trigger] cost0[i],
                #[trigger] cost0_shifted[j],
                1,
                table_max,
            ),
        graphs_prefix(gpost1, fing),
        max_value <= usize::MAX,
    ensures
        first_layer_recorded(table_max as int, max_value, fing),
{
    assert forall|sh: nat|
        #![trigger pow2(sh)]
        pow2(sh) <= max_value implies {
        let sk = odd_kernel((1 + pow2(sh)) as nat) as int;
        let dk = odd_kernel(dist(1, pow2(sh) as int) as nat) as int;
        &&& (2 <= sk <= table_max ==> fing[sk]@.contains(adder_canon(1, pow2(sh) as usize)))
        &&& (2 <= dk <= table_max ==> fing[dk]@.contains(sub_canon(1, pow2(sh) as usize)))
    } by {
        vstd::arithmetic::power2::lemma_pow2_pos(sh);
        assert(cost0[0] * pow2(sh) == pow2(sh));
        assert(cost0_shifted.contains((cost0[0] * pow2(sh)) as usize));
        let jj = choose|j: int|
            0 <= j < cost0_shifted.len() && cost0_shifted[j] == (pow2(sh) as usize);
        assert(addsub_pair_recorded(base, gpost1, cost0[0], cost0_shifted[jj], 1, table_max));
        let bsh = pow2(sh) as usize;
        let sk = odd_kernel((1 + pow2(sh)) as nat) as int;
        let dk = odd_kernel(dist(1, pow2(sh) as int) as nat) as int;
        if 2 <= sk <= table_max {
            assert(base[sk] == COST_SENTINEL);
            assert(gpost1[sk]@.contains(adder_canon(1, bsh)));
            lemma_graph_contains_prefix(gpost1[sk]@, fing[sk]@, adder_canon(1, bsh));
        }
        if 2 <= dk <= table_max {
            assert(base[dk] == COST_SENTINEL);
            assert(gpost1[dk]@.contains(sub_canon(1, bsh)));
            lemma_graph_contains_prefix(gpost1[dk]@, fing[dk]@, sub_canon(1, bsh));
        }
    }
}

/// The first layer's records stand in a finished graph table: for every
/// power of two within the operand bound, the canonical Adder of 1 with that
/// shift sits at the kernel of their sum, and the canonical Subtractor at
/// the kernel of their difference, whenever the kernel is a searched index.
pub open spec fn first_layer_recorded(
    table_max: int,
    max_value: nat,
    graphs: Seq<Vec<GraphType>>,
) -> bool {
    forall|s: nat|
        #![trigger pow2(s)]
        pow2(s) <= max_value ==> {
            let sk = odd_kernel((1 + pow2(s)) as nat) as int;
            let dk = odd_kernel(dist(1, pow2(s) as int) as nat) as int;
            &&& (2 <= sk <= table_max ==> graphs[sk]@.contains(adder_canon(1, pow2(s) as usize)))
            &&& (2 <= dk <= table_max ==> graphs[dk]@.contains(sub_canon(1, pow2(s) as usize)))
        }
}

/// Run the whole cost-limited breadth-first search: layers one to four
/// always, layer five for tables past twelve bits, layer six past nineteen.
/// Returns the cost table and the graph table, both indexed from 0 to
/// 2^max_bits inclusive, with odd indices carrying the results.
#[verifier::rlimit(100)]
#[verifier::spinoff_prover]
pub fn run_search(max_bits: usize, max_extra_bits: usize) -> (r: (Vec<u8>, Vec<Vec<GraphType>>))
    requires
        1 <= max_bits <= 21,
        max_extra_bits <= 4,
    ensures
        r.0@.len() == pow2(max_bits as nat) + 1,
        r.1@.len() == r.0@.len(),
        r.0@[1] == 0,
        table_wf(r.0@, r.1@, 6),
        first_layer_complete(r.0@, pow2((max_bits + max_extra_bits) as nat)),
        first_layer_recorded(
            r.0@.len() - 1,
            pow2((max_bits + max_extra_bits) as nat),
            r.1@,
        ),
{
    let table_max = pow2_usize(max_bits);
    let max_value = pow2_usize(max_bits + max_extra_bits);
    let mut adder_count = filled_u8(table_max + 1, COST_SENTINEL);
    let mut adder_structures = empty_graph_lists(table_max + 1);
    let mut cost0: Vec<usize> = Vec::new();
    cost0.push(1);
    proof {
        assert(odd_kernel(1nat) == 1nat);
        assert(cost0@.len() == 1 && cost0@[0] == 1);
        assert(all_odd(cost0@));
    }
    let cost0_shifted = create_shifted_variants(&cost0, max_value);
    adder_count[1] = 0;
    let ghost base = adder_count@;
    proof {
        assert(table_wf(adder_count@, adder_structures@, 1));
        assert(leaf_below(adder_count@, 1usize, 1));
        assert(terms_below(adder_count@, cost0@, 1));
        lemma_shifted_below(adder_count@, cost0@, cost0_shifted@, 1, max_value);
    }
    let ghost s1 = adder_count@;
    let ghost gs1 = adder_structures@;
    search_layer_one(&mut adder_count, &mut adder_structures, &cost0, &cost0_shifted, table_max);
    let ghost post1 = adder_count@;
    let ghost gpost1 = adder_structures@;
    proof {
        assert(adder_count@[1] == 0);
        assert(adder_count@.len() == table_max + 1);
        assert(cost_le(adder_count@, post1));
        assert(cost_above(post1, adder_count@, 1));
        lemma_graphs_prefix_refl(adder_structures@);
    }
    let cost1 = extract_cost_values(&adder_count, 1);
    proof {
        assert forall|i: int|
            0 <= i < cost1@.len() implies 1 <= #[trigger] cost1@[i] && cost1@[i] % 2
            == 1 by {
            let el = cost1@[i];
            assert(adder_count@[el as int] == 1);
        }
        assert(all_odd(cost1@));
    }
    let cost1_shifted = create_shifted_variants(&cost1, max_value);
    proof {
        lemma_table_wf_weaken(adder_count@, adder_structures@, 1, 2);
        assert forall|i: int|
            0 <= i < cost1@.len() implies leaf_below(adder_count@, #[trigger] cost1@[i], 2)
            && cost1@[i] <= TERM_LIMIT by {
            let el = cost1@[i];
            assert(adder_count@[el as int] == 1);
            assert(el % 2 == 1);
            assert(odd_kernel(el as nat) == el as nat);
        }
        assert(terms_below(adder_count@, cost1@, 2));
        lemma_shifted_below(adder_count@, cost1@, cost1_shifted@, 2, max_value);
        lemma_terms_carry(s1, adder_count@, cost0@, 1, 2);
        lemma_terms_carry(s1, adder_count@, cost0_shifted@, 1, 2);
    }
    let ghost s2 = adder_count@;
    let ghost gs2 = adder_structures@;
    search_layer_two(&mut adder_count, &mut adder_structures, &cost0, &cost1, &cost0_shifted, &cost1_shifted, table_max);
    proof {
        assert(adder_count@[1] == 0);
        assert(adder_count@.len() == table_max + 1);
        lemma_relaxed_le(s2, adder_count@, 2);
        lemma_cost_le_trans(adder_count@, s2, post1);
    lemma_above_step(post1, s2, adder_count@, 1, 2);
    assert(graphs_prefix(gs2, adder_structures@));
    lemma_graphs_prefix_trans(gpost1, gs2, adder_structures@);
    }
    let ghost post2 = adder_count@;
    let ghost gpost2 = adder_structures@;
    proof {
        assert(cost_le(adder_count@, post2));
        lemma_graphs_prefix_refl(adder_structures@);
        assert(graphs_prefix(gpost2, adder_structures@));
    }
    let cost2 = extract_cost_values(&adder_count, 2);
    proof {
        assert forall|i: int|
            0 <= i < cost2@.len() implies 1 <= #[trigger] cost2@[i] && cost2@[i] % 2
            == 1 by {
            let el = cost2@[i];
            assert(adder_count@[el as int] == 2);
        }
        assert(all_odd(cost2@));
    }
    let cost2_shifted = create_shifted_variants(&cost2, max_value);
    proof {
        lemma_table_wf_weaken(adder_count@, adder_structures@, 2, 3);
        assert forall|i: int|
            0 <= i < cost2@.len() implies leaf_below(adder_count@, #[trigger] cost2@[i], 3)
            && cost2@[i] <= TERM_LIMIT by {
            let el = cost2@[i];
            assert(adder_count@[el as int] == 2);
            assert(el % 2 == 1);
            assert(odd_kernel(el as nat) == el as nat);
        }
        assert(terms_below(adder_count@, cost2@, 3));
        lemma_shifted_below(adder_count@, cost2@, cost2_shifted@, 3, max_value);
        lemma_terms_carry(s2, adder_count@, cost0@, 2, 3);
        lemma_terms_carry(s2, adder_count@, cost1@, 2, 3);
        lemma_terms_carry(s2, adder_count@, cost0_shifted@, 2, 3);
        lemma_terms_carry(s2, adder_count@, cost1_shifted@, 2, 3);
    }
    let ghost s3 = adder_count@;
    let ghost gs3 = adder_structures@;
    search_layer_three(&mut adder_count, &mut adder_structures, &cost0, &cost1, &cost2, &cost0_shifted, &cost1_shifted, &cost2_shifted, table_max);
    proof {
        assert(adder_count@[1] == 0);
        assert(adder_count@.len() == table_max + 1);
        lemma_relaxed_le(s3, adder_count@, 3);
        lemma_cost_le_trans(adder_count@, s3, post1);
    lemma_above_step(post1, s3, adder_count@, 1, 3);
    assert(graphs_prefix(gs3, adder_structures@));
    lemma_graphs_prefix_trans(gpost1, gs3, adder_structures@);
    lemma_cost_le_trans(adder_count@, s3, post2);
    lemma_graphs_prefix_trans(gpost2, gs3, adder_structures@);
    }
    let cost3 = extract_cost_values(&adder_count, 3);
    proof {
        assert forall|i: int|
            0 <= i < cost3@.len() implies 1 <= #[trigger] cost3@[i] && cost3@[i] % 2
            == 1 by {
            let el = cost3@[i];
            assert(adder_count@[el as int] == 3);
        }
        assert(all_odd(cost3@));
    }
    let cost3_shifted = create_shifted_variants(&cost3, max_value);
    proof {
        lemma_table_wf_weaken(adder_count@, adder_structures@, 3, 4);
        assert forall|i: int|
            0 <= i < cost3@.len() implies leaf_below(adder_count@, #[trigger] cost3@[i], 4)
            && cost3@[i] <= TERM_LIMIT by {
            let el = cost3@[i];
            assert(adder_count@[el as int] == 3);
            assert(el % 2 == 1);
            assert(odd_kernel(el as nat) == el as nat);
        }
        assert(terms_below(adder_count@, cost3@, 4));
        lemma_shifted_below(adder_count@, cost3@, cost3_shifted@, 4, max_value);
        lemma_terms_carry(s3, adder_count@, cost0@, 3, 4);
        lemma_terms_carry(s3, adder_count@, cost1@, 3, 4);
        lemma_terms_carry(s3, adder_count@, cost2@, 3, 4);
        lemma_terms_carry(s3, adder_count@, cost0_shifted@, 3, 4);
        lemma_terms_carry(s3, adder_count@, cost1_shifted@, 3, 4);
        lemma_terms_carry(s3, adder_count@, cost2_shifted@, 3, 4);
    }
    let ghost s4 = adder_count@;
    let ghost gs4 = adder_structures@;
    search_layer_four(&mut adder_count, &mut adder_structures, &cost0, &cost1, &cost2, &cost3, &cost0_shifted, &cost1_shifted, &cost2_shifted, &cost3_shifted, table_max);
    proof {
        assert(adder_count@[1] == 0);
        assert(adder_count@.len() == table_max + 1);
        lemma_relaxed_le(s4, adder_count@, 4);
        lemma_cost_le_trans(adder_count@, s4, post1);
    lemma_above_step(post1, s4, adder_count@, 1, 4);
    assert(graphs_prefix(gs4, adder_structures@));
    lemma_graphs_prefix_trans(gpost1, gs4, adder_structures@);
    lemma_cost_le_trans(adder_count@, s4, post2);
    lemma_graphs_prefix_trans(gpost2, gs4, adder_structures@);
    }
    let cost4 = extract_cost_values(&adder_count, 4);
    proof {
        assert forall|i: int|
            0 <= i < cost4@.len() implies 1 <= #[trigger] cost4@[i] && cost4@[i] % 2
            == 1 by {
            let el = cost4@[i];
            assert(adder_count@[el as int] == 4);
        }
        assert(all_odd(cost4@));
    }
    let cost4_shifted = create_shifted_variants(&cost4, max_value);
    if max_bits > 12 {
        proof {
            lemma_table_wf_weaken(adder_count@, adder_structures@, 4, 5);
            assert forall|i: int|
                0 <= i < cost4@.len() implies leaf_below(adder_count@, #[trigger] cost4@[i], 5)
                && cost4@[i] <= TERM_LIMIT by {
                let el = cost4@[i];
                assert(adder_count@[el as int] == 4);
                assert(el % 2 == 1);
                assert(odd_kernel(el as nat) == el as nat);
            }
            assert(terms_below(adder_count@, cost4@, 5));
            lemma_shifted_below(adder_count@, cost4@, cost4_shifted@, 5, max_value);
            lemma_terms_carry(s4, adder_count@, cost0@, 4, 5);
            lemma_terms_carry(s4, adder_count@, cost1@, 4, 5);
            lemma_terms_carry(s4, adder_count@, cost2@, 4, 5);
            lemma_terms_carry(s4, adder_count@, cost3@, 4, 5);
            lemma_terms_carry(s4, adder_count@, cost0_shifted@, 4, 5);
            lemma_terms_carry(s4, adder_count@, cost1_shifted@, 4, 5);
            lemma_terms_carry(s4, adder_count@, cost2_shifted@, 4, 5);
            lemma_terms_carry(s4, adder_count@, cost3_shifted@, 4, 5);
        }
        let ghost s5 = adder_count@;
        let ghost gs5 = adder_structures@;
    let ghost gs5 = adder_structures@;
        search_layer_five(&mut adder_count, &mut adder_structures, &cost0, &cost1, &cost2, &cost3, &cost4, &cost0_shifted, &cost1_shifted, &cost2_shifted, &cost3_shifted, &cost4_shifted, table_max);
        proof {
            assert(adder_count@[1] == 0);
            assert(adder_count@.len() == table_max + 1);
            lemma_relaxed_le(s5, adder_count@, 5);
            lemma_cost_le_trans(adder_count@, s5, post1);
        lemma_above_step(post1, s5, adder_count@, 1, 5);
        assert(graphs_prefix(gs5, adder_structures@));
        lemma_graphs_prefix_trans(gpost1, gs5, adder_structures@);
        lemma_cost_le_trans(adder_count@, s5, post2);
        lemma_graphs_prefix_trans(gpost2, gs5, adder_structures@);
        }
        let cost5 = extract_cost_values(&adder_count, 5);
        proof {
            assert forall|i: int|
                0 <= i < cost5@.len() implies 1 <= #[trigger] cost5@[i] && cost5@[i] % 2
                == 1 by {
                let el = cost5@[i];
                assert(adder_count@[el as int] == 5);
            }
            assert(all_odd(cost5@));
        }
        let cost5_shifted = create_shifted_variants(&cost5, max_value);
        if max_bits > 19 {
            proof {
                lemma_table_wf_weaken(adder_count@, adder_structures@, 5, 6);
                assert forall|i: int|
                    0 <= i < cost5@.len() implies leaf_below(adder_count@, #[trigger] cost5@[i], 6)
                    && cost5@[i] <= TERM_LIMIT by {
                    let el = cost5@[i];
                    assert(adder_count@[el as int] == 5);
                    assert(el % 2 == 1);
                    assert(odd_kernel(el as nat) == el as nat);
                }
                assert(terms_below(adder_count@, cost5@, 6));
                lemma_shifted_below(adder_count@, cost5@, cost5_shifted@, 6, max_value);
                lemma_terms_carry(s5, adder_count@, cost0@, 5, 6);
                lemma_terms_carry(s5, adder_count@, cost1@, 5, 6);
                lemma_terms_carry(s5, adder_count@, cost2@, 5, 6);
                lemma_terms_carry(s5, adder_count@, cost3@, 5, 6);
                lemma_terms_carry(s5, adder_count@, cost4@, 5, 6);
                lemma_terms_carry(s5, adder_count@, cost0_shifted@, 5, 6);
                lemma_terms_carry(s5, adder_count@, cost1_shifted@, 5, 6);
                lemma_terms_carry(s5, adder_count@, cost2_shifted@, 5, 6);
                lemma_terms_carry(s5, adder_count@, cost3_shifted@, 5, 6);
                lemma_terms_carry(s5, adder_count@, cost4_shifted@, 5, 6);
            }
            let ghost s6 = adder_count@;
            let ghost gs6 = adder_structures@;
    let ghost gs6 = adder_structures@;
            search_layer_six(&mut adder_count, &mut adder_structures, &cost0, &cost1, &cost2, &cost3, &cost4, &cost5, &cost0_shifted, &cost1_shifted, &cost2_shifted, &cost3_shifted, &cost4_shifted, &cost5_shifted, table_max);
            proof {
                assert(adder_count@[1] == 0);
                assert(adder_count@.len() == table_max + 1);
                lemma_relaxed_le(s6, adder_count@, 6);
                lemma_cost_le_trans(adder_count@, s6, post1);
            lemma_above_step(post1, s6, adder_count@, 1, 6);
            assert(graphs_prefix(gs6, adder_structures@));
            lemma_graphs_prefix_trans(gpost1, gs6, adder_structures@);
            lemma_cost_le_trans(adder_count@, s6, post2);
            lemma_graphs_prefix_trans(gpost2, gs6, adder_structures@);
            }
        } else {
            proof {
                lemma_table_wf_weaken(adder_count@, adder_structures@, 5, 6);
            }
        }
    } else {
        proof {
            lemma_table_wf_weaken(adder_count@, adder_structures@, 4, 6);
        }
    }
    proof {
        let fin = adder_count@;
        lemma_assemble_first_complete(
            fin,
            post1,
            cost0@,
            cost0_shifted@,
            table_max,
            pow2((max_bits + max_extra_bits) as nat),
        );
        lemma_assemble_first_layer(
            base,
            gpost1,
            adder_structures@,
            cost0@,
            cost0_shifted@,
            table_max,
            pow2((max_bits + max_extra_bits) as nat),
        );
    }
    (adder_count, adder_structures)
}

} // verus!
