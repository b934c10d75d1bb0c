//! Realizing graphs: tagged algebraic expressions whose evaluation, after
//! odd-kernel reduction, produces the table index they are stored under.
//!
//! Parameters store the shifted operand (value times a power of two); the
//! shift is recovered for display as the trailing-zero count.

use vstd::prelude::*;
use crate::num::odd_kernel;

verus! {

/// One realization of a constant as a graph of adder primitives.
///
/// The three two-parameter forms are a single addition, subtraction or
/// product; the leapfrog forms combine two linear combinations and differ in
/// their sign pattern and in the presence of inner multiplicands.
#[derive(Clone, Copy, Debug, PartialEq, Eq, Structural)]
pub enum GraphType {
    Adder(usize, usize),
    Subtractor(usize, usize),
    Cascade(usize, usize),
    Leapfrog4_1(usize, usize, usize, usize),
    Leapfrog4_2(usize, usize, usize, usize),
    Leapfrog4_3(usize, usize, usize, usize),
    Leapfrog4_4(usize, usize, usize, usize),
    Leapfrog5_1(usize, usize, usize, usize, usize),
    Leapfrog5_2(usize, usize, usize, usize, usize),
    Leapfrog5_3(usize, usize, usize, usize, usize),
    Leapfrog5_4(usize, usize, usize, usize, usize),
    Leapfrog7_1(usize, usize, usize, usize, usize, usize, usize),
    Leapfrog7_2(usize, usize, usize, usize, usize, usize, usize),
    Leapfrog7_3(usize, usize, usize, usize, usize, usize, usize),
    Leapfrog7_4(usize, usize, usize, usize, usize, usize, usize),
    Leapfrog7_5(usize, usize, usize, usize, usize, usize, usize),
    Leapfrog7_6(usize, usize, usize, usize, usize, usize, usize),
    Leapfrog7_7(usize, usize, usize, usize, usize, usize, usize),
    Leapfrog7_8(usize, usize, usize, usize, usize, usize, usize),
}

/// Absolute difference.
pub open spec fn dist(a: int, b: int) -> int {
    if a >= b {
        a - b
    } else {
        b - a
    }
}

/// The value a graph evaluates to, before odd-kernel reduction.
pub open spec fn eval(g: GraphType) -> int {
    match g {
        GraphType::Adder(a, b) => a + b,
        GraphType::Subtractor(a, b) => dist(a as int, b as int),
        GraphType::Cascade(a, b) => a as int * b as int,
        GraphType::Leapfrog4_1(a, b, d, e) => e * (a + b) + a * d,
        GraphType::Leapfrog4_2(a, b, d, e) => dist(e as int * (a + b), a as int * d as int),
        GraphType::Leapfrog4_3(a, b, d, e) => e as int * dist(a as int, b as int) + a * d,
        GraphType::Leapfrog4_4(a, b, d, e) => dist(
            e as int * dist(a as int, b as int),
            a as int * d as int,
        ),
        GraphType::Leapfrog5_1(a, b, c, d, e) => e * (a * c + b) + a * d,
        GraphType::Leapfrog5_2(a, b, c, d, e) => dist(
            e as int * (a * c + b),
            a as int * d as int,
        ),
        GraphType::Leapfrog5_3(a, b, c, d, e) => e as int * dist(a as int * c as int, b as int)
            + a * d,
        GraphType::Leapfrog5_4(a, b, c, d, e) => dist(
            e as int * dist(a as int * c as int, b as int),
            a as int * d as int,
        ),
        GraphType::Leapfrog7_1(a, b, c, d, e, f, g) => g * (e * (a * c + b) + a * d) + f * (a * c
            + b),
        GraphType::Leapfrog7_2(a, b, c, d, e, f, g) => g as int * (e as int * dist(
            a as int * c as int,
            b as int,
        ) + a * d) + f as int * dist(a as int * c as int, b as int),
        GraphType::Leapfrog7_3(a, b, c, d, e, f, g) => g as int * dist(
            e as int * (a * c + b),
            a as int * d as int,
        ) + f * (a * c + b),
        GraphType::Leapfrog7_4(a, b, c, d, e, f, g) => dist(
            g as int * (e * (a * c + b) + a * d),
            f as int * (a * c + b),
        ),
        GraphType::Leapfrog7_5(a, b, c, d, e, f, g) => g as int * dist(
            e as int * dist(a as int * c as int, b as int),
            a as int * d as int,
        ) + f as int * dist(a as int * c as int, b as int),
        GraphType::Leapfrog7_6(a, b, c, d, e, f, g) => dist(
            g as int * (e as int * dist(a as int * c as int, b as int) + a * d),
            f as int * dist(a as int * c as int, b as int),
        ),
        GraphType::Leapfrog7_7(a, b, c, d, e, f, g) => dist(
            g as int * dist(e as int * (a * c + b), a as int * d as int),
            f as int * (a * c + b),
        ),
        GraphType::Leapfrog7_8(a, b, c, d, e, f, g) => dist(
            g as int * dist(
                e as int * dist(a as int * c as int, b as int),
                a as int * d as int,
            ),
            f as int * dist(a as int * c as int, b as int),
        ),
    }
}

/// The leaf parameters of a graph, in expression order.
pub open spec fn leaves(g: GraphType) -> Seq<usize> {
    match g {
        GraphType::Adder(a, b) => seq![a, b],
        GraphType::Subtractor(a, b) => seq![a, b],
        GraphType::Cascade(a, b) => seq![a, b],
        GraphType::Leapfrog4_1(a, b, d, e) => seq![a, b, d, e],
        GraphType::Leapfrog4_2(a, b, d, e) => seq![a, b, d, e],
        GraphType::Leapfrog4_3(a, b, d, e) => seq![a, b, d, e],
        GraphType::Leapfrog4_4(a, b, d, e) => seq![a, b, d, e],
        GraphType::Leapfrog5_1(a, b, c, d, e) => seq![a, b, c, d, e],
        GraphType::Leapfrog5_2(a, b, c, d, e) => seq![a, b, c, d, e],
        GraphType::Leapfrog5_3(a, b, c, d, e) => seq![a, b, c, d, e],
        GraphType::Leapfrog5_4(a, b, c, d, e) => seq![a, b, c, d, e],
        GraphType::Leapfrog7_1(a, b, c, d, e, f, g) => seq![a, b, c, d, e, f, g],
        GraphType::Leapfrog7_2(a, b, c, d, e, f, g) => seq![a, b, c, d, e, f, g],
        GraphType::Leapfrog7_3(a, b, c, d, e, f, g) => seq![a, b, c, d, e, f, g],
        GraphType::Leapfrog7_4(a, b, c, d, e, f, g) => seq![a, b, c, d, e, f, g],
        GraphType::Leapfrog7_5(a, b, c, d, e, f, g) => seq![a, b, c, d, e, f, g],
        GraphType::Leapfrog7_6(a, b, c, d, e, f, g) => seq![a, b, c, d, e, f, g],
        GraphType::Leapfrog7_7(a, b, c, d, e, f, g) => seq![a, b, c, d, e, f, g],
        GraphType::Leapfrog7_8(a, b, c, d, e, f, g) => seq![a, b, c, d, e, f, g],
    }
}

/// The stable on-disk tag of each variant.
pub open spec fn spec_tag(g: GraphType) -> u8 {
    match g {
        GraphType::Adder(..) => 0,
        GraphType::Subtractor(..) => 1,
        GraphType::Cascade(..) => 2,
        GraphType::Leapfrog4_1(..) => 3,
        GraphType::Leapfrog4_2(..) => 4,
        GraphType::Leapfrog4_3(..) => 5,
        GraphType::Leapfrog4_4(..) => 6,
        GraphType::Leapfrog5_1(..) => 7,
        GraphType::Leapfrog5_2(..) => 8,
        GraphType::Leapfrog5_3(..) => 9,
        GraphType::Leapfrog5_4(..) => 10,
        GraphType::Leapfrog7_1(..) => 11,
        GraphType::Leapfrog7_2(..) => 12,
        GraphType::Leapfrog7_3(..) => 13,
        GraphType::Leapfrog7_4(..) => 14,
        GraphType::Leapfrog7_5(..) => 15,
        GraphType::Leapfrog7_6(..) => 16,
        GraphType::Leapfrog7_7(..) => 17,
        GraphType::Leapfrog7_8(..) => 18,
    }
}

/// The number of parameters carried by records of a given tag.
pub open spec fn arity(tag: u8) -> nat {
    if tag <= 2 {
        2
    } else if tag <= 6 {
        4
    } else if tag <= 10 {
        5
    } else {
        7
    }
}

/// Each variant's leaf count matches the arity of its tag.
pub proof fn lemma_leaves_arity(g: GraphType)
    ensures
        leaves(g).len() == arity(spec_tag(g)),
        spec_tag(g) <= 18,
{
}

impl GraphType {
    /// The on-disk tag of this record.
    pub fn tag(&self) -> (t: u8)
        ensures
            t == spec_tag(*self),
    {
        match *self {
            GraphType::Adder(..) => 0,
            GraphType::Subtractor(..) => 1,
            GraphType::Cascade(..) => 2,
            GraphType::Leapfrog4_1(..) => 3,
            GraphType::Leapfrog4_2(..) => 4,
            GraphType::Leapfrog4_3(..) => 5,
            GraphType::Leapfrog4_4(..) => 6,
            GraphType::Leapfrog5_1(..) => 7,
            GraphType::Leapfrog5_2(..) => 8,
            GraphType::Leapfrog5_3(..) => 9,
            GraphType::Leapfrog5_4(..) => 10,
            GraphType::Leapfrog7_1(..) => 11,
            GraphType::Leapfrog7_2(..) => 12,
            GraphType::Leapfrog7_3(..) => 13,
            GraphType::Leapfrog7_4(..) => 14,
            GraphType::Leapfrog7_5(..) => 15,
            GraphType::Leapfrog7_6(..) => 16,
            GraphType::Leapfrog7_7(..) => 17,
            GraphType::Leapfrog7_8(..) => 18,
        }
    }

    /// The leaf parameters of this record, in expression order.
    pub fn params(&self) -> (r: Vec<usize>)
        ensures
            r@ == leaves(*self),
    {
        let mut r: Vec<usize> = Vec::new();
        match *self {
            GraphType::Adder(a, b) => {
                r.push(a);
                r.push(b);
            },
            GraphType::Subtractor(a, b) => {
                r.push(a);
                r.push(b);
            },
            GraphType::Cascade(a, b) => {
                r.push(a);
                r.push(b);
            },
            GraphType::Leapfrog4_1(a, b, d, e) => {
                r.push(a);
                r.push(b);
                r.push(d);
                r.push(e);
            },
            GraphType::Leapfrog4_2(a, b, d, e) => {
                r.push(a);
                r.push(b);
                r.push(d);
                r.push(e);
            },
            GraphType::Leapfrog4_3(a, b, d, e) => {
                r.push(a);
                r.push(b);
                r.push(d);
                r.push(e);
            },
            GraphType::Leapfrog4_4(a, b, d, e) => {
                r.push(a);
                r.push(b);
                r.push(d);
                r.push(e);
            },
            GraphType::Leapfrog5_1(a, b, c, d, e) => {
                r.push(a);
                r.push(b);
                r.push(c);
                r.push(d);
                r.push(e);
            },
            GraphType::Leapfrog5_2(a, b, c, d, e) => {
                r.push(a);
                r.push(b);
                r.push(c);
                r.push(d);
                r.push(e);
            },
            GraphType::Leapfrog5_3(a, b, c, d, e) => {
                r.push(a);
                r.push(b);
                r.push(c);
                r.push(d);
                r.push(e);
            },
            GraphType::Leapfrog5_4(a, b, c, d, e) => {
                r.push(a);
                r.push(b);
                r.push(c);
                r.push(d);
                r.push(e);
            },
            GraphType::Leapfrog7_1(a, b, c, d, e, f, g) => {
                r.push(a);
                r.push(b);
                r.push(c);
                r.push(d);
                r.push(e);
                r.push(f);
                r.push(g);
            },
            GraphType::Leapfrog7_2(a, b, c, d, e, f, g) => {
                r.push(a);
                r.push(b);
                r.push(c);
                r.push(d);
                r.push(e);
                r.push(f);
                r.push(g);
            },
            GraphType::Leapfrog7_3(a, b, c, d, e, f, g) => {
                r.push(a);
                r.push(b);
                r.push(c);
                r.push(d);
                r.push(e);
                r.push(f);
                r.push(g);
            },
            GraphType::Leapfrog7_4(a, b, c, d, e, f, g) => {
                r.push(a);
                r.push(b);
                r.push(c);
                r.push(d);
                r.push(e);
                r.push(f);
                r.push(g);
            },
            GraphType::Leapfrog7_5(a, b, c, d, e, f, g) => {
                r.push(a);
                r.push(b);
                r.push(c);
                r.push(d);
                r.push(e);
                r.push(f);
                r.push(g);
            },
            GraphType::Leapfrog7_6(a, b, c, d, e, f, g) => {
                r.push(a);
                r.push(b);
                r.push(c);
                r.push(d);
                r.push(e);
                r.push(f);
                r.push(g);
            },
            GraphType::Leapfrog7_7(a, b, c, d, e, f, g) => {
                r.push(a);
                r.push(b);
                r.push(c);
                r.push(d);
                r.push(e);
                r.push(f);
                r.push(g);
            },
            GraphType::Leapfrog7_8(a, b, c, d, e, f, g) => {
                r.push(a);
                r.push(b);
                r.push(c);
                r.push(d);
                r.push(e);
                r.push(f);
                r.push(g);
            },
        }
        proof {
            assert(r@ =~= leaves(*self));
        }
        r
    }
}

/// A graph is a valid realization of index `n` when its evaluation reduces
/// to `n` under the odd kernel.
pub open spec fn realizes(g: GraphType, n: nat) -> bool {
    odd_kernel(eval(g) as nat) == n
}

} // verus!
