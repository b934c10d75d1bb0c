//! Verified text rendering: decimal numbers, shifted-operand display, and
//! the graph record representation.

use vstd::prelude::*;
use crate::graph::{GraphType, leaves};
use crate::num::odd_kernel;

verus! {

/// The decimal digit character of `d`.
pub open spec fn dec_digit(d: nat) -> char {
    if d == 0 {
        '0'
    } else if d == 1 {
        '1'
    } else if d == 2 {
        '2'
    } else if d == 3 {
        '3'
    } else if d == 4 {
        '4'
    } else if d == 5 {
        '5'
    } else if d == 6 {
        '6'
    } else if d == 7 {
        '7'
    } else if d == 8 {
        '8'
    } else {
        '9'
    }
}

/// The decimal rendering of `n`, most significant digit first.
pub open spec fn dec_str(n: nat) -> Seq<char>
    decreases n,
{
    if n < 10 {
        seq![dec_digit(n)]
    } else {
        dec_str(n / 10) + seq![dec_digit(n % 10)]
    }
}

/// The characters of a digit list, highest-index digit first.
spec fn rev_chars(ds: Seq<usize>) -> Seq<char>
    decreases ds.len(),
{
    if ds.len() == 0 {
        Seq::empty()
    } else {
        seq![dec_digit(ds.last() as nat)] + rev_chars(ds.take(ds.len() - 1))
    }
}

proof fn lemma_rev_chars_index(ds: Seq<usize>, j: int)
    requires
        0 <= j < ds.len(),
    ensures
        rev_chars(ds).len() == ds.len(),
        rev_chars(ds)[j] == dec_digit(ds[ds.len() - 1 - j] as nat),
    decreases ds.len(),
{
    lemma_rev_chars_len(ds);
    if j > 0 {
        lemma_rev_chars_index(ds.take(ds.len() - 1), j - 1);
    }
}

proof fn lemma_rev_chars_len(ds: Seq<usize>)
    ensures
        rev_chars(ds).len() == ds.len(),
    decreases ds.len(),
{
    if ds.len() > 0 {
        lemma_rev_chars_len(ds.take(ds.len() - 1));
    }
}

/// The single-character string of one decimal digit.
fn digit_str(d: usize) -> (r: &'static str)
    requires
        d < 10,
    ensures
        r@ == seq![dec_digit(d as nat)],
{
    proof {
        reveal_strlit("0");
        reveal_strlit("1");
        reveal_strlit("2");
        reveal_strlit("3");
        reveal_strlit("4");
        reveal_strlit("5");
        reveal_strlit("6");
        reveal_strlit("7");
        reveal_strlit("8");
        reveal_strlit("9");
    }
    let r = if d == 0 {
        "0"
    } else if d == 1 {
        "1"
    } else if d == 2 {
        "2"
    } else if d == 3 {
        "3"
    } else if d == 4 {
        "4"
    } else if d == 5 {
        "5"
    } else if d == 6 {
        "6"
    } else if d == 7 {
        "7"
    } else if d == 8 {
        "8"
    } else {
        "9"
    };
    proof {
        assert(r@ =~= seq![dec_digit(d as nat)]);
    }
    r
}

/// Render `n` in decimal.
pub fn usize_to_string(n: usize) -> (r: String)
    ensures
        r@ == dec_str(n as nat),
{
    let mut ds: Vec<usize> = Vec::new();
    ds.push(n % 10);
    let mut m: usize = n / 10;
    proof {
        assert(ds@.take(ds@.len() - 1) =~= Seq::<usize>::empty());
        assert(rev_chars(Seq::<usize>::empty()) =~= Seq::<char>::empty());
        assert(rev_chars(ds@) == seq![dec_digit(ds@.last() as nat)] + rev_chars(
            ds@.take(ds@.len() - 1),
        ));
        assert(rev_chars(ds@) =~= seq![dec_digit((n % 10) as nat)]);
        if n < 10 {
            assert(dec_str(n as nat) == rev_chars(ds@));
        } else {
            assert(dec_str(n as nat) == dec_str(m as nat) + rev_chars(ds@));
        }
    }
    while m > 0
        invariant
            m > 0 ==> dec_str(n as nat) == dec_str(m as nat) + rev_chars(ds@),
            m == 0 ==> dec_str(n as nat) == rev_chars(ds@),
            ds@.len() >= 1,
            forall|i: int| 0 <= i < ds@.len() ==> #[trigger] ds@[i] < 10,
        decreases m,
    {
        let ghost ds0 = ds@;
        ds.push(m % 10);
        proof {
            assert(ds@.take(ds@.len() - 1) =~= ds0);
            assert(rev_chars(ds@) == seq![dec_digit((m % 10) as nat)] + rev_chars(ds0));
            if m >= 10 {
                assert(dec_str(m as nat) == dec_str((m / 10) as nat) + seq![
                    dec_digit((m % 10) as nat),
                ]);
                assert(dec_str((m / 10) as nat) + (seq![dec_digit((m % 10) as nat)] + rev_chars(
                    ds0,
                )) =~= dec_str(m as nat) + rev_chars(ds0));
            } else {
                assert(dec_str(m as nat) =~= seq![dec_digit((m % 10) as nat)]);
                assert(seq![dec_digit((m % 10) as nat)] + rev_chars(ds0) =~= dec_str(m as nat)
                    + rev_chars(ds0));
            }
        }
        m = m / 10;
    }
    let mut out = String::new();
    let mut k: usize = ds.len();
    while k > 0
        invariant
            k <= ds@.len(),
            forall|i: int| 0 <= i < ds@.len() ==> #[trigger] ds@[i] < 10,
            out@.len() == ds@.len() - k,
            forall|j: int|
                0 <= j < out@.len() ==> #[trigger] out@[j] == dec_digit(
                    ds@[ds@.len() - 1 - j] as nat,
                ),
        decreases k,
    {
        let d = ds[k - 1];
        out.append(digit_str(d));
        k = k - 1;
    }
    proof {
        lemma_rev_chars_len(ds@);
        assert forall|j: int| 0 <= j < ds@.len() implies rev_chars(ds@)[j] == out@[j] by {
            lemma_rev_chars_index(ds@, j);
        }
        assert(out@ =~= rev_chars(ds@));
    }
    out
}

/// The number of trailing zero bits of `n`; 0 for 0.
pub open spec fn shift_of(n: nat) -> nat
    decreases n,
{
    if n == 0 {
        0
    } else if n % 2 == 0 {
        1 + shift_of(n / 2)
    } else {
        0
    }
}

/// The display of a shifted operand: the odd kernel alone when the shift is
/// zero, else the kernel followed by the shift amount.
pub open spec fn spec_extract_shift(value: usize) -> Seq<char> {
    if shift_of(value as nat) == 0 {
        dec_str(value as nat)
    } else {
        dec_str(odd_kernel(value as nat)) + seq![' ', '<', '<', ' '] + dec_str(
            shift_of(value as nat),
        )
    }
}

/// Render a stored parameter as its odd part and shift.
pub fn extract_shift(value: usize) -> (r: String)
    requires
        value >= 1,
    ensures
        r@ == spec_extract_shift(value),
{
    let mut current: usize = value;
    let mut shift: usize = 0;
    proof {
        vstd::arithmetic::power2::lemma2_to64();
    }
    while current % 2 == 0
        invariant
            1 <= current <= value,
            odd_kernel(current as nat) == odd_kernel(value as nat),
            shift_of(value as nat) == shift + shift_of(current as nat),
            current as nat * vstd::arithmetic::power2::pow2(shift as nat) == value as nat,
        decreases current,
    {
        proof {
            let p = vstd::arithmetic::power2::pow2(shift as nat);
            vstd::arithmetic::power2::lemma_pow2_pos(shift as nat);
            assert(p <= value as nat) by (nonlinear_arith)
                requires
                    current >= 1,
                    current as nat * p == value as nat,
                    p >= 1,
            ;
            // the shift counter stays far below the word size
            assert(shift < 64) by {
                if shift >= 64 {
                    vstd::arithmetic::power2::lemma2_to64_rest();
                    if shift > 64 {
                        vstd::arithmetic::power2::lemma_pow2_strictly_increases(
                            64,
                            shift as nat,
                        );
                    }
                    assert(vstd::arithmetic::power2::pow2(shift as nat)
                        >= 0x1_0000_0000_0000_0000);
                }
            }
            vstd::arithmetic::power2::lemma_pow2_adds(shift as nat, 1);
            vstd::arithmetic::power2::lemma2_to64();
            assert((current / 2) as nat * vstd::arithmetic::power2::pow2((shift + 1) as nat)
                == value as nat) by (nonlinear_arith)
                requires
                    current % 2 == 0,
                    current >= 1,
                    current as nat * p == value as nat,
                    vstd::arithmetic::power2::pow2((shift + 1) as nat) == p * 2,
                    p == vstd::arithmetic::power2::pow2(shift as nat),
            ;
        }
        current = current / 2;
        shift = shift + 1;
    }
    if shift == 0 {
        usize_to_string(value)
    } else {
        let mut out = usize_to_string(current);
        proof {
            reveal_strlit(" << ");
            assert(" << "@ =~= seq![' ', '<', '<', ' ']);
        }
        out.append(" << ");
        let shift_text = usize_to_string(shift);
        out.append(shift_text.as_str());
        out
    }
}

/// The display name of a record's variant.
pub open spec fn spec_variant_name(g: GraphType) -> Seq<char> {
    match g {
        GraphType::Adder(..) => "Adder"@,
        GraphType::Subtractor(..) => "Subtractor"@,
        GraphType::Cascade(..) => "Cascade"@,
        GraphType::Leapfrog4_1(..) => "Leapfrog4_1"@,
        GraphType::Leapfrog4_2(..) => "Leapfrog4_2"@,
        GraphType::Leapfrog4_3(..) => "Leapfrog4_3"@,
        GraphType::Leapfrog4_4(..) => "Leapfrog4_4"@,
        GraphType::Leapfrog5_1(..) => "Leapfrog5_1"@,
        GraphType::Leapfrog5_2(..) => "Leapfrog5_2"@,
        GraphType::Leapfrog5_3(..) => "Leapfrog5_3"@,
        GraphType::Leapfrog5_4(..) => "Leapfrog5_4"@,
        GraphType::Leapfrog7_1(..) => "Leapfrog7_1"@,
        GraphType::Leapfrog7_2(..) => "Leapfrog7_2"@,
        GraphType::Leapfrog7_3(..) => "Leapfrog7_3"@,
        GraphType::Leapfrog7_4(..) => "Leapfrog7_4"@,
        GraphType::Leapfrog7_5(..) => "Leapfrog7_5"@,
        GraphType::Leapfrog7_6(..) => "Leapfrog7_6"@,
        GraphType::Leapfrog7_7(..) => "Leapfrog7_7"@,
        GraphType::Leapfrog7_8(..) => "Leapfrog7_8"@,
    }
}

/// The display of the parameters of a record, comma separated, from `i` on.
pub open spec fn spec_params_repr(ps: Seq<usize>, i: int) -> Seq<char>
    decreases ps.len() - i,
{
    if 0 <= i < ps.len() {
        if i + 1 == ps.len() {
            spec_extract_shift(ps[i])
        } else {
            spec_extract_shift(ps[i]) + seq![',', ' '] + spec_params_repr(ps, i + 1)
        }
    } else {
        Seq::empty()
    }
}

/// The display of one record: its variant name and its parameters, each as
/// odd part and shift.
pub open spec fn spec_repr(g: GraphType) -> Seq<char> {
    spec_variant_name(g) + seq!['('] + spec_params_repr(leaves(g), 0) + seq![')']
}

impl GraphType {
    /// The display name of this record's variant.
    pub fn variant_name(&self) -> (r: &'static str)
        ensures
            r@ == spec_variant_name(*self),
    {
        match *self {
            GraphType::Adder(..) => "Adder",
            GraphType::Subtractor(..) => "Subtractor",
            GraphType::Cascade(..) => "Cascade",
            GraphType::Leapfrog4_1(..) => "Leapfrog4_1",
            GraphType::Leapfrog4_2(..) => "Leapfrog4_2",
            GraphType::Leapfrog4_3(..) => "Leapfrog4_3",
            GraphType::Leapfrog4_4(..) => "Leapfrog4_4",
            GraphType::Leapfrog5_1(..) => "Leapfrog5_1",
            GraphType::Leapfrog5_2(..) => "Leapfrog5_2",
            GraphType::Leapfrog5_3(..) => "Leapfrog5_3",
            GraphType::Leapfrog5_4(..) => "Leapfrog5_4",
            GraphType::Leapfrog7_1(..) => "Leapfrog7_1",
            GraphType::Leapfrog7_2(..) => "Leapfrog7_2",
            GraphType::Leapfrog7_3(..) => "Leapfrog7_3",
            GraphType::Leapfrog7_4(..) => "Leapfrog7_4",
            GraphType::Leapfrog7_5(..) => "Leapfrog7_5",
            GraphType::Leapfrog7_6(..) => "Leapfrog7_6",
            GraphType::Leapfrog7_7(..) => "Leapfrog7_7",
            GraphType::Leapfrog7_8(..) => "Leapfrog7_8",
        }
    }

    /// Render this record for display: the variant name, then each parameter
    /// as its odd part and shift.
    pub fn repr(&self) -> (r: String)
        requires
            forall|k: int| 0 <= k < leaves(*self).len() ==> 1 <= #[trigger] leaves(*self)[k],
        ensures
            r@ == spec_repr(*self),
    {
        let mut out = self.variant_name().to_owned();
        proof {
            reveal_strlit("(");
            reveal_strlit(")");
            reveal_strlit(", ");
            assert("("@ =~= seq!['(']);
            assert(")"@ =~= seq![')']);
            assert(", "@ =~= seq![',', ' ']);
        }
        out.append("(");
        let params = self.params();
        let mut p: usize = 0;
        while p < params.len()
            invariant
                p <= params@.len(),
                params@ == leaves(*self),
                forall|k: int| 0 <= k < leaves(*self).len() ==> 1 <= #[trigger] leaves(*self)[k],
                "("@ == seq!['('],
                ")"@ == seq![')'],
                ", "@ == seq![',', ' '],
                p < params@.len() ==> out@ + spec_params_repr(leaves(*self), p as int)
                    == spec_variant_name(*self) + seq!['('] + spec_params_repr(leaves(*self), 0),
                p == params@.len() ==> out@ == spec_variant_name(*self) + seq!['(']
                    + spec_params_repr(leaves(*self), 0),
            decreases params@.len() - p,
        {
            let ghost out0 = out@;
            let part = extract_shift(params[p]);
            out.append(part.as_str());
            if p + 1 < params.len() {
                out.append(", ");
                proof {
                    assert(spec_params_repr(leaves(*self), p as int) == spec_extract_shift(
                        params@[p as int],
                    ) + seq![',', ' '] + spec_params_repr(leaves(*self), p as int + 1));
                    assert(out@ + spec_params_repr(leaves(*self), p as int + 1) =~= out0
                        + spec_params_repr(leaves(*self), p as int));
                }
            } else {
                proof {
                    assert(spec_params_repr(leaves(*self), p as int) == spec_extract_shift(
                        params@[p as int],
                    ));
                    assert(out@ =~= out0 + spec_params_repr(leaves(*self), p as int));
                }
            }
            p = p + 1;
        }
        proof {
            if params@.len() == 0 {
                assert(spec_params_repr(leaves(*self), 0) =~= Seq::<char>::empty());
                assert(out@ =~= spec_variant_name(*self) + seq!['('] + spec_params_repr(
                    leaves(*self),
                    0,
                ));
            }
        }
        out.append(")");
        proof {
            assert(out@ =~= spec_repr(*self));
        }
        out
    }
}

} // verus!
