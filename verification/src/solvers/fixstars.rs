//! The Fixstars Amplify solver: a formula becomes a request of constraints over
//! binary variables, one per cell of the formula, and the answer is read back.

pub mod models;

use vstd::prelude::*;
use vstd::string::*;
use std::sync::Arc;
use std::time::Duration;
use crate::cnf::Cnf;
use crate::solvers::{SolverError, SolverOutput};
use crate::util::ResultExt;
use models::request::{
    Condition, ConditionView, Constraint, ConstraintView, Outputs, Polynomial, RequestBody, Term,
};

verus! {

/// The comparison that every condition uses: equality.
pub open spec fn eq_op() -> Seq<char> {
    seq!['E', 'Q']
}

/// The linear terms `x_start, ..., x_(start + len - 1)`, each of coefficient 1.
pub open spec fn clause_left(start: int, len: int) -> Seq<Term> {
    Seq::new(len as nat, |k: int| Term::XK(((start + k) as usize, 1i32)))
}

/// The penalty terms that pair `x_p` with each of `x_p, ..., x_(end - 1)`:
/// `-x_p` (as `x_p * x_p == x_p`), then `2 x_p x_q` for each `q > p`.
pub open spec fn penalty_row(p: int, end: int) -> Seq<Term> {
    Seq::new(
        (end - p) as nat,
        |k: int|
            if k == 0 {
                Term::XK((p as usize, -1i32))
            } else {
                Term::XYK((p as usize, (p + k) as usize, 2i32))
            },
    )
}

/// The penalty rows of `x_start, ..., x_(p - 1)`, each paired up to `end`.
pub open spec fn penalty_rows(start: int, p: int, end: int) -> Seq<Term>
    decreases p - start,
{
    if p <= start {
        Seq::empty()
    } else {
        penalty_rows(start, p - 1, end) + penalty_row(p - 1, end)
    }
}

/// The constraint that exactly one of the variables `x_start, ..., x_(start + len - 1)`
/// is set: their sum equals 1, with the penalty `(sum - 1)^2` expanded over binary
/// variables.
pub open spec fn clause_constraint(start: int, len: int) -> ConstraintView {
    ConstraintView {
        condition: ConditionView { left: clause_left(start, len), op: eq_op(), right: 1 },
        multiplier: 1,
        penalty: penalty_rows(start, start + len, start + len).push(Term::K((1i32,))),
    }
}

/// The clause constraints of clauses `0..count`, in order; clause `i` covers
/// the variables `i * len .. (i + 1) * len`.
pub open spec fn clause_constraints(count: int, len: int) -> Seq<ConstraintView> {
    Seq::new(count as nat, |i: int| clause_constraint(i * len, len))
}

/// The constraint that the variables `x_p` and `x_q` are not both set.
pub open spec fn contradiction_constraint(p: int, q: int) -> ConstraintView {
    ConstraintView {
        condition: ConditionView {
            left: seq![Term::XYK((p as usize, q as usize, 1i32))],
            op: eq_op(),
            right: 0,
        },
        multiplier: 1,
        penalty: seq![Term::XYK((p as usize, q as usize, 1i32))],
    }
}

/// Whether the literal in cell `(i1, j1)` and the one in cell `(i2, j2)` are
/// complementary: they sum to zero.
pub open spec fn complementary(rows: Seq<Seq<i32>>, i1: int, j1: int, i2: int, j2: int) -> bool {
    rows[i1][j1] as int + rows[i2][j2] as int == 0
}

/// The contradiction constraints of cell `(i1, j1)` against the cells
/// `(i2, 0), ..., (i2, j2 - 1)`.
pub open spec fn contradictions_j2(
    rows: Seq<Seq<i32>>,
    len: int,
    i1: int,
    j1: int,
    i2: int,
    j2: int,
) -> Seq<ConstraintView>
    decreases j2,
{
    if j2 <= 0 {
        Seq::empty()
    } else {
        contradictions_j2(rows, len, i1, j1, i2, j2 - 1) + if complementary(rows, i1, j1, i2, j2 - 1) {
            seq![contradiction_constraint(i1 * len + j1, i2 * len + j2 - 1)]
        } else {
            Seq::empty()
        }
    }
}

/// The contradiction constraints of cell `(i1, j1)` against every cell of the
/// clauses `0..i2`.
pub open spec fn contradictions_i2(rows: Seq<Seq<i32>>, len: int, i1: int, j1: int, i2: int) -> Seq<
    ConstraintView,
>
    decreases i2,
{
    if i2 <= 0 {
        Seq::empty()
    } else {
        contradictions_i2(rows, len, i1, j1, i2 - 1) + contradictions_j2(rows, len, i1, j1, i2 - 1, len)
    }
}

/// The contradiction constraints of the cells `(i1, 0), ..., (i1, j1 - 1)`
/// against every cell of the `count` clauses.
pub open spec fn contradictions_j1(rows: Seq<Seq<i32>>, len: int, count: int, i1: int, j1: int) -> Seq<
    ConstraintView,
>
    decreases j1,
{
    if j1 <= 0 {
        Seq::empty()
    } else {
        contradictions_j1(rows, len, count, i1, j1 - 1) + contradictions_i2(rows, len, i1, j1 - 1, count)
    }
}

/// The contradiction constraints of every cell of the clauses `0..i1` against
/// every cell of the `count` clauses, in the order of the cells `(i1, j1, i2, j2)`.
pub open spec fn contradictions_i1(rows: Seq<Seq<i32>>, len: int, count: int, i1: int) -> Seq<
    ConstraintView,
>
    decreases i1,
{
    if i1 <= 0 {
        Seq::empty()
    } else {
        contradictions_i1(rows, len, count, i1 - 1) + contradictions_j1(rows, len, count, i1 - 1, len)
    }
}

/// What the constraints of a formula state: one clause constraint per clause, then
/// one contradiction constraint for each ordered pair of cells whose literals are
/// complementary.
pub open spec fn formula_constraints(rows: Seq<Seq<i32>>, count: int, len: int) -> Seq<ConstraintView> {
    clause_constraints(count, len) + contradictions_i1(rows, len, count, count)
}

/// The views of a sequence of constraints.
pub open spec fn views(cs: Seq<Constraint>) -> Seq<ConstraintView> {
    cs.map_values(|c: Constraint| c@)
}

proof fn lemma_views_push(cs: Seq<Constraint>, c: Constraint)
    ensures
        views(cs.push(c)) == views(cs).push(c@),
{
    assert(views(cs.push(c)) =~= views(cs).push(c@));
}

proof fn lemma_cell_index(i: int, j: int, count: int, len: int)
    requires
        0 <= i < count,
        0 <= j,
        0 <= len,
    ensures
        j < len ==> i * len + j < count * len,
        i * len + len <= count * len,
        0 <= i * len,
{
    assert(i * len + len <= count * len) by (nonlinear_arith)
        requires
            0 <= i < count,
            0 <= len,
    ;
    assert(0 <= i * len) by (nonlinear_arith)
        requires
            0 <= i,
            0 <= len,
    ;
}

proof fn lemma_concat_contains(s: Seq<ConstraintView>, t: Seq<ConstraintView>, x: ConstraintView)
    ensures
        (s + t).contains(x) <==> (s.contains(x) || t.contains(x)),
{
    if (s + t).contains(x) {
        let k = choose|k: int| 0 <= k < (s + t).len() && (s + t)[k] == x;
        if k < s.len() {
            assert(s[k] == x);
        } else {
            assert(t[k - s.len()] == x);
        }
    }
    if s.contains(x) {
        let k = choose|k: int| 0 <= k < s.len() && s[k] == x;
        assert((s + t)[k] == x);
    }
    if t.contains(x) {
        let k = choose|k: int| 0 <= k < t.len() && t[k] == x;
        assert((s + t)[s.len() + k] == x);
    }
}

/// The cell `(i2, j2)` is among those of clause `i2` before `j2end` that pair with
/// `(i1, j1)`, exactly where the two are complementary.
#[verifier::spinoff_prover]
proof fn lemma_j2_contains(
    rows: Seq<Seq<i32>>,
    len: int,
    i1: int,
    j1: int,
    i2: int,
    j2end: int,
    x: ConstraintView,
)
    requires
        0 <= j2end,
    ensures
        contradictions_j2(rows, len, i1, j1, i2, j2end).contains(x) <==> exists|d: int|
            0 <= d < j2end && complementary(rows, i1, j1, i2, d) && x == #[trigger] contradiction_constraint(
                i1 * len + j1,
                i2 * len + d,
            ),
    decreases j2end,
{
    if j2end > 0 {
        let prev = contradictions_j2(rows, len, i1, j1, i2, j2end - 1);
        let tail = if complementary(rows, i1, j1, i2, j2end - 1) {
            seq![contradiction_constraint(i1 * len + j1, i2 * len + j2end - 1)]
        } else {
            Seq::empty()
        };
        lemma_concat_contains(prev, tail, x);
        lemma_j2_contains(rows, len, i1, j1, i2, j2end - 1, x);
        if tail.contains(x) {
            assert(tail[0] == x);
            assert(contradiction_constraint(i1 * len + j1, i2 * len + (j2end - 1)) == x);
        }
        if exists|d: int|
            0 <= d < j2end && complementary(rows, i1, j1, i2, d) && x == #[trigger] contradiction_constraint(
                i1 * len + j1,
                i2 * len + d,
            ) {
            let d = choose|d: int|
                0 <= d < j2end && complementary(rows, i1, j1, i2, d) && x == #[trigger] contradiction_constraint(
                    i1 * len + j1,
                    i2 * len + d,
                );
            if d == j2end - 1 {
                assert(tail[0] == x);
            }
        }
    }
}

#[verifier::spinoff_prover]
proof fn lemma_i2_contains(rows: Seq<Seq<i32>>, len: int, i1: int, j1: int, i2end: int, x: ConstraintView)
    requires
        0 <= i2end,
        0 <= len,
    ensures
        contradictions_i2(rows, len, i1, j1, i2end).contains(x) <==> exists|c: int, d: int|
            0 <= c < i2end && 0 <= d < len && complementary(rows, i1, j1, c, d) && x
                == #[trigger] contradiction_constraint(i1 * len + j1, c * len + d),
    decreases i2end,
{
    if i2end > 0 {
        let prev = contradictions_i2(rows, len, i1, j1, i2end - 1);
        let tail = contradictions_j2(rows, len, i1, j1, i2end - 1, len);
        lemma_concat_contains(prev, tail, x);
        lemma_i2_contains(rows, len, i1, j1, i2end - 1, x);
        lemma_j2_contains(rows, len, i1, j1, i2end - 1, len, x);
        if exists|c: int, d: int|
            0 <= c < i2end && 0 <= d < len && complementary(rows, i1, j1, c, d) && x
                == #[trigger] contradiction_constraint(i1 * len + j1, c * len + d) {
            let (c, d) = choose|c: int, d: int|
                0 <= c < i2end && 0 <= d < len && complementary(rows, i1, j1, c, d) && x
                    == #[trigger] contradiction_constraint(i1 * len + j1, c * len + d);
            if c == i2end - 1 {
                assert(tail.contains(x));
            } else {
                assert(prev.contains(x));
            }
        }
    }
}

#[verifier::spinoff_prover]
proof fn lemma_j1_contains(rows: Seq<Seq<i32>>, len: int, count: int, i1: int, j1end: int, x: ConstraintView)
    requires
        0 <= j1end,
        0 <= len,
        0 <= count,
    ensures
        contradictions_j1(rows, len, count, i1, j1end).contains(x) <==> exists|b: int, c: int, d: int|
            0 <= b < j1end && 0 <= c < count && 0 <= d < len && complementary(rows, i1, b, c, d) && x
                == #[trigger] contradiction_constraint(i1 * len + b, c * len + d),
    decreases j1end,
{
    if j1end > 0 {
        let prev = contradictions_j1(rows, len, count, i1, j1end - 1);
        let tail = contradictions_i2(rows, len, i1, j1end - 1, count);
        lemma_concat_contains(prev, tail, x);
        lemma_j1_contains(rows, len, count, i1, j1end - 1, x);
        lemma_i2_contains(rows, len, i1, j1end - 1, count, x);
        if exists|b: int, c: int, d: int|
            0 <= b < j1end && 0 <= c < count && 0 <= d < len && complementary(rows, i1, b, c, d) && x
                == #[trigger] contradiction_constraint(i1 * len + b, c * len + d) {
            let (b, c, d) = choose|b: int, c: int, d: int|
                0 <= b < j1end && 0 <= c < count && 0 <= d < len && complementary(rows, i1, b, c, d) && x
                    == #[trigger] contradiction_constraint(i1 * len + b, c * len + d);
            if b == j1end - 1 {
                assert(tail.contains(x));
            } else {
                assert(prev.contains(x));
            }
        }
    }
}

#[verifier::spinoff_prover]
proof fn lemma_i1_contains(rows: Seq<Seq<i32>>, len: int, count: int, i1end: int, x: ConstraintView)
    requires
        0 <= i1end,
        0 <= len,
        0 <= count,
    ensures
        contradictions_i1(rows, len, count, i1end).contains(x) <==> exists|a: int, b: int, c: int, d: int|
            0 <= a < i1end && 0 <= b < len && 0 <= c < count && 0 <= d < len && complementary(rows, a, b, c, d)
                && x == #[trigger] contradiction_constraint(a * len + b, c * len + d),
    decreases i1end,
{
    if i1end > 0 {
        let prev = contradictions_i1(rows, len, count, i1end - 1);
        let tail = contradictions_j1(rows, len, count, i1end - 1, len);
        lemma_concat_contains(prev, tail, x);
        lemma_i1_contains(rows, len, count, i1end - 1, x);
        lemma_j1_contains(rows, len, count, i1end - 1, len, x);
        if exists|a: int, b: int, c: int, d: int|
            0 <= a < i1end && 0 <= b < len && 0 <= c < count && 0 <= d < len && complementary(rows, a, b, c, d)
                && x == #[trigger] contradiction_constraint(a * len + b, c * len + d) {
            let (a, b, c, d) = choose|a: int, b: int, c: int, d: int|
                0 <= a < i1end && 0 <= b < len && 0 <= c < count && 0 <= d < len && complementary(
                    rows,
                    a,
                    b,
                    c,
                    d,
                ) && x == #[trigger] contradiction_constraint(a * len + b, c * len + d);
            if a == i1end - 1 {
                assert(tail.contains(x));
            } else {
                assert(prev.contains(x));
            }
        }
    }
}

/// Distinct cells of a grid of rows of `len` cells have distinct numbers.
proof fn lemma_cell_number_injective(a: int, b: int, c: int, d: int, len: int)
    requires
        0 <= a,
        0 <= c,
        0 <= b < len,
        0 <= d < len,
        a * len + b == c * len + d,
    ensures
        a == c,
        b == d,
{
    if a < c {
        assert(a * len + b < c * len + d) by (nonlinear_arith)
            requires
                a < c,
                0 <= b < len,
                0 <= d,
        ;
    } else if c < a {
        assert(c * len + d < a * len + b) by (nonlinear_arith)
            requires
                c < a,
                0 <= d < len,
                0 <= b,
        ;
    }
}

/// The request forbids exactly the complementary choices: for any two cells
/// `(i1, j1)` and `(i2, j2)` of a formula, the constraints hold the contradiction
/// constraint on their variables `x_(i1 * len + j1)` and `x_(i2 * len + j2)` exactly
/// where the two literals are complementary.
#[verifier::spinoff_prover]
pub proof fn lemma_contradictions_exact(
    rows: Seq<Seq<i32>>,
    count: int,
    len: int,
    i1: int,
    j1: int,
    i2: int,
    j2: int,
)
    requires
        rows.len() == count,
        forall|i: int| 0 <= i < count ==> #[trigger] rows[i].len() == len,
        count * len <= usize::MAX,
        0 <= i1 < count,
        0 <= j1 < len,
        0 <= i2 < count,
        0 <= j2 < len,
    ensures
        formula_constraints(rows, count, len).contains(
            contradiction_constraint(i1 * len + j1, i2 * len + j2),
        ) <==> complementary(rows, i1, j1, i2, j2),
{
    let x = contradiction_constraint(i1 * len + j1, i2 * len + j2);
    lemma_i1_contains(rows, len, count, count, x);
    lemma_concat_contains(clause_constraints(count, len), contradictions_i1(rows, len, count, count), x);
    lemma_cell_index(i1, j1, count, len);
    lemma_cell_index(i2, j2, count, len);
    if clause_constraints(count, len).contains(x) {
        let k = choose|k: int| 0 <= k < clause_constraints(count, len).len() && clause_constraints(count, len)[k] == x;
        assert(clause_constraints(count, len)[k].condition.right == 1);
    }
    if contradictions_i1(rows, len, count, count).contains(x) {
        let (a, b, c, d) = choose|a: int, b: int, c: int, d: int|
            0 <= a < count && 0 <= b < len && 0 <= c < count && 0 <= d < len && complementary(rows, a, b, c, d)
                && x == #[trigger] contradiction_constraint(a * len + b, c * len + d);
        lemma_cell_index(a, b, count, len);
        lemma_cell_index(c, d, count, len);
        let y = contradiction_constraint(a * len + b, c * len + d);
        assert(x.penalty[0] == y.penalty[0]);
        assert((i1 * len + j1) as usize == (a * len + b) as usize);
        assert((i2 * len + j2) as usize == (c * len + d) as usize);
        lemma_cell_number_injective(i1, j1, a, b, len);
        lemma_cell_number_injective(i2, j2, c, d, len);
    }
}

/// The value of a term where each binary variable `x_i` takes the value `x[i]`.
pub open spec fn term_value(t: Term, x: Seq<int>) -> int {
    match t {
        Term::XYK((p, q, k)) => k * x[p as int] * x[q as int],
        Term::XK((p, k)) => k * x[p as int],
        Term::K((k,)) => k as int,
    }
}

/// The value of a polynomial, the sum of its terms, where `x_i` is `x[i]`.
pub open spec fn poly_value(ts: Seq<Term>, x: Seq<int>) -> int
    decreases ts.len(),
{
    if ts.len() == 0 {
        0
    } else {
        poly_value(ts.drop_last(), x) + term_value(ts.last(), x)
    }
}

/// The sum `x[a] + ... + x[e - 1]`.
pub open spec fn window_sum(x: Seq<int>, a: int, e: int) -> int
    decreases e - a,
{
    if e <= a {
        0
    } else {
        window_sum(x, a, e - 1) + x[e - 1]
    }
}

/// The penalty value of row `r`: `-x_r + 2 x_r (x_(r+1) + ... + x_(e-1))`.
pub open spec fn row_value(x: Seq<int>, r: int, e: int) -> int {
    -x[r] + 2 * x[r] * window_sum(x, r + 1, e)
}

/// The sum of the penalty values of the rows `a .. p`.
pub open spec fn rows_value(x: Seq<int>, a: int, p: int, e: int) -> int
    decreases p - a,
{
    if p <= a {
        0
    } else {
        rows_value(x, a, p - 1, e) + row_value(x, p - 1, e)
    }
}

proof fn lemma_poly_value_concat(s: Seq<Term>, t: Seq<Term>, x: Seq<int>)
    ensures
        poly_value(s + t, x) == poly_value(s, x) + poly_value(t, x),
    decreases t.len(),
{
    if t.len() > 0 {
        assert((s + t).drop_last() =~= s + t.drop_last());
        lemma_poly_value_concat(s, t.drop_last(), x);
    }
}

proof fn lemma_window_sum_front(x: Seq<int>, a: int, e: int)
    requires
        a < e,
    ensures
        window_sum(x, a, e) == x[a] + window_sum(x, a + 1, e),
    decreases e - a,
{
    if a < e - 1 {
        lemma_window_sum_front(x, a, e - 1);
        assert(window_sum(x, a + 1, e) == window_sum(x, a + 1, e - 1) + x[e - 1]);
    } else {
        assert(window_sum(x, a, a) == 0);
        assert(window_sum(x, a + 1, e) == 0);
    }
}

proof fn lemma_rows_value_front(x: Seq<int>, a: int, p: int, e: int)
    requires
        a < p,
    ensures
        rows_value(x, a, p, e) == row_value(x, a, e) + rows_value(x, a + 1, p, e),
    decreases p - a,
{
    if a < p - 1 {
        lemma_rows_value_front(x, a, p - 1, e);
        assert(rows_value(x, a + 1, p, e) == rows_value(x, a + 1, p - 1, e) + row_value(x, p - 1, e));
    } else {
        assert(rows_value(x, a, a, e) == 0);
        assert(rows_value(x, a + 1, p, e) == 0);
    }
}

#[verifier::spinoff_prover]
proof fn lemma_penalty_row_value(x: Seq<int>, r: int, e: int)
    requires
        0 <= r < e <= x.len(),
        e <= usize::MAX,
    ensures
        poly_value(penalty_row(r, e), x) == row_value(x, r, e),
    decreases e - r,
{
    if e - 1 == r {
        let row = penalty_row(r, e);
        assert(row.drop_last() =~= Seq::<Term>::empty());
        assert(row.last() == Term::XK((r as usize, -1i32)));
        assert((r as usize) as int == r);
        assert(poly_value(row.drop_last(), x) == 0);
        assert(window_sum(x, r + 1, e) == 0);
        assert(term_value(Term::XK((r as usize, -1i32)), x) == -1 * x[r]);
        assert(term_value(row.last(), x) == -x[r]);
        let w = window_sum(x, r + 1, e);
        assert(2 * x[r] * w == 0) by (nonlinear_arith)
            requires
                w == 0,
        ;
        assert(poly_value(row, x) == poly_value(row.drop_last(), x) + term_value(row.last(), x));
    } else {
        lemma_penalty_row_value(x, r, e - 1);
        let row = penalty_row(r, e);
        assert(row.drop_last() =~= penalty_row(r, e - 1));
        assert(row.last() == Term::XYK((r as usize, (e - 1) as usize, 2i32)));
        assert(window_sum(x, r + 1, e) == window_sum(x, r + 1, e - 1) + x[e - 1]);
        assert((r as usize) as int == r);
        assert(((e - 1) as usize) as int == e - 1);
        assert(term_value(Term::XYK((r as usize, (e - 1) as usize, 2i32)), x) == 2 * x[r] * x[e - 1]);
        assert(term_value(row.last(), x) == 2 * x[r] * x[e - 1]);
        assert(2 * x[r] * x[e - 1] + 2 * x[r] * window_sum(x, r + 1, e - 1) == 2 * x[r] * (window_sum(
            x,
            r + 1,
            e - 1,
        ) + x[e - 1])) by (nonlinear_arith);
        assert(poly_value(row, x) == poly_value(row.drop_last(), x) + term_value(row.last(), x));
    }
}

proof fn lemma_penalty_rows_value(x: Seq<int>, a: int, p: int, e: int)
    requires
        0 <= a <= p <= e <= x.len(),
        e <= usize::MAX,
    ensures
        poly_value(penalty_rows(a, p, e), x) == rows_value(x, a, p, e),
    decreases p - a,
{
    if p > a {
        lemma_penalty_rows_value(x, a, p - 1, e);
        lemma_poly_value_concat(penalty_rows(a, p - 1, e), penalty_row(p - 1, e), x);
        lemma_penalty_row_value(x, p - 1, e);
    }
}

#[verifier::spinoff_prover]
proof fn lemma_rows_value_square(x: Seq<int>, a: int, e: int)
    requires
        0 <= a <= e <= x.len(),
        forall|i: int| a <= i < e ==> #[trigger] x[i] == 0 || x[i] == 1,
    ensures
        rows_value(x, a, e, e) + 1 == (window_sum(x, a, e) - 1) * (window_sum(x, a, e) - 1),
    decreases e - a,
{
    if a == e {
        assert(rows_value(x, a, e, e) == 0);
        assert(window_sum(x, a, e) == 0);
    } else {
        lemma_rows_value_square(x, a + 1, e);
        lemma_rows_value_front(x, a, e, e);
        lemma_window_sum_front(x, a, e);
        let v = x[a];
        let w = window_sum(x, a + 1, e);
        let r = rows_value(x, a + 1, e, e);
        assert(v == 0 || v == 1);
        assert(-v + 2 * v * w + r + 1 == (v + w - 1) * (v + w - 1)) by (nonlinear_arith)
            requires
                v == 0 || v == 1,
                r + 1 == (w - 1) * (w - 1),
        ;
    }
}

/// The penalty of a clause constraint is the squared distance of its sum from 1:
/// where each of the variables `x_start, ..., x_(start + len - 1)` is 0 or 1, the
/// penalty's value is `(x_start + ... + x_(start + len - 1) - 1)^2`, which is 0
/// exactly where one of them is set.
pub proof fn lemma_clause_penalty_value(x: Seq<int>, start: int, len: int)
    requires
        0 <= start,
        0 <= len,
        start + len <= x.len(),
        start + len <= usize::MAX,
        forall|i: int| start <= i < start + len ==> #[trigger] x[i] == 0 || x[i] == 1,
    ensures
        poly_value(clause_constraint(start, len).penalty, x) == (window_sum(x, start, start + len) - 1) * (
        window_sum(x, start, start + len) - 1),
{
    let e = start + len;
    let pen = clause_constraint(start, len).penalty;
    lemma_penalty_rows_value(x, start, e, e);
    lemma_rows_value_square(x, start, e);
    assert(pen.drop_last() =~= penalty_rows(start, e, e));
}

/// The condition of a clause constraint is the sum of the clause's variables.
#[verifier::spinoff_prover]
pub proof fn lemma_clause_condition_value(x: Seq<int>, start: int, len: int)
    requires
        0 <= start,
        0 <= len,
        start + len <= x.len(),
        start + len <= usize::MAX,
    ensures
        poly_value(clause_constraint(start, len).condition.left, x) == window_sum(x, start, start + len),
    decreases len,
{
    if len > 0 {
        lemma_clause_condition_value(x, start, len - 1);
        assert(clause_left(start, len).drop_last() =~= clause_left(start, len - 1));
        assert(clause_left(start, len).last() == Term::XK(((start + len - 1) as usize, 1i32)));
        assert(((start + len - 1) as usize) as int == start + len - 1);
        let t = clause_left(start, len).last();
        assert(t == Term::XK(((start + len - 1) as usize, 1i32)));
        assert(term_value(Term::XK(((start + len - 1) as usize, 1i32)), x) == 1 * x[start + len - 1]);
        assert(term_value(t, x) == x[start + len - 1]);
        assert(window_sum(x, start, start + len) == window_sum(x, start, start + len - 1) + x[start + len - 1]);
    } else {
        assert(clause_left(start, len) =~= Seq::<Term>::empty());
        assert(window_sum(x, start, start) == 0);
    }
}

/// Whether a literal holds where variable `v` has the truth value `a(v)`: a positive
/// literal where its variable is true, a negative one where it is false; the
/// literal 0 never holds.
pub open spec fn literal_holds(literal: int, a: spec_fn(int) -> bool) -> bool {
    (literal > 0 && a(literal)) || (literal < 0 && !a(-literal))
}

/// Whether some literal of a clause holds under `a`.
pub open spec fn clause_holds(row: Seq<i32>, a: spec_fn(int) -> bool) -> bool {
    exists|j: int| 0 <= j < row.len() && #[trigger] literal_holds(row[j] as int, a)
}

/// Whether the assignment `a` satisfies the formula: some literal of each clause holds.
pub open spec fn satisfies(rows: Seq<Seq<i32>>, a: spec_fn(int) -> bool) -> bool {
    forall|i: int| 0 <= i < rows.len() ==> #[trigger] clause_holds(rows[i], a)
}

/// Whether some assignment satisfies the formula.
pub open spec fn satisfiable(rows: Seq<Seq<i32>>) -> bool {
    exists|a: spec_fn(int) -> bool| satisfies(rows, a)
}

/// Whether the values `x` of the binary variables meet a constraint's condition
/// `left op right`: under `EQ` the polynomial equals the right side, under `GE` it is
/// at least the right side, under `LE` at most; no other comparison is met.
pub open spec fn meets(c: ConstraintView, x: Seq<int>) -> bool {
    let value = poly_value(c.condition.left, x);
    if c.condition.op == seq!['E', 'Q'] {
        value == c.condition.right
    } else if c.condition.op == seq!['G', 'E'] {
        value >= c.condition.right
    } else if c.condition.op == seq!['L', 'E'] {
        value <= c.condition.right
    } else {
        false
    }
}

/// Whether `x` meets every constraint of `cs`.
pub open spec fn meets_all(cs: Seq<ConstraintView>, x: Seq<int>) -> bool {
    forall|k: int| 0 <= k < cs.len() ==> #[trigger] meets(cs[k], x)
}

/// Whether `x` gives each of `n` binary variables the value 0 or 1.
pub open spec fn binary(x: Seq<int>, n: int) -> bool {
    x.len() == n && forall|i: int| 0 <= i < n ==> #[trigger] x[i] == 0 || x[i] == 1
}

/// Whether some values of the binary variables meet every constraint of a formula.
pub open spec fn constraints_solvable(rows: Seq<Seq<i32>>, count: int, len: int) -> bool {
    exists|x: Seq<int>| binary(x, count * len) && meets_all(formula_constraints(rows, count, len), x)
}

/// Each clause has exactly one chosen cell (its variables sum to 1).
pub open spec fn one_per_clause(x: Seq<int>, count: int, len: int) -> bool {
    forall|i: int| 0 <= i < count ==> #[trigger] window_sum(x, i * len, i * len + len) == 1
}

/// No two chosen cells hold complementary literals.
pub open spec fn no_complementary_choice(rows: Seq<Seq<i32>>, x: Seq<int>, count: int, len: int) -> bool {
    forall|a: int, b: int, c: int, d: int|
        0 <= a < count && 0 <= b < len && 0 <= c < count && 0 <= d < len && #[trigger] complementary(
            rows,
            a,
            b,
            c,
            d,
        ) ==> x[a * len + b] * x[c * len + d] == 0
}

proof fn lemma_window_zero(x: Seq<int>, a: int, e: int)
    requires
        forall|i: int| a <= i < e ==> #[trigger] x[i] == 0,
    ensures
        window_sum(x, a, e) == 0,
    decreases e - a,
{
    if e > a {
        lemma_window_zero(x, a, e - 1);
    }
}

proof fn lemma_window_has_one(x: Seq<int>, a: int, e: int)
    requires
        forall|i: int| a <= i < e ==> #[trigger] x[i] == 0 || x[i] == 1,
        window_sum(x, a, e) == 1,
    ensures
        exists|k: int| a <= k < e && x[k] == 1,
{
    if !(exists|k: int| a <= k < e && x[k] == 1) {
        assert forall|i: int| a <= i < e implies #[trigger] x[i] == 0 by {
            assert(x[i] == 0 || x[i] == 1);
        }
        lemma_window_zero(x, a, e);
    }
}

proof fn lemma_window_single(x: Seq<int>, a: int, e: int, c: int)
    requires
        a <= c < e,
        forall|i: int| a <= i < e ==> #[trigger] x[i] == if i == c { 1int } else { 0int },
    ensures
        window_sum(x, a, e) == 1,
    decreases e - a,
{
    if e - 1 == c {
        assert forall|i: int| a <= i < e - 1 implies #[trigger] x[i] == 0 by {
            assert(x[i] == if i == c { 1int } else { 0int });
        }
        lemma_window_zero(x, a, e - 1);
    } else {
        lemma_window_single(x, a, e - 1, c);
        assert(x[e - 1] == 0);
    }
}

proof fn lemma_contradiction_value(p: int, q: int, x: Seq<int>)
    requires
        0 <= p <= usize::MAX,
        0 <= q <= usize::MAX,
    ensures
        poly_value(contradiction_constraint(p, q).condition.left, x) == x[p] * x[q],
{
    let left = contradiction_constraint(p, q).condition.left;
    assert(left.drop_last() =~= Seq::<Term>::empty());
    assert((p as usize) as int == p);
    assert((q as usize) as int == q);
    assert(term_value(Term::XYK((p as usize, q as usize, 1i32)), x) == 1 * x[p] * x[q]);
    assert(1 * x[p] * x[q] == x[p] * x[q]) by (nonlinear_arith);
    assert(poly_value(left, x) == poly_value(left.drop_last(), x) + term_value(left.last(), x));
}

#[verifier::spinoff_prover]
proof fn lemma_meets_all_structure(rows: Seq<Seq<i32>>, count: int, len: int, x: Seq<int>)
    requires
        rows.len() == count,
        forall|i: int| 0 <= i < count ==> #[trigger] rows[i].len() == len,
        0 <= len,
        count * len <= usize::MAX,
        x.len() == count * len,
    ensures
        meets_all(formula_constraints(rows, count, len), x) <==> one_per_clause(x, count, len)
            && no_complementary_choice(rows, x, count, len),
{
    let cl = clause_constraints(count, len);
    let co = contradictions_i1(rows, len, count, count);
    let f = formula_constraints(rows, count, len);
    assert(f == cl + co);
    if meets_all(f, x) {
        assert forall|i: int| 0 <= i < count implies #[trigger] window_sum(x, i * len, i * len + len) == 1 by {
            assert(f[i] == cl[i]);
            lemma_cell_index(i, 0, count, len);
            lemma_clause_condition_value(x, i * len, len);
            assert(meets(f[i], x));
        }
        assert forall|a: int, b: int, c: int, d: int|
            0 <= a < count && 0 <= b < len && 0 <= c < count && 0 <= d < len && #[trigger] complementary(
                rows,
                a,
                b,
                c,
                d,
            ) implies x[a * len + b] * x[c * len + d] == 0 by {
            let y = contradiction_constraint(a * len + b, c * len + d);
            lemma_i1_contains(rows, len, count, count, y);
            lemma_concat_contains(cl, co, y);
            let k = choose|k: int| 0 <= k < f.len() && f[k] == y;
            assert(meets(f[k], x));
            lemma_cell_index(a, b, count, len);
            lemma_cell_index(c, d, count, len);
            lemma_contradiction_value(a * len + b, c * len + d, x);
        }
    }
    if one_per_clause(x, count, len) && no_complementary_choice(rows, x, count, len) {
        assert forall|k: int| 0 <= k < f.len() implies #[trigger] meets(f[k], x) by {
            if k < count {
                assert(f[k] == cl[k]);
                lemma_cell_index(k, 0, count, len);
                lemma_clause_condition_value(x, k * len, len);
                assert(window_sum(x, k * len, k * len + len) == 1);
            } else {
                let y = f[k];
                assert(co[k - count] == y);
                assert(co.contains(y));
                lemma_i1_contains(rows, len, count, count, y);
                let (a, b, c, d) = choose|a: int, b: int, c: int, d: int|
                    0 <= a < count && 0 <= b < len && 0 <= c < count && 0 <= d < len && complementary(
                        rows,
                        a,
                        b,
                        c,
                        d,
                    ) && y == #[trigger] contradiction_constraint(a * len + b, c * len + d);
                lemma_cell_index(a, b, count, len);
                lemma_cell_index(c, d, count, len);
                lemma_contradiction_value(a * len + b, c * len + d, x);
                assert(x[a * len + b] * x[c * len + d] == 0);
            }
        }
    }
}

#[verifier::spinoff_prover]
proof fn lemma_choice_satisfies(rows: Seq<Seq<i32>>, count: int, len: int, x: Seq<int>)
    requires
        rows.len() == count,
        forall|i: int| 0 <= i < count ==> #[trigger] rows[i].len() == len,
        0 <= len,
        count * len <= usize::MAX,
        binary(x, count * len),
        one_per_clause(x, count, len),
        no_complementary_choice(rows, x, count, len),
    ensures
        satisfiable(rows),
{
    let a = |v: int|
        exists|i: int, j: int|
            0 <= i < count && 0 <= j < len && x[i * len + j] == 1 && #[trigger] rows[i][j] as int == v;
    assert forall|i: int| 0 <= i < rows.len() implies #[trigger] clause_holds(rows[i], a) by {
        lemma_cell_index(i, 0, count, len);
        assert(window_sum(x, i * len, i * len + len) == 1);
        assert forall|k: int| i * len <= k < i * len + len implies #[trigger] x[k] == 0 || x[k] == 1 by {
            assert(x[k] == 0 || x[k] == 1);
        }
        lemma_window_has_one(x, i * len, i * len + len);
        let k = choose|k: int| i * len <= k < i * len + len && x[k] == 1;
        let j = k - i * len;
        assert(0 <= j < len);
        assert(x[i * len + j] == 1);
        let lit = rows[i][j] as int;
        if lit > 0 {
            assert(a(lit));
        } else if lit < 0 {
            if a(-lit) {
                let (c, d) = choose|c: int, d: int|
                    0 <= c < count && 0 <= d < len && x[c * len + d] == 1 && #[trigger] rows[c][d] as int == -lit;
                assert(complementary(rows, i, j, c, d));
                assert(x[i * len + j] * x[c * len + d] == 0);
                assert(x[i * len + j] * x[c * len + d] == 1) by (nonlinear_arith)
                    requires
                        x[i * len + j] == 1,
                        x[c * len + d] == 1,
                ;
            }
        } else {
            assert(complementary(rows, i, j, i, j));
            assert(x[i * len + j] * x[i * len + j] == 0);
            assert(x[i * len + j] * x[i * len + j] == 1) by (nonlinear_arith)
                requires
                    x[i * len + j] == 1,
            ;
        }
        assert(literal_holds(lit, a));
    }
    assert(satisfies(rows, a));
}

/// A clause position whose literal holds under `a`.
pub open spec fn chosen_position(rows: Seq<Seq<i32>>, a: spec_fn(int) -> bool, i: int) -> int {
    choose|j: int| 0 <= j < rows[i].len() && #[trigger] literal_holds(rows[i][j] as int, a)
}

/// The values that choose, in each clause, the cell at `chosen_position`.
pub open spec fn choice_values(rows: Seq<Seq<i32>>, a: spec_fn(int) -> bool, count: int, len: int) -> Seq<int> {
    Seq::new(
        (count * len) as nat,
        |p: int|
            if p % len == chosen_position(rows, a, p / len) {
                1int
            } else {
                0int
            },
    )
}

proof fn lemma_choice_value(rows: Seq<Seq<i32>>, a: spec_fn(int) -> bool, count: int, len: int, i: int, j: int)
    requires
        0 <= i < count,
        0 <= j < len,
    ensures
        0 <= i * len + j < count * len,
        choice_values(rows, a, count, len)[i * len + j] == if j == chosen_position(rows, a, i) {
            1int
        } else {
            0int
        },
{
    lemma_cell_index(i, j, count, len);
    vstd::arithmetic::div_mod::lemma_fundamental_div_mod_converse(i * len + j, len, i, j);
}

#[verifier::spinoff_prover]
proof fn lemma_satisfiable_gives_choice(rows: Seq<Seq<i32>>, count: int, len: int, a: spec_fn(int) -> bool)
    requires
        rows.len() == count,
        forall|i: int| 0 <= i < count ==> #[trigger] rows[i].len() == len,
        0 <= len,
        count * len <= usize::MAX,
        satisfies(rows, a),
    ensures
        binary(choice_values(rows, a, count, len), count * len),
        one_per_clause(choice_values(rows, a, count, len), count, len),
        no_complementary_choice(rows, choice_values(rows, a, count, len), count, len),
{
    let x = choice_values(rows, a, count, len);
    if len == 0 || count == 0 {
        assert(count * len == 0) by (nonlinear_arith)
            requires
                len == 0 || count == 0,
        ;
    }
    assert(0 <= count * len) by (nonlinear_arith)
        requires
            0 <= len,
            rows.len() == count,
    ;
    assert forall|i: int| 0 <= i < count * len implies #[trigger] x[i] == 0 || x[i] == 1 by {}
    assert forall|i: int| 0 <= i < count implies #[trigger] window_sum(x, i * len, i * len + len) == 1 by {
        assert(clause_holds(rows[i], a));
        let c = chosen_position(rows, a, i);
        assert(0 <= c < len);
        lemma_cell_index(i, 0, count, len);
        assert forall|k: int| i * len <= k < i * len + len implies #[trigger] x[k] == if k == i * len + c {
            1int
        } else {
            0int
        } by {
            lemma_choice_value(rows, a, count, len, i, k - i * len);
        }
        lemma_window_single(x, i * len, i * len + len, i * len + c);
    }
    assert forall|p: int, q: int, r: int, t: int|
        0 <= p < count && 0 <= q < len && 0 <= r < count && 0 <= t < len && #[trigger] complementary(
            rows,
            p,
            q,
            r,
            t,
        ) implies x[p * len + q] * x[r * len + t] == 0 by {
        lemma_choice_value(rows, a, count, len, p, q);
        lemma_choice_value(rows, a, count, len, r, t);
        if x[p * len + q] == 1 && x[r * len + t] == 1 {
            assert(clause_holds(rows[p], a));
            assert(clause_holds(rows[r], a));
            assert(literal_holds(rows[p][q] as int, a));
            assert(literal_holds(rows[r][t] as int, a));
        } else {
            let u = x[p * len + q];
            let w = x[r * len + t];
            assert(u * w == 0) by (nonlinear_arith)
                requires
                    u == 0 || w == 0,
            ;
        }
    }
}

/// The request for a formula can be met exactly when the formula is satisfiable:
/// some values 0 or 1 of the cells' variables meet every constraint (one chosen
/// cell per clause, no two chosen cells complementary) exactly where some assignment
/// of the variables makes a literal of each clause hold.
pub proof fn lemma_constraints_solvable_iff_satisfiable(rows: Seq<Seq<i32>>, count: int, len: int)
    requires
        rows.len() == count,
        forall|i: int| 0 <= i < count ==> #[trigger] rows[i].len() == len,
        0 <= len,
        count * len <= usize::MAX,
    ensures
        constraints_solvable(rows, count, len) <==> satisfiable(rows),
{
    if constraints_solvable(rows, count, len) {
        let x = choose|x: Seq<int>| binary(x, count * len) && meets_all(formula_constraints(rows, count, len), x);
        lemma_meets_all_structure(rows, count, len, x);
        lemma_choice_satisfies(rows, count, len, x);
    }
    if satisfiable(rows) {
        let a = choose|a: spec_fn(int) -> bool| satisfies(rows, a);
        let x = choice_values(rows, a, count, len);
        lemma_satisfiable_gives_choice(rows, count, len, a);
        lemma_meets_all_structure(rows, count, len, x);
        assert(binary(x, count * len) && meets_all(formula_constraints(rows, count, len), x));
    }
}

/// Each constraint of a formula is either the clause constraint of its clause or the
/// contradiction constraint of two complementary cells.
proof fn lemma_constraint_shape(rows: Seq<Seq<i32>>, count: int, len: int, k: int)
    requires
        rows.len() == count,
        forall|i: int| 0 <= i < count ==> #[trigger] rows[i].len() == len,
        0 <= len,
        count * len <= usize::MAX,
        0 <= k < formula_constraints(rows, count, len).len(),
    ensures
        k < count ==> formula_constraints(rows, count, len)[k] == clause_constraint(k * len, len) && 0 <= k * len
            && k * len + len <= count * len,
        k >= count ==> exists|a: int, b: int, c: int, d: int|
            0 <= a < count && 0 <= b < len && 0 <= c < count && 0 <= d < len && 0 <= a * len + b < count * len
                && 0 <= c * len + d < count * len && formula_constraints(rows, count, len)[k]
                == #[trigger] contradiction_constraint(a * len + b, c * len + d),
{
    let cl = clause_constraints(count, len);
    let co = contradictions_i1(rows, len, count, count);
    let f = formula_constraints(rows, count, len);
    assert(f == cl + co);
    if k < count {
        assert(f[k] == cl[k]);
        lemma_cell_index(k, 0, count, len);
    } else {
        let y = f[k];
        assert(co[k - count] == y);
        assert(co.contains(y));
        lemma_i1_contains(rows, len, count, count, y);
        let (a, b, c, d) = choose|a: int, b: int, c: int, d: int|
            0 <= a < count && 0 <= b < len && 0 <= c < count && 0 <= d < len && complementary(rows, a, b, c, d)
                && y == #[trigger] contradiction_constraint(a * len + b, c * len + d);
        lemma_cell_index(a, b, count, len);
        lemma_cell_index(c, d, count, len);
        assert(0 <= a * len + b < count * len);
        assert(0 <= c * len + d < count * len);
    }
}

/// Every constraint that a formula's request holds compares by `EQ` and has the
/// multiplier 1: each counts with full weight, and none is met by an inequality.
pub proof fn lemma_constraints_are_unit_equalities(rows: Seq<Seq<i32>>, count: int, len: int)
    requires
        rows.len() == count,
        forall|i: int| 0 <= i < count ==> #[trigger] rows[i].len() == len,
        0 <= len,
        count * len <= usize::MAX,
    ensures
        forall|k: int|
            0 <= k < formula_constraints(rows, count, len).len() ==> (#[trigger] formula_constraints(
                rows,
                count,
                len,
            )[k]).condition.op == seq!['E', 'Q'] && formula_constraints(rows, count, len)[k].multiplier == 1,
{
    assert forall|k: int| 0 <= k < formula_constraints(rows, count, len).len() implies (
    #[trigger] formula_constraints(rows, count, len)[k]).condition.op == seq!['E', 'Q']
        && formula_constraints(rows, count, len)[k].multiplier == 1 by {
        lemma_constraint_shape(rows, count, len, k);
    }
}

/// On binary values, the penalty of every constraint of a formula's request is the
/// square of how far its polynomial is from its right side: never negative, and zero
/// exactly where the constraint is met, so that minimising the penalties looks for
/// values that meet every constraint.
pub proof fn lemma_penalty_is_squared_violation(rows: Seq<Seq<i32>>, count: int, len: int, x: Seq<int>)
    requires
        rows.len() == count,
        forall|i: int| 0 <= i < count ==> #[trigger] rows[i].len() == len,
        0 <= len,
        count * len <= usize::MAX,
        binary(x, count * len),
    ensures
        forall|k: int|
            0 <= k < formula_constraints(rows, count, len).len() ==> poly_value(
                (#[trigger] formula_constraints(rows, count, len)[k]).penalty,
                x,
            ) >= 0 && (poly_value(formula_constraints(rows, count, len)[k].penalty, x) == 0 <==> meets(
                formula_constraints(rows, count, len)[k],
                x,
            )) && poly_value(formula_constraints(rows, count, len)[k].penalty, x) == (poly_value(
                formula_constraints(rows, count, len)[k].condition.left,
                x,
            ) - formula_constraints(rows, count, len)[k].condition.right) * (poly_value(
                formula_constraints(rows, count, len)[k].condition.left,
                x,
            ) - formula_constraints(rows, count, len)[k].condition.right),
{
    assert forall|k: int| 0 <= k < formula_constraints(rows, count, len).len() implies poly_value(
        (#[trigger] formula_constraints(rows, count, len)[k]).penalty,
        x,
    ) >= 0 && (poly_value(formula_constraints(rows, count, len)[k].penalty, x) == 0 <==> meets(
        formula_constraints(rows, count, len)[k],
        x,
    )) && poly_value(formula_constraints(rows, count, len)[k].penalty, x) == (poly_value(
        formula_constraints(rows, count, len)[k].condition.left,
        x,
    ) - formula_constraints(rows, count, len)[k].condition.right) * (poly_value(
        formula_constraints(rows, count, len)[k].condition.left,
        x,
    ) - formula_constraints(rows, count, len)[k].condition.right) by {
        let f = formula_constraints(rows, count, len);
        lemma_constraint_shape(rows, count, len, k);
        if k < count {
            let start = k * len;
            assert forall|i: int| start <= i < start + len implies #[trigger] x[i] == 0 || x[i] == 1 by {
                assert(x[i] == 0 || x[i] == 1);
            }
            lemma_clause_penalty_value(x, start, len);
            lemma_clause_condition_value(x, start, len);
            let s = window_sum(x, start, start + len);
            assert((s - 1) * (s - 1) >= 0) by (nonlinear_arith);
            assert((s - 1) * (s - 1) == 0 <==> s == 1) by (nonlinear_arith);
        } else {
            let (a, b, c, d) = choose|a: int, b: int, c: int, d: int|
                0 <= a < count && 0 <= b < len && 0 <= c < count && 0 <= d < len && 0 <= a * len + b < count
                    * len && 0 <= c * len + d < count * len && f[k] == #[trigger] contradiction_constraint(
                    a * len + b,
                    c * len + d,
                );
            let p = a * len + b;
            let q = c * len + d;
            lemma_contradiction_value(p, q, x);
            assert(f[k].penalty == f[k].condition.left);
            assert(x[p] == 0 || x[p] == 1);
            assert(x[q] == 0 || x[q] == 1);
            assert(x[p] * x[q] >= 0 && (x[p] * x[q] == 0 || x[p] * x[q] == 1) && (x[p] * x[q] - 0) * (x[p]
                * x[q] - 0) == x[p] * x[q]) by (nonlinear_arith)
                requires
                    x[p] == 0 || x[p] == 1,
                    x[q] == 0 || x[q] == 1,
            ;
        }
    }
}

/// The text `"EQ"`.
fn eq_string() -> (r: String)
    ensures
        r@ == eq_op(),
{
    proof {
        reveal_strlit("EQ");
    }
    String::from_str("EQ")
}

/// The penalty of the clause constraint over `x_start, ..., x_(end - 1)`.
fn clause_penalty(start: usize, end: usize) -> (r: Vec<Term>)
    requires
        start <= end,
    ensures
        r@ == penalty_rows(start as int, end as int, end as int).push(Term::K((1i32,))),
{
    let mut penalty: Vec<Term> = Vec::new();
    let mut p = start;
    while p < end
        invariant
            start <= p <= end,
            penalty@ == penalty_rows(start as int, p as int, end as int),
        decreases end - p,
    {
        let ghost before = penalty@;
        let mut q = p;
        while q < end
            invariant
                start <= p < end,
                p <= q <= end,
                penalty@ == before + penalty_row(p as int, q as int),
            decreases end - q,
        {
            if p == q {
                penalty.push(Term::XK((p, -1)));
            } else {
                penalty.push(Term::XYK((p, q, 2)));
            }
            assert(before + penalty_row(p as int, q + 1) =~= (before + penalty_row(p as int, q as int)).push(
                if p == q { Term::XK((p, -1i32)) } else { Term::XYK((p, q, 2i32)) },
            ));
            q = q + 1;
        }
        assert(penalty_rows(start as int, p + 1, end as int) == penalty_rows(start as int, p as int, end as int)
            + penalty_row(p as int, end as int));
        p = p + 1;
    }
    penalty.push(Term::K((1,)));
    penalty
}

/// The clause constraint over `x_start, ..., x_(start + len - 1)`.
fn clause_constraint_at(start: usize, len: usize) -> (r: Constraint)
    requires
        start + len <= usize::MAX,
    ensures
        r@ == clause_constraint(start as int, len as int),
{
    let end = start + len;
    let mut left: Vec<Term> = Vec::new();
    let mut q = start;
    while q < end
        invariant
            start <= q <= end,
            end == start + len,
            left@ == clause_left(start as int, q - start),
        decreases end - q,
    {
        left.push(Term::XK((q, 1)));
        assert(left@ =~= clause_left(start as int, q + 1 - start));
        q = q + 1;
    }
    let condition = Condition { left, op: eq_string(), right: 1 };
    let penalty = clause_penalty(start, end);
    Constraint { condition, penalty, multiplier: 1 }
}

/// The contradiction constraint of the variables `x_p` and `x_q`.
fn contradiction_constraint_at(p: usize, q: usize) -> (r: Constraint)
    ensures
        r@ == contradiction_constraint(p as int, q as int),
{
    let left = vec![Term::XYK((p, q, 1))];
    let condition = Condition { left, right: 0, op: eq_string() };
    let penalty = vec![Term::XYK((p, q, 1))];
    let r = Constraint { condition, penalty, multiplier: 1 };
    assert(r@.condition.left =~= contradiction_constraint(p as int, q as int).condition.left);
    assert(r@.penalty =~= contradiction_constraint(p as int, q as int).penalty);
    r
}

/// The constraints that the Fixstars service is asked to meet for a formula: cell
/// `(i, j)` is the binary variable `x_(i * num_literals + j)`, which is set where the
/// cell's literal is chosen true. Each clause has exactly one chosen literal, and no
/// two chosen literals are complementary.
#[verifier::loop_isolation(false)]
#[verifier::spinoff_prover]
pub fn generate_constraints(cnf: &Cnf) -> (r: Vec<Constraint>)
    requires
        cnf.wf(),
    ensures
        views(r@) == formula_constraints(cnf.rows(), cnf.num_clauses as int, cnf.num_literals as int),
        forall|k: int|
            0 <= k < r@.len() ==> (#[trigger] r@[k])@.condition.op == seq!['E', 'Q'] && r@[k]@.multiplier == 1,
{
    let count = cnf.num_clauses;
    let len = cnf.num_literals;
    let ghost rows = cnf.rows();
    let mut out: Vec<Constraint> = Vec::new();
    let mut i: usize = 0;
    while i < count
        invariant
            i <= count,
            views(out@) == clause_constraints(i as int, len as int),
        decreases count - i,
    {
        proof {
            lemma_cell_index(i as int, 0, count as int, len as int);
        }
        let start = i * len;
        let c = clause_constraint_at(start, len);
        proof {
            lemma_views_push(out@, c);
        }
        out.push(c);
        assert(views(out@) =~= clause_constraints(i + 1, len as int));
        i = i + 1;
    }
    let ghost clauses = views(out@);
    let mut i1: usize = 0;
    while i1 < count
        invariant
            i1 <= count,
            views(out@) == clauses + contradictions_i1(rows, len as int, count as int, i1 as int),
        decreases count - i1,
    {
        let ghost base1 = views(out@);
        let mut j1: usize = 0;
        while j1 < len
            invariant
                i1 < count,
                j1 <= len,
                views(out@) == base1 + contradictions_j1(rows, len as int, count as int, i1 as int, j1 as int),
            decreases len - j1,
        {
            let ghost base2 = views(out@);
            proof {
                lemma_cell_index(i1 as int, j1 as int, count as int, len as int);
            }
            let p = i1 * len + j1;
            let a = cnf.formula.get(i1, j1) as i64;
            let mut i2: usize = 0;
            while i2 < count
                invariant
                    i1 < count,
                    j1 < len,
                    i2 <= count,
                    views(out@) == base2 + contradictions_i2(rows, len as int, i1 as int, j1 as int, i2 as int),
                decreases count - i2,
            {
                let ghost base3 = views(out@);
                let mut j2: usize = 0;
                while j2 < len
                    invariant
                        i1 < count,
                        j1 < len,
                        i2 < count,
                        j2 <= len,
                        views(out@) == base3 + contradictions_j2(
                            rows,
                            len as int,
                            i1 as int,
                            j1 as int,
                            i2 as int,
                            j2 as int,
                        ),
                    decreases len - j2,
                {
                    let b = cnf.formula.get(i2, j2) as i64;
                    if a + b == 0 {
                        proof {
                            lemma_cell_index(i2 as int, j2 as int, count as int, len as int);
                        }
                        let c = contradiction_constraint_at(p, i2 * len + j2);
                        proof {
                            lemma_views_push(out@, c);
                        }
                        out.push(c);
                    }
                    assert(views(out@) =~= base3 + contradictions_j2(
                        rows,
                        len as int,
                        i1 as int,
                        j1 as int,
                        i2 as int,
                        j2 + 1,
                    ));
                    j2 = j2 + 1;
                }
                assert(views(out@) =~= base2 + contradictions_i2(rows, len as int, i1 as int, j1 as int, i2 + 1));
                i2 = i2 + 1;
            }
            assert(views(out@) =~= base1 + contradictions_j1(rows, len as int, count as int, i1 as int, j1 + 1));
            j1 = j1 + 1;
        }
        assert(views(out@) =~= clauses + contradictions_i1(rows, len as int, count as int, i1 + 1));
        i1 = i1 + 1;
    }
    proof {
        lemma_constraints_are_unit_equalities(rows, count as int, len as int);
        assert(views(out@) == formula_constraints(rows, count as int, len as int));
        assert forall|k: int| 0 <= k < out@.len() implies (#[trigger] out@[k])@.condition.op == seq!['E', 'Q']
            && out@[k]@.multiplier == 1 by {
            assert(views(out@)[k] == out@[k]@);
            assert(formula_constraints(rows, count as int, len as int)[k] == out@[k]@);
        }
    }
    out
}

/// The request sent for a formula: its constraints (see `generate_constraints`),
/// the default outputs, a timeout of 10000 milliseconds and no objective polynomial.
pub fn request_body(cnf: &Cnf) -> (r: RequestBody)
    requires
        cnf.wf(),
    ensures
        views(r.constraints@) == formula_constraints(cnf.rows(), cnf.num_clauses as int, cnf.num_literals as int),
        forall|k: int|
            0 <= k < r.constraints@.len() ==> (#[trigger] r.constraints@[k])@.condition.op == seq!['E', 'Q']
                && r.constraints@[k]@.multiplier == 1,
        r.timeout == 10000,
        r.polynomial@.len() == 0,
{
    RequestBody {
        outputs: Outputs {},
        timeout: 10000,
        constraints: generate_constraints(cnf),
        polynomial: Vec::new(),
    }
}

/// The error kept where the answer holds no time stamp.
pub open spec fn missing_time_message() -> Seq<char> {
    "Unable to read process time in output"@
}

/// What the service's answer says of a formula: it is satisfiable exactly where one
/// of the returned samples is feasible; its process time is the first time stamp of
/// the answer (`first_time_stamp`, already in seconds), and where there is none, an
/// error says so.
pub fn response_output(cnf: Arc<Cnf>, feasibilities: &Vec<bool>, first_time_stamp: Option<Duration>) -> (r: SolverOutput)
    ensures
        r.solver@ == "fixstars"@,
        r.cnf == cnf,
        r.is_satisfiable == Some(exists|k: int| 0 <= k < feasibilities@.len() && feasibilities@[k]),
        r.process_time == first_time_stamp,
        first_time_stamp is Some ==> r.errors@.len() == 0,
        first_time_stamp is None ==> r.errors@.len() == 1 && r.errors@[0].message@ == missing_time_message(),
{
    let mut errors: Vec<SolverError> = Vec::new();
    proof {
        reveal_strlit("Unable to read process time in output");
    }
    let process_time = first_time_stamp.ok_or(String::from_str("Unable to read process time in output")).take_err(
        &mut errors,
    );
    let mut any = false;
    let mut k: usize = 0;
    while k < feasibilities.len()
        invariant
            k <= feasibilities@.len(),
            any == exists|m: int| 0 <= m < k && feasibilities@[m],
        decreases feasibilities@.len() - k,
    {
        if feasibilities[k] {
            any = true;
        }
        k = k + 1;
    }
    SolverOutput { solver: "fixstars", cnf, process_time, is_satisfiable: Some(any), errors }
}

/// Whether `c` may stand in an HTTP header value: a tab, or any character from the
/// space on except DEL (each byte of its UTF-8 form is then a tab or lies in
/// `32..=255` without 127).
pub open spec fn header_char_ok(c: char) -> bool {
    c == '\t' || (' ' <= c && c != '\u{7f}')
}

/// `reqwest::header::HeaderValue::from_str(s)` (http's `HeaderValue`) succeeds: it
/// accepts exactly the strings whose bytes are each a tab or in `32..=255` but not
/// 127, that is, whose characters are each `header_char_ok`.
#[verifier::external_body]
fn header_value_ok(s: &str) -> (r: bool)
    ensures
        r == forall|i: int| 0 <= i < s@.len() ==> header_char_ok(#[trigger] s@[i]),
{
    reqwest::header::HeaderValue::from_str(s).is_ok()
}

/// The value of the `Authorization` header for an access token, `Bearer <token>`,
/// where it is a valid header value: exactly where every character of the token may
/// stand in a header value.
pub fn authorization_value(access_token: &str) -> (r: Option<String>)
    ensures
        r is Some <==> forall|i: int| 0 <= i < access_token@.len() ==> header_char_ok(#[trigger] access_token@[i]),
        r matches Some(v) ==> v@ == "Bearer "@ + access_token@,
{
    proof {
        reveal_strlit("Bearer ");
    }
    let mut value = String::from_str("Bearer ");
    value.append(access_token);
    let ghost prefix = "Bearer "@;
    assert(value@ == prefix + access_token@);
    if header_value_ok(value.as_str()) {
        assert forall|i: int| 0 <= i < access_token@.len() implies header_char_ok(#[trigger] access_token@[i]) by {
            assert(value@[i + 7] == access_token@[i]);
        }
        Some(value)
    } else {
        proof {
            if forall|i: int| 0 <= i < access_token@.len() ==> header_char_ok(#[trigger] access_token@[i]) {
                assert forall|i: int| 0 <= i < value@.len() implies header_char_ok(#[trigger] value@[i]) by {
                    if i >= 7 {
                        assert(value@[i] == access_token@[i - 7]);
                    } else {
                        assert(value@[i] == prefix[i]);
                    }
                }
            }
        }
        None
    }
}

} // verus!
