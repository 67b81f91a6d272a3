//! A solver-agnostic model of a linear program.
//!
//! Variables are indexed `0 .. num_vars` and carry fixed-point bounds.
//! Constraint rows are sparse lists of `(variable index, coefficient)`
//! terms compared against a right-hand side, each row with an explicit
//! nonnegative slack that absorbs the rounding of an inexact backend.
//! The meaning of a row is given by the exact integer dot product [`dot`];
//! [`check_assignment`] decides feasibility of a candidate assignment and
//! is proved to agree with that meaning, so any backend's output can be
//! re-checked before it is trusted.

use vstd::prelude::*;

use crate::fixed::QUANTITY_LIMIT;

verus! {

/// Bound on the number of variables of one program.
pub const MAX_VARS: usize = 10_000;

/// Bound on the number of terms of one row.
pub const MAX_TERMS: usize = 10_000;

/// Bound on the magnitude of a row coefficient.
pub const COEFF_LIMIT: i128 = 10_000_000_000_000_000_000_000;

/// Bound on the magnitude of one evaluated term: `COEFF_LIMIT` times
/// [`QUANTITY_LIMIT`].
pub const TERM_LIMIT: i128 = 10_000_000_000_000_000_000_000_000_000_000_000;

/// Bound on the magnitude of a right-hand side.
pub const RHS_LIMIT: i128 = 1_000_000_000_000_000_000_000_000_000_000;

/// Bound on the slack of a row.
pub const SLACK_LIMIT: i128 = 10_000_000_000_000_000_000_000_000;

/// The comparison a row makes against its right-hand side.
#[derive(Clone, Copy, Debug, PartialEq, Eq, Structural)]
pub enum CmpOp {
    LessEq,
    GreaterEq,
    Equal,
}

/// One sparse constraint row: `sum of coefficient * variable  op  rhs`,
/// loosened by a nonnegative `slack`.
#[derive(Clone, Debug)]
pub struct LinearConstraint {
    /// `(variable index, coefficient)` terms of the row.
    pub terms: Vec<(usize, i128)>,
    /// The comparison of the row.
    pub op: CmpOp,
    /// The right-hand side of the comparison.
    pub rhs: i128,
    /// Nonnegative slack by which the comparison is loosened.
    pub slack: i128,
}

/// A linear program: bounded variables, sparse constraint rows, and a
/// sparse objective to maximize.
#[derive(Clone, Debug)]
pub struct LinearProgram {
    /// Number of decision variables.
    pub num_vars: usize,
    /// Lower bound of each variable.
    pub lower: Vec<i64>,
    /// Upper bound of each variable.
    pub upper: Vec<i64>,
    /// Sparse coefficients of the objective, to be maximized.
    pub objective: Vec<(usize, i128)>,
    /// Constraint rows.
    pub constraints: Vec<LinearConstraint>,
}

/// The exact integer dot product of sparse terms with an assignment.
pub open spec fn dot(terms: Seq<(usize, i128)>, x: Seq<i64>) -> int
    decreases terms.len(),
{
    if terms.len() == 0 {
        0
    } else {
        dot(terms.drop_last(), x) + terms.last().1 * x[terms.last().0 as int]
    }
}

/// One term is well formed: its variable index is in range and its
/// coefficient is bounded.
pub open spec fn term_wf(t: (usize, i128), num_vars: int) -> bool {
    t.0 < num_vars && -COEFF_LIMIT <= t.1 <= COEFF_LIMIT
}

/// A sparse term list is well formed for `num_vars` variables.
pub open spec fn terms_wf(terms: Seq<(usize, i128)>, num_vars: int) -> bool {
    &&& terms.len() <= MAX_TERMS
    &&& forall|k: int| 0 <= k < terms.len() ==> term_wf(#[trigger] terms[k], num_vars)
}

/// A row is well formed for `num_vars` variables.
pub open spec fn row_wf(c: LinearConstraint, num_vars: int) -> bool {
    &&& terms_wf(c.terms@, num_vars)
    &&& -RHS_LIMIT <= c.rhs <= RHS_LIMIT
    &&& 0 <= c.slack <= SLACK_LIMIT
}

/// Every element of the assignment is a representable position size.
pub open spec fn bounded_values(x: Seq<i64>) -> bool {
    forall|j: int| 0 <= j < x.len() ==> -QUANTITY_LIMIT <= #[trigger] x[j] <= QUANTITY_LIMIT
}

impl LinearProgram {
    /// The program is well formed: all lengths agree, variable bounds are
    /// representable positions, and every row fits the evaluation limits.
    pub open spec fn wf(self) -> bool {
        &&& self.num_vars <= MAX_VARS
        &&& self.lower@.len() == self.num_vars
        &&& self.upper@.len() == self.num_vars
        &&& bounded_values(self.lower@)
        &&& bounded_values(self.upper@)
        &&& terms_wf(self.objective@, self.num_vars as int)
        &&& forall|r: int| 0 <= r < self.constraints@.len()
                ==> row_wf(#[trigger] self.constraints@[r], self.num_vars as int)
    }
}

/// The assignment covers every variable and respects its bounds.
pub open spec fn within_bounds(lp: LinearProgram, x: Seq<i64>) -> bool {
    &&& x.len() == lp.num_vars
    &&& forall|j: int| 0 <= j < x.len() ==> lp.lower@[j] <= #[trigger] x[j] <= lp.upper@[j]
}

/// The row's comparison holds of the assignment, up to the row's slack.
pub open spec fn row_holds(c: LinearConstraint, x: Seq<i64>) -> bool {
    match c.op {
        CmpOp::LessEq => dot(c.terms@, x) <= c.rhs + c.slack,
        CmpOp::GreaterEq => dot(c.terms@, x) >= c.rhs - c.slack,
        CmpOp::Equal => c.rhs - c.slack <= dot(c.terms@, x) <= c.rhs + c.slack,
    }
}

/// The assignment satisfies every declared bound and row of the program.
pub open spec fn feasible(lp: LinearProgram, x: Seq<i64>) -> bool {
    &&& within_bounds(lp, x)
    &&& forall|r: int| 0 <= r < lp.constraints@.len()
            ==> row_holds(#[trigger] lp.constraints@[r], x)
}

/// The objective the program assigns to an assignment.
pub open spec fn objective_value(lp: LinearProgram, x: Seq<i64>) -> int {
    dot(lp.objective@, x)
}

/// The magnitude of a product is bounded by the product of the bounds.
pub proof fn lemma_mul_bound(a: int, b: int, a_bound: int, b_bound: int)
    requires
        -a_bound <= a <= a_bound,
        -b_bound <= b <= b_bound,
        0 <= a_bound,
        0 <= b_bound,
    ensures
        -(a_bound * b_bound) <= a * b <= a_bound * b_bound,
{
    assert(-(a_bound * b_bound) <= a * b <= a_bound * b_bound) by (nonlinear_arith)
        requires
            -a_bound <= a <= a_bound,
            -b_bound <= b <= b_bound,
            0 <= a_bound,
            0 <= b_bound,
    ;
}

/// A term list whose coefficients are all zero contributes nothing,
/// whatever the assignment.
pub proof fn lemma_dot_zero_coeffs(terms: Seq<(usize, i128)>, x: Seq<i64>)
    requires
        forall|k: int| 0 <= k < terms.len() ==> (#[trigger] terms[k]).1 == 0,
    ensures
        dot(terms, x) == 0,
    decreases terms.len(),
{
    if terms.len() > 0 {
        lemma_dot_zero_coeffs(terms.drop_last(), x);
    }
}

/// The product of nonnegative factors is nonnegative.
pub proof fn lemma_mul_nonneg(a: int, b: int)
    requires
        0 <= a,
        0 <= b,
    ensures
        0 <= a * b,
{
    assert(0 <= a * b) by (nonlinear_arith)
        requires
            0 <= a,
            0 <= b,
    ;
}

/// Evaluates a sparse term list against an assignment, exactly.
fn eval_terms(terms: &Vec<(usize, i128)>, x: &Vec<i64>) -> (v: i128)
    requires
        terms_wf(terms@, x@.len() as int),
        bounded_values(x@),
    ensures
        v == dot(terms@, x@),
{
    let n = terms.len();
    let mut acc: i128 = 0;
    let mut idx: usize = 0;
    while idx < n
        invariant
            idx <= n,
            n == terms@.len(),
            terms_wf(terms@, x@.len() as int),
            bounded_values(x@),
            acc == dot(terms@.take(idx as int), x@),
            -(idx as int * TERM_LIMIT) <= acc <= idx as int * TERM_LIMIT,
        decreases n - idx,
    {
        let (j, c) = terms[idx];
        let xj = x[j];
        proof {
            lemma_mul_bound(c as int, xj as int, COEFF_LIMIT as int, QUANTITY_LIMIT as int);
            assert(COEFF_LIMIT * QUANTITY_LIMIT == TERM_LIMIT);
            assert(terms@.take(idx as int + 1).drop_last() =~= terms@.take(idx as int));
            assert(terms@.take(idx as int + 1).last() == terms@[idx as int]);
        }
        acc = acc + c * (xj as i128);
        idx = idx + 1;
    }
    proof {
        assert(terms@.take(n as int) =~= terms@);
    }
    acc
}

/// Decides whether the assignment satisfies every declared bound and row
/// of the program.
pub fn check_assignment(lp: &LinearProgram, x: &Vec<i64>) -> (r: bool)
    requires
        lp.wf(),
    ensures
        r == feasible(*lp, x@),
{
    let num_vars = lp.num_vars;
    if x.len() != num_vars {
        return false;
    }
    let mut j: usize = 0;
    while j < num_vars
        invariant
            j <= num_vars,
            lp.wf(),
            x@.len() == num_vars,
            num_vars == lp.num_vars,
            forall|jj: int| 0 <= jj < j ==> lp.lower@[jj] <= #[trigger] x@[jj] <= lp.upper@[jj],
        decreases num_vars - j,
    {
        if !(lp.lower[j] <= x[j] && x[j] <= lp.upper[j]) {
            return false;
        }
        j = j + 1;
    }
    assert(within_bounds(*lp, x@));
    assert(bounded_values(x@));
    let num_rows = lp.constraints.len();
    let mut row_index: usize = 0;
    while row_index < num_rows
        invariant
            row_index <= num_rows,
            lp.wf(),
            x@.len() == lp.num_vars,
            num_rows == lp.constraints@.len(),
            within_bounds(*lp, x@),
            bounded_values(x@),
            forall|rr: int| 0 <= rr < row_index ==> row_holds(#[trigger] lp.constraints@[rr], x@),
        decreases num_rows - row_index,
    {
        let row = &lp.constraints[row_index];
        let v = eval_terms(&row.terms, x);
        let ok = match row.op {
            CmpOp::LessEq => v <= row.rhs + row.slack,
            CmpOp::GreaterEq => v >= row.rhs - row.slack,
            CmpOp::Equal => row.rhs - row.slack <= v && v <= row.rhs + row.slack,
        };
        if !ok {
            return false;
        }
        row_index = row_index + 1;
    }
    true
}

/// Evaluates the objective of the program on an assignment, exactly.
pub fn evaluate_objective(lp: &LinearProgram, x: &Vec<i64>) -> (v: i128)
    requires
        lp.wf(),
        x@.len() == lp.num_vars,
        bounded_values(x@),
    ensures
        v == objective_value(*lp, x@),
{
    eval_terms(&lp.objective, x)
}

} // verus!
