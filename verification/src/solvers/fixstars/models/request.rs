//! The body of a request to the Fixstars Amplify service. The service reads its
//! coefficients as numbers; all that this library sends are whole numbers, held
//! here as integers.

use vstd::prelude::*;

verus! {

/// The request: the constraints of the problem, the outputs asked for, a timeout
/// in milliseconds and an objective polynomial.
#[derive(Debug)]
pub struct RequestBody {
    pub constraints: Vec<Constraint>,
    pub outputs: Outputs,
    pub timeout: u32,
    pub polynomial: Vec<Polynomial>,
}

/// One constraint: a condition, the weight of its penalty, and the penalty polynomial.
#[derive(Debug)]
pub struct Constraint {
    pub condition: Condition,
    pub multiplier: i32,
    pub penalty: Vec<Term>,
}

/// The outputs asked for: none beyond the defaults.
#[derive(Debug)]
pub struct Outputs {}

/// A term of the objective polynomial (this library sends none).
#[derive(Debug)]
pub struct Polynomial {}

/// A condition `left op right` on a polynomial.
#[derive(Debug)]
pub struct Condition {
    pub left: Vec<Term>,
    pub op: String,
    pub right: i32,
}

/// A term of a polynomial over binary variables: `k * x_p * x_q`, `k * x_p`, or `k`.
#[derive(Clone, Copy, Debug)]
pub enum Term {
    XYK((usize, usize, i32)),
    XK((usize, i32)),
    K((i32,)),
}

/// What a condition states, with its polynomial as a sequence of terms.
pub struct ConditionView {
    pub left: Seq<Term>,
    pub op: Seq<char>,
    pub right: i32,
}

/// What a constraint states, with its polynomials as sequences of terms.
pub struct ConstraintView {
    pub condition: ConditionView,
    pub multiplier: i32,
    pub penalty: Seq<Term>,
}

impl View for Condition {
    type V = ConditionView;

    open spec fn view(&self) -> ConditionView {
        ConditionView { left: self.left@, op: self.op@, right: self.right }
    }
}

impl View for Constraint {
    type V = ConstraintView;

    open spec fn view(&self) -> ConstraintView {
        ConstraintView { condition: self.condition@, multiplier: self.multiplier, penalty: self.penalty@ }
    }
}

} // verus!
