//! Linear programs as plain data: what is handed to a solver, and what it means
//! for an answer to keep to it.

use vstd::prelude::*;
use crate::number::{zero, Quantity};

verus! {

/// Whether the objective is made small or large.
#[derive(Debug, Clone, Copy, PartialEq, Eq, Structural)]
pub enum Direction {
    Minimise,
    Maximise,
}

/// Whether a constraint holds its sum from above or from below.
#[derive(Debug, Clone, Copy, PartialEq, Eq, Structural)]
pub enum Sense {
    AtMost,
    AtLeast,
}

/// The bounds of a variable. A missing one does not bind.
#[derive(Debug, Clone, Copy)]
pub struct VariableBounds<S> {
    pub lower: Option<S>,
    pub upper: Option<S>,
}

/// A bound on a weighted sum of variables.
#[derive(Debug)]
pub struct LinearConstraint<S> {
    /// The place of each variable, with its coefficient.
    pub terms: Vec<(usize, S)>,
    pub sense: Sense,
    pub bound: S,
}

/// What a [`LinearConstraint`] says.
pub ghost struct ConstraintModel<S> {
    pub terms: Seq<(usize, S)>,
    pub sense: Sense,
    pub bound: S,
}

impl<S> View for LinearConstraint<S> {
    type V = ConstraintModel<S>;

    open spec fn view(&self) -> ConstraintModel<S> {
        ConstraintModel { terms: self.terms@, sense: self.sense, bound: self.bound }
    }
}

/// A linear program.
#[derive(Debug)]
pub struct LinearProgram<S> {
    pub variables: Vec<VariableBounds<S>>,
    pub direction: Direction,
    pub objective: Vec<(usize, S)>,
    pub constraints: Vec<LinearConstraint<S>>,
}

/// What a [`LinearProgram`] says.
pub ghost struct ProgramModel<S> {
    pub variables: Seq<VariableBounds<S>>,
    pub direction: Direction,
    pub objective: Seq<(usize, S)>,
    pub constraints: Seq<ConstraintModel<S>>,
}

impl<S> View for LinearProgram<S> {
    type V = ProgramModel<S>;

    open spec fn view(&self) -> ProgramModel<S> {
        ProgramModel {
            variables: self.variables@,
            direction: self.direction,
            objective: self.objective@,
            constraints: constraint_models(self.constraints@),
        }
    }
}

/// What a list of constraints says.
pub open spec fn constraint_models<S>(list: Seq<LinearConstraint<S>>) -> Seq<ConstraintModel<S>> {
    list.map_values(|c: LinearConstraint<S>| c@)
}

/// The value of a weighted sum.
pub open spec fn weighed<S: Quantity>(terms: Seq<(usize, S)>, x: Seq<S>) -> S
    decreases terms.len(),
{
    if terms.len() == 0 {
        zero::<S>()
    } else {
        weighed(terms.drop_last(), x) + terms.last().1 * x[terms.last().0 as int]
    }
}

/// Whether values keep to a constraint.
pub open spec fn meets<S: Quantity>(c: ConstraintModel<S>, x: Seq<S>) -> bool {
    match c.sense {
        Sense::AtMost => weighed(c.terms, x) <= c.bound,
        Sense::AtLeast => c.bound <= weighed(c.terms, x),
    }
}

/// Whether a value keeps to the bounds of a variable.
pub open spec fn within_bounds<S: Quantity>(b: VariableBounds<S>, v: S) -> bool {
    &&& b.lower matches Some(l) ==> l <= v
    &&& b.upper matches Some(u) ==> v <= u
}

/// Whether values keep to all bounds and constraints of a program.
pub open spec fn feasible<S: Quantity>(p: ProgramModel<S>, x: Seq<S>) -> bool {
    &&& x.len() == p.variables.len()
    &&& forall|v: int| 0 <= v < x.len() ==> within_bounds(p.variables[v], #[trigger] x[v])
    &&& forall|c: int| 0 <= c < p.constraints.len() ==> meets(#[trigger] p.constraints[c], x)
}

/// Whether values keep to a program and no others that do reach a better objective.
pub open spec fn optimal<S: Quantity>(p: ProgramModel<S>, x: Seq<S>) -> bool {
    &&& feasible(p, x)
    &&& forall|y: Seq<S>| #[trigger]
        feasible(p, y) ==> match p.direction {
            Direction::Minimise => weighed(p.objective, x) <= weighed(p.objective, y),
            Direction::Maximise => weighed(p.objective, y) <= weighed(p.objective, x),
        }
}

/// Every variable that a sum names is one of `count`.
pub open spec fn names_own<S>(terms: Seq<(usize, S)>, count: nat) -> bool {
    forall|t: int| 0 <= t < terms.len() ==> (#[trigger] terms[t]).0 < count
}

/// Every variable that a program names is one of its own.
pub open spec fn closed_program<S>(p: ProgramModel<S>) -> bool {
    &&& names_own(p.objective, p.variables.len())
    &&& forall|c: int|
        0 <= c < p.constraints.len() ==> names_own(
            (#[trigger] p.constraints[c]).terms,
            p.variables.len(),
        )
}

/// The constraint that holds a sum from above.
pub fn at_most<S>(terms: Vec<(usize, S)>, bound: S) -> (r: LinearConstraint<S>)
    ensures
        r@ == (ConstraintModel { terms: terms@, sense: Sense::AtMost, bound }),
{
    LinearConstraint { terms, sense: Sense::AtMost, bound }
}

/// The constraint that holds a sum from below.
pub fn at_least<S>(terms: Vec<(usize, S)>, bound: S) -> (r: LinearConstraint<S>)
    ensures
        r@ == (ConstraintModel { terms: terms@, sense: Sense::AtLeast, bound }),
{
    LinearConstraint { terms, sense: Sense::AtLeast, bound }
}

/// Adds a constraint to a list.
pub fn add_constraint<S>(list: &mut Vec<LinearConstraint<S>>, c: LinearConstraint<S>)
    ensures
        constraint_models(final(list)@) == constraint_models(old(list)@).push(c@),
{
    let ghost before = list@;
    list.push(c);
    assert(constraint_models(list@) =~= constraint_models(before).push(c@));
}

} // verus!
