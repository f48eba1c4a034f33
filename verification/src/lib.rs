//! A proof engine for where-clauses over types and lifetimes.
//!
//! Given declarations, an environment of bound variables, assumptions and
//! a goal, [`prove`] searches for every way in which the goal holds and
//! returns the set of the resulting constraints: the values chosen for
//! existential variables, and the relations put off for the caller.
//!
//! * [`grammar`]: variables, lifetimes, types, parameters, relations and
//!   lists of where-clauses.
//! * [`env`]: the variables in scope, the pending relations and the bias.
//! * [`constraints`]: the result of one proof.
//! * [`substitution`] and [`renaming`]: values put in for variables, and
//!   variables put in for variables.
//! * [`minimize`]: the canonical form in which a search is made, and the
//!   way back from it.
//! * [`mod@prove`], [`prove_outlives`], [`prove_eq`] and [`negation`]: the
//!   judgments.
//! * [`proven`]: the set of results of a search.
//! * [`laws`]: what holds of the judgments on every input.
//! * [`minirust`]: the grammar of function bodies.

pub mod constraints;
pub mod decls;
pub mod env;
pub mod grammar;
pub mod laws;
pub mod minimize;
pub mod minirust;
pub mod negation;
pub mod prove;
pub mod prove_eq;
pub mod prove_outlives;
pub mod proven;
pub mod renaming;
pub mod substitution;

pub use constraints::Constraints;
pub use decls::Decls;
pub use env::{Bias, Env};
pub use grammar::{Lt, Parameter, ParameterKind, Quantifier, Relation, Ty, Variable, Wcs};
pub use minirust::{
    ArgumentExpression, BasicBlock, BbId, Body, LocalDecl, LocalId, PlaceExpression, Statement,
    Terminator, ValueExpression,
};
pub use negation::{is_definitely_not_proveable, may_not_be_provable, negation_via_failure};
pub use prove::prove;
pub use proven::ProvenConstraints;
