//! The grammar of function bodies: a control-flow graph of basic blocks
//! over numbered locals, after MiniRust.
//!
//! ```text
//! fn foo() -> u32 = minirust(v1) -> v0 {
//!   let v0: u32;
//!   let v1: u32;
//!
//!   bb0:
//!     v0 = load(v1);
//!     return;
//! }
//! ```

use vstd::prelude::*;
use crate::grammar::{Parameter, Ty};

verus! {

/// The name of a basic block.
#[derive(Debug, PartialEq, Eq, PartialOrd, Ord, Hash)]
pub struct BbId {
    pub name: String,
}

/// The name of a local variable.
#[derive(Debug, PartialEq, Eq, PartialOrd, Ord, Hash)]
pub struct LocalId {
    pub name: String,
}

/// The body of a function: its arguments, the local that holds what it
/// returns, its locals and its basic blocks.
#[derive(Debug, PartialEq, Eq, PartialOrd, Ord, Hash)]
pub struct Body {
    pub args: Vec<LocalId>,
    pub ret: LocalId,
    pub locals: Vec<LocalDecl>,
    pub blocks: Vec<BasicBlock>,
}

/// The declaration of a local: `let id: ty;`.
#[derive(Debug, PartialEq, Eq, PartialOrd, Ord, Hash)]
pub struct LocalDecl {
    pub id: LocalId,
    pub ty: Ty,
}

/// A basic block: statements that run in order, then a terminator.
#[derive(Debug, PartialEq, Eq, PartialOrd, Ord, Hash)]
pub struct BasicBlock {
    pub id: BbId,
    pub statements: Vec<Statement>,
    pub terminator: Terminator,
}

#[derive(Debug, PartialEq, Eq, PartialOrd, Ord, Hash)]
pub enum Statement {
    /// `place = value;`
    Assign(PlaceExpression, ValueExpression),
    /// `place;`
    PlaceMention(PlaceExpression),
}

#[derive(Debug, PartialEq, Eq, PartialOrd, Ord, Hash)]
pub enum Terminator {
    /// `goto bb`
    Goto(BbId),
    /// `call callee<generic_arguments>(arguments) -> ret goto next_block`
    Call {
        callee: ValueExpression,
        generic_arguments: Vec<Parameter>,
        arguments: Vec<ArgumentExpression>,
        ret: PlaceExpression,
        next_block: Option<BbId>,
    },
    /// `return`
    Return,
}

#[derive(Debug, PartialEq, Eq, PartialOrd, Ord, Hash)]
pub enum ArgumentExpression {
    ByValue(ValueExpression),
    InPlace(PlaceExpression),
}

#[derive(Debug, PartialEq, Eq, PartialOrd, Ord, Hash)]
pub enum ValueExpression {
    /// `load(place)`
    Load(PlaceExpression),
}

#[derive(Debug, PartialEq, Eq, PartialOrd, Ord, Hash)]
pub enum PlaceExpression {
    Local(LocalId),
}

impl BbId {
    pub fn new(name: &str) -> (id: BbId)
        ensures
            id.name@ == name@,
    {
        BbId { name: name.to_string() }
    }
}

impl LocalId {
    pub fn new(name: &str) -> (id: LocalId)
        ensures
            id.name@ == name@,
    {
        LocalId { name: name.to_string() }
    }
}

} // verus!
