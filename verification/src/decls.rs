//! The declarations that a proof may consult.

use vstd::prelude::*;

verus! {

/// The declarations that a proof may consult.
#[derive(Clone, Copy, Debug, PartialEq, Eq, PartialOrd, Ord, Hash, Structural)]
pub struct Decls {
    /// The largest size of assumptions and goal together that a search
    /// is started on.
    pub max_size: usize,
}

} // verus!
