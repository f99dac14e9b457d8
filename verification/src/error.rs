//! The ways in which assembling a program can fail.

use vstd::prelude::*;

verus! {

/// Why a program could not be assembled.
#[derive(Clone, Copy, Debug, PartialEq, Eq, Structural)]
pub enum AssembleError {
    /// The operation of a compute instruction has no encoding.
    UnresolvedComp,
    /// A label declaration names nothing.
    MalformedLabel,
    /// The symbol of an address instruction, or the position that a label names, has no
    /// address within the sixteen bits of a word.
    UnresolvedSymbol,
}

impl AssembleError {
    /// A sentence that describes the failure.
    pub open spec fn description(self) -> Seq<char> {
        match self {
            AssembleError::UnresolvedComp => "unknown operation in a compute instruction"@,
            AssembleError::MalformedLabel => "label declaration without a name"@,
            AssembleError::UnresolvedSymbol => "address does not fit in sixteen bits"@,
        }
    }

    /// A sentence that describes the failure.
    pub fn message(&self) -> (text: String)
        ensures
            text@ == self.description(),
    {
        match self {
            AssembleError::UnresolvedComp => {
                "unknown operation in a compute instruction".to_owned()
            },
            AssembleError::MalformedLabel => "label declaration without a name".to_owned(),
            AssembleError::UnresolvedSymbol => "address does not fit in sixteen bits".to_owned(),
        }
    }
}

} // verus!
