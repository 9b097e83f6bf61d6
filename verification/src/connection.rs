use vstd::prelude::*;

verus! {

/// Whether a connection goes on after a request.
#[derive(Debug, Clone, Copy, PartialEq, Eq, Structural)]
pub enum ConnectionStatus {
    Keep,
    End,
}

} // verus!
