pub mod delivery;
pub mod filter;
pub mod json;
pub mod selector;
pub mod subscription;

use vstd::prelude::*;

verus! {

/// A constraint of a selection: the field equals the bytes.
pub enum Constraint {
    Equal(Vec<u8>),
}

/// A selection of messages: whether it reads from storage first, and its
/// constraints.
pub struct Selection {
    reading_from_storage: bool,
    constraints: Vec<Constraint>,
}

} // verus!
