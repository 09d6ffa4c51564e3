//! Options of the atomic-CSS framework as a whole.

use vstd::prelude::*;
use std::collections::HashMap;

verus! {

/// The breakpoints of the framework, name to width, and how atoms are
/// selected.
pub struct FrameworkOptions {
    pub breakpoints: HashMap<String, String>,
    pub atom_type: AtomType,
}

/// Where a breakpoint's modifier goes in an atom name.
pub enum BreakpointModifierPosition {
    Prefix(String),
}

/// How atoms are selected: by class attribute or by data attributes.
#[derive(Clone, Copy, PartialEq, Eq, Structural)]
pub enum AtomType {
    ClassAttribute,
    DataAttributes,
}

/// A plugin of the framework.
pub enum Plugin {
    CreateAtom(AtomCreationOptions),
}

/// The options of atom creation.
pub struct AtomCreationOptions {}

} // verus!
