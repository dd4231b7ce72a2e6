//! The target-validation rule of the `ps` command: it acts on exactly one
//! named service or pod, never on several and never on everything.

use vstd::prelude::*;

verus! {

/// What a command is asked to act on.
pub enum ActOn {
    /// Every pod of the project.
    All,
    /// The pods or services with these names.
    Named(Vec<String>),
}

/// Whether the selection names exactly one target.
pub open spec fn is_single_target(act_on: &ActOn) -> bool {
    act_on matches ActOn::Named(names) && names@.len() == 1
}

impl ActOn {
    /// Whether the `ps` command accepts this selection: it does exactly
    /// when one single service or pod is named.
    pub fn single_target(&self) -> (r: bool)
        ensures
            r == is_single_target(self),
    {
        match self {
            ActOn::Named(names) => names.len() == 1,
            ActOn::All => false,
        }
    }
}

} // verus!
