//! Reconciliation core of a retained-mode UI toolkit.
//!
//! A build pass declares, in order, the state cells and render objects that
//! one level of the tree should hold. [`ui::Ui`] matches each declaration to
//! the persistent [`tree::Children`] by its call-site key, creates what is
//! missing, retires what was skipped and purges what was not declared.
use vstd::prelude::*;

pub mod bloom;
pub mod id;
pub mod key;
pub mod model;
pub mod object;
pub mod tree;
pub mod ui;

verus! {

/// Fast identity comparison of values.
pub trait VisualEq {
    /// Determine whether two values are the same.
    ///
    /// This is intended to always be a fast operation. If it returns
    /// `true`, the two values *must* be equal, but two equal values
    /// need not be considered the same here, as will often be the
    /// case when two copies are separately allocated.
    fn eq(&self, other: &Self) -> bool;
}

} // verus!
