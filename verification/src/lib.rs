//! Server-rendered live views: an incremental render-tree model with a
//! builder, a wire encoder, a JSON diff engine, and the per-connection
//! protocol state machine that drives them.

pub mod builder;
pub mod change_detection;
pub mod csrf;
pub mod diff;
pub mod encode;
pub mod handler;
pub mod head;
pub mod json;
pub mod rendered;
pub mod session;
pub mod socket;
pub mod strip;
pub mod template;

use vstd::prelude::*;

verus! {

/// A checkbox input value as sent by the client.
#[derive(Clone, Copy, Debug, PartialEq, Eq, Structural)]
pub enum CheckboxValue {
    /// The box is checked.
    Checked,
    /// The box is not checked.
    Unchecked,
}

impl CheckboxValue {
    /// Returns true exactly when the checkbox is checked.
    pub fn is_checked(&self) -> (r: bool)
        ensures
            r == (*self == CheckboxValue::Checked),
    {
        match self {
            CheckboxValue::Checked => true,
            CheckboxValue::Unchecked => false,
        }
    }
}

} // verus!
