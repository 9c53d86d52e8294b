//! What each part of a payment promises, written out over what it is given.

pub mod choice;
pub mod recovery;
pub mod spending;
pub mod storing;
