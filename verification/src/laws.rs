//! What holds of every encoding, whatever the value and the policies.

pub mod annotation;
pub mod compact_form;
pub mod human_form;
pub mod naming;
pub mod nesting;
pub mod repeat;
