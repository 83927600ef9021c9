//! Sub-AIRs embedded by the chips.

pub mod poseidon;
pub mod step_flags;
