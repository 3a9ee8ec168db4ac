//! Verified bookkeeping core of a constraint-based rigid-body time stepper.
//!
//! The crate owns the parts of a physics step that are decided by integers:
//! which body lives behind which handle, where each body's degrees of freedom
//! sit in the flat velocity vectors, how the jacobian buffer is divided among
//! the constraint rows, and in which order the phases of a step run. The
//! numeric kernels work on the layout computed here.

pub mod object;
pub mod solver;
