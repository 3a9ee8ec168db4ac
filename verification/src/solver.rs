//! The time-stepping scheme and the layout of the system it solves.

pub mod constraint;
pub mod island;
pub mod jacobian;
pub mod joint_store;
pub mod moreau_jean_solver;
pub mod schedule;
