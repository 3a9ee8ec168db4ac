//! Bodies, their handles, and the set that owns them.

pub mod body;
pub mod body_set;
pub mod handle;
pub mod implicit_geom;
pub mod slab_store;
