//! Root images of the live system.
pub mod erofs;
