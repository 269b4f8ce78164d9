use vstd::prelude::*;

pub mod text;
pub mod bindings;
pub mod config;
pub mod mounts;
pub mod builder;
pub mod order;
pub mod cfg;
pub mod backends;
pub mod rootimg;
pub mod util;
pub mod cli;
pub mod creator;
pub mod donburi;
pub mod grub;

verus! {

} // verus!
