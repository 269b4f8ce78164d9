//! GRUB commands of the first image creator.
use vstd::prelude::*;
use crate::text::{push_args, string_views};
pub use crate::donburi::grub_mkconfig;

verus! {

/// The `grub2-install` command that installs GRUB for `arch` on `disk`.
pub fn grub_install(disk: &str, arch: &str) -> (r: Vec<String>)
    ensures
        string_views(r@) == seq!["grub2-install"@, disk@, "--target"@, arch@],
{
    let mut r: Vec<String> = Vec::new();
    push_args(&mut r, &["grub2-install", disk, "--target", arch]);
    assert(string_views(r@) =~= seq!["grub2-install"@, disk@, "--target"@, arch@]);
    r
}

} // verus!
