//! What builds the root file system and what makes an image bootable.
pub mod bootloader;
pub mod fs_tree;
