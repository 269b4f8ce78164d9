//! The configuration of an image build.
pub mod auth;
pub mod boot;
pub mod manifest;
pub mod partition;
pub mod script;

use vstd::prelude::*;
use crate::bindings::{lower_text, to_lowercase};
use crate::text::str_eq;

verus! {

/// The output format of the older configuration format.
#[derive(Debug, Clone, Copy, PartialEq, Eq, Structural)]
pub enum OutputFormat {
    /// The ISO file will be created (the default).
    Iso,
    /// Generates a disk image (not implemented yet).
    Disk,
}

impl Default for OutputFormat {
    fn default() -> (r: Self)
        ensures
            r == OutputFormat::Iso,
    {
        OutputFormat::Iso
    }
}

impl OutputFormat {
    /// The format a name stands for, whatever its case: `disk` is a disk
    /// image; anything else, known or not, an ISO.
    pub fn from(value: &str) -> (r: OutputFormat)
        ensures
            r == (if lower_text(value@) == "disk"@ { OutputFormat::Disk } else { OutputFormat::Iso }),
    {
        let lower = to_lowercase(value);
        if str_eq(lower.as_str(), "disk") {
            OutputFormat::Disk
        } else {
            OutputFormat::Iso
        }
    }
}

/// The disk layout of the older configuration format.
#[derive(Debug, PartialEq, Eq)]
pub struct DiskLayout {
    /// Create bootloader partition?
    pub bootloader: bool,
    /// Filesystem of the bootloader partition.
    pub root_format: String,
    /// Total size of the disk image.
    pub disk_size: String,
}

/// The system settings of the older configuration format.
#[derive(Debug, PartialEq, Eq)]
pub struct System {
    /// The release version of the new system.
    pub releasever: u8,
    /// The root password of the new system.
    pub rootpw: String,
    /// The bootloader to install (`limine` by default, or `grub`).
    pub bootloader: Option<String>,
    /// More kernel parameters, after `root=live:LABEL={volid} rd.live.image selinux=0`.
    pub kernel_params: Option<String>,
}

/// The scripts of the older configuration format.
#[derive(Debug, PartialEq, Eq)]
pub struct Script {
    /// The init script, run after the mountpoint is created but before the packages are installed.
    pub init: Option<String>,
    /// The post-installation script, run after package installation, `dracut` and root password setup.
    pub postinst: Option<String>,
}

/// The configuration of the older format.
pub struct Config {
    /// The name of the distro / edition.
    pub distro: String,
    /// The path to the root of the installation.
    pub instroot: String,
    /// The path to the ISO file to be created.
    pub out: String,
    /// Packages to be installed onto the new system.
    pub packages: Vec<String>,
    /// Configuration for the new system.
    pub sys: System,
    /// Scripts to be run during setup.
    pub script: Script,
    /// The command used for dnf (`dnf5` by default).
    pub dnf: Option<String>,
    /// The volume id of the ISO file.
    pub volid: String,
    /// The system architecture.
    pub arch: Option<String>,
    /// Output format.
    pub format: OutputFormat,
    /// The disk layout of the new system.
    pub disk: Option<DiskLayout>,
}

} // verus!
