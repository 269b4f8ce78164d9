//! Command line choices: the output format and the phases to skip.
use vstd::prelude::*;
use crate::text::{push_str, split_by_char, split_char, str_eq, string_of, string_views};

verus! {

/// The kind of artifact to build.
#[derive(Debug, Clone, Copy, PartialEq, Eq, Structural)]
pub enum OutputFormat {
    /// Creates a hybrid, bootable ISO-9660 image (with El Torito extensions)
    Iso,
    /// Creates a raw disk image that can either be flashed to a block device,
    /// loopback mounted, or used as a virtual disk image
    DiskImage,
    /// Install to a block device directly
    Device,
    /// Simply copies the root tree to a directory
    Folder,
}

/// The output format a name stands for, if any.
pub open spec fn format_named(s: Seq<char>) -> Option<OutputFormat> {
    if s == "iso"@ {
        Some(OutputFormat::Iso)
    } else if s == "disk-image"@ {
        Some(OutputFormat::DiskImage)
    } else if s == "device"@ {
        Some(OutputFormat::Device)
    } else if s == "folder"@ || s == "fs"@ {
        Some(OutputFormat::Folder)
    } else {
        None
    }
}

impl OutputFormat {
    /// The output format named `s` (`iso`, `disk-image`, `device`, `folder`
    /// or `fs`), or the message that it is not one.
    pub fn from_str(s: &str) -> (r: Result<OutputFormat, String>)
        ensures
            match format_named(s@) {
                Some(f) => r == Ok::<OutputFormat, String>(f),
                None => r matches Err(m) && m@ == s@ + " is not a valid output format"@,
            },
    {
        if str_eq(s, "iso") {
            Ok(OutputFormat::Iso)
        } else if str_eq(s, "disk-image") {
            Ok(OutputFormat::DiskImage)
        } else if str_eq(s, "device") {
            Ok(OutputFormat::Device)
        } else if str_eq(s, "folder") || str_eq(s, "fs") {
            Ok(OutputFormat::Folder)
        } else {
            let mut m = string_of(s);
            push_str(&mut m, " is not a valid output format");
            Err(m)
        }
    }
}

/// The phases of a build to skip.
pub struct SkipPhases {
    pub phases: Vec<String>,
}

impl SkipPhases {
    /// The phases named in a comma-separated list.
    pub fn from(value: &str) -> (r: SkipPhases)
        ensures
            string_views(r.phases@) == split_char(value@, ','),
    {
        SkipPhases { phases: split_by_char(value, ',') }
    }

    /// Whether `phase` is to be skipped.
    pub fn contains(&self, phase: &str) -> (r: bool)
        ensures
            r == string_views(self.phases@).contains(phase@),
    {
        let mut i: usize = 0;
        while i < self.phases.len()
            invariant
                i <= self.phases@.len(),
                forall|j: int| 0 <= j < i ==> self.phases@[j]@ != phase@,
            decreases self.phases@.len() - i,
        {
            if str_eq(self.phases[i].as_str(), phase) {
                assert(string_views(self.phases@)[i as int] == phase@);
                return true;
            }
            i = i + 1;
        }
        assert forall|j: int| 0 <= j < string_views(self.phases@).len() implies string_views(self.phases@)[j] != phase@ by {
            assert(self.phases@[j]@ != phase@);
        }
        false
    }
}

} // verus!
