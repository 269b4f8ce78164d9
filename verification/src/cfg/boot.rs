//! Bootloaders of the older configuration format.
use vstd::prelude::*;
use crate::bindings::{lower_text, to_lowercase};
use crate::text::{contains_seq, push_str, starts_with, str_contains, str_eq, str_starts_with, string_of, string_views};

verus! {

/// A bootloader.
#[derive(Debug, Clone, Copy, PartialEq, Eq, Structural)]
pub enum Bootloader {
    /// GRUB 2 (the default)
    Grub,
    Limine,
    SystemdBoot,
}

impl Default for Bootloader {
    fn default() -> (r: Self)
        ensures
            r == Bootloader::Grub,
    {
        Bootloader::Grub
    }
}

/// The bootloader a lowercased name stands for; GRUB for names it does not know.
pub open spec fn bootloader_named(name: Seq<char>) -> Bootloader {
    if name == "limine"@ {
        Bootloader::Limine
    } else if name == "systemd-boot"@ {
        Bootloader::SystemdBoot
    } else {
        Bootloader::Grub
    }
}

impl Bootloader {
    /// The bootloader a name stands for, whatever its case (`limine`, `grub`,
    /// `grub2`, `systemd-boot`); GRUB for names it does not know.
    pub fn from(value: &str) -> (r: Bootloader)
        ensures
            r == bootloader_named(lower_text(value@)),
    {
        let lower = to_lowercase(value);
        if str_eq(lower.as_str(), "limine") {
            Bootloader::Limine
        } else if str_eq(lower.as_str(), "systemd-boot") {
            Bootloader::SystemdBoot
        } else {
            Bootloader::Grub
        }
    }

    /// The command that installs the bootloader to the image, when it needs
    /// one: `limine bios-install` or `bootctl --image=… install`.
    pub fn install(&self, image: &str) -> (r: Option<Vec<String>>)
        ensures
            match *self {
                Bootloader::Grub => r is None,
                Bootloader::Limine => r matches Some(c) && string_views(c@) == seq!["limine"@, "bios-install"@, image@],
                Bootloader::SystemdBoot => r matches Some(c) && string_views(c@) == seq!["bootctl"@, "--image="@ + image@, "install"@],
            },
    {
        match *self {
            Bootloader::Grub => None,
            Bootloader::Limine => {
                let mut c: Vec<String> = Vec::new();
                c.push(string_of("limine"));
                c.push(string_of("bios-install"));
                c.push(string_of(image));
                assert(string_views(c@) =~= seq!["limine"@, "bios-install"@, image@]);
                Some(c)
            },
            Bootloader::SystemdBoot => {
                let mut c: Vec<String> = Vec::new();
                c.push(string_of("bootctl"));
                let mut a = string_of("--image=");
                push_str(&mut a, image);
                c.push(a);
                c.push(string_of("install"));
                assert(string_views(c@) =~= seq!["bootctl"@, "--image="@ + image@, "install"@]);
                Some(c)
            },
        }
    }

    /// The paths, relative to the ISO tree, of the UEFI and the BIOS boot
    /// binaries; not known for systemd-boot.
    pub fn get_bins(&self) -> (r: (&'static str, &'static str))
        requires
            *self != Bootloader::SystemdBoot,
        ensures
            *self == Bootloader::Grub ==> r.0@ == "boot/efi/EFI/fedora/shim.efi"@ && r.1@ == "boot/eltorito.img"@,
            *self == Bootloader::Limine ==> r.0@ == "boot/limine-uefi-cd.bin"@ && r.1@ == "boot/limine-bios-cd.bin"@,
    {
        match *self {
            Bootloader::Grub => ("boot/efi/EFI/fedora/shim.efi", "boot/eltorito.img"),
            _ => ("boot/limine-uefi-cd.bin", "boot/limine-bios-cd.bin"),
        }
    }
}

/// A file of `/boot` that is not a rescue image.
pub open spec fn not_rescue(name: Seq<char>) -> bool {
    !contains_seq(name, "-rescue-"@)
}

/// Scanning the first `n` names of the regular files of `/boot` for the
/// kernel and the initramfs: rescue images are passed over; the latest
/// `vmlinuz-…` and `initramfs-…` seen are kept, until both are found.
pub open spec fn kernel_scan(names: Seq<Seq<char>>, n: int) -> (Option<int>, Option<int>)
    decreases n,
{
    if n <= 0 {
        (None, None)
    } else {
        let prev = kernel_scan(names, n - 1);
        if prev.0 is Some && prev.1 is Some {
            prev
        } else {
            let name = names[n - 1];
            if !not_rescue(name) {
                prev
            } else if starts_with(name, "vmlinuz-"@) {
                (Some(n - 1), prev.1)
            } else if starts_with(name, "initramfs-"@) {
                (prev.0, Some(n - 1))
            } else {
                prev
            }
        }
    }
}

/// The positions of the kernel and of the initramfs among the names of the
/// regular files of `/boot`, in the order they are listed (see `kernel_scan`).
pub fn find_kernel_files(names: &Vec<String>) -> (r: (Option<usize>, Option<usize>))
    ensures
        (match r.0 { Some(i) => Some(i as int), None => None }, match r.1 { Some(i) => Some(i as int), None => None })
            == kernel_scan(string_views(names@), names@.len() as int),
{
    let ghost v = string_views(names@);
    let mut vm: Option<usize> = None;
    let mut ir: Option<usize> = None;
    let mut i: usize = 0;
    while i < names.len()
        invariant
            v == string_views(names@),
            i <= names@.len(),
            (match vm { Some(x) => Some(x as int), None => None }, match ir { Some(x) => Some(x as int), None => None })
                == kernel_scan(v, i as int),
            vm.is_some() && ir.is_some() ==> kernel_scan(v, names@.len() as int) == kernel_scan(v, i as int),
        decreases names@.len() - i,
    {
        if vm.is_some() && ir.is_some() {
            return (vm, ir);
        }
        let n = names[i].as_str();
        assert(v[i as int] == n@);
        if !str_contains(n, "-rescue-") {
            if str_starts_with(n, "vmlinuz-") {
                vm = Some(i);
            } else if str_starts_with(n, "initramfs-") {
                ir = Some(i);
            }
        }
        i = i + 1;
        proof {
            if vm.is_some() && ir.is_some() {
                lemma_kernel_scan_stops(v, i as int, names@.len() as int);
            }
        }
    }
    (vm, ir)
}

/// Once both files are found, the scan keeps them.
pub proof fn lemma_kernel_scan_stops(names: Seq<Seq<char>>, i: int, n: int)
    requires
        i <= n,
        kernel_scan(names, i).0 is Some && kernel_scan(names, i).1 is Some,
    ensures
        kernel_scan(names, n) == kernel_scan(names, i),
    decreases n - i,
{
    if i < n {
        lemma_kernel_scan_stops(names, i, n - 1);
    }
}

} // verus!
