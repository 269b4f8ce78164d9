//! Bootloaders: which one a name means, the files they boot from, and the
//! commands that install them.
use vstd::prelude::*;
use crate::bindings::{lower_text, to_lowercase};
use crate::text::{commands_view, contains_seq, join_path, path_join, push_args, push_str, str_contains, str_eq, str_starts_with, string_of, string_views, starts_with};

verus! {

/// Represents the bootloader types supported by Katsu
///
/// Each variant corresponds to a specific bootloader technology with its own
/// installation and configuration methods.
#[derive(Debug, Clone, Copy, PartialEq, Eq, Structural)]
pub enum Bootloader {
    /// Standard GRUB2 bootloader with UEFI support (default)
    Grub,
    /// GRUB2 bootloader configured for legacy BIOS systems
    GrubBios,
    /// Limine bootloader, a modern UEFI/BIOS bootloader
    Limine,
    /// systemd-boot, a simple UEFI boot manager
    SystemdBoot,
    /// rEFInd, a graphical UEFI boot manager
    REFInd,
}

impl Default for Bootloader {
    fn default() -> (r: Self)
        ensures
            r == Bootloader::Grub,
    {
        Bootloader::Grub
    }
}

/// The bootloader a lowercased name stands for; GRUB for names it does not know.
pub open spec fn bootloader_named(name: Seq<char>) -> Bootloader {
    if name == "limine"@ {
        Bootloader::Limine
    } else if name == "grub"@ || name == "grub2"@ {
        Bootloader::Grub
    } else if name == "grub-bios"@ {
        Bootloader::GrubBios
    } else if name == "systemd-boot"@ {
        Bootloader::SystemdBoot
    } else if name == "refind"@ {
        Bootloader::REFInd
    } else {
        Bootloader::Grub
    }
}

/// The bootloader named by a lowercased name.
pub fn bootloader_of_name(name: &str) -> (r: Bootloader)
    ensures
        r == bootloader_named(name@),
{
    if str_eq(name, "limine") {
        Bootloader::Limine
    } else if str_eq(name, "grub") || str_eq(name, "grub2") {
        Bootloader::Grub
    } else if str_eq(name, "grub-bios") {
        Bootloader::GrubBios
    } else if str_eq(name, "systemd-boot") {
        Bootloader::SystemdBoot
    } else if str_eq(name, "refind") {
        Bootloader::REFInd
    } else {
        Bootloader::Grub
    }
}

impl Bootloader {
    /// The bootloader a name stands for, whatever its case; GRUB for names it does not know.
    pub fn from(value: &str) -> (r: Bootloader)
        ensures
            r == bootloader_named(lower_text(value@)),
    {
        let lower = to_lowercase(value);
        bootloader_of_name(lower.as_str())
    }

    /// The paths, relative to the ISO tree, of the UEFI and the BIOS boot
    /// binaries (rEFInd has no BIOS one). Not known for GRUB BIOS and systemd-boot.
    pub fn get_bins(&self) -> (r: (&'static str, &'static str))
        requires
            *self != Bootloader::GrubBios,
            *self != Bootloader::SystemdBoot,
        ensures
            *self == Bootloader::Grub ==> r.0@ == "boot/efi/EFI/fedora/shim.efi"@ && r.1@ == "boot/eltorito.img"@,
            *self == Bootloader::Limine ==> r.0@ == "boot/limine-uefi-cd.bin"@ && r.1@ == "boot/limine-bios-cd.bin"@,
            *self == Bootloader::REFInd ==> r.0@ == "boot/efi/EFI/refind/refind_x64.efi"@ && r.1@ == ""@,
    {
        match *self {
            Bootloader::Grub => ("boot/efi/EFI/fedora/shim.efi", "boot/eltorito.img"),
            Bootloader::Limine => ("boot/limine-uefi-cd.bin", "boot/limine-bios-cd.bin"),
            _ => ("boot/efi/EFI/refind/refind_x64.efi", ""),
        }
    }

    /// The command that installs the bootloader to the image, when it needs
    /// one: `limine bios-install`, `bootctl --image=… install`, or
    /// `grub-install` for BIOS; GRUB and rEFInd need none.
    pub fn install(&self, image: &str) -> (r: Option<Vec<String>>)
        ensures
            match *self {
                Bootloader::Grub | Bootloader::REFInd => r is None,
                Bootloader::Limine => r matches Some(c) && string_views(c@) == seq!["limine"@, "bios-install"@, image@],
                Bootloader::SystemdBoot => r matches Some(c) && string_views(c@) == seq!["bootctl"@, "--image="@ + image@, "install"@],
                Bootloader::GrubBios => r matches Some(c) && string_views(c@) == seq!["grub-install"@, "--target=i386-pc"@, "--boot-directory="@ + image@ + "/boot"@],
            },
    {
        match *self {
            Bootloader::Limine => {
                let mut c: Vec<String> = Vec::new();
                c.push(string_of("limine"));
                c.push(string_of("bios-install"));
                c.push(string_of(image));
                assert(string_views(c@) =~= seq!["limine"@, "bios-install"@, image@]);
                Some(c)
            },
            Bootloader::SystemdBoot => {
                let mut c: Vec<String> = Vec::new();
                c.push(string_of("bootctl"));
                let mut a = string_of("--image=");
                push_str(&mut a, image);
                c.push(a);
                c.push(string_of("install"));
                assert(string_views(c@) =~= seq!["bootctl"@, "--image="@ + image@, "install"@]);
                Some(c)
            },
            Bootloader::GrubBios => {
                let mut c: Vec<String> = Vec::new();
                c.push(string_of("grub-install"));
                c.push(string_of("--target=i386-pc"));
                let mut a = string_of("--boot-directory=");
                push_str(&mut a, image);
                push_str(&mut a, "/boot");
                c.push(a);
                assert(string_views(c@) =~= seq!["grub-install"@, "--target=i386-pc"@, "--boot-directory="@ + image@ + "/boot"@]);
                Some(c)
            },
            _ => None,
        }
    }
}

/// The architectures the GRUB images are made for.
pub open spec fn known_arch(arch: Seq<char>) -> bool {
    arch == "x86_64"@ || arch == "aarch64"@
}

/// The short EFI name of an architecture: `x64` or `aa64`.
pub open spec fn arch_short_spec(arch: Seq<char>) -> Seq<char> {
    if arch == "x86_64"@ { "x64"@ } else { "aa64"@ }
}

/// The EFI name of the 32-bit sibling of an architecture: `ia32` or `arm`.
pub open spec fn arch_32bit_spec(arch: Seq<char>) -> Seq<char> {
    if arch == "x86_64"@ { "ia32"@ } else { "arm"@ }
}

/// The architecture being built for: the configured one, else the host's.
pub open spec fn target_arch(configured: Option<Seq<char>>, host: Seq<char>) -> Seq<char> {
    match configured {
        Some(a) => a,
        None => host,
    }
}

/// The architecture being built for: the configured one, else the host's.
pub fn get_arch(configured: &Option<String>, host: &str) -> (r: String)
    ensures
        r@ == target_arch(match configured { Some(a) => Some(a@), None => None }, host@),
{
    match configured {
        Some(a) => a.clone(),
        None => string_of(host),
    }
}

/// The short EFI name of an architecture (`x64` for x86_64, `aa64` for aarch64).
pub fn get_arch_short(arch: &str) -> (r: &'static str)
    requires
        known_arch(arch@),
    ensures
        r@ == arch_short_spec(arch@),
{
    if str_eq(arch, "x86_64") { "x64" } else { "aa64" }
}

/// The EFI name of the 32-bit sibling of an architecture (`ia32` or `arm`).
pub fn get_arch_32bit(arch: &str) -> (r: &'static str)
    requires
        known_arch(arch@),
    ensures
        r@ == arch_32bit_spec(arch@),
{
    if str_eq(arch, "x86_64") { "ia32" } else { "arm" }
}

/// The `grub2-mkimage` command that makes the El Torito boot image of the ISO
/// tree: for x86_64 a BIOS image with `biosdisk`, for aarch64 an EFI one with `efi_gop`.
pub open spec fn grub_mkimage_spec(chroot: Seq<char>, iso_tree: Seq<char>, arch: Seq<char>) -> Seq<Seq<char>> {
    let x86 = arch == "x86_64"@;
    seq![
        "grub2-mkimage"@, "-O"@, if x86 { "i386-pc-eltorito"@ } else { "arm64-efi"@ },
        "-d"@, chroot + "/usr/lib/grub/"@ + if x86 { "i386-pc"@ } else { "arm64-efi"@ },
        "-o"@, iso_tree + "/boot/eltorito.img"@, "-p"@, "/boot/grub"@, "iso9660"@,
        if x86 { "biosdisk"@ } else { "efi_gop"@ },
    ]
}

/// The `grub2-mkimage` command that makes the El Torito boot image.
pub fn grub_mkimage(chroot: &str, iso_tree: &str, arch: &str) -> (r: Vec<String>)
    requires
        known_arch(arch@),
    ensures
        string_views(r@) == grub_mkimage_spec(chroot@, iso_tree@, arch@),
{
    let x86 = str_eq(arch, "x86_64");
    let mut r: Vec<String> = Vec::new();
    r.push(string_of("grub2-mkimage"));
    r.push(string_of("-O"));
    r.push(if x86 { string_of("i386-pc-eltorito") } else { string_of("arm64-efi") });
    r.push(string_of("-d"));
    let mut d = string_of(chroot);
    push_str(&mut d, "/usr/lib/grub/");
    push_str(&mut d, if x86 { "i386-pc" } else { "arm64-efi" });
    r.push(d);
    r.push(string_of("-o"));
    let mut o = string_of(iso_tree);
    push_str(&mut o, "/boot/eltorito.img");
    r.push(o);
    r.push(string_of("-p"));
    r.push(string_of("/boot/grub"));
    r.push(string_of("iso9660"));
    r.push(if x86 { string_of("biosdisk") } else { string_of("efi_gop") });
    assert(string_views(r@) =~= grub_mkimage_spec(chroot@, iso_tree@, arch@));
    r
}

/// A file of `/boot` is the initramfs to boot: not a rescue image, and named
/// `initramfs.img` or `initramfs-…`.
pub open spec fn is_initramfs(name: Seq<char>) -> bool {
    &&& !contains_seq(name, "-rescue-"@)
    &&& (name == "initramfs.img"@ || starts_with(name, "initramfs-"@))
}

/// The position of the initramfs among the names of the regular files of
/// `/boot`, in the order they are listed: the first that `is_initramfs`.
pub fn find_initramfs(names: &Vec<String>) -> (r: Option<usize>)
    ensures
        match r {
            Some(i) => i < names@.len() && is_initramfs(names@[i as int]@)
                && forall|j: int| 0 <= j < i ==> !is_initramfs(#[trigger] names@[j]@),
            None => forall|j: int| 0 <= j < names@.len() ==> !is_initramfs(#[trigger] names@[j]@),
        },
{
    let mut i: usize = 0;
    while i < names.len()
        invariant
            i <= names@.len(),
            forall|j: int| 0 <= j < i ==> !is_initramfs(#[trigger] names@[j]@),
        decreases names@.len() - i,
    {
        let n = names[i].as_str();
        if !str_contains(n, "-rescue-") && (str_eq(n, "initramfs.img") || str_starts_with(n, "initramfs-")) {
            return Some(i);
        }
        i = i + 1;
    }
    None
}

} // verus!

verus! {

/// Appends a command.
fn push_command(r: &mut Vec<Vec<String>>, c: Vec<String>)
    ensures
        commands_view(final(r)@) == commands_view(old(r)@).push(string_views(c@)),
{
    let ghost cv = string_views(c@);
    r.push(c);
    assert(commands_view(final(r)@) =~= commands_view(old(r)@).push(cv));
}

/// A command made of the given arguments.
fn args(items: &[&str]) -> (r: Vec<String>)
    ensures
        string_views(r@) == items@.map_values(|a: &str| a@),
{
    let mut r: Vec<String> = Vec::new();
    push_args(&mut r, items);
    assert(string_views(r@) =~= items@.map_values(|a: &str| a@));
    r
}

/// Three texts glued together.
fn glue(a: &str, b: &str, c: &str) -> (r: String)
    ensures
        r@ == a@ + b@ + c@,
{
    let mut r = string_of(a);
    push_str(&mut r, b);
    push_str(&mut r, c);
    r
}

/// The uppercase EFI name of an architecture: `X64` or `AA64`.
pub open spec fn arch_short_upper(arch: Seq<char>) -> Seq<char> {
    if arch == "x86_64"@ { "X64"@ } else { "AA64"@ }
}

/// The uppercase EFI name of an architecture's 32-bit sibling: `IA32` or `ARM`.
pub open spec fn arch_32bit_upper(arch: Seq<char>) -> Seq<char> {
    if arch == "x86_64"@ { "IA32"@ } else { "ARM"@ }
}

/// The commands that put the EFI boot files of the ISO tree in place: the
/// distribution's EFI files, the GRUB configuration (as `BOOT.conf` and
/// `grub.cfg`) and font, and the shims as the default boot files.
pub open spec fn efi_boot_files_spec(t: Seq<char>, arch: Seq<char>) -> Seq<Seq<Seq<char>>> {
    seq![
        seq!["cp"@, "-av"@, t + "/boot/efi/EFI/fedora/."@, t + "/EFI/BOOT"@],
        seq!["cp"@, "-av"@, t + "/boot/grub/grub.cfg"@, t + "/EFI/BOOT/BOOT.conf"@],
        seq!["cp"@, "-av"@, t + "/boot/grub/grub.cfg"@, t + "/EFI/BOOT/grub.cfg"@],
        seq!["cp"@, "-av"@, t + "/boot/grub/fonts/unicode.pf2"@, t + "/EFI/BOOT/fonts"@],
        seq!["cp"@, "-av"@, t + "/EFI/BOOT/shim"@ + arch_short_spec(arch) + ".efi"@,
            t + "/EFI/BOOT/BOOT"@ + arch_short_upper(arch) + ".efi"@],
        seq!["cp"@, "-av"@, t + "/EFI/BOOT/shim.efi"@, t + "/EFI/BOOT/BOOT"@ + arch_32bit_upper(arch) + ".efi"@],
    ]
}

/// The commands that put the EFI boot files of the ISO tree `iso_tree` in place.
pub fn setup_efi_boot_files(iso_tree: &str, arch: &str) -> (r: Vec<Vec<String>>)
    requires
        known_arch(arch@),
    ensures
        commands_view(r@) == efi_boot_files_spec(iso_tree@, arch@),
{
    proof {
        reveal_strlit("");
    }
    let short = get_arch_short(arch);
    let upper = if str_eq(arch, "x86_64") { "X64" } else { "AA64" };
    let up32 = if str_eq(arch, "x86_64") { "IA32" } else { "ARM" };
    let a1 = glue(iso_tree, "/boot/efi/EFI/fedora/.", "");
    let a2 = glue(iso_tree, "/EFI/BOOT", "");
    let b1 = glue(iso_tree, "/boot/grub/grub.cfg", "");
    let b2 = glue(iso_tree, "/EFI/BOOT/BOOT.conf", "");
    let c2 = glue(iso_tree, "/EFI/BOOT/grub.cfg", "");
    let d1 = glue(iso_tree, "/boot/grub/fonts/unicode.pf2", "");
    let d2 = glue(iso_tree, "/EFI/BOOT/fonts", "");
    let mut e1 = glue(iso_tree, "/EFI/BOOT/shim", short);
    push_str(&mut e1, ".efi");
    let mut e2 = glue(iso_tree, "/EFI/BOOT/BOOT", upper);
    push_str(&mut e2, ".efi");
    let f1 = glue(iso_tree, "/EFI/BOOT/shim.efi", "");
    let mut f2 = glue(iso_tree, "/EFI/BOOT/BOOT", up32);
    push_str(&mut f2, ".efi");
    let mut r: Vec<Vec<String>> = Vec::new();
    push_command(&mut r, args(&["cp", "-av", a1.as_str(), a2.as_str()]));
    push_command(&mut r, args(&["cp", "-av", b1.as_str(), b2.as_str()]));
    push_command(&mut r, args(&["cp", "-av", b1.as_str(), c2.as_str()]));
    push_command(&mut r, args(&["cp", "-av", d1.as_str(), d2.as_str()]));
    push_command(&mut r, args(&["cp", "-av", e1.as_str(), e2.as_str()]));
    push_command(&mut r, args(&["cp", "-av", f1.as_str(), f2.as_str()]));
    assert(commands_view(r@) =~~= efi_boot_files_spec(iso_tree@, arch@));
    r
}

/// The commands that make the GRUB images of the ISO tree: the El Torito
/// image, and a rescue image beside the tree whose GRUB files are then
/// copied (through the loop device `loop_device` it is attached to).
pub open spec fn grub_images_spec(chroot: Seq<char>, t: Seq<char>, arch: Seq<char>, loop_device: Seq<char>) -> Seq<Seq<Seq<char>>> {
    seq![
        grub_mkimage_spec(chroot, t, arch),
        seq!["grub2-mkrescue"@, "-o"@, t + "/../efiboot.img"@],
        seq!["mkdir"@, "-p"@, "/tmp/katsu-efiboot"@],
        seq!["mount"@, loop_device, "/tmp/katsu-efiboot"@],
        seq!["cp"@, "-r"@, "/tmp/katsu-efiboot/boot/grub"@, t + "/boot/"@],
        seq!["umount"@, "/tmp/katsu-efiboot"@],
    ]
}

/// The commands that make the GRUB images of the ISO tree (see `grub_images_spec`).
pub fn generate_grub_images(chroot: &str, iso_tree: &str, arch: &str, loop_device: &str) -> (r: Vec<Vec<String>>)
    requires
        known_arch(arch@),
    ensures
        commands_view(r@) == grub_images_spec(chroot@, iso_tree@, arch@, loop_device@),
{
    proof {
        reveal_strlit("");
    }
    let rescue = glue(iso_tree, "/../efiboot.img", "");
    let boot = glue(iso_tree, "/boot/", "");
    let mut r: Vec<Vec<String>> = Vec::new();
    push_command(&mut r, grub_mkimage(chroot, iso_tree, arch));
    push_command(&mut r, args(&["grub2-mkrescue", "-o", rescue.as_str()]));
    push_command(&mut r, args(&["mkdir", "-p", "/tmp/katsu-efiboot"]));
    push_command(&mut r, args(&["mount", loop_device, "/tmp/katsu-efiboot"]));
    push_command(&mut r, args(&["cp", "-r", "/tmp/katsu-efiboot/boot/grub", boot.as_str()]));
    push_command(&mut r, args(&["umount", "/tmp/katsu-efiboot"]));
    assert(commands_view(r@) =~~= grub_images_spec(chroot@, iso_tree@, arch@, loop_device@));
    r
}

/// The size of the EFI boot image: 256 MiB for rEFInd, which also holds the
/// kernel and initramfs, 25 MiB otherwise.
pub fn efiboot_size(bootloader: Bootloader) -> (r: u64)
    ensures
        r == (if bootloader == Bootloader::REFInd { 256 * 1024 * 1024 } else { 25 * 1024 * 1024 }),
{
    if bootloader == Bootloader::REFInd { 268435456 } else { 26214400 }
}

/// The commands that fill the EFI boot image attached to the loop device
/// `ldp` from the ISO tree: a FAT file system labelled `EFI`, the tree's
/// `EFI/BOOT`, and for rEFInd also the kernel and initramfs.
pub open spec fn efiboot_spec(ldp: Seq<char>, t: Seq<char>, refind: bool) -> Seq<Seq<Seq<char>>> {
    seq![
        seq!["mkfs.msdos"@, ldp, "-v"@, "-n"@, "EFI"@],
        seq!["mkdir"@, "-p"@, "/tmp/katsu.efiboot"@],
        seq!["mount"@, ldp, "/tmp/katsu.efiboot"@],
        seq!["mkdir"@, "-p"@, "/tmp/katsu.efiboot/EFI/BOOT"@],
        seq!["cp"@, "-avr"@, t + "/EFI/BOOT/."@, "/tmp/katsu.efiboot/EFI/BOOT"@],
    ]
        + (if refind {
            seq![
                seq!["mkdir"@, "-p"@, "/tmp/katsu.efiboot/boot"@],
                seq!["cp"@, "-av"@, t + "/boot/vmlinuz"@, "/tmp/katsu.efiboot/boot/"@],
                seq!["cp"@, "-av"@, t + "/boot/initramfs.img"@, "/tmp/katsu.efiboot/boot/"@],
            ]
        } else {
            Seq::empty()
        })
        + seq![seq!["umount"@, "/tmp/katsu.efiboot"@]]
}

/// The commands that fill the EFI boot image (see `efiboot_spec`).
pub fn mkefiboot(bootloader: Bootloader, ldp: &str, iso_tree: &str) -> (r: Vec<Vec<String>>)
    ensures
        commands_view(r@) == efiboot_spec(ldp@, iso_tree@, bootloader == Bootloader::REFInd),
{
    proof {
        reveal_strlit("");
    }
    let src = glue(iso_tree, "/EFI/BOOT/.", "");
    let mut r: Vec<Vec<String>> = Vec::new();
    push_command(&mut r, args(&["mkfs.msdos", ldp, "-v", "-n", "EFI"]));
    push_command(&mut r, args(&["mkdir", "-p", "/tmp/katsu.efiboot"]));
    push_command(&mut r, args(&["mount", ldp, "/tmp/katsu.efiboot"]));
    push_command(&mut r, args(&["mkdir", "-p", "/tmp/katsu.efiboot/EFI/BOOT"]));
    push_command(&mut r, args(&["cp", "-avr", src.as_str(), "/tmp/katsu.efiboot/EFI/BOOT"]));
    let ghost c0 = commands_view(r@);
    if bootloader == Bootloader::REFInd {
        let k = glue(iso_tree, "/boot/vmlinuz", "");
        let i = glue(iso_tree, "/boot/initramfs.img", "");
        push_command(&mut r, args(&["mkdir", "-p", "/tmp/katsu.efiboot/boot"]));
        push_command(&mut r, args(&["cp", "-av", k.as_str(), "/tmp/katsu.efiboot/boot/"]));
        push_command(&mut r, args(&["cp", "-av", i.as_str(), "/tmp/katsu.efiboot/boot/"]));
    }
    push_command(&mut r, args(&["umount", "/tmp/katsu.efiboot"]));
    assert(commands_view(r@) =~~= efiboot_spec(ldp@, iso_tree@, bootloader == Bootloader::REFInd));
    r
}

/// Where the GRUB files of the ISO tree come from: the chroot's `boot/grub2`
/// when it has one, else its `boot/grub`; or the error that it has neither.
pub fn grub_source(chroot_boot: &str, has_grub2: bool, has_grub: bool) -> (r: Result<String, String>)
    ensures
        has_grub2 ==> (r matches Ok(p) && p@ == join_path(chroot_boot@, "grub2"@)),
        !has_grub2 && has_grub ==> (r matches Ok(p) && p@ == join_path(chroot_boot@, "grub"@)),
        !has_grub2 && !has_grub ==> (r matches Err(m) && m@ == "Missing grub directory in "@ + chroot_boot@),
{
    if has_grub2 {
        Ok(path_join(chroot_boot, "grub2"))
    } else if has_grub {
        Ok(path_join(chroot_boot, "grub"))
    } else {
        let m = glue("Missing grub directory in ", chroot_boot, "");
        proof {
            reveal_strlit("");
            assert(m@ =~= "Missing grub directory in "@ + chroot_boot@);
        }
        Err(m)
    }
}

} // verus!

verus! {

/// The notice at the top of a generated file: its path, what it holds, and
/// the code that writes it.
pub open spec fn prepend_comment_spec(path: Seq<char>, desc: Seq<char>, module: Seq<char>) -> Seq<char> {
    "#\n# "@ + path + ": "@ + desc + "\n# Automatically generated by Katsu Image Builder. See\n# "@ + module
        + " for more information.\n\n"@
}

/// The notice at the top of a generated file (see `prepend_comment_spec`).
pub fn prepend_comment(path: &str, desc: &str, module: &str) -> (r: String)
    ensures
        r@ == prepend_comment_spec(path@, desc@, module@),
{
    let mut r = string_of("#\n# ");
    push_str(&mut r, path);
    push_str(&mut r, ": ");
    push_str(&mut r, desc);
    push_str(&mut r, "\n# Automatically generated by Katsu Image Builder. See\n# ");
    push_str(&mut r, module);
    push_str(&mut r, " for more information.\n\n");
    r
}

/// Whether the bootloader has a configuration file made from a template.
pub open spec fn has_cfg_template(b: Bootloader) -> bool {
    b == Bootloader::Grub || b == Bootloader::Limine || b == Bootloader::REFInd
}

/// The template of the bootloader's configuration file.
pub open spec fn cfg_template_spec(b: Bootloader) -> Seq<char> {
    match b {
        Bootloader::Grub => "grub.cfg.tera"@,
        Bootloader::Limine => "limine.cfg.tera"@,
        _ => "refind.cfg.tera"@,
    }
}

/// The template of the bootloader's configuration file.
pub fn cfg_template(b: Bootloader) -> (r: &'static str)
    requires
        has_cfg_template(b),
    ensures
        r@ == cfg_template_spec(b),
{
    match b {
        Bootloader::Grub => "grub.cfg.tera",
        Bootloader::Limine => "limine.cfg.tera",
        _ => "refind.cfg.tera",
    }
}

/// The name and value of the notice variable of the bootloader's template:
/// the path of the configuration file, what it holds and the code that
/// writes it.
pub open spec fn cfg_comment_spec(b: Bootloader) -> (Seq<char>, Seq<char>) {
    match b {
        Bootloader::Grub => ("GRUB_PREPEND_COMMENT"@, prepend_comment_spec("/boot/grub/grub.cfg"@,
            "Grub configurations"@, "katsu::builder::Bootloader::cp_grub"@)),
        Bootloader::Limine => ("LIMINE_PREPEND_COMMENT"@, prepend_comment_spec("/boot/limine.cfg"@,
            "Limine configurations"@, "katsu::builder::Bootloader::cp_limine"@)),
        _ => ("REFIND_PREPEND_COMMENT"@, prepend_comment_spec("/boot/efi/EFI/refind/refind.conf"@,
            "rEFInd configurations"@, "katsu::builder::Bootloader::cp_refind"@)),
    }
}

/// The variables the bootloader's configuration template is rendered with:
/// the notice, the volume ID, the distribution (`Linux` when unnamed), the
/// kernel and initramfs file names, and the kernel command line (empty when
/// unset).
pub open spec fn cfg_vars_spec(b: Bootloader, volid: Seq<char>, distro: Option<Seq<char>>, vmlinuz: Seq<char>,
    initramfs: Seq<char>, cmdline: Option<Seq<char>>) -> Seq<(Seq<char>, Seq<char>)> {
    seq![
        cfg_comment_spec(b),
        ("volid"@, volid),
        ("distro"@, match distro { Some(d) => d, None => "Linux"@ }),
        ("vmlinuz"@, vmlinuz),
        ("initramfs"@, initramfs),
        ("cmd"@, match cmdline { Some(c) => c, None => ""@ }),
    ]
}

/// The views of a list of string pairs.
pub open spec fn var_views(v: Seq<(String, String)>) -> Seq<(Seq<char>, Seq<char>)> {
    v.map_values(|x: (String, String)| (x.0@, x.1@))
}

/// The variables of the bootloader's configuration template (see `cfg_vars_spec`).
pub fn bootloader_cfg_vars(b: Bootloader, volid: &str, distro: &Option<String>, vmlinuz: &str, initramfs: &str,
    cmdline: &Option<String>) -> (r: Vec<(String, String)>)
    requires
        has_cfg_template(b),
    ensures
        var_views(r@) == cfg_vars_spec(b, volid@, match distro { Some(d) => Some(d@), None => None }, vmlinuz@,
            initramfs@, match cmdline { Some(c) => Some(c@), None => None }),
{
    let comment = match b {
        Bootloader::Grub => (string_of("GRUB_PREPEND_COMMENT"), prepend_comment("/boot/grub/grub.cfg",
            "Grub configurations", "katsu::builder::Bootloader::cp_grub")),
        Bootloader::Limine => (string_of("LIMINE_PREPEND_COMMENT"), prepend_comment("/boot/limine.cfg",
            "Limine configurations", "katsu::builder::Bootloader::cp_limine")),
        _ => (string_of("REFIND_PREPEND_COMMENT"), prepend_comment("/boot/efi/EFI/refind/refind.conf",
            "rEFInd configurations", "katsu::builder::Bootloader::cp_refind")),
    };
    let d = match distro {
        Some(d) => d.clone(),
        None => string_of("Linux"),
    };
    let c = match cmdline {
        Some(c) => c.clone(),
        None => string_of(""),
    };
    let mut r: Vec<(String, String)> = Vec::new();
    r.push(comment);
    r.push((string_of("volid"), string_of(volid)));
    r.push((string_of("distro"), d));
    r.push((string_of("vmlinuz"), string_of(vmlinuz)));
    r.push((string_of("initramfs"), string_of(initramfs)));
    r.push((string_of("cmd"), c));
    assert(var_views(r@) =~= cfg_vars_spec(b, volid@, match distro { Some(d) => Some(d@), None => None }, vmlinuz@,
        initramfs@, match cmdline { Some(c) => Some(c@), None => None }));
    r
}

/// Renders the bootloader's configuration file from the text of its template
/// (`cfg_template`) with the variables of `bootloader_cfg_vars`; `Err` holds
/// the template engine's error. What the template makes of the variables is
/// the template's own, so nothing is said of the text.
pub fn render_bootloader_cfg(b: Bootloader, template: &str, volid: &str, distro: &Option<String>, vmlinuz: &str,
    initramfs: &str, cmdline: &Option<String>) -> (r: Result<String, String>)
    requires
        has_cfg_template(b),
{
    let vars = bootloader_cfg_vars(b, volid, distro, vmlinuz, initramfs, cmdline);
    crate::bindings::render_template(template, &vars)
}

} // verus!
