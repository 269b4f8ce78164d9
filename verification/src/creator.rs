//! The image creator of the older configuration format: the commands and
//! files it makes.
use vstd::prelude::*;
use crate::backends::fs_tree::oci::trim_prefix_all;
use crate::cfg::auth::decimal_string;
use crate::cfg::{Config, DiskLayout, OutputFormat};
use crate::text::{chars_of, commands_view, join, join_strings, occurs_at, push_args, push_str, split_lines, split_words, starts_with, str_eq, string_of, string_views, text_lines, words};

verus! {

/// The DNF command used unless configured otherwise.
pub open spec fn default_dnf() -> Seq<char> {
    "dnf5"@
}

/// The bootloader installed unless configured otherwise.
pub open spec fn default_bootloader() -> Seq<char> {
    "limine"@
}

/// `s` without all its leading repetitions of `p`.
pub fn trim_prefix(s: &str, p: &str) -> (r: String)
    ensures
        r@ == trim_prefix_all(s@, p@),
{
    let cs = chars_of(s);
    let pc = chars_of(p);
    let mut i: usize = 0;
    assert(cs@.subrange(0, cs@.len() as int) =~= s@);
    if pc.len() > 0 {
        while cs.len() - i >= pc.len() && occurs_at(&cs, &pc, i)
            invariant
                cs@ == s@,
                pc@ == p@,
                pc@.len() > 0,
                i <= cs@.len(),
                trim_prefix_all(s@, p@) == trim_prefix_all(cs@.subrange(i as int, cs@.len() as int), p@),
            decreases cs@.len() - i,
        {
            let ghost rest = cs@.subrange(i as int, cs@.len() as int);
            assert(starts_with(rest, p@)) by {
                assert(rest.subrange(0, p@.len() as int) =~= cs@.subrange(i as int, i + p@.len()));
            }
            assert(rest.subrange(p@.len() as int, rest.len() as int) =~= cs@.subrange(i + p@.len(), cs@.len() as int));
            i = i + pc.len();
        }
        let ghost rest = cs@.subrange(i as int, cs@.len() as int);
        if cs.len() - i >= pc.len() {
            assert(!starts_with(rest, p@)) by {
                assert(rest.subrange(0, p@.len() as int) =~= cs@.subrange(i as int, i + p@.len()));
            }
        }
    }
    let mut r = String::new();
    let mut k: usize = i;
    while k < cs.len()
        invariant
            i <= k <= cs@.len(),
            r@ == cs@.subrange(i as int, k as int),
        decreases cs@.len() - k,
    {
        crate::text::push_char(&mut r, cs[k]);
        k = k + 1;
        assert(r@ =~= cs@.subrange(i as int, k as int));
    }
    r
}

/// The kernel version that `rpm -q kernel` names: without the `kernel-` prefix.
pub open spec fn kernel_version(rpm_name: Seq<char>) -> Seq<char> {
    trim_prefix_all(rpm_name, "kernel-"@)
}

/// The Limine configuration of a live image: one entry for the distro with
/// its kernel, initramfs and live command line.
pub open spec fn limine_cfg_spec(distro: Seq<char>, kver: Seq<char>, volid: Seq<char>, cmdline: Seq<char>) -> Seq<char> {
    "TIMEOUT=5\n\n:"@ + distro + "\n\tPROTOCOL=linux\n\t"@
        + "KERNEL_PATH=boot:///boot/vmlinuz-"@ + kver + "\n\t"@
        + "MODULE_PATH=boot:///boot/initramfs-"@ + kver + ".img\n\t"@
        + "CMDLINE=root=live:LABEL="@ + volid + " rd.live.image selinux=0 "@ + cmdline
}

/// The Limine configuration for the distro, given the kernel package that
/// `rpm` names.
pub fn limine_cfg(cfg: &Config, distro: &str, rpm_name: &str) -> (r: String)
    ensures
        r@ == limine_cfg_spec(distro@, kernel_version(rpm_name@), cfg.volid@,
            match cfg.sys.kernel_params { Some(p) => p@, None => ""@ }),
{
    let kver = trim_prefix(rpm_name, "kernel-");
    let mut r = string_of("TIMEOUT=5\n\n:");
    push_str(&mut r, distro);
    push_str(&mut r, "\n\tPROTOCOL=linux\n\t");
    push_str(&mut r, "KERNEL_PATH=boot:///boot/vmlinuz-");
    push_str(&mut r, kver.as_str());
    push_str(&mut r, "\n\t");
    push_str(&mut r, "MODULE_PATH=boot:///boot/initramfs-");
    push_str(&mut r, kver.as_str());
    push_str(&mut r, ".img\n\t");
    push_str(&mut r, "CMDLINE=root=live:LABEL=");
    push_str(&mut r, cfg.volid.as_str());
    push_str(&mut r, " rd.live.image selinux=0 ");
    match &cfg.sys.kernel_params {
        Some(p) => push_str(&mut r, p.as_str()),
        None => push_str(&mut r, ""),
    }
    r
}

/// The `/etc/passwd` line of root.
pub fn root_passwd() -> (r: String)
    ensures
        r@ == "root:x:0:0:root:/root:/bin/sh"@,
{
    string_of("root:x:0:0:root:/root:/bin/sh")
}

/// The `/etc/shadow` line of root, given the hashed password.
pub fn root_shadow(hashed: &str) -> (r: String)
    ensures
        r@ == "root:"@ + hashed@ + "::0:99999:7:::"@,
{
    let mut r = string_of("root:");
    push_str(&mut r, hashed);
    push_str(&mut r, "::0:99999:7:::");
    r
}

/// The arguments of the dracut command that makes the live initramfs of the
/// kernel that `rpm` names, in the root `root`.
pub open spec fn dracut_spec(root: Seq<char>, kver: Seq<char>) -> Seq<Seq<char>> {
    seq!["--xz"@, "-r"@, root, "-vfNa"@,
        "livenet dmsquash-live dmsquash-live-ntfs convertfs pollcdrom qemu qemu-net"@,
        "--omit"@, "plymouth"@, "--no-early-microcode"@, "-o"@, " multipath "@,
        root + "/boot/initramfs-"@ + kver + ".img"@, kver]
}

/// The arguments of the dracut command (see `dracut_spec`).
pub fn dracut(root: &str, rpm_name: &str) -> (r: Vec<String>)
    ensures
        string_views(r@) == dracut_spec(root@, kernel_version(rpm_name@)),
{
    let kver = trim_prefix(rpm_name, "kernel-");
    let mut r: Vec<String> = Vec::new();
    push_args(&mut r, &["--xz", "-r", root, "-vfNa",
        "livenet dmsquash-live dmsquash-live-ntfs convertfs pollcdrom qemu qemu-net",
        "--omit", "plymouth", "--no-early-microcode", "-o", " multipath "]);
    let mut img = string_of(root);
    push_str(&mut img, "/boot/initramfs-");
    push_str(&mut img, kver.as_str());
    push_str(&mut img, ".img");
    let ghost r0 = string_views(r@);
    assert(r0 =~= seq!["--xz"@, "-r"@, root@, "-vfNa"@,
        "livenet dmsquash-live dmsquash-live-ntfs convertfs pollcdrom qemu qemu-net"@,
        "--omit"@, "plymouth"@, "--no-early-microcode"@, "-o"@, " multipath "@]);
    let ghost iv = img@;
    let ghost kv = kver@;
    let ghost rr = r@;
    r.push(img);
    r.push(kver);
    assert(r@ =~= rr.push(img).push(kver));
    assert(string_views(r@) =~= r0.push(iv).push(kv));
    assert(string_views(r@) =~= dracut_spec(root@, kernel_version(rpm_name@)));
    r
}

/// The arguments of `xorriso` that write the ISO image `<out>.iso` from the
/// tree `tree` (the canonical path of the distro directory), booting with Limine.
pub fn xorriso(cfg: &Config, tree: &str) -> (r: Vec<String>)
    ensures
        string_views(r@) == seq!["-as"@, "mkisofs"@, "-b"@, "boot/limine-bios-cd.bin"@, "-no-emul-boot"@,
            "-boot-load-size"@, "4"@, "-boot-info-table"@, "--efi-boot"@, "boot/limine-uefi-cd.bin"@,
            "-efi-boot-part"@, "--efi-boot-image"@, "--protective-msdos-label"@, tree@, "-volid"@, cfg.volid@,
            "-o"@, cfg.out@ + ".iso"@],
{
    let mut r: Vec<String> = Vec::new();
    let mut out = string_of(cfg.out.as_str());
    push_str(&mut out, ".iso");
    push_args(&mut r, &["-as", "mkisofs", "-b", "boot/limine-bios-cd.bin", "-no-emul-boot",
        "-boot-load-size", "4", "-boot-info-table", "--efi-boot", "boot/limine-uefi-cd.bin",
        "-efi-boot-part", "--efi-boot-image", "--protective-msdos-label", tree, "-volid", cfg.volid.as_str(),
        "-o", out.as_str()]);
    r
}

/// The `mksquashfs` arguments that squash the root `root` into the distro's live image.
pub fn squashfs(cfg: &Config, root: &str) -> (r: Vec<String>)
    ensures
        string_views(r@) == seq![root@, "./"@ + cfg.distro@ + "/LiveOS/squashfs.img"@, "-comp"@, "xz"@,
            "-noappend"@, "-Xdict-size"@, "100%"@, "-b"@, "1048576"@],
{
    let mut name = string_of("./");
    push_str(&mut name, cfg.distro.as_str());
    push_str(&mut name, "/LiveOS/squashfs.img");
    let mut r: Vec<String> = Vec::new();
    push_args(&mut r, &[root, name.as_str(), "-comp", "xz", "-noappend", "-Xdict-size", "100%", "-b", "1048576"]);
    r
}

/// The `mkfs.erofs` arguments that make `<out>.efs.img` from the root `root`.
pub fn erofs(cfg: &Config, root: &str) -> (r: Vec<String>)
    ensures
        string_views(r@) == seq![cfg.out@ + ".efs.img"@, root@, "-zlz4hc"@],
{
    let mut name = string_of(cfg.out.as_str());
    push_str(&mut name, ".efs.img");
    let mut r: Vec<String> = Vec::new();
    push_args(&mut r, &[name.as_str(), root, "-zlz4hc"]);
    r
}

/// The DNF commands that install the packages into the root `root` and clean
/// up: `<dnf> in -y --releasever=<rel> [--forcearch <arch>] --installroot
/// <root> <packages…>` and `<dnf> clean all --installroot <root>`.
pub open spec fn instpkgs_spec(cfg: Config, root: Seq<char>) -> Seq<Seq<Seq<char>>> {
    let dnf = match cfg.dnf { Some(d) => d@, None => default_dnf() };
    seq![
        seq![dnf, "in"@, "-y"@, "--releasever="@ + crate::text::decimal(cfg.sys.releasever as nat)]
            + (match cfg.arch { Some(a) => seq!["--forcearch"@, a@], None => Seq::empty() })
            + seq!["--installroot"@, root] + string_views(cfg.packages@),
        seq![dnf, "clean"@, "all"@, "--installroot"@, root],
    ]
}

/// The DNF commands that install the packages (see `instpkgs_spec`).
pub fn instpkgs(cfg: &Config, root: &str) -> (r: Vec<Vec<String>>)
    ensures
        commands_view(r@) == instpkgs_spec(*cfg, root@),
{
    let dnf = match &cfg.dnf {
        Some(d) => d.clone(),
        None => string_of("dnf5"),
    };
    let mut install: Vec<String> = Vec::new();
    install.push(dnf.clone());
    install.push(string_of("in"));
    install.push(string_of("-y"));
    let mut rel = string_of("--releasever=");
    crate::text::push_decimal(&mut rel, cfg.sys.releasever as u64);
    install.push(rel);
    match &cfg.arch {
        Some(a) => {
            install.push(string_of("--forcearch"));
            install.push(a.clone());
        },
        None => {},
    }
    install.push(string_of("--installroot"));
    install.push(string_of(root));
    let ghost head = string_views(install@);
    assert(head =~= seq![dnf@, "in"@, "-y"@, "--releasever="@ + crate::text::decimal(cfg.sys.releasever as nat)]
        + (match cfg.arch { Some(a) => seq!["--forcearch"@, a@], None => Seq::empty() })
        + seq!["--installroot"@, root@]);
    let mut pk = crate::text::clone_strings(&cfg.packages);
    let ghost i0 = install@;
    let ghost p0 = pk@;
    install.append(&mut pk);
    assert(install@ =~= i0 + p0);
    assert(string_views(install@) =~= head + string_views(cfg.packages@));
    let mut clean: Vec<String> = Vec::new();
    let ghost dv = dnf@;
    clean.push(dnf);
    push_args(&mut clean, &["clean", "all", "--installroot", root]);
    assert(string_views(clean@) =~= seq![dv, "clean"@, "all"@, "--installroot"@, root@]);
    let ghost iv = string_views(install@);
    let ghost cv = string_views(clean@);
    let mut r: Vec<Vec<String>> = Vec::new();
    r.push(install);
    r.push(clean);
    assert(commands_view(r@)[0] == iv);
    assert(commands_view(r@)[1] == cv);
    assert(commands_view(r@) =~= instpkgs_spec(*cfg, root@));
    r
}

/// A step of the image creator.
#[derive(Debug, Clone, Copy, PartialEq, Eq, Structural)]
pub enum CreatorStep {
    MkMountPoint,
    InitScript,
    GenFstab,
    InstallPackages,
    Dracut,
    RootPassword,
    PostinstScript,
    Squashfs,
    LiveOs,
    Xorriso,
    Bootloader,
}

/// The steps that make an image of the given format, in order.
pub open spec fn exec_spec(format: OutputFormat) -> Seq<CreatorStep> {
    match format {
        OutputFormat::Iso => seq![CreatorStep::MkMountPoint, CreatorStep::InitScript, CreatorStep::InstallPackages,
            CreatorStep::Dracut, CreatorStep::RootPassword, CreatorStep::PostinstScript, CreatorStep::Squashfs,
            CreatorStep::LiveOs, CreatorStep::Xorriso, CreatorStep::Bootloader],
        OutputFormat::Disk => seq![CreatorStep::MkMountPoint, CreatorStep::InitScript, CreatorStep::GenFstab,
            CreatorStep::InstallPackages, CreatorStep::RootPassword, CreatorStep::PostinstScript],
    }
}

/// The steps that make an image of the given format, in order.
pub fn exec(format: OutputFormat) -> (r: Vec<CreatorStep>)
    ensures
        r@ == exec_spec(format),
{
    let r = match format {
        OutputFormat::Iso => vec![CreatorStep::MkMountPoint, CreatorStep::InitScript, CreatorStep::InstallPackages,
            CreatorStep::Dracut, CreatorStep::RootPassword, CreatorStep::PostinstScript, CreatorStep::Squashfs,
            CreatorStep::LiveOs, CreatorStep::Xorriso, CreatorStep::Bootloader],
        OutputFormat::Disk => vec![CreatorStep::MkMountPoint, CreatorStep::InitScript, CreatorStep::GenFstab,
            CreatorStep::InstallPackages, CreatorStep::RootPassword, CreatorStep::PostinstScript],
    };
    assert(r@ =~= exec_spec(format));
    r
}

/// The bootloader to install, or the message that it is not known: `limine`
/// (the default) or `grub`.
pub fn bootloader(cfg: &Config) -> (r: Result<bool, String>)
    ensures
        ({
            let name = match cfg.sys.bootloader { Some(b) => b@, None => default_bootloader() };
            if name == "limine"@ {
                r == Ok::<bool, String>(true)
            } else if name == "grub"@ {
                r == Ok::<bool, String>(false)
            } else {
                r matches Err(m) && m@ == "Unknown bootloader: "@ + name
            }
        }),
{
    let name = match &cfg.sys.bootloader {
        Some(b) => b.clone(),
        None => string_of("limine"),
    };
    if str_eq(name.as_str(), "limine") {
        Ok(true)
    } else if str_eq(name.as_str(), "grub") {
        Ok(false)
    } else {
        let mut m = string_of("Unknown bootloader: ");
        push_str(&mut m, name.as_str());
        Err(m)
    }
}

/// The command that installs Limine to the ISO image `<out>.iso`.
pub fn limine(cfg: &Config) -> (r: Vec<String>)
    ensures
        string_views(r@) == seq!["limine"@, "bios-install"@, cfg.out@ + ".iso"@],
{
    let mut out = string_of(cfg.out.as_str());
    push_str(&mut out, ".iso");
    let mut r: Vec<String> = Vec::new();
    push_args(&mut r, &["limine", "bios-install", out.as_str()]);
    r
}

/// The EFI files copied into a live image, for an architecture name: the
/// glob of the source, the destination, and whether the file is required.
pub open spec fn efi_files_spec(arch: Seq<char>) -> Seq<(Seq<char>, Seq<char>, bool)> {
    seq![
        ("/boot/efi/EFI/*/shim"@ + arch + ".efi"@, "/EFI/BOOT/BOOT"@ + arch + ".EFI"@, true),
        ("/boot/efi/EFI/*/gcd"@ + arch + ".efi"@, "/EFI/BOOT/grub"@ + arch + ".efi"@, true),
        ("/boot/efi/EFI/*/shimia32.efi"@, "/EFI/BOOT/BOOTIA32.EFI"@, false),
        ("/boot/efi/EFI/*/gcdia32.efi"@, "/EFI/BOOT/grubia32.efi"@, false),
        ("/usr/share/grub/unicode.pf2"@, "/EFI/BOOT/fonts/"@, true),
    ]
}

/// Two texts glued together.
fn glue(a: &str, b: &str, c: &str) -> (r: String)
    ensures
        r@ == a@ + b@ + c@,
{
    let mut r = string_of(a);
    push_str(&mut r, b);
    push_str(&mut r, c);
    r
}

/// The EFI files copied into a live image, for an architecture name.
pub fn efi_files(arch: &str) -> (r: Vec<(String, String, bool)>)
    ensures
        r@.map_values(|e: (String, String, bool)| (e.0@, e.1@, e.2)) == efi_files_spec(arch@),
{
    let mut r: Vec<(String, String, bool)> = Vec::new();
    r.push((glue("/boot/efi/EFI/*/shim", arch, ".efi"), glue("/EFI/BOOT/BOOT", arch, ".EFI"), true));
    r.push((glue("/boot/efi/EFI/*/gcd", arch, ".efi"), glue("/EFI/BOOT/grub", arch, ".efi"), true));
    r.push((string_of("/boot/efi/EFI/*/shimia32.efi"), string_of("/EFI/BOOT/BOOTIA32.EFI"), false));
    r.push((string_of("/boot/efi/EFI/*/gcdia32.efi"), string_of("/EFI/BOOT/grubia32.efi"), false));
    r.push((string_of("/usr/share/grub/unicode.pf2"), string_of("/EFI/BOOT/fonts/"), true));
    assert(r@.map_values(|e: (String, String, bool)| (e.0@, e.1@, e.2)) =~= efi_files_spec(arch@));
    r
}

} // verus!

verus! {

/// A command made of the given arguments.
fn args(items: &[&str]) -> (r: Vec<String>)
    ensures
        string_views(r@) == items@.map_values(|a: &str| a@),
{
    let mut r: Vec<String> = Vec::new();
    push_args(&mut r, items);
    assert(string_views(r@) =~= items@.map_values(|a: &str| a@));
    r
}

/// The commands that prepare the disk image `<out>.raw` of a disk layout on
/// the loop device `ld` and mount it at the install root: the image file,
/// attached to the loop device; a GPT label; with a bootloader, a 250 MiB
/// EFI partition first; a boot partition up to 1.25 GiB; the root partition
/// on the rest, named and labelled with the volume ID; then the mounts.
pub open spec fn prep_disk_spec(cfg: Config, layout: DiskLayout, ld: Seq<char>) -> Seq<Seq<Seq<char>>> {
    let img = cfg.out@ + ".raw"@;
    let inst = cfg.instroot@;
    let b = if layout.bootloader { "2"@ } else { "1"@ };
    let r = if layout.bootloader { "3"@ } else { "2"@ };
    seq![
        seq!["truncate"@, "-s"@, layout.disk_size@, img],
        seq!["losetup"@, ld, img, "--show"@],
        seq!["parted"@, "-s"@, ld, "mklabel"@, "gpt"@],
    ]
        + (if layout.bootloader {
            seq![
                seq!["parted"@, "-s"@, ld, "mkpart"@, "primary"@, "fat32"@, "1MiB"@, "250MiB"@],
                seq!["parted"@, "-s"@, ld, "set"@, "1"@, "esp"@, "on"@],
                seq!["parted"@, "-s"@, ld, "name"@, "1"@, "EFI"@],
                seq!["lsblk"@],
                seq!["partprobe"@, ld],
                seq!["ls"@, "-l"@, "/dev"@],
                seq!["mkfs.fat"@, "-F32"@, ld + "p1"@, "-n"@, "EFI"@],
            ]
        } else {
            Seq::empty()
        })
        + seq![
            seq!["parted"@, "-s"@, ld, "mkpart"@, "primary"@, "ext4"@, "250MiB"@, "1.25GiB"@],
            seq!["parted"@, "-s"@, ld, "name"@, b, "BOOT"@],
            seq!["mkfs.ext4"@, "-F"@, ld + "p"@ + b, "-L"@, "BOOT"@],
            seq!["parted"@, "-s"@, ld, "mkpart"@, "primary"@, "ext4"@, "1.25GiB"@, "100%"@],
            seq!["parted"@, "-s"@, ld, "name"@, r, cfg.volid@],
            seq!["mkfs."@ + layout.root_format@, ld + "p"@ + r, "-L"@, cfg.volid@],
            seq!["mkdir"@, "-p"@, inst],
            seq!["mount"@, ld + "p"@ + r, inst],
            seq!["mkdir"@, "-p"@, inst + "/boot"@],
            seq!["mount"@, ld + "p"@ + b, inst + "/boot"@],
        ]
        + (if layout.bootloader {
            seq![
                seq!["mkdir"@, "-p"@, inst + "/boot/efi"@],
                seq!["mount"@, ld + "p1"@, inst + "/boot/efi"@],
            ]
        } else {
            Seq::empty()
        })
}

/// Appends a command.
fn push_command(r: &mut Vec<Vec<String>>, c: Vec<String>)
    ensures
        commands_view(final(r)@) == commands_view(old(r)@).push(string_views(c@)),
{
    let ghost cv = string_views(c@);
    r.push(c);
    assert(commands_view(final(r)@) =~= commands_view(old(r)@).push(cv));
}

/// The EFI partition's commands.
fn prep_efi(ld: &str) -> (r: Vec<Vec<String>>)
    ensures
        commands_view(r@) == seq![
            seq!["parted"@, "-s"@, ld@, "mkpart"@, "primary"@, "fat32"@, "1MiB"@, "250MiB"@],
            seq!["parted"@, "-s"@, ld@, "set"@, "1"@, "esp"@, "on"@],
            seq!["parted"@, "-s"@, ld@, "name"@, "1"@, "EFI"@],
            seq!["lsblk"@],
            seq!["partprobe"@, ld@],
            seq!["ls"@, "-l"@, "/dev"@],
            seq!["mkfs.fat"@, "-F32"@, ld@ + "p1"@, "-n"@, "EFI"@],
        ],
{
    let p1 = glue(ld, "p1", "");
    proof {
        reveal_strlit("");
        assert(p1@ =~= ld@ + "p1"@);
    }
    let mut r: Vec<Vec<String>> = Vec::new();
    push_command(&mut r, args(&["parted", "-s", ld, "mkpart", "primary", "fat32", "1MiB", "250MiB"]));
    push_command(&mut r, args(&["parted", "-s", ld, "set", "1", "esp", "on"]));
    push_command(&mut r, args(&["parted", "-s", ld, "name", "1", "EFI"]));
    push_command(&mut r, args(&["lsblk"]));
    push_command(&mut r, args(&["partprobe", ld]));
    push_command(&mut r, args(&["ls", "-l", "/dev"]));
    push_command(&mut r, args(&["mkfs.fat", "-F32", p1.as_str(), "-n", "EFI"]));
    assert(commands_view(r@) =~~= seq![
            seq!["parted"@, "-s"@, ld@, "mkpart"@, "primary"@, "fat32"@, "1MiB"@, "250MiB"@],
            seq!["parted"@, "-s"@, ld@, "set"@, "1"@, "esp"@, "on"@],
            seq!["parted"@, "-s"@, ld@, "name"@, "1"@, "EFI"@],
            seq!["lsblk"@],
            seq!["partprobe"@, ld@],
            seq!["ls"@, "-l"@, "/dev"@],
            seq!["mkfs.fat"@, "-F32"@, ld@ + "p1"@, "-n"@, "EFI"@],
        ]);
    r
}

/// The boot and root partitions' commands and their mounts.
fn prep_main(cfg: &Config, layout: &DiskLayout, ld: &str) -> (r: Vec<Vec<String>>)
    ensures
        ({
            let inst = cfg.instroot@;
            let b = if layout.bootloader { "2"@ } else { "1"@ };
            let n = if layout.bootloader { "3"@ } else { "2"@ };
            commands_view(r@) == seq![
                seq!["parted"@, "-s"@, ld@, "mkpart"@, "primary"@, "ext4"@, "250MiB"@, "1.25GiB"@],
                seq!["parted"@, "-s"@, ld@, "name"@, b, "BOOT"@],
                seq!["mkfs.ext4"@, "-F"@, ld@ + "p"@ + b, "-L"@, "BOOT"@],
                seq!["parted"@, "-s"@, ld@, "mkpart"@, "primary"@, "ext4"@, "1.25GiB"@, "100%"@],
                seq!["parted"@, "-s"@, ld@, "name"@, n, cfg.volid@],
                seq!["mkfs."@ + layout.root_format@, ld@ + "p"@ + n, "-L"@, cfg.volid@],
                seq!["mkdir"@, "-p"@, inst],
                seq!["mount"@, ld@ + "p"@ + n, inst],
                seq!["mkdir"@, "-p"@, inst + "/boot"@],
                seq!["mount"@, ld@ + "p"@ + b, inst + "/boot"@],
            ]
        }),
{
    proof {
        reveal_strlit("");
    }
    let inst = cfg.instroot.as_str();
    let b = if layout.bootloader { "2" } else { "1" };
    let n = if layout.bootloader { "3" } else { "2" };
    let pb = glue(ld, "p", b);
    let pr = glue(ld, "p", n);
    let fs = glue("mkfs.", layout.root_format.as_str(), "");
    let boot_dir = glue(inst, "/boot", "");
    assert(fs@ =~= "mkfs."@ + layout.root_format@);
    assert(boot_dir@ =~= inst@ + "/boot"@);
    let mut r: Vec<Vec<String>> = Vec::new();
    push_command(&mut r, args(&["parted", "-s", ld, "mkpart", "primary", "ext4", "250MiB", "1.25GiB"]));
    push_command(&mut r, args(&["parted", "-s", ld, "name", b, "BOOT"]));
    push_command(&mut r, args(&["mkfs.ext4", "-F", pb.as_str(), "-L", "BOOT"]));
    push_command(&mut r, args(&["parted", "-s", ld, "mkpart", "primary", "ext4", "1.25GiB", "100%"]));
    push_command(&mut r, args(&["parted", "-s", ld, "name", n, cfg.volid.as_str()]));
    push_command(&mut r, args(&[fs.as_str(), pr.as_str(), "-L", cfg.volid.as_str()]));
    push_command(&mut r, args(&["mkdir", "-p", inst]));
    push_command(&mut r, args(&["mount", pr.as_str(), inst]));
    push_command(&mut r, args(&["mkdir", "-p", boot_dir.as_str()]));
    push_command(&mut r, args(&["mount", pb.as_str(), boot_dir.as_str()]));
    assert(commands_view(r@) =~~= seq![
        seq!["parted"@, "-s"@, ld@, "mkpart"@, "primary"@, "ext4"@, "250MiB"@, "1.25GiB"@],
        seq!["parted"@, "-s"@, ld@, "name"@, b@, "BOOT"@],
        seq!["mkfs.ext4"@, "-F"@, ld@ + "p"@ + b@, "-L"@, "BOOT"@],
        seq!["parted"@, "-s"@, ld@, "mkpart"@, "primary"@, "ext4"@, "1.25GiB"@, "100%"@],
        seq!["parted"@, "-s"@, ld@, "name"@, n@, cfg.volid@],
        seq!["mkfs."@ + layout.root_format@, ld@ + "p"@ + n@, "-L"@, cfg.volid@],
        seq!["mkdir"@, "-p"@, inst@],
        seq!["mount"@, ld@ + "p"@ + n@, inst@],
        seq!["mkdir"@, "-p"@, inst@ + "/boot"@],
        seq!["mount"@, ld@ + "p"@ + b@, inst@ + "/boot"@],
    ]);
    r
}

/// The commands that prepare the disk image on the loop device `ld` (see
/// `prep_disk_spec`), or the error when no disk layout is given.
pub fn prep_disk(cfg: &Config, ld: &str) -> (r: Result<Vec<Vec<String>>, String>)
    ensures
        match cfg.disk {
            None => r matches Err(m) && m@ == "No disk layout specified"@,
            Some(layout) => r matches Ok(c) && commands_view(c@) == prep_disk_spec(*cfg, layout, ld@),
        },
{
    proof {
        reveal_strlit("");
    }
    let layout = match &cfg.disk {
        None => return Err(string_of("No disk layout specified")),
        Some(l) => l,
    };
    let mut img = string_of(cfg.out.as_str());
    push_str(&mut img, ".raw");
    let mut r: Vec<Vec<String>> = Vec::new();
    push_command(&mut r, args(&["truncate", "-s", layout.disk_size.as_str(), img.as_str()]));
    push_command(&mut r, args(&["losetup", ld, img.as_str(), "--show"]));
    push_command(&mut r, args(&["parted", "-s", ld, "mklabel", "gpt"]));
    let ghost c0 = commands_view(r@);
    assert(c0 =~~= seq![
        seq!["truncate"@, "-s"@, layout.disk_size@, cfg.out@ + ".raw"@],
        seq!["losetup"@, ld@, cfg.out@ + ".raw"@, "--show"@],
        seq!["parted"@, "-s"@, ld@, "mklabel"@, "gpt"@],
    ]);
    if layout.bootloader {
        let mut e = prep_efi(ld);
        let ghost rr = r@;
        let ghost ee = e@;
        r.append(&mut e);
        assert(r@ =~= rr + ee);
    }
    let ghost c1 = commands_view(r@);
    assert(c1 =~~= c0 + (if layout.bootloader {
            seq![
                seq!["parted"@, "-s"@, ld@, "mkpart"@, "primary"@, "fat32"@, "1MiB"@, "250MiB"@],
                seq!["parted"@, "-s"@, ld@, "set"@, "1"@, "esp"@, "on"@],
                seq!["parted"@, "-s"@, ld@, "name"@, "1"@, "EFI"@],
                seq!["lsblk"@],
                seq!["partprobe"@, ld@],
                seq!["ls"@, "-l"@, "/dev"@],
                seq!["mkfs.fat"@, "-F32"@, ld@ + "p1"@, "-n"@, "EFI"@],
            ]
        } else {
            Seq::empty()
        }));
    let mut m = prep_main(cfg, layout, ld);
    let ghost r1 = r@;
    let ghost mm = m@;
    r.append(&mut m);
    assert(r@ =~= r1 + mm);
    let ghost c2 = commands_view(r@);
    if layout.bootloader {
        let efi_dir = glue(cfg.instroot.as_str(), "/boot/efi", "");
        let p1 = glue(ld, "p1", "");
        assert(efi_dir@ =~= cfg.instroot@ + "/boot/efi"@);
        assert(p1@ =~= ld@ + "p1"@);
        push_command(&mut r, args(&["mkdir", "-p", efi_dir.as_str()]));
        push_command(&mut r, args(&["mount", p1.as_str(), efi_dir.as_str()]));
    }
    assert(commands_view(r@) =~~= prep_disk_spec(*cfg, *layout, ld@));
    Ok(r)
}

} // verus!

verus! {

/// Whether every line of a mount listing has at least four words (source
/// UUID, target, filesystem type, options).
pub open spec fn mount_listing_complete(mounts: Seq<char>) -> bool {
    forall|i: int| 0 <= i < text_lines(mounts).len() ==> #[trigger] words(text_lines(mounts)[i]).len() >= 4
}

/// The fstab entry of one line of a mount listing, from its first four words.
pub open spec fn mount_entry(w: Seq<Seq<char>>) -> Seq<char> {
    "UUID="@ + w[0] + "\t"@ + w[1] + "\t"@ + w[2] + "\t"@ + w[3] + "\t0\t0"@
}

/// The fstab entries of a mount listing, one per line.
pub open spec fn mount_entries(mounts: Seq<char>) -> Seq<Seq<char>> {
    text_lines(mounts).map_values(|l: Seq<char>| mount_entry(words(l)))
}

/// The fstab made from a listing of the mounts under the image root, one
/// mount per line as `UUID TARGET FSTYPE OPTIONS ...`: one entry per line,
/// joined by newlines, with a final newline.
pub fn genfstab(mounts: &str) -> (r: String)
    requires
        mount_listing_complete(mounts@),
    ensures
        r@ == join(mount_entries(mounts@), "\n"@) + "\n"@,
{
    let lines = split_lines(mounts);
    let mut entries: Vec<String> = Vec::new();
    let mut i: usize = 0;
    while i < lines.len()
        invariant
            string_views(lines@) == text_lines(mounts@),
            mount_listing_complete(mounts@),
            i <= lines@.len(),
            string_views(entries@) == mount_entries(mounts@).subrange(0, i as int),
        decreases lines@.len() - i,
    {
        assert(lines@[i as int]@ == text_lines(mounts@)[i as int]);
        let w = split_words(lines[i].as_str());
        assert(words(text_lines(mounts@)[i as int]).len() >= 4);
        let mut e = string_of("UUID=");
        push_str(&mut e, w[0].as_str());
        push_str(&mut e, "\t");
        push_str(&mut e, w[1].as_str());
        push_str(&mut e, "\t");
        push_str(&mut e, w[2].as_str());
        push_str(&mut e, "\t");
        push_str(&mut e, w[3].as_str());
        push_str(&mut e, "\t0\t0");
        assert(e@ == mount_entry(words(lines@[i as int]@)));
        assert(string_views(lines@).len() == lines@.len());
        assert(mount_entries(mounts@)[i as int] == mount_entry(words(text_lines(mounts@)[i as int])));
        let ghost before = string_views(entries@);
        entries.push(e);
        assert(string_views(entries@) =~= before.push(e@));
        i = i + 1;
        assert(string_views(entries@) =~= mount_entries(mounts@).subrange(0, i as int));
    }
    assert(mount_entries(mounts@).subrange(0, i as int) =~= mount_entries(mounts@));
    let mut r = join_strings(&entries, "\n");
    push_str(&mut r, "\n");
    r
}

} // verus!
