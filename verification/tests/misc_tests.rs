use katsu::backends::bootloader::{
    find_initramfs, get_arch, get_arch_32bit, get_arch_short, grub_mkimage, Bootloader,
};
use katsu::backends::fs_tree::dnf::{DnfRootBuilder, _default_dnf, runs_grub_mkconfig};
use katsu::backends::fs_tree::oci::{container_name, dest_image, text_before, BootcRootBuilder};
use katsu::cli::{OutputFormat, SkipPhases};
use katsu::rootimg::erofs::{erofs_mkfs, MkfsErofsOptions};
use katsu::util::Arch;
use katsu::order::stable_order;
use katsu::backends::bootloader::{bootloader_cfg_vars, cfg_template, prepend_comment, render_bootloader_cfg};

#[test]
fn arch_names_round_trip() {
    for name in ["i386", "x86_64", "armv7l", "aarch64"] {
        assert_eq!(Arch::from(name).to_str(), name);
    }
    assert_eq!(Arch::from("riscv64"), Arch::Nyani);
    assert_eq!(Arch::default(), Arch::Nyani);
}

#[test]
fn output_format_names() {
    assert_eq!(OutputFormat::from_str("iso"), Ok(OutputFormat::Iso));
    assert_eq!(OutputFormat::from_str("disk-image"), Ok(OutputFormat::DiskImage));
    assert_eq!(OutputFormat::from_str("device"), Ok(OutputFormat::Device));
    assert_eq!(OutputFormat::from_str("folder"), Ok(OutputFormat::Folder));
    assert_eq!(OutputFormat::from_str("fs"), Ok(OutputFormat::Folder));
    assert_eq!(OutputFormat::from_str("ISO"), Err("ISO is not a valid output format".to_string()));
}

#[test]
fn skip_phases_split_on_commas() {
    let s = SkipPhases::from("root,iso");
    assert!(s.contains("root") && s.contains("iso") && !s.contains("dracut"));
    let empty = SkipPhases::from("");
    assert!(empty.contains("") && !empty.contains("root"));
}

#[test]
fn erofs_default_arguments() {
    let o = MkfsErofsOptions::default();
    assert_eq!(
        o.build_args(),
        vec!["-d0", "--quiet", "-zzstd,level=5", "-x1", "-C1048576", "--exclude-path=/sys/", "--exclude-path=/proc/", "-Eall-fragments,fragdedupe=inode"]
    );
    assert_eq!(erofs_mkfs("root", "img", &o)[8..], ["img".to_string(), "root".to_string()]);
}

#[test]
fn erofs_custom_arguments() {
    let o = MkfsErofsOptions {
        compression: None,
        chunk_size: None,
        xattr_level: None,
        exclude_paths: vec![],
        file_contexts: Some("/etc/fc".to_string()),
        log_level: 3,
        extra_features: vec![],
        tar_mode: true,
    };
    assert_eq!(o.build_args(), vec!["-d3", "--file-contexts=/etc/fc", "--tar=f"]);
}

fn dnf() -> DnfRootBuilder {
    DnfRootBuilder {
        executable: "dnf5".to_string(),
        packages: vec!["kernel".to_string()],
        options: vec!["--nogpgcheck".to_string()],
        exclude: vec!["nano".to_string()],
        releasever: "41".to_string(),
        arch: None,
        arch_packages: vec![("x86_64".to_string(), vec!["grub2-pc".to_string()]), ("aarch64".to_string(), vec!["uboot".to_string()])],
        arch_exclude: vec![("x86_64".to_string(), vec!["foo".to_string()])],
        repodir: None,
        global_options: vec![],
    }
}

#[test]
fn dnf_install_command_host_arch() {
    assert_eq!(
        dnf().install_command("/w/chroot", "", "x86_64"),
        vec![
            "dnf5", "do", "-y", "--action=install", "--comment=Initial transaction from building with Katsu",
            "--setopt=tsflags=", "--releasever=41", "--installroot=/w/chroot", "kernel", "grub2-pc", "--nogpgcheck",
            "--exclude=nano", "--exclude=foo",
        ]
    );
}

#[test]
fn dnf_install_command_forced_arch_and_repos() {
    let mut b = dnf();
    b.arch = Some("aarch64".to_string());
    b.repodir = Some("repos".to_string());
    assert_eq!(
        b.install_command("/c", "/abs/repos", "x86_64"),
        vec![
            "dnf5", "do", "-y", "--action=install", "--comment=Initial transaction from building with Katsu",
            "--setopt=tsflags=", "--releasever=41", "--installroot=/c", "kernel", "uboot", "--nogpgcheck",
            "--forcearch=aarch64", "--setopt=reposdir=/abs/repos", "--exclude=nano",
        ]
    );
    assert_eq!(b.clean_command("/c"), vec!["dnf5", "clean", "all", "--installroot=/c"]);
    assert_eq!(_default_dnf(), "dnf");
    assert!(runs_grub_mkconfig(Bootloader::GrubBios) && runs_grub_mkconfig(Bootloader::Grub));
    assert!(!runs_grub_mkconfig(Bootloader::Limine));
}

fn bootc() -> BootcRootBuilder {
    BootcRootBuilder {
        image: "ghcr.io/ultramarine/base:41".to_string(),
        derivation: Some("Containerfile".to_string()),
        context: None,
        embed_image: true,
        embed_image_metadata: true,
        embed_extra_images: vec!["quay.io/x/y:1".to_string()],
    }
}

#[test]
fn bootc_names_and_commands() {
    let b = bootc();
    assert_eq!(b.deriv_tag(), "ghcr.io/ultramarine/base:katsu-deriv");
    assert_eq!(b.images_to_embed(), vec!["ghcr.io/ultramarine/base:41", "quay.io/x/y:1"]);
    assert_eq!(
        b.build_command("Containerfile"),
        vec![
            "podman", "build", "-t", "ghcr.io/ultramarine/base:katsu-deriv", "--build-arg",
            "DERIVE_FROM=ghcr.io/ultramarine/base:41", "-f", "Containerfile", ".",
        ]
    );
    let mut nb = bootc();
    nb.embed_image = false;
    assert_eq!(nb.images_to_embed(), vec!["quay.io/x/y:1"]);
}

#[test]
fn bootc_container_names() {
    assert_eq!(container_name("sha256:0123456789abcdef"), "katsu-0123456");
    assert_eq!(container_name("sha256:sha256:abcdefgh"), "katsu-abcdefg");
    assert_eq!(container_name("abc"), "katsu-unknown");
    assert_eq!(container_name(""), "katsu-unknown");
    assert_eq!(dest_image("quay.io/a/b@sha256:ff"), "quay.io/a/b");
    assert_eq!(text_before("no-separator", ':'), "no-separator");
}

#[test]
fn bootloader_names() {
    assert_eq!(Bootloader::from("Limine"), Bootloader::Limine);
    assert_eq!(Bootloader::from("GRUB2"), Bootloader::Grub);
    assert_eq!(Bootloader::from("grub-bios"), Bootloader::GrubBios);
    assert_eq!(Bootloader::from("systemd-boot"), Bootloader::SystemdBoot);
    assert_eq!(Bootloader::from("rEFInd"), Bootloader::REFInd);
    assert_eq!(Bootloader::from("syslinux"), Bootloader::Grub);
    assert_eq!(Bootloader::default(), Bootloader::Grub);
}

#[test]
fn bootloader_bins_and_install() {
    assert_eq!(Bootloader::Grub.get_bins(), ("boot/efi/EFI/fedora/shim.efi", "boot/eltorito.img"));
    assert_eq!(Bootloader::Limine.get_bins(), ("boot/limine-uefi-cd.bin", "boot/limine-bios-cd.bin"));
    assert_eq!(Bootloader::REFInd.get_bins(), ("boot/efi/EFI/refind/refind_x64.efi", ""));
    assert_eq!(Bootloader::Grub.install("out.iso"), None);
    assert_eq!(Bootloader::REFInd.install("out.iso"), None);
    assert_eq!(Bootloader::Limine.install("out.iso").unwrap(), vec!["limine", "bios-install", "out.iso"]);
    assert_eq!(Bootloader::SystemdBoot.install("out.iso").unwrap(), vec!["bootctl", "--image=out.iso", "install"]);
    assert_eq!(
        Bootloader::GrubBios.install("out.iso").unwrap(),
        vec!["grub-install", "--target=i386-pc", "--boot-directory=out.iso/boot"]
    );
}

#[test]
fn architecture_helpers() {
    assert_eq!(get_arch(&None, "x86_64"), "x86_64");
    assert_eq!(get_arch(&Some("aarch64".to_string()), "x86_64"), "aarch64");
    assert_eq!(get_arch_short("x86_64"), "x64");
    assert_eq!(get_arch_short("aarch64"), "aa64");
    assert_eq!(get_arch_32bit("x86_64"), "ia32");
    assert_eq!(get_arch_32bit("aarch64"), "arm");
    assert_eq!(
        grub_mkimage("/c", "/t", "x86_64"),
        vec!["grub2-mkimage", "-O", "i386-pc-eltorito", "-d", "/c/usr/lib/grub/i386-pc", "-o", "/t/boot/eltorito.img", "-p", "/boot/grub", "iso9660", "biosdisk"]
    );
    assert_eq!(grub_mkimage("/c", "/t", "aarch64")[2], "arm64-efi");
}

#[test]
fn initramfs_is_found() {
    let names: Vec<String> = ["grub2", "initramfs-0-rescue-1.img", "initramfs-6.8.img", "initramfs.img"].iter().map(|s| s.to_string()).collect();
    assert_eq!(find_initramfs(&names), Some(2));
    let names: Vec<String> = ["vmlinuz", "initrd"].iter().map(|s| s.to_string()).collect();
    assert_eq!(find_initramfs(&names), None);
}

#[test]
fn stable_order_is_the_one_stable_sort() {
    let prios = vec![3, 1, 3, 2, -5, 1];
    let order = stable_order(&prios);
    assert_eq!(order, vec![4, 1, 5, 3, 0, 2]);
    assert_eq!(stable_order(&prios), order);
    assert_eq!(stable_order(&vec![]), Vec::<usize>::new());
}

#[test]
fn bootloader_cfg_variables() {
    let notice = prepend_comment("/boot/limine.cfg", "Limine configurations", "katsu::builder::Bootloader::cp_limine");
    assert_eq!(
        notice,
        "#\n# /boot/limine.cfg: Limine configurations\n# Automatically generated by Katsu Image Builder. See\n# katsu::builder::Bootloader::cp_limine for more information.\n\n"
    );
    let v = bootloader_cfg_vars(Bootloader::Limine, "UM-LIVE", &None, "vmlinuz", "initramfs.img", &Some("quiet".to_string()));
    let expected: Vec<(String, String)> = vec![
        ("LIMINE_PREPEND_COMMENT".to_string(), notice),
        ("volid".to_string(), "UM-LIVE".to_string()),
        ("distro".to_string(), "Linux".to_string()),
        ("vmlinuz".to_string(), "vmlinuz".to_string()),
        ("initramfs".to_string(), "initramfs.img".to_string()),
        ("cmd".to_string(), "quiet".to_string()),
    ];
    assert_eq!(v, expected);
    let g = bootloader_cfg_vars(Bootloader::Grub, "V", &Some("Ultramarine".to_string()), "k", "i", &None);
    assert_eq!(g[0].0, "GRUB_PREPEND_COMMENT");
    assert_eq!(g[2].1, "Ultramarine");
    assert_eq!(g[5].1, "");
    assert_eq!(cfg_template(Bootloader::Grub), "grub.cfg.tera");
    assert_eq!(cfg_template(Bootloader::REFInd), "refind.cfg.tera");
}

#[test]
fn bootloader_cfg_rendered_from_template() {
    let text = render_bootloader_cfg(
        Bootloader::Limine,
        "/{{ distro }}/{{ vmlinuz }} root=live:LABEL={{ volid }} {{ cmd }}",
        "UM",
        &None,
        "vmlinuz",
        "initramfs.img",
        &Some("quiet".to_string()),
    );
    assert_eq!(text, Ok("/Linux/vmlinuz root=live:LABEL=UM quiet".to_string()));
    assert!(render_bootloader_cfg(Bootloader::Grub, "{{ unclosed", "V", &None, "k", "i", &None).is_err());
}
