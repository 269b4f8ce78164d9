use katsu::backends::bootloader::Bootloader;
use katsu::builder::{
    bios_install, default_true, disk_image_size, dracut, folder_output, is_boot_artifact, iso_image, iso_steps,
    squashfs, squashfs_comp, work_paths, xorriso, DracutFlags, ImageBuilderKind, IsoStep, KatsuBuilder,
    RootBuilderKind,
};
use katsu::cli::{OutputFormat, SkipPhases};
use katsu::config::{Partition, PartitionLayout};

#[test]
fn shellish_parse_empty() {
    assert!(shellish_parse::parse("", false).unwrap().is_empty());
}

#[test]
fn xorriso_limine() {
    let cmds = xorriso(Bootloader::Limine, "x86_64", "MY-VOL", "katsu-work", "out.iso");
    assert_eq!(
        cmds[0],
        vec![
            "xorriso", "-iso-level", "3", "-as", "mkisofs", "-R", "--efi-boot", "boot/limine-uefi-cd.bin", "-b",
            "boot/limine-bios-cd.bin", "-no-emul-boot", "-boot-load-size", "4", "-boot-info-table", "--efi-boot",
            "boot/limine-uefi-cd.bin", "-efi-boot-part", "--efi-boot-image", "--protective-msdos-label",
            "katsu-work/iso-tree", "-volid", "MY-VOL", "-o", "out.iso",
        ]
    );
    assert_eq!(cmds[1], vec!["implantisomd5", "--force", "--supported-iso", "out.iso"]);
    assert_eq!(cmds.len(), 2);
}

#[test]
fn xorriso_grub_x86_64_has_hybrid_mbr() {
    let cmds = xorriso(Bootloader::Grub, "x86_64", "KATSU-LIVEOS", "katsu-work", "out.iso");
    assert_eq!(
        cmds[0],
        vec![
            "xorrisofs", "-iso-level", "3", "-R", "-V", "KATSU-LIVEOS", "--grub2-mbr",
            "katsu-work/boot_imgs/boot_hybrid.img", "-partition_offset", "16", "-appended_part_as_gpt",
            "-append_partition", "2", "C12A7328-F81F-11D2-BA4B-00A0C93EC93B", "katsu-work/iso-tree/boot/efiboot.img",
            "-iso_mbr_part_type", "EBD0A0A2-B9E5-4433-87C0-68B6B72699C7", "-c", "boot.cat", "--boot-catalog-hide",
            "-b", "boot/eltorito.img", "-no-emul-boot", "-boot-load-size", "4", "-boot-info-table",
            "--grub2-boot-info", "-eltorito-alt-boot", "-e", "--interval:appended_partition_2:all::",
            "-no-emul-boot", "-vvvvv", "--md5", "katsu-work/iso-tree", "-o", "out.iso",
        ]
    );
}

#[test]
fn xorriso_grub_aarch64_without_mbr() {
    let cmds = xorriso(Bootloader::Grub, "aarch64", "V", "/w/", "x.iso");
    assert!(!cmds[0].iter().any(|a| a == "--grub2-mbr"));
    assert_eq!(cmds[0][6], "-partition_offset");
    assert!(cmds[0].contains(&"/w/iso-tree/boot/efiboot.img".to_string()));
}

#[test]
fn xorriso_refind() {
    let cmds = xorriso(Bootloader::REFInd, "x86_64", "R", "ws", "r.iso");
    assert_eq!(
        cmds[0],
        vec![
            "xorriso", "-as", "mkisofs", "-iso-level", "3", "-full-iso9660-filenames", "-joliet", "-joliet-long",
            "-rational-rock", "-volid", "R", "-eltorito-alt-boot", "-e", "boot/efiboot.img", "-no-emul-boot",
            "-append_partition", "2", "C12A7328-F81F-11D2-BA4B-00A0C93EC93B", "ws/iso-tree/boot/efiboot.img",
            "-appended_part_as_gpt", "-o", "r.iso", "ws/iso-tree",
        ]
    );
}

fn flags(mods: Option<&str>, omit: Option<&str>, args: Option<&str>, outside: bool) -> DracutFlags {
    DracutFlags {
        mods: mods.map(str::to_string),
        omit: omit.map(str::to_string),
        args: args.map(str::to_string),
        outside_chroot: outside,
    }
}

#[test]
fn dracut_defaults() {
    let a = dracut(&flags(None, None, None, false), "6.8.0", "/w/chroot");
    assert_eq!(
        a,
        vec![
            "-vv", "--xz", "--reproducible", "--nomdadmconf", "--nolvmconf", "-fN", "-a",
            "livenet dmsquash-live dmsquash-live-autooverlay convertfs pollcdrom qemu qemu-net", "", "--kver",
            "6.8.0", "/boot/initramfs-6.8.0.img",
        ]
    );
}

#[test]
fn dracut_outside_chroot_with_flags() {
    let a = dracut(&flags(Some("m1 m2"), Some("plymouth"), Some("-q"), true), "6.9", "/w/chroot");
    assert_eq!(
        a,
        vec![
            "-r", "/w/chroot", "-q", "--nomdadmconf", "--nolvmconf", "-fN", "-a", "m1 m2", "-q", "--omit", "plymouth",
            "--kver", "6.9", "/w/chroot/../iso-tree/boot/initramfs.img",
        ]
    );
}

#[test]
fn squashfs_compression_names() {
    assert_eq!(squashfs_comp("gzip"), "-comp gzip -Xcompression-level 9");
    assert_eq!(squashfs_comp("lzo"), "-comp lzo");
    assert_eq!(squashfs_comp("lz4"), "-comp lz4 -Xhc");
    assert_eq!(squashfs_comp("xz"), "-comp xz");
    assert_eq!(squashfs_comp("zstd"), "-comp zstd -Xcompression-level 19");
    assert_eq!(squashfs_comp("lzma"), "-comp lzma");
    assert_eq!(squashfs_comp("-comp foo"), "-comp foo");
}

#[test]
fn squashfs_default_args() {
    let a = squashfs(&None, &None, "root", "img").unwrap();
    assert_eq!(
        a,
        vec![
            "root", "img", "-comp", "zstd", "-Xcompression-level", "19", "-b", "1048576", "-noappend", "-e",
            "/dev/", "-e", "/proc/", "-e", "/sys/", "-p", "/dev 755 0 0", "-p", "/proc 755 0 0", "-p",
            "/sys 755 0 0",
        ]
    );
}

#[test]
fn squashfs_extra_args_and_parse_failure() {
    let a = squashfs(&Some("xz".to_string()), &Some("-processors 4".to_string()), "r", "i").unwrap();
    assert_eq!(&a[2..4], &["-comp".to_string(), "xz".to_string()]);
    assert_eq!(&a[a.len() - 2..], &["-processors".to_string(), "4".to_string()]);
    assert!(squashfs(&None, &Some("'unterminated".to_string()), "r", "i").is_none());
}

#[test]
fn iso_steps_skip_and_remove() {
    let skip = SkipPhases::from("dracut");
    let steps = iso_steps(&skip, false, false, &None);
    assert_eq!(
        steps,
        vec![
            IsoStep::Root,
            IsoStep::CleanBoot,
            IsoStep::RootImage { squashfs: false },
            IsoStep::CopyLive,
            IsoStep::RemoveChroot,
            IsoStep::Iso,
            IsoStep::Bootloader,
        ]
    );
}

#[test]
fn iso_steps_keep_chroot() {
    let skip = SkipPhases::from("");
    let kept = iso_steps(&skip, true, true, &Some("1".to_string()));
    assert!(!kept.contains(&IsoStep::RemoveChroot));
    assert!(kept.contains(&IsoStep::RootImage { squashfs: true }));
    let removed = iso_steps(&skip, true, true, &Some("false".to_string()));
    assert!(removed.contains(&IsoStep::RemoveChroot));
    let all = SkipPhases::from("root,dracut,rootimg,copy-live,iso,bootloader");
    assert_eq!(iso_steps(&all, false, true, &None), vec![IsoStep::CleanBoot]);
}

#[test]
fn katsu_builder_selection() {
    let b = KatsuBuilder::new(&Some("bootc".to_string()), OutputFormat::DiskImage, vec!["iso".to_string()]);
    assert_eq!(b.root_builder, RootBuilderKind::Bootc);
    assert_eq!(b.image_builder, ImageBuilderKind::DiskImage);
    assert_eq!(b.skip_phases, vec!["iso".to_string()]);
    let b = KatsuBuilder::new(&Some("dnf".to_string()), OutputFormat::Folder, vec![]);
    assert_eq!(b.root_builder, RootBuilderKind::Dnf);
    assert_eq!(b.image_builder, ImageBuilderKind::Folder);
    assert_eq!(KatsuBuilder::new(&Some("dnf".to_string()), OutputFormat::Iso, vec![]).image_builder, ImageBuilderKind::Iso);
}

#[test]
fn paths_and_defaults() {
    assert!(default_true());
    let (w, c, i) = work_paths();
    assert_eq!((w.as_str(), c.as_str(), i.as_str()), ("katsu-work", "katsu-work/chroot", "katsu-work/image"));
    assert_eq!(iso_image(&None), "out.iso");
    assert_eq!(iso_image(&Some("a.iso".to_string())), "a.iso");
    assert_eq!(folder_output(&None), "katsu-work/chroot");
    assert!(is_boot_artifact("vmlinuz-0-rescue-abc"));
    assert!(!is_boot_artifact("vmlinuz-6.8"));
}

#[test]
fn disk_image_size_errors() {
    assert_eq!(disk_image_size(&None), Err("Disk layout not specified".to_string()));
    let mut l = PartitionLayout::new();
    assert_eq!(disk_image_size(&Some(l)), Err("Disk size not specified".to_string()));
    l = PartitionLayout::new();
    l.size = Some(4096);
    l.add_partition(Partition { label: None, size: None, filesystem: "ext4".to_string(), mountpoint: "/".to_string() });
    assert_eq!(disk_image_size(&Some(l)), Ok(4096));
}

#[test]
fn bios_install_only_for_grub_bios() {
    assert!(bios_install(Bootloader::Grub, "/c", "/dev/loop1").is_none());
    assert_eq!(
        bios_install(Bootloader::GrubBios, "/c", "/dev/loop1").unwrap(),
        vec!["grub2-install", "--target=i386-pc", "--boot-directory=/c/boot", "/dev/loop1"]
    );
}
