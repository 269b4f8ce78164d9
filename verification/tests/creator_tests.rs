use katsu::backends::bootloader::{efiboot_size, generate_grub_images, grub_source, mkefiboot, setup_efi_boot_files, Bootloader};
use katsu::cfg::{Config, DiskLayout, OutputFormat, Script, System};
use katsu::creator::{
    bootloader, dracut, efi_files, erofs, exec, genfstab, instpkgs, limine, limine_cfg, prep_disk, root_passwd, root_shadow,
    squashfs, trim_prefix, xorriso, CreatorStep,
};
use katsu::text::{split_lines, split_words};

fn config(disk: Option<DiskLayout>) -> Config {
    Config {
        distro: "Ultramarine".to_string(),
        instroot: "/tmp/root".to_string(),
        out: "um".to_string(),
        packages: vec!["kernel".to_string(), "bash".to_string()],
        sys: System { releasever: 39, rootpw: "pw".to_string(), bootloader: None, kernel_params: Some("quiet".to_string()) },
        script: Script { init: None, postinst: None },
        dnf: None,
        volid: "UM-LIVE".to_string(),
        arch: None,
        format: OutputFormat::Iso,
        disk,
    }
}

#[test]
fn limine_configuration_text() {
    let t = limine_cfg(&config(None), "Ultramarine", "kernel-6.5.6-300.fc39.x86_64");
    assert_eq!(
        t,
        "TIMEOUT=5\n\n:Ultramarine\n\tPROTOCOL=linux\n\tKERNEL_PATH=boot:///boot/vmlinuz-6.5.6-300.fc39.x86_64\n\tMODULE_PATH=boot:///boot/initramfs-6.5.6-300.fc39.x86_64.img\n\tCMDLINE=root=live:LABEL=UM-LIVE rd.live.image selinux=0 quiet"
    );
}

#[test]
fn prefix_trimming() {
    assert_eq!(trim_prefix("kernel-kernel-6.1", "kernel-"), "6.1");
    assert_eq!(trim_prefix("6.1", "kernel-"), "6.1");
    assert_eq!(trim_prefix("abc", ""), "abc");
}

#[test]
fn root_password_lines() {
    assert_eq!(root_passwd(), "root:x:0:0:root:/root:/bin/sh");
    assert_eq!(root_shadow("$y$abc"), "root:$y$abc::0:99999:7:::");
}

#[test]
fn legacy_dracut_arguments() {
    assert_eq!(
        dracut("/r", "kernel-6.1"),
        vec![
            "--xz", "-r", "/r", "-vfNa", "livenet dmsquash-live dmsquash-live-ntfs convertfs pollcdrom qemu qemu-net",
            "--omit", "plymouth", "--no-early-microcode", "-o", " multipath ", "/r/boot/initramfs-6.1.img", "6.1",
        ]
    );
}

#[test]
fn legacy_image_commands() {
    let c = config(None);
    assert_eq!(
        xorriso(&c, "/abs/Ultramarine"),
        vec![
            "-as", "mkisofs", "-b", "boot/limine-bios-cd.bin", "-no-emul-boot", "-boot-load-size", "4",
            "-boot-info-table", "--efi-boot", "boot/limine-uefi-cd.bin", "-efi-boot-part", "--efi-boot-image",
            "--protective-msdos-label", "/abs/Ultramarine", "-volid", "UM-LIVE", "-o", "um.iso",
        ]
    );
    assert_eq!(
        squashfs(&c, "/r"),
        vec!["/r", "./Ultramarine/LiveOS/squashfs.img", "-comp", "xz", "-noappend", "-Xdict-size", "100%", "-b", "1048576"]
    );
    assert_eq!(erofs(&c, "/r"), vec!["um.efs.img", "/r", "-zlz4hc"]);
    assert_eq!(limine(&c), vec!["limine", "bios-install", "um.iso"]);
}

#[test]
fn legacy_package_install() {
    let mut c = config(None);
    assert_eq!(
        instpkgs(&c, "/r"),
        vec![
            vec!["dnf5", "in", "-y", "--releasever=39", "--installroot", "/r", "kernel", "bash"],
            vec!["dnf5", "clean", "all", "--installroot", "/r"],
        ]
    );
    c.dnf = Some("dnf".to_string());
    c.arch = Some("aarch64".to_string());
    assert_eq!(instpkgs(&c, "/r")[0], vec!["dnf", "in", "-y", "--releasever=39", "--forcearch", "aarch64", "--installroot", "/r", "kernel", "bash"]);
}

#[test]
fn legacy_steps_and_bootloader() {
    assert_eq!(exec(OutputFormat::Disk).len(), 6);
    assert_eq!(exec(OutputFormat::Iso)[9], CreatorStep::Bootloader);
    assert_eq!(exec(OutputFormat::Disk)[2], CreatorStep::GenFstab);
    let mut c = config(None);
    assert_eq!(bootloader(&c), Ok(true));
    c.sys.bootloader = Some("grub".to_string());
    assert_eq!(bootloader(&c), Ok(false));
    c.sys.bootloader = Some("lilo".to_string());
    assert_eq!(bootloader(&c), Err("Unknown bootloader: lilo".to_string()));
}

#[test]
fn legacy_efi_files() {
    let f = efi_files("x86_64");
    assert_eq!(f[0], ("/boot/efi/EFI/*/shimx86_64.efi".to_string(), "/EFI/BOOT/BOOTx86_64.EFI".to_string(), true));
    assert_eq!(f[4], ("/usr/share/grub/unicode.pf2".to_string(), "/EFI/BOOT/fonts/".to_string(), true));
    assert!(!f[2].2);
}

#[test]
fn prep_disk_with_bootloader() {
    let c = config(Some(DiskLayout { bootloader: true, root_format: "btrfs".to_string(), disk_size: "8G".to_string() }));
    let cmds = prep_disk(&c, "/dev/loop3").unwrap();
    assert_eq!(cmds[0], vec!["truncate", "-s", "8G", "um.raw"]);
    assert_eq!(cmds[1], vec!["losetup", "/dev/loop3", "um.raw", "--show"]);
    assert_eq!(cmds[9], vec!["mkfs.fat", "-F32", "/dev/loop3p1", "-n", "EFI"]);
    assert_eq!(cmds[12], vec!["mkfs.ext4", "-F", "/dev/loop3p2", "-L", "BOOT"]);
    assert_eq!(cmds[14], vec!["parted", "-s", "/dev/loop3", "name", "3", "UM-LIVE"]);
    assert_eq!(cmds[15], vec!["mkfs.btrfs", "/dev/loop3p3", "-L", "UM-LIVE"]);
    assert_eq!(cmds[cmds.len() - 1], vec!["mount", "/dev/loop3p1", "/tmp/root/boot/efi"]);
    assert_eq!(cmds.len(), 22);
}

#[test]
fn prep_disk_without_bootloader_or_layout() {
    let c = config(Some(DiskLayout { bootloader: false, root_format: "ext4".to_string(), disk_size: "4G".to_string() }));
    let cmds = prep_disk(&c, "/dev/loop0").unwrap();
    assert_eq!(cmds.len(), 13);
    assert_eq!(cmds[4], vec!["parted", "-s", "/dev/loop0", "name", "1", "BOOT"]);
    assert_eq!(cmds[10], vec!["mount", "/dev/loop0p2", "/tmp/root"]);
    assert_eq!(prep_disk(&config(None), "/dev/loop0"), Err("No disk layout specified".to_string()));
}

#[test]
fn grub_efi_boot_files() {
    let c = setup_efi_boot_files("/t", "aarch64");
    assert_eq!(c[4], vec!["cp", "-av", "/t/EFI/BOOT/shimaa64.efi", "/t/EFI/BOOT/BOOTAA64.efi"]);
    assert_eq!(c[5], vec!["cp", "-av", "/t/EFI/BOOT/shim.efi", "/t/EFI/BOOT/BOOTARM.efi"]);
    let c = setup_efi_boot_files("/t", "x86_64");
    assert_eq!(c[4], vec!["cp", "-av", "/t/EFI/BOOT/shimx64.efi", "/t/EFI/BOOT/BOOTX64.efi"]);
    assert_eq!(c[1], vec!["cp", "-av", "/t/boot/grub/grub.cfg", "/t/EFI/BOOT/BOOT.conf"]);
}

#[test]
fn grub_images_and_efiboot() {
    let c = generate_grub_images("/c", "/t", "x86_64", "/dev/loop9");
    assert_eq!(c[1], vec!["grub2-mkrescue", "-o", "/t/../efiboot.img"]);
    assert_eq!(c[3], vec!["mount", "/dev/loop9", "/tmp/katsu-efiboot"]);
    assert_eq!(mkefiboot(Bootloader::Grub, "/dev/loop2", "/t").len(), 6);
    let r = mkefiboot(Bootloader::REFInd, "/dev/loop2", "/t");
    assert_eq!(r.len(), 9);
    assert_eq!(r[6], vec!["cp", "-av", "/t/boot/vmlinuz", "/tmp/katsu.efiboot/boot/"]);
    assert_eq!(efiboot_size(Bootloader::REFInd), 256 * 1024 * 1024);
    assert_eq!(efiboot_size(Bootloader::Grub), 25 * 1024 * 1024);
}

#[test]
fn grub_source_choice() {
    assert_eq!(grub_source("/c/boot", true, true), Ok("/c/boot/grub2".to_string()));
    assert_eq!(grub_source("/c/boot", false, true), Ok("/c/boot/grub".to_string()));
    assert_eq!(grub_source("/c/boot", false, false), Err("Missing grub directory in /c/boot".to_string()));
}

#[test]
fn genfstab_one_entry_per_mount() {
    let listing = "abc / ext4 rw,relatime\nxyz /boot  vfat\trw extra\n";
    assert_eq!(
        genfstab(listing),
        "UUID=abc\t/\text4\trw,relatime\t0\t0\nUUID=xyz\t/boot\tvfat\trw\t0\t0\n"
    );
}

#[test]
fn genfstab_empty_listing() {
    assert_eq!(genfstab(""), "\n");
}

#[test]
fn split_words_skips_runs_of_whitespace() {
    assert_eq!(split_words("  a\u{3000}bc \r\n d "), vec!["a", "bc", "d"]);
}

#[test]
fn split_lines_drops_final_empty_line() {
    assert_eq!(split_lines("a\n\nb\n"), vec!["a", "", "b"]);
    assert_eq!(split_lines("a\nb"), vec!["a", "b"]);
}
