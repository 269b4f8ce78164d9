use katsu::donburi::{dracut, get_krnl_ver, grub_mkconfig};

#[test]
fn grub_mkconfig_writes_into_target() {
    assert_eq!(grub_mkconfig("/mnt/root/"), vec!["grub2-mkconfig", "-o", "/mnt/root/boot/grub2/grub.cfg"]);
}

#[test]
fn kernel_version_without_prefix() {
    assert_eq!(get_krnl_ver("kernel-6.0.15-300.fc37.x86_64"), "6.0.15-300.fc37.x86_64");
    assert_eq!(get_krnl_ver("kernel-"), "");
}

#[test]
fn dracut_live_initramfs_command() {
    let cmd = dracut("Ultramarine-Linux", "/mnt/root", "6.0.15-300.fc37.x86_64");
    assert_eq!(
        cmd,
        vec![
            "dracut",
            "--kernel-ver",
            "6.0.15-300.fc37.x86_64",
            "--sysroot",
            "/mnt/root",
            "--verbose",
            "--no-hostonly",
            "--no-hostonly-cmdline",
            "--install",
            "/.profile",
            "--add",
            " kiwi-live pollcdrom ",
            "--omit",
            " multipath ",
            "Ultramarine-Linux.x86_64-6.0.15.initrd",
            "6.0.15-300.fc37.x86_64",
        ]
    );
}

#[test]
fn grub_install_command() {
    assert_eq!(katsu::grub::grub_install("/dev/sda", "i386-pc"), vec!["grub2-install", "/dev/sda", "--target", "i386-pc"]);
    assert_eq!(katsu::grub::grub_mkconfig("/"), vec!["grub2-mkconfig", "-o", "/boot/grub2/grub.cfg"]);
}
