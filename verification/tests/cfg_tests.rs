use katsu::cfg::auth::{Auth, _default_true};
use katsu::cfg::boot::{find_kernel_files, Bootloader as OldBootloader};
use katsu::cfg::manifest::{_default_volid, PackageArchList, PackageList};
use katsu::cfg::partition::{partition_name, Partition, PartitionFlag, PartitionLayout, PartitionType};
use katsu::cfg::script::{script_default_priority, sort_script_priority, Script};
use katsu::cfg::OutputFormat as OldFormat;

fn user(name: &str) -> Auth {
    Auth {
        username: name.to_string(),
        password: None,
        groups: vec![],
        create_home: true,
        shell: None,
        uid: None,
        gid: None,
        ssh_keys: vec![],
    }
}

#[test]
fn shadow_entry_defaults_and_values() {
    assert_eq!(user("root").to_shadow(), "root::::::::");
    assert_eq!(user("root").to_shadow().split(':').count(), 9);
    let mut u = user("alice");
    u.password = Some("$6$abc".to_string());
    u.uid = Some(1000);
    u.gid = Some(10);
    assert_eq!(u.to_shadow(), "alice:$6$abc:::::::");
    assert_eq!(u.to_shadow().split(':').count(), 9);
}

#[test]
fn shadow_entry_is_cut_to_1024_bytes() {
    let long = "a".repeat(2000);
    let s = user(&long).to_shadow();
    assert_eq!(s.len(), 1024);
    assert_eq!(s, "a".repeat(1024));
    let wide = "é".repeat(600);
    let s = user(&wide).to_shadow();
    assert_eq!(s.len(), 1024);
    assert_eq!(s, "é".repeat(512));
}

#[test]
fn useradd_arguments() {
    let mut u = user("bob");
    u.shell = Some("/bin/fish".to_string());
    u.uid = Some(1001);
    u.gid = Some(1001);
    assert_eq!(u.add_user(), vec!["bob", "-s", "/bin/fish", "-u", "1001", "-g", "1001", "-m"]);
    u.create_home = false;
    u.shell = None;
    u.uid = None;
    assert_eq!(u.add_user(), vec!["bob", "-g", "1001"]);
    assert!(_default_true());
}

#[test]
fn flag_positions() {
    assert_eq!(PartitionFlag::NoAuto.flag_position(), 63);
    assert_eq!(PartitionFlag::ReadOnly.flag_position(), 60);
    assert_eq!(PartitionFlag::GrowFs.flag_position(), 59);
    assert_eq!(PartitionFlag::FlagPosition(7).flag_position(), 7);
}

#[test]
fn partition_type_guids() {
    assert_eq!(PartitionType::Root.uuid("x86_64"), "4f68bce3-e8cd-4db1-96e7-fbcaf984b709");
    assert_eq!(PartitionType::Root.uuid("aarch64"), "b921b045-1df0-41c3-af44-4c6f280d3fae");
    assert_eq!(PartitionType::Esp.uuid("riscv64"), "c12a7328-f81f-11d2-ba4b-00a0c93ec93b");
    assert_eq!(PartitionType::Swap.uuid(""), "0657fd6d-a4ab-43c4-84e5-0933c84b4f4f");
    assert_eq!(PartitionType::Xbootldr.uuid(""), "bc13c2ff-59e6-4262-a352-b275fd6f7172");
    assert_eq!(PartitionType::LinuxGeneric.uuid(""), "0fc63daf-8483-4772-8e79-3d69d8477de4");
    let g = uuid::Uuid::parse_str("67e55044-10b1-426f-9247-bb680e5fe0c8").unwrap();
    assert_eq!(PartitionType::Guid(g.as_u128()).uuid("x86_64"), "67e55044-10b1-426f-9247-bb680e5fe0c8");
}

fn cpart(label: Option<&str>, flags: Option<Vec<PartitionFlag>>, size: Option<u64>, fs: &str, mp: &str) -> Partition {
    Partition {
        label: label.map(str::to_string),
        partition_type: PartitionType::LinuxGeneric,
        flags,
        size,
        filesystem: fs.to_string(),
        mountpoint: mp.to_string(),
        subvolumes: vec![],
    }
}

#[test]
fn cfg_partition_apply_commands() {
    let l = PartitionLayout {
        size: None,
        partitions: vec![
            cpart(Some("ESP"), Some(vec![PartitionFlag::NoAuto, PartitionFlag::FlagPosition(2)]), Some(5 * 1024 * 1024), "efi", "/boot/efi"),
            cpart(None, None, None, "btrfs", "/"),
        ],
    };
    let cmds = l.apply("/dev/nvme0n1");
    let expected: Vec<Vec<&str>> = vec![
        vec!["parted", "-s", "/dev/nvme0n1", "mklabel", "gpt"],
        vec!["parted", "-s", "/dev/nvme0n1", "mkpart", "primary", "fat32", "1MiB", "5.0MiB"],
        vec!["sgdisk", "-A", "1:set:63", "/dev/nvme0n1"],
        vec!["sgdisk", "-A", "1:set:2", "/dev/nvme0n1"],
        vec!["parted", "-s", "/dev/nvme0n1", "set", "1", "esp", "on"],
        vec!["parted", "-s", "/dev/nvme0n1", "name", "1", "ESP"],
        vec!["partprobe"],
        vec!["mkfs.fat", "-F32", "/dev/nvme0n1p1"],
        vec!["parted", "-s", "/dev/nvme0n1", "mkpart", "primary", "fat32", "5.0MiB", "100%"],
        vec!["partprobe"],
        vec!["mkfs.btrfs", "/dev/nvme0n1p2"],
    ];
    assert_eq!(cmds, expected);
}

#[test]
fn cfg_partition_mount_order() {
    let l = PartitionLayout {
        size: None,
        partitions: vec![cpart(None, None, None, "vfat", "/boot/efi"), cpart(None, None, None, "ext4", "/")],
    };
    assert_eq!(l.sort_partitions(), vec![(2, 1), (1, 0)]);
    assert_eq!(
        l.mount_to_chroot("/dev/sdc", "/mnt/root"),
        vec![
            ("/dev/sdc2".to_string(), "/mnt/root/".to_string()),
            ("/dev/sdc1".to_string(), "/mnt/root/boot/efi".to_string()),
        ]
    );
    assert_eq!(l.unmount_from_chroot("/mnt/root"), vec!["/mnt/root/boot/efi".to_string(), "/mnt/root/".to_string()]);
    assert_eq!(partition_name("/dev/mmcblk1", 3), "/dev/mmcblk1p3");
}

fn script(id: Option<&str>, source: Option<&str>, priority: i32) -> Script {
    Script {
        id: id.map(str::to_string),
        name: None,
        source: source.map(str::to_string),
        chroot: true,
        needs: vec![],
        priority,
    }
}

#[test]
fn script_load_and_shebang() {
    assert_eq!(script(None, Some("echo"), 50).load(), Some("echo".to_string()));
    assert_eq!(script(None, Some("echo"), 50).shebang_if_needed(), Some("#!/bin/sh\necho".to_string()));
    assert_eq!(script(None, Some("#!/bin/bash\n"), 50).shebang_if_needed(), Some("#!/bin/bash\n".to_string()));
    assert_eq!(script(None, None, 50).shebang_if_needed(), None);
    assert_eq!(script_default_priority(), 50);
    let d = Script::default();
    assert!(d.chroot && d.priority == 50 && d.source.is_none());
}

#[test]
fn script_ids() {
    assert_eq!(script(Some("x"), None, 50).get_id(), "x");
    let src = Some("echo hi".to_string());
    let mut hasher = std::hash::DefaultHasher::new();
    std::hash::Hash::hash(&src, &mut hasher);
    let expected = std::hash::Hasher::finish(&hasher).to_string();
    assert_eq!(script(None, Some("echo hi"), 50).get_id(), expected);
}

#[test]
fn script_execution_plan() {
    let (name, text, chroot) = script(Some("net"), Some("ip a"), 50).execute().unwrap();
    assert_eq!(name, "katsu-script-net");
    assert_eq!(text, "#!/bin/sh\nip a");
    assert!(chroot);
    assert_eq!(
        script(Some("net"), None, 50).execute(),
        Err("Fail to load undefined script that cannot be found".to_string())
    );
}

#[test]
fn sort_by_priority_is_stable() {
    let mut v = vec![script(Some("c"), None, 70), script(Some("a"), None, 10), script(Some("b1"), None, 50), script(Some("b2"), None, 50)];
    sort_script_priority(&mut v);
    let ids: Vec<&str> = v.iter().map(|s| s.id.as_deref().unwrap()).collect();
    assert_eq!(ids, vec!["a", "b1", "b2", "c"]);
}

#[test]
fn old_bootloader() {
    assert_eq!(OldBootloader::from("LIMINE"), OldBootloader::Limine);
    assert_eq!(OldBootloader::from("Systemd-Boot"), OldBootloader::SystemdBoot);
    assert_eq!(OldBootloader::from("grub2"), OldBootloader::Grub);
    assert_eq!(OldBootloader::from("lilo"), OldBootloader::Grub);
    assert_eq!(OldBootloader::Grub.install("img"), None);
    assert_eq!(OldBootloader::Limine.install("img"), Some(vec!["limine".to_string(), "bios-install".to_string(), "img".to_string()]));
    assert_eq!(OldBootloader::Limine.get_bins(), ("boot/limine-uefi-cd.bin", "boot/limine-bios-cd.bin"));
    assert_eq!(OldBootloader::Grub.get_bins(), ("boot/efi/EFI/fedora/shim.efi", "boot/eltorito.img"));
}

#[test]
fn kernel_files_found_in_boot() {
    let names: Vec<String> = ["config-6.8", "vmlinuz-0-rescue-x", "vmlinuz-6.8", "initramfs-6.8.img", "vmlinuz-6.9"]
        .iter()
        .map(|s| s.to_string())
        .collect();
    assert_eq!(find_kernel_files(&names), (Some(2), Some(3)));
    let names: Vec<String> = ["vmlinuz-a", "vmlinuz-b"].iter().map(|s| s.to_string()).collect();
    assert_eq!(find_kernel_files(&names), (Some(1), None));
}

fn list(pairs: &[(&str, &[&str])]) -> Vec<(String, Vec<String>)> {
    pairs.iter().map(|(k, v)| (k.to_string(), v.iter().map(|s| s.to_string()).collect())).collect()
}

#[test]
fn package_list_resolution() {
    let arch_list = PackageArchList { packages: list(&[("all", &["bash", "dnf"]), ("x86_64", &["grub2-pc"])]), packages_exclude: vec![] };
    let p = PackageList { package_manager: vec![("dnf".to_string(), vec![("base".to_string(), arch_list)])] };
    assert_eq!(p.resolve("x86_64", "dnf", "base"), vec!["bash", "dnf", "grub2-pc"]);
    assert_eq!(p.resolve("aarch64", "dnf", "base"), vec!["bash", "dnf"]);
    assert!(p.resolve("x86_64", "apt", "base").is_empty());
    assert!(p.resolve("x86_64", "dnf", "other").is_empty());
    assert_eq!(_default_volid(), "KATSU-LIVEOS");
}

#[test]
fn old_output_format() {
    assert_eq!(OldFormat::from("DISK"), OldFormat::Disk);
    assert_eq!(OldFormat::from("iso"), OldFormat::Iso);
    assert_eq!(OldFormat::from("tarball"), OldFormat::Iso);
}

#[test]
fn cfg_partition_unmount_reverses_mount() {
    let l = PartitionLayout {
        size: None,
        partitions: vec![
            cpart(None, None, None, "ext4", "/home/user"),
            cpart(None, None, None, "vfat", "/boot/efi"),
            cpart(None, None, None, "ext4", "/"),
            cpart(None, None, None, "ext4", "/boot"),
        ],
    };
    let mut dirs: Vec<String> = l.mount_to_chroot("/dev/vda", "/r").into_iter().map(|m| m.1).collect();
    assert_eq!(dirs, vec!["/r/", "/r/boot", "/r/boot/efi", "/r/home/user"]);
    dirs.reverse();
    assert_eq!(l.unmount_from_chroot("/r"), dirs);
}

#[test]
fn cfg_partition_parents_mount_first() {
    let l = PartitionLayout {
        size: None,
        partitions: vec![
            cpart(None, None, None, "ext4", "/var/lib/containers"),
            cpart(None, None, None, "ext4", "/var"),
            cpart(None, None, None, "ext4", "/"),
        ],
    };
    let order = l.sort_partitions();
    let pos = |p: usize| order.iter().position(|e| e.1 == p).unwrap();
    assert!(pos(2) < pos(1));
    assert!(pos(1) < pos(0));
}

#[test]
fn cfg_partition_fstab_entries() {
    let l = PartitionLayout {
        size: None,
        partitions: vec![cpart(None, None, None, "efi", "/boot/efi"), cpart(None, None, None, "ext4", "/")],
    };
    let entries = l.fstab_entries(&vec!["AAAA".to_string(), "BBBB".to_string()]);
    assert_eq!(
        entries,
        vec![
            ("AAAA".to_string(), "/".to_string(), "ext4".to_string(), 2),
            ("BBBB".to_string(), "/boot/efi".to_string(), "vfat".to_string(), 0),
        ]
    );
}
