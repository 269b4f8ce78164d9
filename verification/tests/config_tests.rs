use katsu::config::{partition_name, Auth, Partition, PartitionLayout, Script, ScriptSource};

fn part(label: &str, size: Option<u64>, fs: &str, mp: &str) -> Partition {
    Partition { label: Some(label.to_string()), size, filesystem: fs.to_string(), mountpoint: mp.to_string() }
}

fn mib(n: u64) -> u64 {
    bytesize::ByteSize::mib(n).as_u64()
}

fn gib(n: u64) -> u64 {
    bytesize::ByteSize::gib(n).as_u64()
}

fn layout() -> PartitionLayout {
    let mut partlay = PartitionLayout::new();
    partlay.add_partition(part("EFI", Some(mib(100)), "efi", "/boot/efi"));
    partlay.add_partition(part("boot", Some(gib(100)), "ext4", "/boot"));
    partlay.add_partition(part("ROOT", Some(gib(100)), "ext4", "/"));
    partlay
}

#[test]
fn test_dev_name() {
    let devname = partition_name("/dev/mmcblk0", 1);
    assert_eq!(devname, "/dev/mmcblk0p1");

    let devname = partition_name("/dev/nvme0n1", 1);
    assert_eq!(devname, "/dev/nvme0n1p1");

    let devname = partition_name("/dev/loop0", 1);
    assert_eq!(devname, "/dev/loop0p1");

    let devname = partition_name("/dev/sda", 1);
    assert_eq!(devname, "/dev/sda1");
}

#[test]
fn test_partlay() {
    let partlay = layout();
    for part in &partlay.partitions {
        let index = partlay.get_index(&part.mountpoint).unwrap();
        assert!(index >= 1);
    }
    let lay = partlay.sort_partitions();
    let assertion = vec![
        (3, part("ROOT", Some(gib(100)), "ext4", "/")),
        (2, part("boot", Some(gib(100)), "ext4", "/boot")),
        (1, part("EFI", Some(mib(100)), "efi", "/boot/efi")),
    ];
    assert_eq!(lay, assertion)
}

#[test]
fn partition_name_multi_digit() {
    assert_eq!(partition_name("/dev/sdb", 12), "/dev/sdb12");
    assert_eq!(partition_name("/dev/nvme1n1", 10), "/dev/nvme1n1p10");
    assert_eq!(partition_name("disk.img", 0), "disk.img0");
}

#[test]
fn get_index_first_match_and_missing() {
    let mut l = PartitionLayout::new();
    l.add_partition(part("a", None, "ext4", "/data"));
    l.add_partition(part("b", None, "xfs", "/data"));
    assert_eq!(l.get_index("/data"), Some(1));
    assert_eq!(l.get_index("/nope"), None);
    assert_eq!(l.get_partition("/data").unwrap().label.as_deref(), Some("a"));
    assert!(l.get_partition("/nope").is_none());
}

#[test]
fn sort_keeps_last_of_duplicate_mountpoints() {
    let mut l = PartitionLayout::new();
    l.add_partition(part("x", None, "ext4", "/var"));
    l.add_partition(part("y", None, "ext4", "/"));
    l.add_partition(part("z", None, "xfs", "/var"));
    let s = l.sort_partitions();
    assert_eq!(s.len(), 2);
    assert_eq!(s[0].0, 2);
    assert_eq!(s[0].1.label.as_deref(), Some("y"));
    assert_eq!(s[1].0, 1);
    assert_eq!(s[1].1.label.as_deref(), Some("z"));
}

#[test]
fn sort_same_depth_alphabetical() {
    let mut l = PartitionLayout::new();
    l.add_partition(part("h", None, "ext4", "/home"));
    l.add_partition(part("b", None, "ext4", "/boot"));
    l.add_partition(part("e", None, "vfat", "/boot/efi/"));
    let s = l.sort_partitions();
    let mps: Vec<&str> = s.iter().map(|(_, p)| p.mountpoint.as_str()).collect();
    assert_eq!(mps, vec!["/boot", "/home", "/boot/efi/"]);
}

#[test]
fn mount_and_unmount_plans_are_reversed() {
    let l = layout();
    let mounts = l.mount_to_chroot("/dev/loop0", "/mnt");
    assert_eq!(
        mounts,
        vec![
            ("/dev/loop0p3".to_string(), "/mnt/".to_string()),
            ("/dev/loop0p2".to_string(), "/mnt/boot".to_string()),
            ("/dev/loop0p1".to_string(), "/mnt/boot/efi".to_string()),
        ]
    );
    let mut unmounts = l.unmount_from_chroot("/dev/loop0", "/mnt");
    unmounts.reverse();
    assert_eq!(unmounts, mounts);
}

#[test]
fn apply_commands_for_layout() {
    let l = layout();
    let cmds = l.apply("/dev/sda");
    let expected: Vec<Vec<&str>> = vec![
        vec!["parted", "-s", "/dev/sda", "mklabel", "gpt"],
        vec!["parted", "-s", "/dev/sda", "mkpart", "primary", "fat32", "1MiB", "100.0MiB"],
        vec!["parted", "-s", "/dev/sda", "set", "1", "esp", "on"],
        vec!["parted", "-s", "/dev/sda", "name", "1", "EFI"],
        vec!["mkfs.fat", "-F32", "/dev/sda1"],
        vec!["parted", "-s", "/dev/sda", "mkpart", "primary", "ext4", "100.0MiB", "100.1GiB"],
        vec!["parted", "-s", "/dev/sda", "name", "2", "boot"],
        vec!["mkfs.ext4", "/dev/sda2"],
        vec!["parted", "-s", "/dev/sda", "mkpart", "primary", "ext4", "100.1GiB", "200.1GiB"],
        vec!["parted", "-s", "/dev/sda", "name", "3", "ROOT"],
        vec!["mkfs.ext4", "/dev/sda3"],
    ];
    assert_eq!(cmds, expected);
}

#[test]
fn apply_without_size_ends_at_disk_end() {
    let mut l = PartitionLayout::new();
    l.add_partition(Partition { label: None, size: None, filesystem: "xfs".to_string(), mountpoint: "/".to_string() });
    let cmds = l.apply("/dev/vda");
    assert_eq!(cmds[1], vec!["parted", "-s", "/dev/vda", "mkpart", "primary", "ext4", "1MiB", "100%"]);
    assert_eq!(cmds[2], vec!["mkfs.xfs", "/dev/vda1"]);
    assert_eq!(cmds.len(), 3);
}

#[test]
fn apply_small_size_in_bytes() {
    let mut l = PartitionLayout::new();
    l.add_partition(Partition { label: None, size: Some(512), filesystem: "ext4".to_string(), mountpoint: "/a".to_string() });
    l.add_partition(Partition { label: None, size: None, filesystem: "ext4".to_string(), mountpoint: "/b".to_string() });
    let cmds = l.apply("/dev/vdb");
    assert_eq!(cmds[1][7], "512B");
    assert_eq!(cmds[3][6], "512B");
}

#[test]
fn fstab_text_layout() {
    let l = layout();
    let uuids = vec!["1111".to_string(), "2222".to_string(), "3333".to_string()];
    let text = l.fstab_text(&uuids);
    let expected = "# /etc/fstab: static file system information.\n# Automatically generated by Katsu Image Builder. See \n# katsu::config::PartitionLayout::fstab for more information.\n# <file system>\t<mount point>\t<type>\t<options>\t<dump>\t<pass>\nUUID=1111\t/\text4\tdefaults\t0\t2\nUUID=2222\t/boot\text4\tdefaults\t0\t2\nUUID=3333\t/boot/efi\tvfat\tdefaults\t0\t0\n";
    assert_eq!(text, expected);
}

fn script(id: Option<&str>, inline: Option<&str>, file: Option<&str>) -> Script {
    Script {
        id: id.map(str::to_string),
        name: None,
        file: file.map(str::to_string),
        inline: inline.map(str::to_string),
        needs: vec![],
        chroot: None,
        priority: 50,
    }
}

#[test]
fn script_source_prefers_inline() {
    assert_eq!(script(None, Some("echo hi"), Some("/x.sh")).source(), ScriptSource::Inline("echo hi".to_string()));
    assert_eq!(script(None, None, Some("/x.sh")).source(), ScriptSource::File("/x.sh".to_string()));
    assert_eq!(script(None, None, None).source(), ScriptSource::Nowhere);
}

#[test]
fn script_default_and_clone() {
    let d = Script::default();
    assert!(d.id.is_none() && d.needs.is_empty() && d.chroot.is_none());
    assert_eq!(d.priority, 50);
    let s = script(Some("a"), Some("x"), None);
    let c = s.clone();
    assert_eq!(c.id, s.id);
    assert_eq!(c.inline, s.inline);
}

fn auth() -> Auth {
    Auth {
        username: "alice".to_string(),
        password: Some("$6$hash".to_string()),
        groups: vec!["wheel".to_string(), "video".to_string()],
        create_home: true,
        shell: Some("/bin/zsh".to_string()),
        uid: Some(1000),
        gid: Some(100),
        ssh_keys: vec!["ssh-ed25519 AAA".to_string(), "ssh-rsa BBB".to_string()],
    }
}

#[test]
fn useradd_args_full() {
    assert_eq!(
        auth().add_to_chroot(),
        vec!["-u", "1000", "-g", "100", "-s", "/bin/zsh", "-p", "$6$hash", "-m", "-G", "wheel", "-G", "video", "alice"]
    );
}

#[test]
fn useradd_args_minimal() {
    let a = Auth {
        username: "bob".to_string(),
        password: None,
        groups: vec![],
        create_home: false,
        shell: None,
        uid: None,
        gid: None,
        ssh_keys: vec![],
    };
    assert_eq!(a.add_to_chroot(), vec!["-M", "bob"]);
    assert_eq!(a.authorized_keys(), None);
}

#[test]
fn authorized_keys_file() {
    let a = auth();
    assert_eq!(a.authorized_keys(), Some("ssh-ed25519 AAA\nssh-rsa BBB\n".to_string()));
    assert_eq!(a.authorized_keys_path(), "home/alice/.ssh/authorized_keys");
}

#[test]
fn default_true_is_true() {
    assert!(katsu::config::_default_true());
}

#[test]
fn lookup_after_add_partition() {
    let mut l = layout();
    assert_eq!(l.get_index("/home"), None);
    l.add_partition(part("home", None, "xfs", "/home"));
    assert_eq!(l.get_index("/home"), Some(4));
    assert_eq!(l.get_partition("/home").unwrap(), &part("home", None, "xfs", "/home"));
    l.add_partition(part("boot2", None, "ext4", "/boot"));
    assert_eq!(l.get_index("/boot"), Some(2));
    assert_eq!(l.get_partition("/boot").unwrap().label.as_deref(), Some("boot"));
}

#[test]
fn parents_mount_before_children() {
    let mut l = PartitionLayout::new();
    l.add_partition(part("c", None, "ext4", "/var/lib/containers"));
    l.add_partition(part("v", None, "ext4", "/var/"));
    l.add_partition(part("r", None, "ext4", "/"));
    l.add_partition(part("h", None, "ext4", "/home"));
    let order: Vec<String> = l.sort_partitions().into_iter().map(|(_, p)| p.mountpoint).collect();
    assert_eq!(order, vec!["/", "/home", "/var/", "/var/lib/containers"]);
}

#[test]
fn size_texts_and_apply_with_given_sizes() {
    let l = layout();
    assert_eq!(l.size_texts(), vec!["100.0 MiB", "100.1 GiB", "200.1 GiB"]);
    let mut small = PartitionLayout::new();
    small.add_partition(part("a", Some(1000), "ext4", "/a"));
    small.add_partition(part("b", None, "ext4", "/b"));
    assert_eq!(small.size_texts(), vec!["1000 B", "1000 B"]);
    let texts = vec!["1 X".to_string(), "2 Y".to_string(), "3 Z".to_string()];
    let cmds = l.apply_with_sizes("/dev/sda", &texts);
    assert_eq!(cmds[1], vec!["parted", "-s", "/dev/sda", "mkpart", "primary", "fat32", "1MiB", "1X"]);
    assert_eq!(cmds[5], vec!["parted", "-s", "/dev/sda", "mkpart", "primary", "ext4", "1X", "2Y"]);
    assert_eq!(cmds[8], vec!["parted", "-s", "/dev/sda", "mkpart", "primary", "ext4", "2Y", "3Z"]);
    assert_eq!(cmds, {
        let mut e = l.apply("/dev/sda");
        e[1][7] = "1X".to_string();
        e[5][6] = "1X".to_string();
        e[5][7] = "2Y".to_string();
        e[8][6] = "2Y".to_string();
        e[8][7] = "3Z".to_string();
        e
    });
}
