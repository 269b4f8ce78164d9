//! Partitions of disk images, described with GPT partition types and flags.
use vstd::prelude::*;
use crate::bindings::{bytesize_iec, iec_text_ok, uuid_hyphenated, uuid_string};
use crate::cfg::auth::decimal_string;
use crate::config::{fstab_fsname, opt_view, pair_views, parted_size, partition_name_spec};
use crate::mounts::{is_mount_order, mount_entry_ok, mount_order, mount_order_of};
use crate::text::{commands_view, clone_opt_string, decimal, join_path, path_join, push_str, remove_char, str_eq, string_of, string_trim_start, string_views, trim_start_char};

verus! {

/// Represents GPT partition attribute flags which can be used, from the
/// discoverable partitions specification.
#[derive(Debug, Clone, Copy, PartialEq, Eq, Structural)]
pub enum PartitionFlag {
    /// Disable auto discovery for the partition, preventing automatic mounting
    NoAuto,
    /// Mark partition for mounting as read-only
    ReadOnly,
    /// Enable automatically growing the underlying file system when mounted
    GrowFs,
    /// An arbitrary GPT attribute flag position, 0 - 63
    FlagPosition(u8),
}

/// The bit position of a flag among the GPT partition attributes.
pub open spec fn flag_position_spec(f: PartitionFlag) -> u8 {
    match f {
        PartitionFlag::NoAuto => 63,
        PartitionFlag::ReadOnly => 60,
        PartitionFlag::GrowFs => 59,
        PartitionFlag::FlagPosition(p) => p,
    }
}

impl PartitionFlag {
    /// The bit position of the flag among the GPT partition attributes; an
    /// arbitrary position must be one of the 64 there are.
    pub fn flag_position(&self) -> (r: u8)
        requires
            match *self {
                PartitionFlag::FlagPosition(p) => p <= 63,
                _ => true,
            },
        ensures
            r == flag_position_spec(*self),
    {
        match *self {
            PartitionFlag::NoAuto => 63,
            PartitionFlag::ReadOnly => 60,
            PartitionFlag::GrowFs => 59,
            PartitionFlag::FlagPosition(p) => p,
        }
    }
}

/// Represents GPT partition types which can be used, a subset of the
/// discoverable partitions specification. This is not the filesystem which
/// is formatted on the partition.
#[derive(Debug, Clone, Copy, PartialEq, Eq, Structural)]
pub enum PartitionType {
    /// Root partition for the target architecture of the build
    Root,
    /// Root partition for ARM64
    RootArm64,
    /// Root partition for `x86_64`
    RootX86_64,
    /// Efi system partition
    Esp,
    /// Extended boot loader, defined by the Boot Loader Specification
    Xbootldr,
    /// Swap partition
    Swap,
    /// A generic partition that carries a Linux filesystem
    LinuxGeneric,
    /// An arbitrary GPT partition type GUID, as its 128-bit value
    Guid(u128),
}

/// The GPT type GUID of a partition type, for the target architecture.
pub open spec fn type_uuid_spec(t: PartitionType, arch: Seq<char>) -> Seq<char> {
    match t {
        PartitionType::Root => if arch == "x86_64"@ {
            "4f68bce3-e8cd-4db1-96e7-fbcaf984b709"@
        } else {
            "b921b045-1df0-41c3-af44-4c6f280d3fae"@
        },
        PartitionType::RootArm64 => "b921b045-1df0-41c3-af44-4c6f280d3fae"@,
        PartitionType::RootX86_64 => "4f68bce3-e8cd-4db1-96e7-fbcaf984b709"@,
        PartitionType::Esp => "c12a7328-f81f-11d2-ba4b-00a0c93ec93b"@,
        PartitionType::Xbootldr => "bc13c2ff-59e6-4262-a352-b275fd6f7172"@,
        PartitionType::Swap => "0657fd6d-a4ab-43c4-84e5-0933c84b4f4f"@,
        PartitionType::LinuxGeneric => "0fc63daf-8483-4772-8e79-3d69d8477de4"@,
        PartitionType::Guid(g) => uuid_hyphenated(g),
    }
}

impl PartitionType {
    /// The GPT partition type GUID; the root partition's depends on the
    /// target architecture, which must be x86_64 or aarch64.
    pub fn uuid(&self, target_arch: &str) -> (r: String)
        requires
            *self == PartitionType::Root ==> (target_arch@ == "x86_64"@ || target_arch@ == "aarch64"@),
        ensures
            r@ == type_uuid_spec(*self, target_arch@),
    {
        match *self {
            PartitionType::Root => if str_eq(target_arch, "x86_64") {
                string_of("4f68bce3-e8cd-4db1-96e7-fbcaf984b709")
            } else {
                string_of("b921b045-1df0-41c3-af44-4c6f280d3fae")
            },
            PartitionType::RootArm64 => string_of("b921b045-1df0-41c3-af44-4c6f280d3fae"),
            PartitionType::RootX86_64 => string_of("4f68bce3-e8cd-4db1-96e7-fbcaf984b709"),
            PartitionType::Esp => string_of("c12a7328-f81f-11d2-ba4b-00a0c93ec93b"),
            PartitionType::Xbootldr => string_of("bc13c2ff-59e6-4262-a352-b275fd6f7172"),
            PartitionType::Swap => string_of("0657fd6d-a4ab-43c4-84e5-0933c84b4f4f"),
            PartitionType::LinuxGeneric => string_of("0fc63daf-8483-4772-8e79-3d69d8477de4"),
            PartitionType::Guid(g) => uuid_string(g),
        }
    }
}

/// A btrfs subvolume of a partition.
#[derive(Debug, PartialEq, Eq)]
pub struct BtrfsSubvolume {
    pub name: String,
    pub mountpoint: String,
}

/// A partition of a disk layout.
pub struct Partition {
    pub label: Option<String>,
    /// Partition type
    pub partition_type: PartitionType,
    /// GPT partition attribute flags to add
    pub flags: Option<Vec<PartitionFlag>>,
    /// Size in bytes; without one the partition takes the rest of the disk
    pub size: Option<u64>,
    /// Filesystem of the partition
    pub filesystem: String,
    /// The mountpoint of the partition
    pub mountpoint: String,
    /// Will only be used if the filesystem is btrfs
    pub subvolumes: Vec<BtrfsSubvolume>,
}

/// A disk layout: an optional total size in bytes and its partitions.
pub struct PartitionLayout {
    pub size: Option<u64>,
    pub partitions: Vec<Partition>,
}

/// The mountpoints of a list of partitions.
pub open spec fn mountpoints(parts: Seq<Partition>) -> Seq<Seq<char>> {
    parts.map_values(|p: Partition| p.mountpoint@)
}

/// The partitions in mount order, each given by its index (one more than the
/// position of the first partition with its mountpoint) and its position.
pub open spec fn sorted_positions(parts: Seq<Partition>) -> Seq<(usize, usize)> {
    mount_order_of(mountpoints(parts))
}

/// The mountpoints of the partitions, as strings.
fn mountpoint_strings(parts: &Vec<Partition>) -> (r: Vec<String>)
    ensures
        string_views(r@) == mountpoints(parts@),
{
    let mut r: Vec<String> = Vec::new();
    let mut i: usize = 0;
    while i < parts.len()
        invariant
            i <= parts@.len(),
            r@.len() == i,
            string_views(r@) == mountpoints(parts@.subrange(0, i as int)),
        decreases parts@.len() - i,
    {
        let ghost before = string_views(r@);
        r.push(parts[i].mountpoint.clone());
        i = i + 1;
        assert(string_views(r@) =~= mountpoints(parts@.subrange(0, i as int))) by {
            assert(mountpoints(parts@.subrange(0, i - 1)) == before);
            assert(mountpoints(parts@.subrange(0, i as int)) =~= before.push(parts@[i - 1].mountpoint@));
        }
    }
    assert(parts@.subrange(0, parts@.len() as int) =~= parts@);
    r
}

/// `sgdisk -A <i>:set:<position>`, one for each flag.
pub open spec fn flag_commands(disk: Seq<char>, i: nat, flags: Seq<PartitionFlag>) -> Seq<Seq<Seq<char>>>
    decreases flags.len(),
{
    if flags.len() == 0 {
        Seq::empty()
    } else {
        flag_commands(disk, i, flags.drop_last()).push(
            seq!["sgdisk"@, "-A"@, decimal(i) + ":set:"@ + decimal(flag_position_spec(flags.last()) as nat), disk])
    }
}

/// The sizes of the first `k` partitions, those without a size counting nothing.
pub open spec fn size_sum(parts: Seq<Partition>, k: int) -> nat
    decreases k,
{
    if k <= 0 {
        0
    } else {
        size_sum(parts, k - 1) + match parts[k - 1].size {
            Some(s) => s as nat,
            None => 0nat,
        }
    }
}

/// Sums of sizes only grow with the number of partitions counted.
pub proof fn lemma_size_sum_mono(parts: Seq<Partition>, j: int, k: int)
    requires
        j <= k,
    ensures
        size_sum(parts, j) <= size_sum(parts, k),
    decreases k - j,
{
    if j < k {
        lemma_size_sum_mono(parts, j, k - 1);
    }
}

/// The commands that create and format the partition at position `k`
/// (number `k + 1`): created from 1 MiB for the first, else where the sizes
/// before it end, to the end of its size or of the disk; its attribute
/// flags; the ESP flag for `efi`; its name when labelled; a re-read of the
/// partition table; and its filesystem.
pub open spec fn part_commands(disk: Seq<char>, parts: Seq<Partition>, texts: Seq<Seq<char>>, k: int) -> Seq<Seq<Seq<char>>> {
    let p = parts[k];
    let i = (k + 1) as nat;
    let dev = partition_name_spec(disk, i);
    let start = if k == 0 { "1MiB"@ } else { parted_size(texts[k - 1]) };
    let end = match p.size {
        Some(_) => parted_size(texts[k]),
        None => "100%"@,
    };
    seq![seq!["parted"@, "-s"@, disk, "mkpart"@, "primary"@, "fat32"@, start, end]]
        + (match p.flags { Some(f) => flag_commands(disk, i, f@), None => Seq::empty() })
        + (if p.filesystem@ == "efi"@ { seq![seq!["parted"@, "-s"@, disk, "set"@, decimal(i), "esp"@, "on"@]] } else { Seq::empty() })
        + (match p.label { Some(l) => seq![seq!["parted"@, "-s"@, disk, "name"@, decimal(i), l@]], None => Seq::empty() })
        + seq![seq!["partprobe"@]]
        + (if p.filesystem@ == "efi"@ { seq![seq!["mkfs.fat"@, "-F32"@, dev]] } else { seq![seq!["mkfs."@ + p.filesystem@, dev]] })
}

/// The commands that lay out the first `k` partitions on `disk`, after a GPT
/// label; `texts[j]` renders the byte count where partition `j` ends.
pub open spec fn apply_commands(disk: Seq<char>, parts: Seq<Partition>, texts: Seq<Seq<char>>, k: int) -> Seq<Seq<Seq<char>>>
    decreases k,
{
    if k <= 0 {
        seq![seq!["parted"@, "-s"@, disk, "mklabel"@, "gpt"@]]
    } else {
        apply_commands(disk, parts, texts, k - 1) + part_commands(disk, parts, texts, k - 1)
    }
}

/// Whether `texts` holds, for each partition `k`, a rendering of the byte
/// count where the sizes up to and including it end.
pub open spec fn size_texts_ok(parts: Seq<Partition>, texts: Seq<Seq<char>>) -> bool {
    &&& texts.len() == parts.len()
    &&& forall|k: int| 0 <= k < parts.len() ==> iec_text_ok(size_sum(parts, k + 1), #[trigger] texts[k])
}

} // verus!

verus! {

/// Appends `sgdisk -A <i>:set:<position>` for each flag.
fn push_flag_commands(r: &mut Vec<Vec<String>>, disk: &str, i: usize, flags: &Vec<PartitionFlag>)
    requires
        forall|k: int| 0 <= k < flags@.len() ==> flag_ok(#[trigger] flags@[k]),
    ensures
        commands_view(final(r)@) == commands_view(old(r)@) + flag_commands(disk@, i as nat, flags@),
{
    let ghost r0 = commands_view(r@);
    let mut k: usize = 0;
    while k < flags.len()
        invariant
            k <= flags@.len(),
            forall|q: int| 0 <= q < flags@.len() ==> flag_ok(#[trigger] flags@[q]),
            commands_view(r@) == r0 + flag_commands(disk@, i as nat, flags@.subrange(0, k as int)),
        decreases flags@.len() - k,
    {
        let f = flags[k];
        let pos = f.flag_position();
        let mut a = decimal_string(i as u64);
        push_str(&mut a, ":set:");
        crate::text::push_decimal(&mut a, pos as u64);
        let mut c: Vec<String> = Vec::new();
        c.push(string_of("sgdisk"));
        c.push(string_of("-A"));
        c.push(a);
        c.push(string_of(disk));
        let ghost cv = string_views(c@);
        assert(cv =~= seq!["sgdisk"@, "-A"@, decimal(i as nat) + ":set:"@ + decimal(flag_position_spec(flags@[k as int]) as nat), disk@]);
        let ghost before = commands_view(r@);
        r.push(c);
        assert(commands_view(r@) =~= before.push(cv));
        k = k + 1;
        assert(flags@.subrange(0, k as int).drop_last() =~= flags@.subrange(0, k - 1));
    }
    assert(flags@.subrange(0, k as int) =~= flags@);
}

/// The commands for the partition at position `k`, given where the partitions before it end.
#[verifier::rlimit(40)]
#[verifier::rlimit(40)]
#[verifier::spinoff_prover]
fn part_commands_of(layout: &PartitionLayout, disk: &str, texts: &Vec<String>, k: usize) -> (r: Vec<Vec<String>>)
    requires
        k < layout.partitions@.len(),
        texts@.len() == layout.partitions@.len(),
        flags_ok(layout.partitions@[k as int].flags),
    ensures
        commands_view(r@) == part_commands(disk@, layout.partitions@, string_views(texts@), k as int),
{
    let ghost parts = layout.partitions@;
    let n = layout.partitions.len();
    let p = &layout.partitions[k];
    let i = k + 1;
    let num = decimal_string(i as u64);
    let dev = crate::config::partition_name(disk, i);
    let efi = str_eq(p.filesystem.as_str(), "efi");
    let ghost tv = string_views(texts@);
    let start = if k == 0 { string_of("1MiB") } else { crate::text::string_without(texts[k - 1].as_str(), ' ') };
    let end = match p.size {
        Some(_) => crate::text::string_without(texts[k].as_str(), ' '),
        None => string_of("100%"),
    };
    let mut r: Vec<Vec<String>> = Vec::new();
    let mut mkpart: Vec<String> = Vec::new();
    crate::text::push_args(&mut mkpart, &["parted", "-s", disk, "mkpart", "primary", "fat32"]);
    assert(string_views(mkpart@) =~= seq!["parted"@, "-s"@, disk@, "mkpart"@, "primary"@, "fat32"@]);
    assert(start@ == if k == 0 { "1MiB"@ } else { parted_size(tv[k - 1]) });
    assert(end@ == match p.size { Some(_) => parted_size(tv[k as int]), None => "100%"@ });
    let ghost m0 = mkpart@;
    mkpart.push(start);
    mkpart.push(end);
    assert(mkpart@ =~= m0.push(start).push(end));
    let ghost mk = string_views(mkpart@);
    assert(mk =~= seq!["parted"@, "-s"@, disk@, "mkpart"@, "primary"@, "fat32"@,
        if k == 0 { "1MiB"@ } else { parted_size(tv[k - 1]) },
        match p.size { Some(_) => parted_size(tv[k as int]), None => "100%"@ }]);
    r.push(mkpart);
    assert(commands_view(r@) =~= seq![mk]);
    match &p.flags {
        Some(f) => push_flag_commands(&mut r, disk, i, f),
        None => {},
    }
    let ghost c1 = commands_view(r@);
    assert(c1 =~= seq![mk] + (match p.flags { Some(f) => flag_commands(disk@, i as nat, f@), None => Seq::empty() }));
    if efi {
        let mut set: Vec<String> = Vec::new();
        crate::text::push_args(&mut set, &["parted", "-s", disk, "set", num.as_str(), "esp", "on"]);
        let ghost sv = string_views(set@);
        assert(sv =~= seq!["parted"@, "-s"@, disk@, "set"@, decimal(i as nat), "esp"@, "on"@]);
        r.push(set);
        assert(commands_view(r@) =~= c1.push(sv));
    }
    let ghost c2 = commands_view(r@);
    assert(c2 =~= c1 + (if p.filesystem@ == "efi"@ { seq![seq!["parted"@, "-s"@, disk@, "set"@, decimal(i as nat), "esp"@, "on"@]] } else { Seq::empty() }));
    match &p.label {
        Some(l) => {
            let mut name: Vec<String> = Vec::new();
            crate::text::push_args(&mut name, &["parted", "-s", disk, "name", num.as_str(), l.as_str()]);
            let ghost nv = string_views(name@);
            assert(nv =~= seq!["parted"@, "-s"@, disk@, "name"@, decimal(i as nat), l@]);
            r.push(name);
            assert(commands_view(r@) =~= c2.push(nv));
        },
        None => {},
    }
    let ghost c3 = commands_view(r@);
    assert(c3 =~= c2 + (match p.label { Some(l) => seq![seq!["parted"@, "-s"@, disk@, "name"@, decimal(i as nat), l@]], None => Seq::empty() }));
    let mut probe: Vec<String> = Vec::new();
    probe.push(string_of("partprobe"));
    let ghost pv = string_views(probe@);
    assert(pv =~= seq!["partprobe"@]);
    r.push(probe);
    assert(commands_view(r@) =~= c3.push(pv));
    let ghost c4 = commands_view(r@);
    let mut mkfs: Vec<String> = Vec::new();
    let ghost dv = dev@;
    if efi {
        crate::text::push_args(&mut mkfs, &["mkfs.fat", "-F32"]);
        assert(string_views(mkfs@) =~= seq!["mkfs.fat"@, "-F32"@]);
        let ghost m0 = mkfs@;
        mkfs.push(dev);
        assert(mkfs@ =~= m0.push(dev));
        assert(string_views(mkfs@) =~= seq!["mkfs.fat"@, "-F32"@, dv]);
    } else {
        let mut prog = string_of("mkfs.");
        push_str(&mut prog, p.filesystem.as_str());
        mkfs.push(prog);
        mkfs.push(dev);
        assert(string_views(mkfs@) =~= seq!["mkfs."@ + p.filesystem@, dv]);
    }
    let ghost fv = string_views(mkfs@);
    assert(fv =~= if p.filesystem@ == "efi"@ { seq!["mkfs.fat"@, "-F32"@, partition_name_spec(disk@, i as nat)] } else { seq!["mkfs."@ + p.filesystem@, partition_name_spec(disk@, i as nat)] });
    r.push(mkfs);
    assert(commands_view(r@) =~= c4.push(fv));
    assert(commands_view(r@) =~= part_commands(disk@, parts, tv, k as int));
    r
}

/// A flag that is an arbitrary position names one of the 64 there are.
pub open spec fn flag_ok(f: PartitionFlag) -> bool {
    match f {
        PartitionFlag::FlagPosition(p) => p <= 63,
        _ => true,
    }
}

/// Every flag of the list is `flag_ok`.
pub open spec fn flags_ok(o: Option<Vec<PartitionFlag>>) -> bool {
    match o {
        Some(f) => forall|q: int| 0 <= q < f@.len() ==> flag_ok(#[trigger] f@[q]),
        None => true,
    }
}

/// Every arbitrary flag position of the partitions is one of the 64 there are.
pub open spec fn flags_valid(parts: Seq<Partition>) -> bool {
    forall|k: int| 0 <= k < parts.len() ==> flags_ok(#[trigger] parts[k].flags)
}

/// The fstab entry of a partition whose filesystem has UUID `uuid`, as the
/// fstab template receives it: UUID, mountpoint, filesystem type (`vfat` for
/// `efi`) and fsck pass (`0` for `efi`, `2` otherwise).
pub open spec fn fstab_entry(part: Partition, uuid: Seq<char>) -> (Seq<char>, Seq<char>, Seq<char>, u8) {
    (uuid, part.mountpoint@, fstab_fsname(part.filesystem@), if part.filesystem@ == "efi"@ { 0u8 } else { 2u8 })
}

/// The fstab entries of `parts` in mount order, whose filesystems have the
/// UUIDs `uuids` (in that order).
pub open spec fn fstab_entries_spec(parts: Seq<Partition>, uuids: Seq<Seq<char>>) -> Seq<(Seq<char>, Seq<char>, Seq<char>, u8)> {
    Seq::new(sorted_positions(parts).len(), |k: int| fstab_entry(parts[sorted_positions(parts)[k].1 as int], uuids[k]))
}

/// The views of a list of fstab entries.
pub open spec fn entry_views(v: Seq<(String, String, String, u8)>) -> Seq<(Seq<char>, Seq<char>, Seq<char>, u8)> {
    v.map_values(|e: (String, String, String, u8)| (e.0@, e.1@, e.2@, e.3))
}

/// The directory under `chroot` that the partition at position `e.1` of
/// `parts` is mounted on.
pub open spec fn chroot_dir(parts: Seq<Partition>, chroot: Seq<char>, e: (usize, usize)) -> Seq<char> {
    join_path(chroot, trim_start_char(parts[e.1 as int].mountpoint@, '/'))
}

/// The mounts of `parts` under `chroot`, in mount order: device on `disk`
/// and directory.
pub open spec fn chroot_mounts(parts: Seq<Partition>, disk: Seq<char>, chroot: Seq<char>) -> Seq<(Seq<char>, Seq<char>)> {
    sorted_positions(parts).map_values(|e: (usize, usize)| (partition_name_spec(disk, e.0 as nat), chroot_dir(parts, chroot, e)))
}

/// The directories of `parts` under `chroot` to unmount, in order.
pub open spec fn chroot_unmounts(parts: Seq<Partition>, chroot: Seq<char>) -> Seq<Seq<char>> {
    sorted_positions(parts).reverse().map_values(|e: (usize, usize)| chroot_dir(parts, chroot, e))
}

/// The directories are unmounted in exactly the reverse of the order they
/// are mounted in.
pub proof fn law_chroot_unmount_reverses_mount(parts: Seq<Partition>, disk: Seq<char>, chroot: Seq<char>)
    ensures
        chroot_unmounts(parts, chroot) == chroot_mounts(parts, disk, chroot).map_values(|m: (Seq<char>, Seq<char>)| m.1).reverse(),
{
    assert(chroot_unmounts(parts, chroot) =~= chroot_mounts(parts, disk, chroot).map_values(|m: (Seq<char>, Seq<char>)| m.1).reverse());
}

impl PartitionLayout {
    /// The byte counts where the partitions end, rendered in binary units:
    /// for each partition, the sum of its size and the sizes before it. The
    /// sizes must add up to a byte count that fits in 64 bits.
    pub fn size_texts(&self) -> (r: Vec<String>)
        requires
            size_sum(self.partitions@, self.partitions@.len() as int) <= u64::MAX,
        ensures
            size_texts_ok(self.partitions@, string_views(r@)),
    {
        let ghost parts = self.partitions@;
        let mut r: Vec<String> = Vec::new();
        let mut last_end: u64 = 0;
        let mut i: usize = 0;
        while i < self.partitions.len()
            invariant
                parts == self.partitions@,
                i <= parts.len(),
                size_sum(parts, parts.len() as int) <= u64::MAX,
                last_end == size_sum(parts, i as int),
                r@.len() == i,
                forall|k: int| 0 <= k < i ==> iec_text_ok(size_sum(parts, k + 1), #[trigger] string_views(r@)[k]),
            decreases parts.len() - i,
        {
            proof {
                lemma_size_sum_mono(parts, i + 1, parts.len() as int);
            }
            match self.partitions[i].size {
                Some(s) => {
                    last_end = last_end + s;
                },
                None => {},
            }
            let t = bytesize_iec(last_end);
            let ghost r0 = r@;
            r.push(t);
            assert forall|k: int| 0 <= k < i + 1 implies iec_text_ok(size_sum(parts, k + 1), #[trigger] string_views(r@)[k]) by {
                if k < i {
                    assert(r@[k] == r0[k]);
                    assert(iec_text_ok(size_sum(parts, k + 1), string_views(r0)[k]));
                }
            }
            i = i + 1;
        }
        r
    }

    /// The commands that lay the partitions out on `disk`, in order (see
    /// `part_commands`), given the rendered byte counts where each partition
    /// ends (`size_texts`). Arbitrary flag positions must be below 64.
    pub fn apply_with_sizes(&self, disk: &str, texts: &Vec<String>) -> (r: Vec<Vec<String>>)
        requires
            texts@.len() == self.partitions@.len(),
            flags_valid(self.partitions@),
        ensures
            commands_view(r@) == apply_commands(disk@, self.partitions@, string_views(texts@), self.partitions@.len() as int),
    {
        let ghost parts = self.partitions@;
        let ghost tv = string_views(texts@);
        let mut r: Vec<Vec<String>> = Vec::new();
        let mut label: Vec<String> = Vec::new();
        crate::text::push_args(&mut label, &["parted", "-s", disk, "mklabel", "gpt"]);
        let ghost lv = string_views(label@);
        assert(lv =~= seq!["parted"@, "-s"@, disk@, "mklabel"@, "gpt"@]);
        r.push(label);
        assert(commands_view(r@) =~= seq![lv]);
        assert(commands_view(r@) =~= apply_commands(disk@, parts, tv, 0));
        let mut k: usize = 0;
        while k < self.partitions.len()
            invariant
                parts == self.partitions@,
                tv == string_views(texts@),
                texts@.len() == parts.len(),
                k <= parts.len(),
                flags_valid(parts),
                commands_view(r@) == apply_commands(disk@, parts, tv, k as int),
            decreases parts.len() - k,
        {
            assert(flags_ok(parts[k as int].flags));
            let mut cmds = part_commands_of(self, disk, texts, k);
            let ghost r0 = r@;
            let ghost c0 = cmds@;
            r.append(&mut cmds);
            assert(commands_view(r@) =~= commands_view(r0) + commands_view(c0));
            k = k + 1;
        }
        r
    }

    /// The commands that lay the partitions out on `disk` (see
    /// `apply_with_sizes`), with the byte counts rendered by `size_texts`.
    /// The sizes must add up to a byte count that fits in 64 bits, and
    /// arbitrary flag positions must be below 64.
    pub fn apply(&self, disk: &str) -> (r: Vec<Vec<String>>)
        requires
            size_sum(self.partitions@, self.partitions@.len() as int) <= u64::MAX,
            flags_valid(self.partitions@),
        ensures
            exists|texts: Seq<Seq<char>>| #[trigger] size_texts_ok(self.partitions@, texts)
                && commands_view(r@) == apply_commands(disk@, self.partitions@, texts, self.partitions@.len() as int),
    {
        let texts = self.size_texts();
        let r = self.apply_with_sizes(disk, &texts);
        assert(size_texts_ok(self.partitions@, string_views(texts@)));
        r
    }

    /// The partitions in mount order: `/` first, then from the least nested
    /// mountpoint to the most nested, ties in alphabetical order. Each comes
    /// as its index (one more than the position of the first partition with
    /// its mountpoint) and the position of the partition listed for it (the
    /// last with that mountpoint).
    pub fn sort_partitions(&self) -> (r: Vec<(usize, usize)>)
        ensures
            r@ == sorted_positions(self.partitions@),
            is_mount_order(mountpoints(self.partitions@), r@),
    {
        let mps = mountpoint_strings(&self.partitions);
        mount_order(&mps)
    }

    /// The entries the fstab template is rendered with, given the filesystem
    /// UUID of each partition in the order of `sort_partitions`.
    pub fn fstab_entries(&self, uuids: &Vec<String>) -> (r: Vec<(String, String, String, u8)>)
        requires
            uuids@.len() == sorted_positions(self.partitions@).len(),
        ensures
            entry_views(r@) == fstab_entries_spec(self.partitions@, string_views(uuids@)),
    {
        let sorted = self.sort_partitions();
        let ghost u = string_views(uuids@);
        let ghost v = mountpoints(self.partitions@);
        let mut r: Vec<(String, String, String, u8)> = Vec::new();
        let mut k: usize = 0;
        while k < sorted.len()
            invariant
                sorted@ == sorted_positions(self.partitions@),
                is_mount_order(v, sorted@),
                v == mountpoints(self.partitions@),
                uuids@.len() == sorted@.len(),
                u == string_views(uuids@),
                k <= sorted@.len(),
                r@.len() == k,
                forall|j: int| 0 <= j < k ==> #[trigger] entry_views(r@)[j] == fstab_entry(self.partitions@[sorted@[j].1 as int], u[j]),
            decreases sorted@.len() - k,
        {
            assert(mount_entry_ok(v, sorted@[k as int]));
            let part = &self.partitions[sorted[k].1];
            let efi = str_eq(part.filesystem.as_str(), "efi");
            let fsname = if efi { string_of("vfat") } else { part.filesystem.clone() };
            let pass: u8 = if efi { 0 } else { 2 };
            let ghost r0 = r@;
            r.push((uuids[k].clone(), part.mountpoint.clone(), fsname, pass));
            assert forall|j: int| 0 <= j < k + 1 implies #[trigger] entry_views(r@)[j] == fstab_entry(self.partitions@[sorted@[j].1 as int], u[j]) by {
                if j < k {
                    assert(r@[j] == r0[j]);
                    assert(entry_views(r0)[j] == fstab_entry(self.partitions@[sorted@[j].1 as int], u[j]));
                }
            }
            k = k + 1;
        }
        assert(entry_views(r@) =~= fstab_entries_spec(self.partitions@, u));
        r
    }

    /// The mounts to make, in order: for each partition in mount order, its
    /// device on `disk` and the directory under `chroot` to mount it on.
    pub fn mount_to_chroot(&self, disk: &str, chroot: &str) -> (r: Vec<(String, String)>)
        ensures
            pair_views(r@) == chroot_mounts(self.partitions@, disk@, chroot@),
            r@.len() == sorted_positions(self.partitions@).len(),
            forall|k: int| 0 <= k < r@.len() ==> {
                let e = #[trigger] sorted_positions(self.partitions@)[k];
                &&& r@[k].0@ == partition_name_spec(disk@, e.0 as nat)
                &&& r@[k].1@ == join_path(chroot@, trim_start_char(self.partitions@[e.1 as int].mountpoint@, '/'))
            },
    {
        let order = self.sort_partitions();
        let ghost v = mountpoints(self.partitions@);
        let mut r: Vec<(String, String)> = Vec::new();
        let mut k: usize = 0;
        while k < order.len()
            invariant
                order@ == sorted_positions(self.partitions@),
                is_mount_order(v, order@),
                v == mountpoints(self.partitions@),
                k <= order@.len(),
                r@.len() == k,
                forall|j: int| 0 <= j < k ==> {
                    let e = #[trigger] order@[j];
                    &&& r@[j].0@ == partition_name_spec(disk@, e.0 as nat)
                    &&& r@[j].1@ == join_path(chroot@, trim_start_char(self.partitions@[e.1 as int].mountpoint@, '/'))
                },
            decreases order@.len() - k,
        {
            let e = order[k];
            assert(mount_entry_ok(v, order@[k as int]));
            let dev = crate::config::partition_name(disk, e.0);
            let rel = string_trim_start(self.partitions[e.1].mountpoint.as_str(), '/');
            let dir = path_join(chroot, rel.as_str());
            r.push((dev, dir));
            k = k + 1;
        }
        assert(pair_views(r@) =~= chroot_mounts(self.partitions@, disk@, chroot@));
        r
    }

    /// The directories under `chroot` to unmount, in order: the mountpoints in
    /// the reverse of mount order.
    pub fn unmount_from_chroot(&self, chroot: &str) -> (r: Vec<String>)
        ensures
            string_views(r@) == chroot_unmounts(self.partitions@, chroot@),
            r@.len() == sorted_positions(self.partitions@).len(),
            forall|k: int| 0 <= k < r@.len() ==> {
                let e = sorted_positions(self.partitions@)[sorted_positions(self.partitions@).len() - 1 - k];
                (#[trigger] r@[k])@ == join_path(chroot@, trim_start_char(self.partitions@[e.1 as int].mountpoint@, '/'))
            },
    {
        let order = self.sort_partitions();
        let ghost v = mountpoints(self.partitions@);
        let mut r: Vec<String> = Vec::new();
        let mut k: usize = order.len();
        while k > 0
            invariant
                order@ == sorted_positions(self.partitions@),
                is_mount_order(v, order@),
                v == mountpoints(self.partitions@),
                k <= order@.len(),
                r@.len() == order@.len() - k,
                forall|j: int| 0 <= j < r@.len() ==> {
                    let e = order@[order@.len() - 1 - j];
                    (#[trigger] r@[j])@ == join_path(chroot@, trim_start_char(self.partitions@[e.1 as int].mountpoint@, '/'))
                },
            decreases k,
        {
            k = k - 1;
            let e = order[k];
            assert(mount_entry_ok(v, order@[k as int]));
            let rel = string_trim_start(self.partitions[e.1].mountpoint.as_str(), '/');
            r.push(path_join(chroot, rel.as_str()));
        }
        assert(string_views(r@) =~= chroot_unmounts(self.partitions@, chroot@));
        r
    }
}

/// An ISO9660 partition for an ISO9660 image
#[derive(Debug, Clone, Copy, PartialEq, Eq)]
pub struct Iso9660Partition {
    pub partno: usize,
    /// UUID for partition type
    pub guid: PartitionType,
}

/// A partition table for an ISO9660 image
#[derive(Debug, Clone, Copy, PartialEq, Eq)]
pub struct Iso9660Table {}

/// The settings of an xorriso run
#[derive(Debug, PartialEq, Eq)]
pub struct Xorriso {
    /// Implant MD5 checksums? (default: true)
    pub md5: bool,
    /// Boot catalog
    pub boot_catalog: Option<String>,
}

} // verus!

verus! {

/// Utility function for determining partition /dev names: `p` goes between
/// the disk and the number for mmcblk, nvme and loop devices.
pub fn partition_name(disk: &str, partition: usize) -> (r: String)
    ensures
        r@ == partition_name_spec(disk@, partition as nat),
{
    crate::config::partition_name(disk, partition)
}

} // verus!

verus! {

/// The commands of partition `j` are among those that lay out the first `m` partitions, for `j < m`.
proof fn lemma_apply_includes(disk: Seq<char>, parts: Seq<Partition>, texts: Seq<Seq<char>>, j: int, m: int, c: Seq<Seq<char>>)
    requires
        0 <= j < m,
        part_commands(disk, parts, texts, j).contains(c),
    ensures
        apply_commands(disk, parts, texts, m).contains(c),
    decreases m,
{
    let prev = apply_commands(disk, parts, texts, m - 1);
    let pc = part_commands(disk, parts, texts, m - 1);
    assert(apply_commands(disk, parts, texts, m) == prev + pc);
    if j == m - 1 {
        let t = choose|t: int| 0 <= t < pc.len() && pc[t] == c;
        assert((prev + pc)[prev.len() + t] == c);
    } else {
        lemma_apply_includes(disk, parts, texts, j, m - 1, c);
        let t = choose|t: int| 0 <= t < prev.len() && prev[t] == c;
        assert((prev + pc)[t] == c);
    }
}

/// Laying out a disk labels it GPT first, and every partition `k` (number
/// `k + 1`) gets its name when it has a label, whatever its filesystem; an
/// `efi` partition gets the ESP flag and a FAT32 filesystem, any other the
/// filesystem it names.
pub proof fn law_every_partition_laid_out(disk: Seq<char>, parts: Seq<Partition>, texts: Seq<Seq<char>>, k: int)
    requires
        0 <= k < parts.len(),
    ensures
        apply_commands(disk, parts, texts, parts.len() as int)[0] == seq!["parted"@, "-s"@, disk, "mklabel"@, "gpt"@],
        parts[k].label matches Some(l) ==> apply_commands(disk, parts, texts, parts.len() as int).contains(
            seq!["parted"@, "-s"@, disk, "name"@, decimal((k + 1) as nat), l@]),
        parts[k].filesystem@ == "efi"@ ==> apply_commands(disk, parts, texts, parts.len() as int).contains(
            seq!["parted"@, "-s"@, disk, "set"@, decimal((k + 1) as nat), "esp"@, "on"@]),
        parts[k].filesystem@ == "efi"@ ==> apply_commands(disk, parts, texts, parts.len() as int).contains(
            seq!["mkfs.fat"@, "-F32"@, partition_name_spec(disk, (k + 1) as nat)]),
        parts[k].filesystem@ != "efi"@ ==> apply_commands(disk, parts, texts, parts.len() as int).contains(
            seq!["mkfs."@ + parts[k].filesystem@, partition_name_spec(disk, (k + 1) as nat)]),
{
    let n = parts.len() as int;
    lemma_apply_first(disk, parts, texts, n);
    let p = parts[k];
    let i = (k + 1) as nat;
    let dev = partition_name_spec(disk, i);
    let start = if k == 0 { "1MiB"@ } else { parted_size(texts[k - 1]) };
    let end = match p.size { Some(_) => parted_size(texts[k]), None => "100%"@ };
    let a = seq![seq!["parted"@, "-s"@, disk, "mkpart"@, "primary"@, "fat32"@, start, end]];
    let f = match p.flags { Some(fl) => flag_commands(disk, i, fl@), None => Seq::<Seq<Seq<char>>>::empty() };
    let efi = p.filesystem@ == "efi"@;
    let e = if efi { seq![seq!["parted"@, "-s"@, disk, "set"@, decimal(i), "esp"@, "on"@]] } else { Seq::<Seq<Seq<char>>>::empty() };
    let nm = match p.label { Some(l) => seq![seq!["parted"@, "-s"@, disk, "name"@, decimal(i), l@]], None => Seq::<Seq<Seq<char>>>::empty() };
    let pr = seq![seq!["partprobe"@]];
    let mk = if efi { seq![seq!["mkfs.fat"@, "-F32"@, dev]] } else { seq![seq!["mkfs."@ + p.filesystem@, dev]] };
    let pc = part_commands(disk, parts, texts, k);
    assert(pc == a + f + e + nm + pr + mk);
    if let Some(l) = p.label {
        let c = seq!["parted"@, "-s"@, disk, "name"@, decimal(i), l@];
        assert(pc[(a + f + e).len() as int] == c);
        lemma_apply_includes(disk, parts, texts, k, n, c);
    }
    if efi {
        let c = seq!["parted"@, "-s"@, disk, "set"@, decimal(i), "esp"@, "on"@];
        assert(pc[(a + f).len() as int] == c);
        lemma_apply_includes(disk, parts, texts, k, n, c);
    }
    let c2 = if efi { seq!["mkfs.fat"@, "-F32"@, dev] } else { seq!["mkfs."@ + p.filesystem@, dev] };
    assert(pc[(a + f + e + nm + pr).len() as int] == c2);
    lemma_apply_includes(disk, parts, texts, k, n, c2);
}

/// The first command of a layout is the GPT label.
proof fn lemma_apply_first(disk: Seq<char>, parts: Seq<Partition>, texts: Seq<Seq<char>>, m: int)
    requires
        0 <= m,
    ensures
        apply_commands(disk, parts, texts, m).len() > 0,
        apply_commands(disk, parts, texts, m)[0] == seq!["parted"@, "-s"@, disk, "mklabel"@, "gpt"@],
    decreases m,
{
    if m > 0 {
        lemma_apply_first(disk, parts, texts, m - 1);
        let prev = apply_commands(disk, parts, texts, m - 1);
        assert(apply_commands(disk, parts, texts, m) == prev + part_commands(disk, parts, texts, m - 1));
    }
}

} // verus!
