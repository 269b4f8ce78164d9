//! Build manifests, partition layouts, scripts and users.
use vstd::prelude::*;
use crate::bindings::{bytesize_iec, iec_text_ok};
use crate::text::{commands_view, join_path, path_join, remove_char, string_without, clone_opt_string, clone_strings, decimal, push_decimal, push_str, starts_with, str_eq, str_starts_with, string_of, string_trim_start, string_views, trim_start_char};
use crate::cfg::auth::{decimal_string, flag_arg, opt_decimal};
use crate::mounts::{is_mount_order, is_parent_dir, law_parents_mount_first, lemma_mount_order_exists, mount_entry_ok, mount_order, mount_order_of};

verus! {

/// Disks whose partitions are named with a `p` between the disk name and the number.
pub open spec fn uses_p_separator(disk: Seq<char>) -> bool {
    ||| starts_with(disk, "/dev/mmcblk"@)
    ||| starts_with(disk, "/dev/nvme"@)
    ||| starts_with(disk, "/dev/loop"@)
}

/// The device path of partition number `partition` on `disk`.
pub open spec fn partition_name_spec(disk: Seq<char>, partition: nat) -> Seq<char> {
    disk + (if uses_p_separator(disk) { "p"@ } else { Seq::<char>::empty() }) + decimal(partition)
}

/// Utility function for determining partition /dev names.
/// For cases where it's a mmcblk, or nvme, or loop device etc.
pub fn partition_name(disk: &str, partition: usize) -> (r: String)
    ensures
        r@ == partition_name_spec(disk@, partition as nat),
{
    let sep = str_starts_with(disk, "/dev/mmcblk") || str_starts_with(disk, "/dev/nvme")
        || str_starts_with(disk, "/dev/loop");
    let mut r = string_of(disk);
    if sep {
        push_str(&mut r, "p");
    }
    push_decimal(&mut r, partition as u64);
    proof {
        if sep {
            assert(r@ =~= partition_name_spec(disk@, partition as nat));
        } else {
            assert(r@ =~= partition_name_spec(disk@, partition as nat));
        }
    }
    r
}

} // verus!

verus! {

/// A partition of a disk layout.
#[derive(Debug, PartialEq, Eq)]
pub struct Partition {
    pub label: Option<String>,
    /// Size in bytes. If not specified, the partition will be created at the end of the disk (100%).
    pub size: Option<u64>,
    /// Filesystem of the partition
    pub filesystem: String,
    /// The mountpoint of the partition
    pub mountpoint: String,
}

impl Clone for Partition {
    fn clone(&self) -> (r: Self)
        ensures
            r == *self,
    {
        Partition {
            label: clone_opt_string(&self.label),
            size: self.size,
            filesystem: self.filesystem.clone(),
            mountpoint: self.mountpoint.clone(),
        }
    }
}

} // verus!

verus! {

/// The mountpoints of a list of partitions.
pub open spec fn mountpoints(parts: Seq<Partition>) -> Seq<Seq<char>> {
    parts.map_values(|p: Partition| p.mountpoint@)
}

/// The partitions in mount order, each with its index: one more than the
/// position of the first partition with that mountpoint. Where several
/// partitions share a mountpoint, the last of them is the one listed.
pub open spec fn sorted_partitions(parts: Seq<Partition>) -> Seq<(usize, Partition)> {
    mount_order_of(mountpoints(parts)).map_values(|e: (usize, usize)| (e.0, parts[e.1 as int]))
}

/// The 1-based position of the first partition mounted at `mp`.
pub open spec fn index_of_mountpoint(parts: Seq<Partition>, mp: Seq<char>, r: Option<usize>) -> bool {
    match r {
        Some(i) => {
            &&& 1 <= i <= parts.len()
            &&& parts[i - 1].mountpoint@ == mp
            &&& forall|q: int| 0 <= q < i - 1 ==> parts[q].mountpoint@ != mp
        },
        None => forall|q: int| 0 <= q < parts.len() ==> parts[q].mountpoint@ != mp,
    }
}

/// Partitions are mounted after every partition whose mountpoint encloses theirs.
pub proof fn law_layout_parents_mount_first(parts: Seq<Partition>, k: int, l: int)
    requires
        parts.len() <= usize::MAX,
        0 <= k < sorted_partitions(parts).len(),
        0 <= l < sorted_partitions(parts).len(),
        is_parent_dir(sorted_partitions(parts)[k].1.mountpoint@, sorted_partitions(parts)[l].1.mountpoint@),
    ensures
        k < l,
{
    let mps = mountpoints(parts);
    lemma_mount_order_exists(mps);
    let o = mount_order_of(mps);
    assert(mount_entry_ok(mps, o[k]));
    assert(mount_entry_ok(mps, o[l]));
    assert(mps[o[k].1 as int] == sorted_partitions(parts)[k].1.mountpoint@);
    assert(mps[o[l].1 as int] == sorted_partitions(parts)[l].1.mountpoint@);
    law_parents_mount_first(mps, o, k, l);
}

/// A lookup of a mountpoint has one answer.
pub proof fn law_lookup_unique(parts: Seq<Partition>, mp: Seq<char>, r1: Option<usize>, r2: Option<usize>)
    requires
        index_of_mountpoint(parts, mp, r1),
        index_of_mountpoint(parts, mp, r2),
    ensures
        r1 == r2,
{
    match (r1, r2) {
        (Some(i), Some(j)) => {
            if i < j {
                assert(parts[i - 1].mountpoint@ == mp);
            } else if j < i {
                assert(parts[j - 1].mountpoint@ == mp);
            }
        },
        (Some(i), None) => {
            assert(parts[i - 1].mountpoint@ == mp);
        },
        (None, Some(j)) => {
            assert(parts[j - 1].mountpoint@ == mp);
        },
        (None, None) => {},
    }
}

/// Adding a partition leaves the lookup of a mountpoint that is already
/// there unchanged, and a mountpoint that was not there is then found at the
/// added partition.
pub proof fn law_lookup_after_add(parts: Seq<Partition>, p: Partition, mp: Seq<char>, r: Option<usize>)
    requires
        index_of_mountpoint(parts, mp, r),
        parts.len() < usize::MAX,
    ensures
        index_of_mountpoint(
            parts.push(p),
            mp,
            match r {
                Some(i) => Some(i),
                None => if p.mountpoint@ == mp { Some((parts.len() + 1) as usize) } else { None },
            },
        ),
{
    let q = parts.push(p);
    match r {
        Some(i) => {
            assert(q[i - 1] == parts[i - 1]);
            assert forall|k: int| 0 <= k < i - 1 implies q[k].mountpoint@ != mp by {
                assert(q[k] == parts[k]);
            }
        },
        None => {
            assert forall|k: int| 0 <= k < parts.len() implies q[k].mountpoint@ != mp by {
                assert(q[k] == parts[k]);
            }
        },
    }
}

/// A disk layout: an optional total size in bytes and its partitions.
#[derive(Debug, PartialEq, Eq)]
pub struct PartitionLayout {
    pub size: Option<u64>,
    pub partitions: Vec<Partition>,
}

/// The mountpoints of the partitions, as strings.
fn mountpoint_strings(parts: &Vec<Partition>) -> (r: Vec<String>)
    ensures
        string_views(r@) == mountpoints(parts@),
{
    let mut r: Vec<String> = Vec::new();
    let mut i: usize = 0;
    while i < parts.len()
        invariant
            i <= parts@.len(),
            r@.len() == i,
            string_views(r@) == mountpoints(parts@.subrange(0, i as int)),
        decreases parts@.len() - i,
    {
        let ghost old_r = r@;
        r.push(parts[i].mountpoint.clone());
        proof {
            assert forall|j: int| 0 <= j < i + 1 implies #[trigger] string_views(r@)[j] == mountpoints(parts@.subrange(0, i + 1))[j] by {
                if j < i {
                    assert(r@[j] == old_r[j]);
                    assert(string_views(old_r)[j] == mountpoints(parts@.subrange(0, i as int))[j]);
                }
            }
        }
        i = i + 1;
        assert(string_views(r@) =~= mountpoints(parts@.subrange(0, i as int)));
    }
    assert(parts@.subrange(0, parts@.len() as int) =~= parts@);
    r
}

impl PartitionLayout {
    /// An empty layout.
    pub fn new() -> (r: Self)
        ensures
            r.size.is_none(),
            r.partitions@.len() == 0,
    {
        PartitionLayout { size: None, partitions: Vec::new() }
    }

    /// Adds a partition to the layout
    pub fn add_partition(&mut self, partition: Partition)
        ensures
            final(self).size == old(self).size,
            final(self).partitions@ == old(self).partitions@.push(partition),
    {
        self.partitions.push(partition);
    }

    /// The index of the partition mounted at `mountpoint`: one more than its
    /// position (`sda1` is the first partition).
    pub fn get_index(&self, mountpoint: &str) -> (r: Option<usize>)
        ensures
            index_of_mountpoint(self.partitions@, mountpoint@, r),
    {
        let mut i: usize = 0;
        while i < self.partitions.len()
            invariant
                i <= self.partitions@.len(),
                forall|q: int| 0 <= q < i ==> self.partitions@[q].mountpoint@ != mountpoint@,
            decreases self.partitions@.len() - i,
        {
            if str_eq(self.partitions[i].mountpoint.as_str(), mountpoint) {
                return Some(i + 1);
            }
            i = i + 1;
        }
        None
    }

    /// The first partition mounted at `mountpoint`.
    pub fn get_partition(&self, mountpoint: &str) -> (r: Option<&Partition>)
        ensures
            match r {
                Some(p) => exists|i: usize| #[trigger] index_of_mountpoint(self.partitions@, mountpoint@, Some(i)) && *p == self.partitions@[i - 1],
                None => index_of_mountpoint(self.partitions@, mountpoint@, None),
            },
    {
        match self.get_index(mountpoint) {
            Some(i) => Some(&self.partitions[i - 1]),
            None => None,
        }
    }

    /// The partitions in mount order: `/` first, then from the least nested
    /// mountpoint to the most nested, ties in alphabetical order; each with its index.
    pub fn sort_partitions(&self) -> (r: Vec<(usize, Partition)>)
        ensures
            r@ == sorted_partitions(self.partitions@),
    {
        let mps = mountpoint_strings(&self.partitions);
        let order = mount_order(&mps);
        let ghost v = mountpoints(self.partitions@);
        let mut r: Vec<(usize, Partition)> = Vec::new();
        let mut k: usize = 0;
        while k < order.len()
            invariant
                order@ == mount_order_of(v),
                is_mount_order(v, order@),
                v == mountpoints(self.partitions@),
                k <= order@.len(),
                r@.len() == k,
                forall|j: int| 0 <= j < k ==> #[trigger] r@[j] == (order@[j].0, self.partitions@[order@[j].1 as int]),
            decreases order@.len() - k,
        {
            let e = order[k];
            assert(mount_entry_ok(v, order@[k as int]));
            let part = self.partitions[e.1].clone();
            r.push((e.0, part));
            k = k + 1;
        }
        assert(r@ =~= sorted_partitions(self.partitions@));
        r
    }
}

} // verus!

verus! {

/// The views of a list of string pairs.
pub open spec fn pair_views(v: Seq<(String, String)>) -> Seq<(Seq<char>, Seq<char>)> {
    v.map_values(|x: (String, String)| (x.0@, x.1@))
}

/// Mounting one partition: its device path on `disk`, and the directory
/// under `chroot` it goes on (its mountpoint without leading `/`, joined to
/// the chroot).
pub open spec fn mount_step(disk: Seq<char>, chroot: Seq<char>, e: (usize, Partition)) -> (Seq<char>, Seq<char>) {
    (partition_name_spec(disk, e.0 as nat), join_path(chroot, trim_start_char(e.1.mountpoint@, '/')))
}

/// The partitions of `parts` to mount from `disk` under `chroot`, in order.
pub open spec fn mount_steps(parts: Seq<Partition>, disk: Seq<char>, chroot: Seq<char>) -> Seq<(Seq<char>, Seq<char>)> {
    sorted_partitions(parts).map_values(|e: (usize, Partition)| mount_step(disk, chroot, e))
}

/// The partitions of `parts` to unmount, in order.
pub open spec fn unmount_steps(parts: Seq<Partition>, disk: Seq<char>, chroot: Seq<char>) -> Seq<(Seq<char>, Seq<char>)> {
    sorted_partitions(parts).reverse().map_values(|e: (usize, Partition)| mount_step(disk, chroot, e))
}

/// Partitions are unmounted in exactly the reverse of the order they are
/// mounted in, so a nested mountpoint is unmounted before its parent.
pub proof fn law_unmount_reverses_mount(parts: Seq<Partition>, disk: Seq<char>, chroot: Seq<char>)
    ensures
        unmount_steps(parts, disk, chroot) == mount_steps(parts, disk, chroot).reverse(),
{
    assert(unmount_steps(parts, disk, chroot) =~= mount_steps(parts, disk, chroot).reverse());
}

/// One mount step for the sorted entry `e`.
fn mount_step_of(disk: &str, chroot: &str, e: &(usize, Partition)) -> (r: (String, String))
    ensures
        (r.0@, r.1@) == mount_step(disk@, chroot@, *e),
{
    let rel = string_trim_start(e.1.mountpoint.as_str(), '/');
    (partition_name(disk, e.0), path_join(chroot, rel.as_str()))
}

impl PartitionLayout {
    /// The mounts to make, in order: for each partition its device on `disk`
    /// and the directory under `chroot` to mount it on. Parents are mounted
    /// before the partitions nested in them.
    pub fn mount_to_chroot(&self, disk: &str, chroot: &str) -> (r: Vec<(String, String)>)
        ensures
            pair_views(r@) == mount_steps(self.partitions@, disk@, chroot@),
    {
        let sorted = self.sort_partitions();
        let mut r: Vec<(String, String)> = Vec::new();
        let mut k: usize = 0;
        while k < sorted.len()
            invariant
                sorted@ == sorted_partitions(self.partitions@),
                k <= sorted@.len(),
                r@.len() == k,
                forall|j: int| 0 <= j < k ==> ((#[trigger] r@[j]).0@, r@[j].1@) == mount_step(disk@, chroot@, sorted@[j]),
            decreases sorted@.len() - k,
        {
            r.push(mount_step_of(disk, chroot, &sorted[k]));
            k = k + 1;
        }
        assert(pair_views(r@) =~= mount_steps(self.partitions@, disk@, chroot@));
        r
    }

    /// The unmounts to make, in order: the mounts of `mount_to_chroot`, last
    /// first; each gives the device to unmount and its directory.
    pub fn unmount_from_chroot(&self, disk: &str, chroot: &str) -> (r: Vec<(String, String)>)
        ensures
            pair_views(r@) == unmount_steps(self.partitions@, disk@, chroot@),
    {
        let sorted = self.sort_partitions();
        let mut r: Vec<(String, String)> = Vec::new();
        let mut k: usize = sorted.len();
        while k > 0
            invariant
                sorted@ == sorted_partitions(self.partitions@),
                k <= sorted@.len(),
                r@.len() == sorted@.len() - k,
                forall|j: int| 0 <= j < r@.len() ==> ((#[trigger] r@[j]).0@, r@[j].1@) == mount_step(disk@, chroot@, sorted@[sorted@.len() - 1 - j]),
            decreases k,
        {
            k = k - 1;
            r.push(mount_step_of(disk, chroot, &sorted[k]));
        }
        assert(pair_views(r@) =~= unmount_steps(self.partitions@, disk@, chroot@));
        r
    }
}

} // verus!

verus! {

/// The comment and column legend at the top of a generated fstab: the
/// generated-file notice, then one legend line, each line ending in a newline.
pub open spec fn fstab_header() -> Seq<char> {
    "# /etc/fstab: static file system information.\n# Automatically generated by Katsu Image Builder. See \n# katsu::config::PartitionLayout::fstab for more information.\n"@
        + "# <file system>\t<mount point>\t<type>\t<options>\t<dump>\t<pass>\n"@
}

/// The filesystem type written to fstab: `efi` partitions are `vfat`.
pub open spec fn fstab_fsname(fs: Seq<char>) -> Seq<char> {
    if fs == "efi"@ { "vfat"@ } else { fs }
}

/// The fsck pass written to fstab: `0` for `efi` partitions, `2` otherwise.
pub open spec fn fstab_pass(fs: Seq<char>) -> Seq<char> {
    if fs == "efi"@ { "0"@ } else { "2"@ }
}

/// The fstab line of a partition whose filesystem has UUID `uuid`.
pub open spec fn fstab_line(part: Partition, uuid: Seq<char>) -> Seq<char> {
    "UUID="@ + uuid + "\t"@ + part.mountpoint@ + "\t"@ + fstab_fsname(part.filesystem@) + "\tdefaults\t0\t"@
        + fstab_pass(part.filesystem@) + "\n"@
}

/// The fstab lines of the first `n` sorted partitions.
pub open spec fn fstab_lines(sorted: Seq<(usize, Partition)>, uuids: Seq<Seq<char>>, n: int) -> Seq<char>
    decreases n,
{
    if n <= 0 {
        Seq::<char>::empty()
    } else {
        fstab_lines(sorted, uuids, n - 1) + fstab_line(sorted[n - 1].1, uuids[n - 1])
    }
}

/// The fstab of `parts` whose filesystems (in mount order) have the UUIDs `uuids`.
pub open spec fn fstab_spec(parts: Seq<Partition>, uuids: Seq<Seq<char>>) -> Seq<char> {
    fstab_header() + fstab_lines(sorted_partitions(parts), uuids, sorted_partitions(parts).len() as int)
}

impl PartitionLayout {
    /// The fstab of the layout, given the filesystem UUID of each partition in
    /// the order of `sort_partitions`.
    #[verifier::rlimit(40)]
    #[verifier::spinoff_prover]
    pub fn fstab_text(&self, uuids: &Vec<String>) -> (r: String)
        requires
            uuids@.len() == sorted_partitions(self.partitions@).len(),
        ensures
            r@ == fstab_spec(self.partitions@, string_views(uuids@)),
    {
        let sorted = self.sort_partitions();
        let ghost u = string_views(uuids@);
        let mut r = String::new();
        push_str(&mut r, "# /etc/fstab: static file system information.\n# Automatically generated by Katsu Image Builder. See \n# katsu::config::PartitionLayout::fstab for more information.\n");
        push_str(&mut r, "# <file system>\t<mount point>\t<type>\t<options>\t<dump>\t<pass>\n");
        let mut k: usize = 0;
        while k < sorted.len()
            invariant
                sorted@ == sorted_partitions(self.partitions@),
                uuids@.len() == sorted@.len(),
                u == string_views(uuids@),
                k <= sorted@.len(),
                r@ == fstab_header() + fstab_lines(sorted@, u, k as int),
            decreases sorted@.len() - k,
        {
            let part = &sorted[k].1;
            let efi = str_eq(part.filesystem.as_str(), "efi");
            push_str(&mut r, "UUID=");
            push_str(&mut r, uuids[k].as_str());
            push_str(&mut r, "\t");
            push_str(&mut r, part.mountpoint.as_str());
            push_str(&mut r, "\t");
            if efi {
                push_str(&mut r, "vfat");
            } else {
                push_str(&mut r, part.filesystem.as_str());
            }
            push_str(&mut r, "\tdefaults\t0\t");
            if efi {
                push_str(&mut r, "0");
            } else {
                push_str(&mut r, "2");
            }
            push_str(&mut r, "\n");
            assert(r@ =~= fstab_header() + fstab_lines(sorted@, u, k + 1));
            k = k + 1;
        }
        r
    }
}

} // verus!

verus! {

/// What a script holds, as plain values.
pub struct ScriptView {
    pub id: Option<Seq<char>>,
    pub name: Option<Seq<char>>,
    pub file: Option<Seq<char>>,
    pub inline: Option<Seq<char>>,
    pub needs: Seq<Seq<char>>,
    pub chroot: Option<bool>,
    pub priority: i32,
}

/// The view of an optional string.
pub open spec fn opt_view(o: Option<String>) -> Option<Seq<char>> {
    match o {
        Some(s) => Some(s@),
        None => None,
    }
}

/// The priority a script gets when none is given: the higher, the later it runs.
pub open spec fn default_priority() -> i32 {
    50
}

/// A script to run before or after the build, loaded from a file or given inline.
#[derive(Debug)]
pub struct Script {
    pub id: Option<String>,
    pub name: Option<String>,
    pub file: Option<String>,
    pub inline: Option<String>,
    pub needs: Vec<String>,
    /// Whether to run inside the chroot; unset means: inside for post-build scripts only.
    pub chroot: Option<bool>,
    /// The higher, the later the script runs.
    pub priority: i32,
}

impl View for Script {
    type V = ScriptView;

    open spec fn view(&self) -> ScriptView {
        ScriptView {
            id: opt_view(self.id),
            name: opt_view(self.name),
            file: opt_view(self.file),
            inline: opt_view(self.inline),
            needs: string_views(self.needs@),
            chroot: self.chroot,
            priority: self.priority,
        }
    }
}

/// The view of the default script: nothing set, default priority.
pub open spec fn default_script_view() -> ScriptView {
    ScriptView {
        id: None,
        name: None,
        file: None,
        inline: None,
        needs: Seq::empty(),
        chroot: None,
        priority: default_priority(),
    }
}

impl Default for Script {
    fn default() -> (r: Self)
        ensures
            r@ == default_script_view(),
    {
        let r = Script {
            id: None,
            name: None,
            file: None,
            inline: None,
            needs: Vec::new(),
            chroot: None,
            priority: 50,
        };
        assert(r@.needs =~= Seq::<Seq<char>>::empty());
        r
    }
}

impl Clone for Script {
    fn clone(&self) -> (r: Self)
        ensures
            r@ == self@,
    {
        Script {
            id: clone_opt_string(&self.id),
            name: clone_opt_string(&self.name),
            file: clone_opt_string(&self.file),
            inline: clone_opt_string(&self.inline),
            needs: clone_strings(&self.needs),
            chroot: self.chroot,
            priority: self.priority,
        }
    }
}

/// The scripts to run before and after the build.
#[derive(Debug)]
pub struct ScriptsManifest {
    pub pre: Vec<Script>,
    pub post: Vec<Script>,
}

} // verus!

verus! {

/// Where the text of a script is read from.
#[derive(Debug, PartialEq, Eq)]
pub enum ScriptSource {
    /// The text given inline.
    Inline(String),
    /// The file at this path.
    File(String),
    /// Neither is given: the script cannot be loaded.
    Nowhere,
}

impl Script {
    /// Where the script's text comes from: the inline text if there is one,
    /// otherwise the file, if there is one.
    pub fn source(&self) -> (r: ScriptSource)
        ensures
            match r {
                ScriptSource::Inline(t) => self.inline == Some(t),
                ScriptSource::File(f) => self.inline.is_none() && self.file == Some(f),
                ScriptSource::Nowhere => self.inline.is_none() && self.file.is_none(),
            },
    {
        match &self.inline {
            Some(t) => ScriptSource::Inline(t.clone()),
            None => match &self.file {
                Some(f) => ScriptSource::File(f.clone()),
                None => ScriptSource::Nowhere,
            },
        }
    }
}

/// `s`, with `#!/bin/sh` as its first line unless it already starts with a shebang.
pub open spec fn with_shebang(s: Seq<char>) -> Seq<char> {
    if starts_with(s, "#!"@) { s } else { "#!/bin/sh\n"@ + s }
}

/// Adds a `#!/bin/sh` line in front of a script text that has no shebang.
pub fn add_shebang(s: String) -> (r: String)
    ensures
        r@ == with_shebang(s@),
{
    if str_starts_with(s.as_str(), "#!") {
        s
    } else {
        let mut r = string_of("#!/bin/sh\n");
        push_str(&mut r, s.as_str());
        r
    }
}

} // verus!

verus! {

/// The default of settings that are on unless turned off.
pub fn _default_true() -> (r: bool)
    ensures
        r,
{
    true
}

/// Image default users configuration
pub struct Auth {
    /// Username for the user
    pub username: String,
    /// Passwords are optional, but heavily recommended.
    /// Passwords must be hashed with crypt(3) or mkpasswd(1)
    pub password: Option<String>,
    /// Groups to add the user to
    pub groups: Vec<String>,
    /// Whether to create a home directory for the user (defaults to true)
    pub create_home: bool,
    /// Shell for the user
    pub shell: Option<String>,
    /// UID for the user
    pub uid: Option<u32>,
    /// GID for the user
    pub gid: Option<u32>,
    /// SSH keys for the user, written to `~/.ssh/authorized_keys`
    pub ssh_keys: Vec<String>,
}

/// `-G` and the group, for each group in turn.
pub open spec fn group_args(groups: Seq<Seq<char>>) -> Seq<Seq<char>>
    decreases groups.len(),
{
    if groups.len() == 0 {
        Seq::empty()
    } else {
        group_args(groups.drop_last()) + seq!["-G"@, groups.last()]
    }
}

/// The `useradd` arguments that add a user to the chroot: uid, gid, shell and
/// password when set; `-m` or `-M` for the home directory; `-G` for each
/// group; the user name last.
pub open spec fn useradd_spec(a: Auth) -> Seq<Seq<char>> {
    flag_arg("-u"@, opt_decimal(a.uid))
        + flag_arg("-g"@, opt_decimal(a.gid))
        + flag_arg("-s"@, opt_view(a.shell))
        + flag_arg("-p"@, opt_view(a.password))
        + (if a.create_home { seq!["-m"@] } else { seq!["-M"@] })
        + group_args(string_views(a.groups@))
        + seq![a.username@]
}

/// The lines of an `authorized_keys` file: each key followed by a newline.
pub open spec fn key_lines(keys: Seq<Seq<char>>) -> Seq<char>
    decreases keys.len(),
{
    if keys.len() == 0 {
        Seq::empty()
    } else {
        key_lines(keys.drop_last()) + keys.last() + "\n"@
    }
}

impl Auth {
    /// The arguments of the `useradd` command that adds the user to the chroot.
    pub fn add_to_chroot(&self) -> (r: Vec<String>)
        ensures
            string_views(r@) == useradd_spec(*self),
    {
        let mut r: Vec<String> = Vec::new();
        match self.uid {
            Some(u) => {
                r.push(string_of("-u"));
                r.push(decimal_string(u as u64));
            },
            None => {},
        }
        match self.gid {
            Some(g) => {
                r.push(string_of("-g"));
                r.push(decimal_string(g as u64));
            },
            None => {},
        }
        match &self.shell {
            Some(s) => {
                r.push(string_of("-s"));
                r.push(s.clone());
            },
            None => {},
        }
        match &self.password {
            Some(p) => {
                r.push(string_of("-p"));
                r.push(p.clone());
            },
            None => {},
        }
        if self.create_home {
            r.push(string_of("-m"));
        } else {
            r.push(string_of("-M"));
        }
        let ghost head = string_views(r@);
        assert(head =~= flag_arg("-u"@, opt_decimal(self.uid))
            + flag_arg("-g"@, opt_decimal(self.gid))
            + flag_arg("-s"@, opt_view(self.shell))
            + flag_arg("-p"@, opt_view(self.password))
            + (if self.create_home { seq!["-m"@] } else { seq!["-M"@] }));
        let mut i: usize = 0;
        while i < self.groups.len()
            invariant
                i <= self.groups@.len(),
                string_views(r@) == head + group_args(string_views(self.groups@).subrange(0, i as int)),
            decreases self.groups@.len() - i,
        {
            let ghost r0 = string_views(r@);
            r.push(string_of("-G"));
            r.push(self.groups[i].clone());
            assert(string_views(r@) =~= r0 + seq!["-G"@, self.groups@[i as int]@]);
            i = i + 1;
            assert(string_views(self.groups@).subrange(0, i as int).drop_last() =~= string_views(self.groups@).subrange(0, i - 1));
            assert(string_views(r@) =~= head + group_args(string_views(self.groups@).subrange(0, i as int)));
        }
        assert(string_views(self.groups@).subrange(0, i as int) =~= string_views(self.groups@));
        let ghost r1 = string_views(r@);
        r.push(self.username.clone());
        assert(string_views(r@) =~= r1 + seq![self.username@]);
        assert(string_views(r@) =~= useradd_spec(*self));
        r
    }

    /// The text of the user's `authorized_keys` file, when the user has SSH keys.
    pub fn authorized_keys(&self) -> (r: Option<String>)
        ensures
            self.ssh_keys@.len() == 0 ==> r is None,
            self.ssh_keys@.len() > 0 ==> (r matches Some(t) && t@ == key_lines(string_views(self.ssh_keys@))),
    {
        if self.ssh_keys.len() == 0 {
            return None;
        }
        let mut t = String::new();
        let mut i: usize = 0;
        while i < self.ssh_keys.len()
            invariant
                i <= self.ssh_keys@.len(),
                t@ == key_lines(string_views(self.ssh_keys@).subrange(0, i as int)),
            decreases self.ssh_keys@.len() - i,
        {
            push_str(&mut t, self.ssh_keys[i].as_str());
            push_str(&mut t, "\n");
            i = i + 1;
            assert(string_views(self.ssh_keys@).subrange(0, i as int).drop_last() =~= string_views(self.ssh_keys@).subrange(0, i - 1));
        }
        assert(string_views(self.ssh_keys@).subrange(0, i as int) =~= string_views(self.ssh_keys@));
        Some(t)
    }

    /// Where the user's `authorized_keys` file goes, relative to the chroot.
    pub fn authorized_keys_path(&self) -> (r: String)
        ensures
            r@ == "home/"@ + self.username@ + "/.ssh/authorized_keys"@,
    {
        let mut r = string_of("home/");
        push_str(&mut r, self.username.as_str());
        push_str(&mut r, "/.ssh/authorized_keys");
        r
    }
}

} // verus!

verus! {

/// The sizes of the first `k` partitions, those without a size counting nothing.
pub open spec fn size_sum(parts: Seq<Partition>, k: int) -> nat
    decreases k,
{
    if k <= 0 {
        0
    } else {
        size_sum(parts, k - 1) + match parts[k - 1].size {
            Some(s) => s as nat,
            None => 0nat,
        }
    }
}

/// Sums of sizes only grow with the number of partitions counted.
pub proof fn lemma_size_sum_mono(parts: Seq<Partition>, j: int, k: int)
    requires
        j <= k,
    ensures
        size_sum(parts, j) <= size_sum(parts, k),
    decreases k - j,
{
    if j < k {
        lemma_size_sum_mono(parts, j, k - 1);
    }
}

/// The position of the first partition mounted at `mp`, or -1.
pub open spec fn first_at(parts: Seq<Partition>, mp: Seq<char>) -> int
    decreases parts.len(),
{
    if parts.len() == 0 {
        -1
    } else if parts[0].mountpoint@ == mp {
        0
    } else {
        let r = first_at(parts.drop_first(), mp);
        if r < 0 { -1 } else { r + 1 }
    }
}

/// `first_at` is the position that `get_index` gives, less one.
pub proof fn lemma_first_at(parts: Seq<Partition>, mp: Seq<char>, r: Option<usize>)
    requires
        index_of_mountpoint(parts, mp, r),
    ensures
        match r {
            Some(i) => first_at(parts, mp) == i - 1,
            None => first_at(parts, mp) == -1,
        },
    decreases parts.len(),
{
    if parts.len() > 0 && parts[0].mountpoint@ != mp {
        let t = parts.drop_first();
        let rt = match r {
            Some(i) => Some((i - 1) as usize),
            None => None,
        };
        assert forall|q: int| 0 <= q < t.len() implies t[q] == parts[q + 1] by {}
        lemma_first_at(t, mp, rt);
    }
}

/// A rendered byte count as the partitioning tool takes it: without spaces.
pub open spec fn parted_size(t: Seq<char>) -> Seq<char> {
    remove_char(t, ' ')
}

/// Whether `texts` holds, for each partition `k`, a rendering of the byte
/// count where the sizes up to and including it end.
pub open spec fn size_texts_ok(parts: Seq<Partition>, texts: Seq<Seq<char>>) -> bool {
    &&& texts.len() == parts.len()
    &&& forall|k: int| 0 <= k < parts.len() ==> iec_text_ok(size_sum(parts, k + 1), #[trigger] texts[k])
}

/// Where partition `i` starts: at 1 MiB for the first, else where the sizes
/// so far end (`texts[i - 1]`).
pub open spec fn part_start(texts: Seq<Seq<char>>, i: int) -> Seq<char> {
    if i == 0 { "1MiB"@ } else { parted_size(texts[i - 1]) }
}

/// Where partition `i` ends: after its size (`texts[i]`), or at the end of the disk.
pub open spec fn part_end(parts: Seq<Partition>, texts: Seq<Seq<char>>, i: int) -> Seq<char> {
    match parts[i].size {
        Some(_) => parted_size(texts[i]),
        None => "100%"@,
    }
}

/// The commands that create and format partition `i` of `parts` on `disk`.
pub open spec fn part_commands(disk: Seq<char>, parts: Seq<Partition>, texts: Seq<Seq<char>>, i: int) -> Seq<Seq<Seq<char>>> {
    let p = parts[i];
    let number = (first_at(parts, p.mountpoint@) + 1) as nat;
    let dev = partition_name_spec(disk, number);
    let efi = p.filesystem@ == "efi"@;
    seq![seq!["parted"@, "-s"@, disk, "mkpart"@, "primary"@, if efi { "fat32"@ } else { "ext4"@ }, part_start(texts, i), part_end(parts, texts, i)]]
        + (if efi { seq![seq!["parted"@, "-s"@, disk, "set"@, decimal(number), "esp"@, "on"@]] } else { Seq::empty() })
        + (match p.label {
            Some(l) => seq![seq!["parted"@, "-s"@, disk, "name"@, decimal(number), l@]],
            None => Seq::empty(),
        })
        + (if efi { seq![seq!["mkfs.fat"@, "-F32"@, dev]] } else { seq![seq!["mkfs."@ + p.filesystem@, dev]] })
}

/// The commands that lay out the first `k` partitions of `parts` on `disk`,
/// after writing a GPT label.
pub open spec fn apply_commands(disk: Seq<char>, parts: Seq<Partition>, texts: Seq<Seq<char>>, k: int) -> Seq<Seq<Seq<char>>>
    decreases k,
{
    if k <= 0 {
        seq![seq!["parted"@, "-s"@, disk, "mklabel"@, "gpt"@]]
    } else {
        apply_commands(disk, parts, texts, k - 1) + part_commands(disk, parts, texts, k - 1)
    }
}

/// The commands for partition `i`, given the rendered byte counts where
/// the partitions end.
#[verifier::rlimit(40)]
#[verifier::spinoff_prover]
fn part_commands_of(layout: &PartitionLayout, disk: &str, texts: &Vec<String>, i: usize) -> (r: Vec<Vec<String>>)
    requires
        i < layout.partitions@.len(),
        texts@.len() == layout.partitions@.len(),
    ensures
        commands_view(r@) == part_commands(disk@, layout.partitions@, string_views(texts@), i as int),
{
    let ghost parts = layout.partitions@;
    let p = &layout.partitions[i];
    let idx = layout.get_index(p.mountpoint.as_str());
    proof {
        lemma_first_at(parts, p.mountpoint@, idx);
    }
    let number: usize = match idx {
        Some(n) => n,
        None => 0,
    };
    assert(number == first_at(parts, p.mountpoint@) + 1);
    let number_text = decimal_string(number as u64);
    let dev = partition_name(disk, number);
    let efi = str_eq(p.filesystem.as_str(), "efi");
    let ghost tv = string_views(texts@);
    let start = if i == 0 { string_of("1MiB") } else { string_without(texts[i - 1].as_str(), ' ') };
    let end = match p.size {
        Some(_) => string_without(texts[i].as_str(), ' '),
        None => string_of("100%"),
    };
    let ghost fs_arg = if efi { "fat32"@ } else { "ext4"@ };
    let mut r: Vec<Vec<String>> = Vec::new();
    let mut mkpart: Vec<String> = Vec::new();
    mkpart.push(string_of("parted"));
    mkpart.push(string_of("-s"));
    mkpart.push(string_of(disk));
    mkpart.push(string_of("mkpart"));
    mkpart.push(string_of("primary"));
    mkpart.push(if efi { string_of("fat32") } else { string_of("ext4") });
    mkpart.push(start);
    mkpart.push(end);
    assert(string_views(mkpart@) =~= seq!["parted"@, "-s"@, disk@, "mkpart"@, "primary"@, fs_arg, part_start(tv, i as int), part_end(parts, tv, i as int)]);
    r.push(mkpart);
    let ghost after_mkpart = commands_view(r@);
    if efi {
        let mut set: Vec<String> = Vec::new();
        set.push(string_of("parted"));
        set.push(string_of("-s"));
        set.push(string_of(disk));
        set.push(string_of("set"));
        set.push(number_text.clone());
        set.push(string_of("esp"));
        set.push(string_of("on"));
        assert(string_views(set@) =~= seq!["parted"@, "-s"@, disk@, "set"@, decimal(number as nat), "esp"@, "on"@]);
        r.push(set);
    }
    let ghost after_set = commands_view(r@);
    match &p.label {
        Some(l) => {
            let mut name: Vec<String> = Vec::new();
            name.push(string_of("parted"));
            name.push(string_of("-s"));
            name.push(string_of(disk));
            name.push(string_of("name"));
            name.push(number_text.clone());
            name.push(l.clone());
            assert(string_views(name@) =~= seq!["parted"@, "-s"@, disk@, "name"@, decimal(number as nat), l@]);
            r.push(name);
        },
        None => {},
    }
    let ghost after_name = commands_view(r@);
    if efi {
        let mut mkfs: Vec<String> = Vec::new();
        mkfs.push(string_of("mkfs.fat"));
        mkfs.push(string_of("-F32"));
        mkfs.push(dev);
        assert(string_views(mkfs@) =~= seq!["mkfs.fat"@, "-F32"@, partition_name_spec(disk@, number as nat)]);
        r.push(mkfs);
    } else {
        let mut prog = string_of("mkfs.");
        push_str(&mut prog, p.filesystem.as_str());
        let mut mkfs: Vec<String> = Vec::new();
        mkfs.push(prog);
        mkfs.push(dev);
        assert(string_views(mkfs@) =~= seq!["mkfs."@ + p.filesystem@, partition_name_spec(disk@, number as nat)]);
        r.push(mkfs);
    }
    assert(commands_view(r@) =~= part_commands(disk@, parts, tv, i as int));
    r
}

impl PartitionLayout {
    /// The byte counts where the partitions end, rendered in binary units:
    /// for each partition, the sum of its size and the sizes before it. The
    /// sizes must add up to a byte count that fits in 64 bits.
    pub fn size_texts(&self) -> (r: Vec<String>)
        requires
            size_sum(self.partitions@, self.partitions@.len() as int) <= u64::MAX,
        ensures
            size_texts_ok(self.partitions@, string_views(r@)),
    {
        let ghost parts = self.partitions@;
        let mut r: Vec<String> = Vec::new();
        let mut last_end: u64 = 0;
        let mut i: usize = 0;
        while i < self.partitions.len()
            invariant
                parts == self.partitions@,
                i <= parts.len(),
                size_sum(parts, parts.len() as int) <= u64::MAX,
                last_end == size_sum(parts, i as int),
                r@.len() == i,
                forall|k: int| 0 <= k < i ==> iec_text_ok(size_sum(parts, k + 1), #[trigger] string_views(r@)[k]),
            decreases parts.len() - i,
        {
            proof {
                lemma_size_sum_mono(parts, i + 1, parts.len() as int);
            }
            match self.partitions[i].size {
                Some(s) => {
                    last_end = last_end + s;
                },
                None => {},
            }
            let t = bytesize_iec(last_end);
            let ghost r0 = r@;
            r.push(t);
            assert forall|k: int| 0 <= k < i + 1 implies iec_text_ok(size_sum(parts, k + 1), #[trigger] string_views(r@)[k]) by {
                if k < i {
                    assert(r@[k] == r0[k]);
                    assert(iec_text_ok(size_sum(parts, k + 1), string_views(r0)[k]));
                }
            }
            i = i + 1;
        }
        r
    }

    /// The commands that lay the partitions out on `disk`, in order, given
    /// the rendered byte counts where each partition ends (`size_texts`): a
    /// GPT label, then for each partition its creation (from 1 MiB for the
    /// first, else from where the partitions before it end; to the end of
    /// its size, or of the disk), the ESP flag for `efi`, its name when
    /// labelled, and its filesystem. Sizes are given without spaces.
    pub fn apply_with_sizes(&self, disk: &str, texts: &Vec<String>) -> (r: Vec<Vec<String>>)
        requires
            texts@.len() == self.partitions@.len(),
        ensures
            commands_view(r@) == apply_commands(disk@, self.partitions@, string_views(texts@), self.partitions@.len() as int),
    {
        let ghost parts = self.partitions@;
        let ghost tv = string_views(texts@);
        let mut r: Vec<Vec<String>> = Vec::new();
        let mut label: Vec<String> = Vec::new();
        label.push(string_of("parted"));
        label.push(string_of("-s"));
        label.push(string_of(disk));
        label.push(string_of("mklabel"));
        label.push(string_of("gpt"));
        assert(string_views(label@) =~= seq!["parted"@, "-s"@, disk@, "mklabel"@, "gpt"@]);
        r.push(label);
        assert(commands_view(r@) =~= apply_commands(disk@, parts, tv, 0));
        let mut i: usize = 0;
        while i < self.partitions.len()
            invariant
                parts == self.partitions@,
                tv == string_views(texts@),
                texts@.len() == parts.len(),
                i <= parts.len(),
                commands_view(r@) == apply_commands(disk@, parts, tv, i as int),
            decreases parts.len() - i,
        {
            let mut cmds = part_commands_of(self, disk, texts, i);
            let ghost r0 = r@;
            let ghost c0 = cmds@;
            r.append(&mut cmds);
            assert(commands_view(r@) =~= commands_view(r0) + commands_view(c0));
            i = i + 1;
        }
        r
    }

    /// The commands that lay the partitions out on `disk` (see
    /// `apply_with_sizes`), with the byte counts rendered by `size_texts`.
    /// The sizes must add up to a byte count that fits in 64 bits.
    pub fn apply(&self, disk: &str) -> (r: Vec<Vec<String>>)
        requires
            size_sum(self.partitions@, self.partitions@.len() as int) <= u64::MAX,
        ensures
            exists|texts: Seq<Seq<char>>| #[trigger] size_texts_ok(self.partitions@, texts)
                && commands_view(r@) == apply_commands(disk@, self.partitions@, texts, self.partitions@.len() as int),
    {
        let texts = self.size_texts();
        let r = self.apply_with_sizes(disk, &texts);
        assert(size_texts_ok(self.partitions@, string_views(texts@)));
        r
    }
}

} // verus!

verus! {

/// A build manifest.
pub struct Manifest {
    /// The builder of the root tree (`dnf` or `bootc`)
    pub builder: Option<String>,
    /// Manifests to import
    pub import: Vec<String>,
    /// The distro name for the build result
    pub distro: Option<String>,
    /// Output file name
    pub out_file: Option<String>,
    pub disk: Option<PartitionLayout>,
    /// DNF configuration
    pub dnf: crate::backends::fs_tree::dnf::DnfRootBuilder,
    /// bootc configuration
    pub bootc: crate::backends::fs_tree::oci::BootcRootBuilder,
    /// Scripts to run before and after the build
    pub scripts: ScriptsManifest,
    /// Users to add to the image
    pub users: Vec<Auth>,
    /// Extra parameters to the kernel command line in bootloader configs
    pub kernel_cmdline: Option<String>,
    /// ISO settings, used for ISO images only
    pub iso: Option<crate::cfg::manifest::IsoConfig>,
    pub bootloader: crate::backends::bootloader::Bootloader,
}

impl Manifest {
    /// The volume ID of the ISO image: the configured one, else `KATSU-LIVEOS`.
    pub fn get_volid(&self) -> (r: String)
        ensures
            r@ == match self.iso {
                Some(iso) => iso.volume_id@,
                None => crate::cfg::manifest::default_volid(),
            },
    {
        match &self.iso {
            Some(iso) => iso.volume_id.clone(),
            None => crate::cfg::manifest::_default_volid(),
        }
    }
}

} // verus!

verus! {

/// The commands of partition `j` are among those that lay out the first `m` partitions, for `j < m`.
proof fn lemma_apply_includes(disk: Seq<char>, parts: Seq<Partition>, texts: Seq<Seq<char>>, j: int, m: int, c: Seq<Seq<char>>)
    requires
        0 <= j < m,
        part_commands(disk, parts, texts, j).contains(c),
    ensures
        apply_commands(disk, parts, texts, m).contains(c),
    decreases m,
{
    let prev = apply_commands(disk, parts, texts, m - 1);
    let pc = part_commands(disk, parts, texts, m - 1);
    assert(apply_commands(disk, parts, texts, m) == prev + pc);
    if j == m - 1 {
        let t = choose|t: int| 0 <= t < pc.len() && pc[t] == c;
        assert((prev + pc)[prev.len() + t] == c);
    } else {
        lemma_apply_includes(disk, parts, texts, j, m - 1, c);
        let t = choose|t: int| 0 <= t < prev.len() && prev[t] == c;
        assert((prev + pc)[t] == c);
    }
}

/// Laying out a disk labels it GPT first, and every partition `k` gets its
/// name when it has a label, whatever its filesystem; an `efi` partition gets
/// the ESP flag and a FAT32 filesystem, any other the filesystem it names. A
/// partition is numbered after the first partition with its mountpoint.
pub proof fn law_every_partition_laid_out(disk: Seq<char>, parts: Seq<Partition>, texts: Seq<Seq<char>>, k: int)
    requires
        0 <= k < parts.len(),
    ensures
        apply_commands(disk, parts, texts, parts.len() as int)[0] == seq!["parted"@, "-s"@, disk, "mklabel"@, "gpt"@],
        ({
            let num = (first_at(parts, parts[k].mountpoint@) + 1) as nat;
            let cmds = apply_commands(disk, parts, texts, parts.len() as int);
            &&& parts[k].label matches Some(l) ==> cmds.contains(seq!["parted"@, "-s"@, disk, "name"@, decimal(num), l@])
            &&& parts[k].filesystem@ == "efi"@ ==> cmds.contains(seq!["parted"@, "-s"@, disk, "set"@, decimal(num), "esp"@, "on"@])
            &&& parts[k].filesystem@ == "efi"@ ==> cmds.contains(seq!["mkfs.fat"@, "-F32"@, partition_name_spec(disk, num)])
            &&& parts[k].filesystem@ != "efi"@ ==> cmds.contains(seq!["mkfs."@ + parts[k].filesystem@, partition_name_spec(disk, num)])
        }),
{
    let n = parts.len() as int;
    lemma_apply_first(disk, parts, texts, n);
    let p = parts[k];
    let num = (first_at(parts, p.mountpoint@) + 1) as nat;
    let dev = partition_name_spec(disk, num);
    let efi = p.filesystem@ == "efi"@;
    let a = seq![seq!["parted"@, "-s"@, disk, "mkpart"@, "primary"@, if efi { "fat32"@ } else { "ext4"@ }, part_start(texts, k), part_end(parts, texts, k)]];
    let e = if efi { seq![seq!["parted"@, "-s"@, disk, "set"@, decimal(num), "esp"@, "on"@]] } else { Seq::<Seq<Seq<char>>>::empty() };
    let nm = match p.label { Some(l) => seq![seq!["parted"@, "-s"@, disk, "name"@, decimal(num), l@]], None => Seq::<Seq<Seq<char>>>::empty() };
    let mk = if efi { seq![seq!["mkfs.fat"@, "-F32"@, dev]] } else { seq![seq!["mkfs."@ + p.filesystem@, dev]] };
    let pc = part_commands(disk, parts, texts, k);
    assert(pc == a + e + nm + mk);
    if let Some(l) = p.label {
        let c = seq!["parted"@, "-s"@, disk, "name"@, decimal(num), l@];
        assert(pc[(a + e).len() as int] == c);
        lemma_apply_includes(disk, parts, texts, k, n, c);
    }
    if efi {
        let c = seq!["parted"@, "-s"@, disk, "set"@, decimal(num), "esp"@, "on"@];
        assert(pc[a.len() as int] == c);
        lemma_apply_includes(disk, parts, texts, k, n, c);
    }
    let c2 = if efi { seq!["mkfs.fat"@, "-F32"@, dev] } else { seq!["mkfs."@ + p.filesystem@, dev] };
    assert(pc[(a + e + nm).len() as int] == c2);
    lemma_apply_includes(disk, parts, texts, k, n, c2);
}

/// The first command of a layout is the GPT label.
proof fn lemma_apply_first(disk: Seq<char>, parts: Seq<Partition>, texts: Seq<Seq<char>>, m: int)
    requires
        0 <= m,
    ensures
        apply_commands(disk, parts, texts, m).len() > 0,
        apply_commands(disk, parts, texts, m)[0] == seq!["parted"@, "-s"@, disk, "mklabel"@, "gpt"@],
    decreases m,
{
    if m > 0 {
        lemma_apply_first(disk, parts, texts, m - 1);
        let prev = apply_commands(disk, parts, texts, m - 1);
        assert(apply_commands(disk, parts, texts, m) == prev + part_commands(disk, parts, texts, m - 1));
    }
}

} // verus!
