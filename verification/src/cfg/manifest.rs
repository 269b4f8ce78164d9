//! Manifests of the newer configuration format: package lists, targets and
//! ISO settings.
use vstd::prelude::*;
use crate::text::{clone_strings, str_eq, string_of, string_views};

verus! {

/// The volume ID of ISO images unless configured otherwise.
pub open spec fn default_volid() -> Seq<char> {
    "KATSU-LIVEOS"@
}

/// The volume ID of ISO images unless configured otherwise.
pub fn _default_volid() -> (r: String)
    ensures
        r@ == default_volid(),
{
    string_of("KATSU-LIVEOS")
}

/// ISO settings.
#[derive(Debug, PartialEq, Eq)]
pub struct IsoConfig {
    /// Volume ID for the ISO image
    pub volume_id: String,
}

/// The builders of root trees.
#[derive(Debug, Clone, Copy, PartialEq, Eq, Structural)]
pub enum BuilderType {
    Dnf,
}

impl Default for BuilderType {
    fn default() -> (r: Self)
        ensures
            r == BuilderType::Dnf,
    {
        BuilderType::Dnf
    }
}

/// Variable types used for validation of variables.
#[derive(Debug, Clone, Copy, PartialEq, Eq, Structural)]
pub enum VarType {
    String,
    Int,
    Object,
}

/// How the file system of an output is bootstrapped.
#[derive(Debug, Clone, Copy, PartialEq, Eq, Structural)]
pub enum BootstrapMethod {
    Oci,
    Tar,
    Dir,
    Squashfs,
    Dnf,
}

/// Files to copy from the host into the output tree.
#[derive(Debug, PartialEq, Eq)]
pub struct CopyFiles {
    pub source: String,
    pub destination: String,
}

/// Packages by architecture (`all` for every architecture), and packages to
/// exclude by architecture: maps from architecture to packages, each
/// architecture once (see `wf`).
pub struct PackageArchList {
    pub packages: Vec<(String, Vec<String>)>,
    pub packages_exclude: Vec<(String, Vec<String>)>,
}

/// Package lists by package manager and list name: maps, each name once
/// (see `wf`).
pub struct PackageList {
    pub package_manager: Vec<(String, Vec<(String, PackageArchList)>)>,
}

/// No key occurs twice: the entries form a map.
pub open spec fn unique_keys(keys: Seq<Seq<char>>) -> bool {
    forall|i: int, j: int| 0 <= i < j < keys.len() ==> keys[i] != keys[j]
}

impl PackageArchList {
    /// Both lists are maps: each architecture once.
    pub open spec fn wf(&self) -> bool {
        &&& unique_keys(keys_of(self.packages@))
        &&& unique_keys(keys_of(self.packages_exclude@))
    }
}

impl PackageList {
    /// Every level is a map: each package manager once, each list name once
    /// per package manager, each architecture once per list.
    pub open spec fn wf(&self) -> bool {
        &&& unique_keys(keys_of(self.package_manager@))
        &&& forall|m: int| 0 <= m < self.package_manager@.len() ==> unique_keys(keys_of(#[trigger] self.package_manager@[m].1@))
        &&& forall|m: int, l: int| 0 <= m < self.package_manager@.len() && 0 <= l < self.package_manager@[m].1@.len()
            ==> (#[trigger] self.package_manager@[m].1@[l]).1.wf()
    }
}

/// The position of the first entry of `keys` equal to `k`, or -1.
pub open spec fn key_position(keys: Seq<Seq<char>>, k: Seq<char>) -> int
    decreases keys.len(),
{
    if keys.len() == 0 {
        -1
    } else {
        let r = key_position(keys.drop_last(), k);
        if r >= 0 { r } else if keys.last() == k { keys.len() - 1 } else { -1 }
    }
}

/// The keys of a list of entries.
pub open spec fn keys_of<T>(m: Seq<(String, T)>) -> Seq<Seq<char>> {
    m.map_values(|e: (String, T)| e.0@)
}

/// The position of the entry with key `k`.
fn position_of<T>(m: &Vec<(String, T)>, k: &str) -> (r: Option<usize>)
    ensures
        match r {
            Some(i) => i < m@.len() && key_position(keys_of(m@), k@) == i as int,
            None => key_position(keys_of(m@), k@) == -1,
        },
{
    let mut i: usize = 0;
    assert(keys_of(m@).subrange(0, 0) =~= Seq::<Seq<char>>::empty());
    while i < m.len()
        invariant
            i <= m@.len(),
            key_position(keys_of(m@).subrange(0, i as int), k@) == -1,
        decreases m@.len() - i,
    {
        assert(keys_of(m@).subrange(0, i + 1).drop_last() =~= keys_of(m@).subrange(0, i as int));
        if str_eq(m[i].0.as_str(), k) {
            proof {
                lemma_key_position_prefix(keys_of(m@), i + 1);
            }
            return Some(i);
        }
        i = i + 1;
    }
    assert(keys_of(m@).subrange(0, i as int) =~= keys_of(m@));
    None
}

/// In a map, the lookup of a key finds the one entry that has it.
pub proof fn law_key_lookup_finds_entry(keys: Seq<Seq<char>>, k: Seq<char>, i: int)
    requires
        unique_keys(keys),
        0 <= i < keys.len(),
        keys[i] == k,
    ensures
        key_position(keys, k) == i,
    decreases keys.len(),
{
    if i < keys.len() - 1 {
        let t = keys.drop_last();
        assert forall|a: int, b: int| 0 <= a < b < t.len() implies t[a] != t[b] by {
            assert(t[a] == keys[a] && t[b] == keys[b]);
        }
        assert(t[i] == k);
        law_key_lookup_finds_entry(t, k, i);
    } else {
        let t = keys.drop_last();
        lemma_key_position_absent(t, k);
    }
}

/// A key that no entry has is not found.
proof fn lemma_key_position_absent(keys: Seq<Seq<char>>, k: Seq<char>)
    requires
        forall|j: int| 0 <= j < keys.len() ==> keys[j] != k,
    ensures
        key_position(keys, k) == -1,
    decreases keys.len(),
{
    if keys.len() > 0 {
        lemma_key_position_absent(keys.drop_last(), k);
    }
}

/// A key found in a prefix is found at the same place in the whole list.
pub proof fn lemma_key_position_prefix(keys: Seq<Seq<char>>, n: int)
    requires
        0 <= n <= keys.len(),
    ensures
        forall|k: Seq<char>| key_position(keys.subrange(0, n), k) >= 0 ==> #[trigger] key_position(keys, k) == key_position(keys.subrange(0, n), k),
    decreases keys.len() - n,
{
    if n < keys.len() {
        lemma_key_position_prefix(keys, n + 1);
        assert(keys.subrange(0, n + 1).drop_last() =~= keys.subrange(0, n));
    } else {
        assert(keys.subrange(0, n) =~= keys);
    }
}

/// The packages a list gives for `arch`: those for all architectures, then
/// those for `arch`.
pub open spec fn arch_packages(l: PackageArchList, arch: Seq<char>) -> Seq<Seq<char>> {
    let all = key_position(keys_of(l.packages@), "all"@);
    let own = key_position(keys_of(l.packages@), arch);
    (if all >= 0 { string_views(l.packages@[all].1@) } else { Seq::empty() })
        + (if own >= 0 { string_views(l.packages@[own].1@) } else { Seq::empty() })
}

/// The packages that `resolve` gives: those of list `list_name` of package
/// manager `pkgmgr` for `arch`, or none when there is no such list.
pub open spec fn resolve_spec(p: PackageList, arch: Seq<char>, pkgmgr: Seq<char>, list_name: Seq<char>) -> Seq<Seq<char>> {
    let m = key_position(keys_of(p.package_manager@), pkgmgr);
    if m < 0 {
        Seq::empty()
    } else {
        let lists = p.package_manager@[m].1@;
        let l = key_position(keys_of(lists), list_name);
        if l < 0 { Seq::empty() } else { arch_packages(lists[l].1, arch) }
    }
}

impl PackageList {
    /// Resolve a package list based on the architecture, package manager, and
    /// list name: the packages for all architectures, then those for `arch`;
    /// none if the package manager or list name is not found.
    pub fn resolve(&self, arch: &str, pkgmgr: &str, list_name: &str) -> (r: Vec<String>)
        requires
            self.wf(),
        ensures
            string_views(r@) == resolve_spec(*self, arch@, pkgmgr@, list_name@),
    {
        match position_of(&self.package_manager, pkgmgr) {
            None => Vec::new(),
            Some(m) => {
                let lists = &self.package_manager[m].1;
                match position_of(lists, list_name) {
                    None => Vec::new(),
                    Some(l) => {
                        let list = &lists[l].1;
                        let mut pkgs = match position_of(&list.packages, "all") {
                            Some(a) => clone_strings(&list.packages[a].1),
                            None => Vec::new(),
                        };
                        let mut more = match position_of(&list.packages, arch) {
                            Some(a) => clone_strings(&list.packages[a].1),
                            None => Vec::new(),
                        };
                        let ghost p0 = pkgs@;
                        let ghost m0 = more@;
                        pkgs.append(&mut more);
                        assert(pkgs@ =~= p0 + m0);
                        assert(string_views(pkgs@) =~= string_views(p0) + string_views(m0));
                        pkgs
                    },
                }
            },
        }
    }
}

/// A build target.
pub struct Target {
    pub target_type: String,
    pub copy_files: Vec<CopyFiles>,
    /// References to package lists to merge into the target
    pub package_lists: Vec<String>,
    /// The builder to use for this target
    pub builder: BuilderType,
}

} // verus!
