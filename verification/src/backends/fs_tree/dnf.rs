//! Use DNF to build an OS root tree from a list of packages.
use vstd::prelude::*;
use crate::backends::bootloader::{target_arch, Bootloader};
use crate::config::opt_view;
use crate::text::{clone_strings, push_args, push_str, str_eq, string_of, string_views};

verus! {

/// The DNF executable used unless configured otherwise.
pub fn _default_dnf() -> (r: String)
    ensures
        r@ == "dnf"@,
{
    string_of("dnf")
}

/// A DNF root builder: the packages to install and how.
pub struct DnfRootBuilder {
    /// The DNF executable.
    pub executable: String,
    pub packages: Vec<String>,
    pub options: Vec<String>,
    pub exclude: Vec<String>,
    pub releasever: String,
    /// The architecture to build for; the host's when unset.
    pub arch: Option<String>,
    /// Further packages by architecture, each architecture once.
    pub arch_packages: Vec<(String, Vec<String>)>,
    /// Further exclusions by architecture, each architecture once.
    pub arch_exclude: Vec<(String, Vec<String>)>,
    /// A directory of repository files to use.
    pub repodir: Option<String>,
    pub global_options: Vec<String>,
}

/// The view of a list of package lists by architecture.
pub open spec fn arch_lists(m: Seq<(String, Vec<String>)>) -> Seq<(Seq<char>, Seq<Seq<char>>)> {
    m.map_values(|e: (String, Vec<String>)| (e.0@, string_views(e.1@)))
}

/// No architecture is filed twice: the list is a map.
pub open spec fn unique_archs(m: Seq<(Seq<char>, Seq<Seq<char>>)>) -> bool {
    forall|i: int, j: int| 0 <= i < j < m.len() ==> m[i].0 != m[j].0
}

impl DnfRootBuilder {
    /// Both lists by architecture are maps: each architecture once.
    pub open spec fn wf(&self) -> bool {
        &&& unique_archs(arch_lists(self.arch_packages@))
        &&& unique_archs(arch_lists(self.arch_exclude@))
    }
}

/// In a map, the list filed under an architecture is that of the one entry
/// that has it.
pub proof fn law_arch_lookup_finds_entry(m: Seq<(Seq<char>, Seq<Seq<char>>)>, arch: Seq<char>, i: int)
    requires
        unique_archs(m),
        0 <= i < m.len(),
        m[i].0 == arch,
    ensures
        list_for(m, arch) == m[i].1,
    decreases m.len(),
{
    if i > 0 {
        let t = m.drop_first();
        assert(m[0].0 != m[i].0);
        assert forall|a: int, b: int| 0 <= a < b < t.len() implies t[a].0 != t[b].0 by {
            assert(t[a] == m[a + 1] && t[b] == m[b + 1]);
        }
        assert(t[i - 1] == m[i]);
        law_arch_lookup_finds_entry(t, arch, i - 1);
    }
}

/// The list filed under `arch`, or none.
pub open spec fn list_for(m: Seq<(Seq<char>, Seq<Seq<char>>)>, arch: Seq<char>) -> Seq<Seq<char>>
    decreases m.len(),
{
    if m.len() == 0 {
        Seq::empty()
    } else if m[0].0 == arch {
        m[0].1
    } else {
        list_for(m.drop_first(), arch)
    }
}

/// Each item with a prefix in front.
pub open spec fn prefixed(prefix: Seq<char>, items: Seq<Seq<char>>) -> Seq<Seq<char>>
    decreases items.len(),
{
    if items.len() == 0 {
        Seq::empty()
    } else {
        prefixed(prefix, items.drop_last()).push(prefix + items.last())
    }
}

/// The DNF command that installs the packages into `chroot`: the base
/// arguments, the packages (with those of the architecture), then the
/// options, `--forcearch` when an architecture is set, the repository
/// directory (its canonical path `repodir`) when one is set, and an
/// `--exclude` for each exclusion (with those of the architecture).
pub open spec fn install_spec(b: DnfRootBuilder, chroot: Seq<char>, repodir: Seq<char>, host: Seq<char>) -> Seq<Seq<char>> {
    let arch = target_arch(opt_view(b.arch), host);
    seq![b.executable@, "do"@, "-y"@, "--action=install"@, "--comment=Initial transaction from building with Katsu"@,
        "--setopt=tsflags="@, "--releasever="@ + b.releasever@, "--installroot="@ + chroot]
        + string_views(b.packages@) + list_for(arch_lists(b.arch_packages@), arch)
        + string_views(b.options@)
        + (match b.arch { Some(a) => seq!["--forcearch="@ + a@], None => Seq::empty() })
        + (if b.repodir is Some { seq!["--setopt=reposdir="@ + repodir] } else { Seq::empty() })
        + prefixed("--exclude="@, string_views(b.exclude@) + list_for(arch_lists(b.arch_exclude@), arch))
}

/// The list filed under `arch`, copied.
fn list_of(m: &Vec<(String, Vec<String>)>, arch: &str) -> (r: Vec<String>)
    ensures
        string_views(r@) == list_for(arch_lists(m@), arch@),
{
    let mut i: usize = 0;
    assert(arch_lists(m@).subrange(0, m@.len() as int) =~= arch_lists(m@));
    while i < m.len()
        invariant
            i <= m@.len(),
            list_for(arch_lists(m@), arch@) == list_for(arch_lists(m@).subrange(i as int, m@.len() as int), arch@),
        decreases m@.len() - i,
    {
        let ghost rest = arch_lists(m@).subrange(i as int, m@.len() as int);
        assert(rest.drop_first() =~= arch_lists(m@).subrange(i + 1, m@.len() as int));
        if str_eq(m[i].0.as_str(), arch) {
            return clone_strings(&m[i].1);
        }
        i = i + 1;
    }
    Vec::new()
}

/// Appends each item with a prefix in front.
fn push_prefixed(v: &mut Vec<String>, prefix: &str, items: &Vec<String>)
    ensures
        string_views(final(v)@) == string_views(old(v)@) + prefixed(prefix@, string_views(items@)),
{
    let ghost v0 = string_views(v@);
    let mut i: usize = 0;
    while i < items.len()
        invariant
            i <= items@.len(),
            string_views(v@) == v0 + prefixed(prefix@, string_views(items@).subrange(0, i as int)),
        decreases items@.len() - i,
    {
        let mut a = string_of(prefix);
        push_str(&mut a, items[i].as_str());
        let ghost before = string_views(v@);
        v.push(a);
        assert(string_views(v@) =~= before.push(prefix@ + items@[i as int]@));
        i = i + 1;
        assert(string_views(items@).subrange(0, i as int).drop_last() =~= string_views(items@).subrange(0, i - 1));
    }
    assert(string_views(items@).subrange(0, i as int) =~= string_views(items@));
}

impl DnfRootBuilder {
    /// The DNF command that installs the packages into `chroot` (see
    /// `install_spec`); `repodir` is the canonical path of the repository
    /// directory, used when one is set, and `host` the host's architecture.
    pub fn install_command(&self, chroot: &str, repodir: &str, host: &str) -> (r: Vec<String>)
        requires
            self.wf(),
        ensures
            string_views(r@) == install_spec(*self, chroot@, repodir@, host@),
    {
        let arch = match &self.arch {
            Some(a) => a.clone(),
            None => string_of(host),
        };
        let mut r: Vec<String> = Vec::new();
        let e = self.executable.clone();
        assert(e@ == self.executable@);
        r.push(e);
        assert(string_views(r@) =~= seq![self.executable@]);
        push_args(&mut r, &["do", "-y", "--action=install", "--comment=Initial transaction from building with Katsu", "--setopt=tsflags="]);
        assert(string_views(r@) =~= seq![self.executable@, "do"@, "-y"@, "--action=install"@, "--comment=Initial transaction from building with Katsu"@,
            "--setopt=tsflags="@]);
        let mut rv = string_of("--releasever=");
        push_str(&mut rv, self.releasever.as_str());
        r.push(rv);
        let mut ir = string_of("--installroot=");
        push_str(&mut ir, chroot);
        r.push(ir);
        let ghost p0 = string_views(r@);
        assert(p0 =~= seq![self.executable@, "do"@, "-y"@, "--action=install"@, "--comment=Initial transaction from building with Katsu"@,
            "--setopt=tsflags="@, "--releasever="@ + self.releasever@, "--installroot="@ + chroot@]);
        assert(arch@ == target_arch(opt_view(self.arch), host@));
        let mut pk = clone_strings(&self.packages);
        let mut apk = list_of(&self.arch_packages, arch.as_str());
        let mut opts = clone_strings(&self.options);
        let ghost pkv = string_views(pk@);
        let ghost apkv = string_views(apk@);
        let ghost optv = string_views(opts@);
        let ghost r0 = r@;
        let ghost pk0 = pk@;
        r.append(&mut pk);
        let ghost r1 = r@;
        let ghost apk0 = apk@;
        r.append(&mut apk);
        let ghost r2 = r@;
        let ghost opts0 = opts@;
        r.append(&mut opts);
        assert(r1 =~= r0 + pk0);
        assert(r2 =~= r1 + apk0);
        assert(r@ =~= r2 + opts0);
        assert(string_views(r@) =~= p0 + pkv + apkv + optv);
        let ghost p1 = string_views(r@);
        match &self.arch {
            Some(a) => {
                let mut f = string_of("--forcearch=");
                push_str(&mut f, a.as_str());
                r.push(f);
            },
            None => {},
        }
        if self.repodir.is_some() {
            let mut d = string_of("--setopt=reposdir=");
            push_str(&mut d, repodir);
            r.push(d);
        }
        let ghost p2 = string_views(r@);
        assert(p2 =~= p1 + (match self.arch { Some(a) => seq!["--forcearch="@ + a@], None => Seq::empty() })
            + (if self.repodir is Some { seq!["--setopt=reposdir="@ + repodir@] } else { Seq::empty() }));
        let mut ex = clone_strings(&self.exclude);
        let mut aex = list_of(&self.arch_exclude, arch.as_str());
        let ghost exv = string_views(ex@);
        let ghost aexv = string_views(aex@);
        let ghost ex0 = ex@;
        let ghost aex0 = aex@;
        ex.append(&mut aex);
        assert(ex@ =~= ex0 + aex0);
        assert(string_views(ex@) =~= exv + aexv);
        push_prefixed(&mut r, "--exclude=", &ex);
        assert(string_views(r@) =~= p2 + prefixed("--exclude="@, exv + aexv));
        assert(string_views(r@) =~= install_spec(*self, chroot@, repodir@, host@));
        r
    }

    /// The DNF command that cleans the caches of the root at `chroot`.
    pub fn clean_command(&self, chroot: &str) -> (r: Vec<String>)
        ensures
            string_views(r@) == seq![self.executable@, "clean"@, "all"@, "--installroot="@ + chroot@],
    {
        let mut r: Vec<String> = Vec::new();
        r.push(self.executable.clone());
        r.push(string_of("clean"));
        r.push(string_of("all"));
        let mut ir = string_of("--installroot=");
        push_str(&mut ir, chroot);
        r.push(ir);
        assert(string_views(r@) =~= seq![self.executable@, "clean"@, "all"@, "--installroot="@ + chroot@]);
        r
    }
}

/// Whether the GRUB configuration is generated in the root after installing:
/// for GRUB, UEFI or BIOS.
pub fn runs_grub_mkconfig(bootloader: Bootloader) -> (r: bool)
    ensures
        r == (bootloader == Bootloader::Grub || bootloader == Bootloader::GrubBios),
{
    bootloader == Bootloader::Grub || bootloader == Bootloader::GrubBios
}

} // verus!

verus! {

/// Each item of a prefixed list is its item with the prefix in front.
proof fn lemma_prefixed(prefix: Seq<char>, items: Seq<Seq<char>>)
    ensures
        prefixed(prefix, items).len() == items.len(),
        forall|j: int| 0 <= j < items.len() ==> #[trigger] prefixed(prefix, items)[j] == prefix + items[j],
    decreases items.len(),
{
    if items.len() > 0 {
        lemma_prefixed(prefix, items.drop_last());
    }
}

/// The packages and exclusions filed per architecture are those of the
/// architecture built for: the configured one, or else the host's (whatever
/// the host is). Each package filed under it is installed and each exclusion
/// filed under it is passed as `--exclude=`; so are the plain packages and
/// exclusions.
pub proof fn law_install_uses_target_arch_lists(b: DnfRootBuilder, chroot: Seq<char>, repodir: Seq<char>, host: Seq<char>)
    requires
        b.wf(),
    ensures
        forall|i: int, j: int| #![trigger b.arch_packages@[i].1@[j]]
            0 <= i < b.arch_packages@.len() && 0 <= j < b.arch_packages@[i].1@.len()
            && b.arch_packages@[i].0@ == (match b.arch { Some(a) => a@, None => host })
            ==> install_spec(b, chroot, repodir, host).contains(b.arch_packages@[i].1@[j]@),
        forall|i: int, j: int| #![trigger b.arch_exclude@[i].1@[j]]
            0 <= i < b.arch_exclude@.len() && 0 <= j < b.arch_exclude@[i].1@.len()
            && b.arch_exclude@[i].0@ == (match b.arch { Some(a) => a@, None => host })
            ==> install_spec(b, chroot, repodir, host).contains("--exclude="@ + b.arch_exclude@[i].1@[j]@),
        forall|j: int| 0 <= j < b.packages@.len() ==> install_spec(b, chroot, repodir, host).contains((#[trigger] b.packages@[j])@),
        forall|j: int| 0 <= j < b.exclude@.len()
            ==> install_spec(b, chroot, repodir, host).contains("--exclude="@ + (#[trigger] b.exclude@[j])@),
{
    let t = match b.arch { Some(a) => a@, None => host };
    let s = install_spec(b, chroot, repodir, host);
    let base = seq![b.executable@, "do"@, "-y"@, "--action=install"@, "--comment=Initial transaction from building with Katsu"@,
        "--setopt=tsflags="@, "--releasever="@ + b.releasever@, "--installroot="@ + chroot];
    let pk = string_views(b.packages@);
    let ap = list_for(arch_lists(b.arch_packages@), t);
    let op = string_views(b.options@);
    let fa = match b.arch { Some(a) => seq!["--forcearch="@ + a@], None => Seq::<Seq<char>>::empty() };
    let rd = if b.repodir is Some { seq!["--setopt=reposdir="@ + repodir] } else { Seq::<Seq<char>>::empty() };
    let ex = string_views(b.exclude@) + list_for(arch_lists(b.arch_exclude@), t);
    let px = prefixed("--exclude="@, ex);
    assert(target_arch(opt_view(b.arch), host) == t);
    assert(s == base + pk + ap + op + fa + rd + px);
    lemma_prefixed("--exclude="@, ex);
    let off = (base + pk + ap + op + fa + rd).len() as int;
    assert forall|j: int| 0 <= j < b.packages@.len() implies s.contains((#[trigger] b.packages@[j])@) by {
        assert(s[base.len() + j] == pk[j]);
    }
    assert forall|j: int| 0 <= j < b.exclude@.len() implies s.contains("--exclude="@ + (#[trigger] b.exclude@[j])@) by {
        assert(ex[j] == b.exclude@[j]@);
        assert(s[off + j] == px[j]);
    }
    assert forall|i: int, j: int| #![trigger b.arch_packages@[i].1@[j]]
        0 <= i < b.arch_packages@.len() && 0 <= j < b.arch_packages@[i].1@.len()
        && b.arch_packages@[i].0@ == t implies s.contains(b.arch_packages@[i].1@[j]@) by {
        let m = arch_lists(b.arch_packages@);
        assert(m[i].0 == t);
        law_arch_lookup_finds_entry(m, t, i);
        assert(ap == string_views(b.arch_packages@[i].1@));
        assert(s[(base + pk).len() + j] == ap[j]);
    }
    assert forall|i: int, j: int| #![trigger b.arch_exclude@[i].1@[j]]
        0 <= i < b.arch_exclude@.len() && 0 <= j < b.arch_exclude@[i].1@.len()
        && b.arch_exclude@[i].0@ == t implies s.contains("--exclude="@ + b.arch_exclude@[i].1@[j]@) by {
        let m = arch_lists(b.arch_exclude@);
        assert(m[i].0 == t);
        law_arch_lookup_finds_entry(m, t, i);
        let k = b.exclude@.len() + j;
        assert(ex[k] == b.arch_exclude@[i].1@[j]@);
        assert(s[off + k] == px[k]);
    }
}

} // verus!
