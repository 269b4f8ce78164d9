//! Helpers of the first image creator: the GRUB configuration command, the
//! kernel version, and the dracut command of its live initramfs.
use vstd::prelude::*;
use crate::text::{chars_of, push_args, push_str, split_by_char, split_char, starts_with, string_of, string_views};

verus! {

/// The `grub2-mkconfig` command that writes the GRUB configuration of the
/// root `target` (which ends in `/`).
pub fn grub_mkconfig(target: &str) -> (r: Vec<String>)
    ensures
        string_views(r@) == seq!["grub2-mkconfig"@, "-o"@, target@ + "boot/grub2/grub.cfg"@],
{
    let mut r: Vec<String> = Vec::new();
    push_args(&mut r, &["grub2-mkconfig", "-o"]);
    assert(string_views(r@) =~= seq!["grub2-mkconfig"@, "-o"@]);
    let mut path = string_of(target);
    push_str(&mut path, "boot/grub2/grub.cfg");
    let ghost r1 = r@;
    r.push(path);
    assert(string_views(r@) =~= string_views(r1).push(path@));
    assert(string_views(r@) =~= seq!["grub2-mkconfig"@, "-o"@, target@ + "boot/grub2/grub.cfg"@]);
    r
}

/// The kernel version in the answer of `rpm -q kernel`: the answer without
/// its `kernel-` prefix, which it must have.
pub fn get_krnl_ver(rpm_answer: &str) -> (r: String)
    requires
        starts_with(rpm_answer@, "kernel-"@),
    ensures
        r@ == rpm_answer@.skip(7),
{
    proof {
        reveal_strlit("kernel-");
    }
    let v = chars_of(rpm_answer);
    let mut r = String::new();
    let mut i: usize = 7;
    while i < v.len()
        invariant
            v@ == rpm_answer@,
            7 <= i <= v@.len(),
            r@ == v@.subrange(7, i as int),
        decreases v@.len() - i,
    {
        crate::text::push_char(&mut r, v[i]);
        i = i + 1;
        assert(r@ =~= v@.subrange(7, i as int));
    }
    assert(v@.subrange(7, v@.len() as int) =~= rpm_answer@.skip(7));
    r
}

/// Whether a full kernel version (`6.0.15-300.fc37.x86_64`) has a release
/// part after its first `-`, with at least three `.`-separated pieces.
pub open spec fn kernel_release_complete(raw: Seq<char>) -> bool {
    split_char(raw, '-').len() >= 2 && split_char(split_char(raw, '-')[1], '.').len() >= 3
}

/// The arguments of the dracut command that makes the live initramfs of the
/// kernel `raw` (`VERSION-RELEASE`) in the root `root`: the initramfs is
/// named after the distribution, the architecture (the third `.`-piece of
/// the release) and the version.
pub open spec fn dracut_spec(distro: Seq<char>, root: Seq<char>, raw: Seq<char>) -> Seq<Seq<char>> {
    let krnlver = split_char(raw, '-')[0];
    let others = split_char(raw, '-')[1];
    let arch = split_char(others, '.')[2];
    seq!["dracut"@, "--kernel-ver"@, raw, "--sysroot"@, root, "--verbose"@, "--no-hostonly"@,
        "--no-hostonly-cmdline"@, "--install"@, "/.profile"@, "--add"@, " kiwi-live pollcdrom "@,
        "--omit"@, " multipath "@, distro + "."@ + arch + "-"@ + krnlver + ".initrd"@,
        krnlver + "-"@ + others]
}

/// The dracut command of the live initramfs (see `dracut_spec`).
pub fn dracut(distro: &str, root: &str, raw: &str) -> (r: Vec<String>)
    requires
        kernel_release_complete(raw@),
    ensures
        string_views(r@) == dracut_spec(distro@, root@, raw@),
{
    let ver = split_by_char(raw, '-');
    let krnlver = &ver[0];
    let others = &ver[1];
    let pieces = split_by_char(others.as_str(), '.');
    let arch = &pieces[2];
    let mut r: Vec<String> = Vec::new();
    push_args(&mut r, &["dracut", "--kernel-ver", raw, "--sysroot", root, "--verbose", "--no-hostonly",
        "--no-hostonly-cmdline", "--install", "/.profile", "--add", " kiwi-live pollcdrom ", "--omit",
        " multipath "]);
    let ghost head = seq!["dracut"@, "--kernel-ver"@, raw@, "--sysroot"@, root@, "--verbose"@, "--no-hostonly"@,
        "--no-hostonly-cmdline"@, "--install"@, "/.profile"@, "--add"@, " kiwi-live pollcdrom "@,
        "--omit"@, " multipath "@];
    assert(string_views(r@) =~= head);
    let mut image = string_of(distro);
    push_str(&mut image, ".");
    push_str(&mut image, arch.as_str());
    push_str(&mut image, "-");
    push_str(&mut image, krnlver.as_str());
    push_str(&mut image, ".initrd");
    let ghost r1 = r@;
    r.push(image);
    assert(string_views(r@) =~= string_views(r1).push(image@));
    let mut kv = string_of(krnlver.as_str());
    push_str(&mut kv, "-");
    push_str(&mut kv, others.as_str());
    let ghost r2 = r@;
    r.push(kv);
    assert(string_views(r@) =~= string_views(r2).push(kv@));
    assert(string_views(r@) =~= dracut_spec(distro@, root@, raw@));
    r
}

} // verus!
