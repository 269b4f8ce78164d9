//! Options of the `mkfs.erofs` command line utility.
use vstd::prelude::*;
use crate::cfg::auth::decimal_string;
use crate::text::{decimal, join, join_strings, push_decimal, push_str, string_of, string_views};

verus! {

/// Options of `mkfs.erofs`.
pub struct MkfsErofsOptions {
    /// -z<compression>
    pub compression: Option<String>,
    /// -C<chunk_size>
    pub chunk_size: Option<u32>,
    /// -x<xattr_level>
    pub xattr_level: Option<u32>,
    /// --exclude-path=<path> (repeatable)
    pub exclude_paths: Vec<String>,
    /// SELinux file contexts
    pub file_contexts: Option<String>,
    /// log level
    pub log_level: u32,
    pub extra_features: Vec<String>,
    pub tar_mode: bool,
}

/// `--exclude-path=` and the path, for each path in turn.
pub open spec fn exclude_args(paths: Seq<Seq<char>>) -> Seq<Seq<char>>
    decreases paths.len(),
{
    if paths.len() == 0 {
        Seq::empty()
    } else {
        exclude_args(paths.drop_last()).push("--exclude-path="@ + paths.last())
    }
}

/// The arguments the options give `mkfs.erofs`: the log level (with `--quiet`
/// at level 0), compression, xattr level and chunk size when set, the
/// excluded paths, the file contexts when set, the extra features joined with
/// commas when there are any, and tar mode when on.
pub open spec fn erofs_args_spec(o: MkfsErofsOptions) -> Seq<Seq<char>> {
    seq!["-d"@ + decimal(o.log_level as nat)]
        + (if o.log_level == 0 { seq!["--quiet"@] } else { Seq::empty() })
        + (match o.compression { Some(c) => seq!["-z"@ + c@], None => Seq::empty() })
        + (match o.xattr_level { Some(x) => seq!["-x"@ + decimal(x as nat)], None => Seq::empty() })
        + (match o.chunk_size { Some(c) => seq!["-C"@ + decimal(c as nat)], None => Seq::empty() })
        + exclude_args(string_views(o.exclude_paths@))
        + (match o.file_contexts { Some(f) => seq!["--file-contexts="@ + f@], None => Seq::empty() })
        + (if o.extra_features@.len() > 0 { seq!["-E"@ + join(string_views(o.extra_features@), ","@)] } else { Seq::empty() })
        + (if o.tar_mode { seq!["--tar=f"@] } else { Seq::empty() })
}

/// A flag glued to a number, such as `-d0`.
fn flag_number(flag: &str, n: u32) -> (r: String)
    ensures
        r@ == flag@ + decimal(n as nat),
{
    let mut r = string_of(flag);
    push_decimal(&mut r, n as u64);
    r
}

/// A flag glued to a text, such as `-zlz4`.
fn flag_text(flag: &str, t: &str) -> (r: String)
    ensures
        r@ == flag@ + t@,
{
    let mut r = string_of(flag);
    push_str(&mut r, t);
    r
}

impl MkfsErofsOptions {
    /// The arguments of `mkfs.erofs` for these options (see `erofs_args_spec`).
    pub fn build_args(&self) -> (r: Vec<String>)
        ensures
            string_views(r@) == erofs_args_spec(*self),
    {
        let mut args: Vec<String> = Vec::new();
        args.push(flag_number("-d", self.log_level));
        if self.log_level == 0 {
            args.push(string_of("--quiet"));
        }
        match &self.compression {
            Some(c) => args.push(flag_text("-z", c.as_str())),
            None => {},
        }
        match self.xattr_level {
            Some(x) => args.push(flag_number("-x", x)),
            None => {},
        }
        match self.chunk_size {
            Some(c) => args.push(flag_number("-C", c)),
            None => {},
        }
        let ghost head = string_views(args@);
        assert(head =~= seq!["-d"@ + decimal(self.log_level as nat)]
            + (if self.log_level == 0 { seq!["--quiet"@] } else { Seq::empty() })
            + (match self.compression { Some(c) => seq!["-z"@ + c@], None => Seq::empty() })
            + (match self.xattr_level { Some(x) => seq!["-x"@ + decimal(x as nat)], None => Seq::empty() })
            + (match self.chunk_size { Some(c) => seq!["-C"@ + decimal(c as nat)], None => Seq::empty() }));
        let mut i: usize = 0;
        while i < self.exclude_paths.len()
            invariant
                i <= self.exclude_paths@.len(),
                string_views(args@) == head + exclude_args(string_views(self.exclude_paths@).subrange(0, i as int)),
            decreases self.exclude_paths@.len() - i,
        {
            let ghost before = string_views(args@);
            args.push(flag_text("--exclude-path=", self.exclude_paths[i].as_str()));
            assert(string_views(args@) =~= before.push("--exclude-path="@ + self.exclude_paths@[i as int]@));
            i = i + 1;
            assert(string_views(self.exclude_paths@).subrange(0, i as int).drop_last() =~= string_views(self.exclude_paths@).subrange(0, i - 1));
        }
        assert(string_views(self.exclude_paths@).subrange(0, i as int) =~= string_views(self.exclude_paths@));
        let ghost mid = string_views(args@);
        match &self.file_contexts {
            Some(f) => args.push(flag_text("--file-contexts=", f.as_str())),
            None => {},
        }
        let ghost m2 = string_views(args@);
        assert(m2 =~= mid + (match self.file_contexts { Some(f) => seq!["--file-contexts="@ + f@], None => Seq::empty() }));
        if self.extra_features.len() > 0 {
            let features = join_strings(&self.extra_features, ",");
            args.push(flag_text("-E", features.as_str()));
        }
        let ghost m3 = string_views(args@);
        assert(m3 =~= m2 + (if self.extra_features@.len() > 0 { seq!["-E"@ + join(string_views(self.extra_features@), ","@)] } else { Seq::empty() }));
        if self.tar_mode {
            args.push(string_of("--tar=f"));
        }
        assert(string_views(args@) =~= m3 + (if self.tar_mode { seq!["--tar=f"@] } else { Seq::empty() }));
        assert(string_views(args@) =~= erofs_args_spec(*self));
        args
    }
}

impl Default for MkfsErofsOptions {
    /// The default options: zstd level 5, 1 MiB chunks, xattr level 1,
    /// `/sys/` and `/proc/` excluded, quiet, all fragments with inode dedupe.
    fn default() -> (r: Self)
        ensures
            r.compression matches Some(c) && c@ == "zstd,level=5"@,
            r.chunk_size == Some(1048576u32),
            r.xattr_level == Some(1u32),
            string_views(r.exclude_paths@) == seq!["/sys/"@, "/proc/"@],
            r.file_contexts is None,
            r.log_level == 0,
            string_views(r.extra_features@) == seq!["all-fragments"@, "fragdedupe=inode"@],
            !r.tar_mode,
    {
        let mut exclude_paths: Vec<String> = Vec::new();
        exclude_paths.push(string_of("/sys/"));
        exclude_paths.push(string_of("/proc/"));
        let mut extra_features: Vec<String> = Vec::new();
        extra_features.push(string_of("all-fragments"));
        extra_features.push(string_of("fragdedupe=inode"));
        assert(string_views(exclude_paths@) =~= seq!["/sys/"@, "/proc/"@]);
        assert(string_views(extra_features@) =~= seq!["all-fragments"@, "fragdedupe=inode"@]);
        MkfsErofsOptions {
            tar_mode: false,
            compression: Some(string_of("zstd,level=5")),
            chunk_size: Some(1048576),
            xattr_level: Some(1),
            exclude_paths,
            file_contexts: None,
            log_level: 0,
            extra_features,
        }
    }
}

/// The arguments of the `mkfs.erofs` command that makes `target` from `source`.
pub fn erofs_mkfs(source: &str, target: &str, options: &MkfsErofsOptions) -> (r: Vec<String>)
    ensures
        string_views(r@) == erofs_args_spec(*options) + seq![target@, source@],
{
    let mut r = options.build_args();
    let ghost a = string_views(r@);
    r.push(string_of(target));
    r.push(string_of(source));
    assert(string_views(r@) =~= a + seq![target@, source@]);
    r
}

} // verus!

verus! {

/// Whatever the log level, the SELinux file contexts are handed to
/// `mkfs.erofs` when they are set; the log level comes first, and at level 0
/// the tool is also told to be quiet; every excluded path is excluded.
pub proof fn law_erofs_args_keep_settings(o: MkfsErofsOptions)
    ensures
        erofs_args_spec(o)[0] == "-d"@ + decimal(o.log_level as nat),
        o.log_level == 0 ==> erofs_args_spec(o).contains("--quiet"@),
        o.file_contexts matches Some(f) ==> erofs_args_spec(o).contains("--file-contexts="@ + f@),
        forall|p: int| 0 <= p < o.exclude_paths@.len()
            ==> erofs_args_spec(o).contains("--exclude-path="@ + (#[trigger] o.exclude_paths@[p])@),
{
    let s = erofs_args_spec(o);
    let a = seq!["-d"@ + decimal(o.log_level as nat)];
    let q = if o.log_level == 0 { seq!["--quiet"@] } else { Seq::<Seq<char>>::empty() };
    let z = match o.compression { Some(c) => seq!["-z"@ + c@], None => Seq::<Seq<char>>::empty() };
    let x = match o.xattr_level { Some(x) => seq!["-x"@ + decimal(x as nat)], None => Seq::<Seq<char>>::empty() };
    let c = match o.chunk_size { Some(c) => seq!["-C"@ + decimal(c as nat)], None => Seq::<Seq<char>>::empty() };
    let ex = exclude_args(string_views(o.exclude_paths@));
    let fc = match o.file_contexts { Some(f) => seq!["--file-contexts="@ + f@], None => Seq::<Seq<char>>::empty() };
    let ef = if o.extra_features@.len() > 0 { seq!["-E"@ + join(string_views(o.extra_features@), ","@)] } else { Seq::<Seq<char>>::empty() };
    let t = if o.tar_mode { seq!["--tar=f"@] } else { Seq::<Seq<char>>::empty() };
    let pre = a + q + z + x + c + ex;
    assert(s == pre + fc + ef + t);
    assert(s[0] == (a + q + z + x + c + ex + fc + ef + t)[0]);
    if o.log_level == 0 {
        assert(s[1] == "--quiet"@);
    }
    if let Some(f) = o.file_contexts {
        assert(s[pre.len() as int] == "--file-contexts="@ + f@);
    }
    lemma_exclude_args(string_views(o.exclude_paths@));
    assert forall|p: int| 0 <= p < o.exclude_paths@.len()
        implies s.contains("--exclude-path="@ + (#[trigger] o.exclude_paths@[p])@) by {
        let k = (a + q + z + x + c).len() + p;
        assert(ex[p] == "--exclude-path="@ + string_views(o.exclude_paths@)[p]);
        assert(s[k] == ex[p]);
    }
}

/// The excluded paths give one argument each, in order.
proof fn lemma_exclude_args(paths: Seq<Seq<char>>)
    ensures
        exclude_args(paths).len() == paths.len(),
        forall|p: int| 0 <= p < paths.len() ==> #[trigger] exclude_args(paths)[p] == "--exclude-path="@ + paths[p],
    decreases paths.len(),
{
    if paths.len() > 0 {
        lemma_exclude_args(paths.drop_last());
    }
}

} // verus!
