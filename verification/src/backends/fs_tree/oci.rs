//! A bootc-based image: a root tree taken from an OCI image, optionally
//! derived through a containerfile.
use vstd::prelude::*;
use crate::cfg::auth::{truncate_bytes, truncate_to, utf8_len};
use crate::text::{occurs_at, chars_of, clone_strings, lemma_split_char_nonempty, push_args, push_str, split_by_char, split_char, starts_with, str_starts_with, string_of, string_views};

verus! {

/// Metadata for the current image, embedded into derived live images for `bootc install` and debugging
#[derive(Debug, PartialEq, Eq)]
pub struct BootcImageMetadata {
    /// The original image this was derived from
    pub tag: String,
    /// Image's digest
    pub digest: String,
}

/// A bootc-based image: an OCI image made into a root tree, optionally with
/// a containerfile that builds a derivation of it. The containerfile gets one
/// argument, `DERIVE_FROM`, the image.
pub struct BootcRootBuilder {
    /// The original image to use as a base
    pub image: String,
    /// Path to a containerfile to build a derivation from (the image is used as-is without one)
    pub derivation: Option<String>,
    /// The build context of the derivation (the current directory by default)
    pub context: Option<String>,
    /// Whether the image is embedded into the container store of the root
    pub embed_image: bool,
    /// Whether image metadata is embedded into derived images
    pub embed_image_metadata: bool,
    /// Further images to embed
    pub embed_extra_images: Vec<String>,
}

/// The text of `s` before the first `c` (all of `s` without one).
pub open spec fn before_char(s: Seq<char>, c: char) -> Seq<char> {
    split_char(s, c)[0]
}

/// The text of `s` before the first `c`.
pub fn text_before(s: &str, c: char) -> (r: String)
    ensures
        r@ == before_char(s@, c),
{
    let mut pieces = split_by_char(s, c);
    proof {
        lemma_split_char_nonempty(s@, c);
    }
    pieces.swap_remove(0)
}

/// The tag of the derivation of `image`: its name with the tag `katsu-deriv`.
pub open spec fn deriv_tag(image: Seq<char>) -> Seq<char> {
    before_char(image, ':') + ":katsu-deriv"@
}

/// `s` without all the leading repetitions of `p`.
pub open spec fn trim_prefix_all(s: Seq<char>, p: Seq<char>) -> Seq<char>
    decreases s.len(),
{
    if p.len() > 0 && starts_with(s, p) {
        trim_prefix_all(s.subrange(p.len() as int, s.len() as int), p)
    } else {
        s
    }
}

/// The name of the container made from an image with digest `digest`:
/// `katsu-` and the first seven bytes of the digest without `sha256:`, or
/// `unknown` when it has no such seven bytes.
pub open spec fn container_name_spec(digest: Seq<char>) -> Seq<char> {
    let t = trim_prefix_all(digest, "sha256:"@);
    "katsu-"@ + if utf8_len(truncate_bytes(t, 7)) == 7 { truncate_bytes(t, 7) } else { "unknown"@ }
}

/// `s` without all the leading repetitions of `sha256:`.
fn trim_sha256(s: &str) -> (r: String)
    ensures
        r@ == trim_prefix_all(s@, "sha256:"@),
{
    let p = chars_of("sha256:");
    let cs = chars_of(s);
    let mut i: usize = 0;
    proof {
        reveal_strlit("sha256:");
    }
    assert(cs@.subrange(0, cs@.len() as int) =~= s@);
    while cs.len() - i >= 7 && occurs_at(&cs, &p, i)
        invariant
            cs@ == s@,
            p@ == "sha256:"@,
            p@.len() == 7,
            i <= cs@.len(),
            trim_prefix_all(s@, "sha256:"@) == trim_prefix_all(cs@.subrange(i as int, cs@.len() as int), "sha256:"@),
        decreases cs@.len() - i,
    {
        let ghost rest = cs@.subrange(i as int, cs@.len() as int);
        assert(starts_with(rest, p@)) by {
            assert(rest.subrange(0, 7) =~= cs@.subrange(i as int, i + 7));
        }
        assert(rest.subrange(7, rest.len() as int) =~= cs@.subrange(i + 7, cs@.len() as int));
        i = i + 7;
    }
    let ghost rest = cs@.subrange(i as int, cs@.len() as int);
    if cs.len() - i >= 7 {
        assert(!starts_with(rest, p@)) by {
            assert(rest.subrange(0, 7) =~= cs@.subrange(i as int, i + 7));
        }
    } else {
        assert(!starts_with(rest, p@));
    }
    let mut r = String::new();
    let mut k: usize = i;
    while k < cs.len()
        invariant
            i <= k <= cs@.len(),
            r@ == cs@.subrange(i as int, k as int),
        decreases cs@.len() - k,
    {
        crate::text::push_char(&mut r, cs[k]);
        k = k + 1;
        assert(r@ =~= cs@.subrange(i as int, k as int));
    }
    r
}

impl BootcRootBuilder {
    /// The tag of the derivation: the image's name with the tag `katsu-deriv`.
    pub fn deriv_tag(&self) -> (r: String)
        ensures
            r@ == deriv_tag(self.image@),
    {
        let mut r = text_before(self.image.as_str(), ':');
        push_str(&mut r, ":katsu-deriv");
        r
    }

    /// The images to embed into the root's container store: the image itself
    /// first when it is embedded, then the extra images.
    pub fn images_to_embed(&self) -> (r: Vec<String>)
        ensures
            string_views(r@) == (if self.embed_image { seq![self.image@] } else { Seq::<Seq<char>>::empty() })
                + string_views(self.embed_extra_images@),
    {
        let mut r = clone_strings(&self.embed_extra_images);
        if self.embed_image {
            let ghost r0 = r@;
            r.insert(0, self.image.clone());
            assert(string_views(r@) =~= seq![self.image@] + string_views(r0));
        } else {
            assert(string_views(r@) =~= Seq::<Seq<char>>::empty() + string_views(r@));
        }
        r
    }

    /// The `podman build` command that builds the derivation `derivation`:
    /// `podman build -t <image>:katsu-deriv --build-arg DERIVE_FROM=<image> -f <derivation> <context>`,
    /// the context being `.` unless one is set.
    pub fn build_command(&self, derivation: &str) -> (r: Vec<String>)
        ensures
            string_views(r@) == seq!["podman"@, "build"@, "-t"@, deriv_tag(self.image@),
                "--build-arg"@, "DERIVE_FROM="@ + self.image@, "-f"@, derivation@,
                match self.context { Some(c) => c@, None => "."@ }],
    {
        let mut r: Vec<String> = Vec::new();
        push_args(&mut r, &["podman", "build", "-t"]);
        assert(string_views(r@) =~= seq!["podman"@, "build"@, "-t"@]);
        let tag = self.deriv_tag();
        assert(tag@ == deriv_tag(self.image@));
        let ghost r0 = r@;
        r.push(tag);
        assert(string_views(r@) =~= string_views(r0).push(deriv_tag(self.image@)));
        assert(string_views(r@) =~= seq!["podman"@, "build"@, "-t"@, deriv_tag(self.image@)]);
        push_args(&mut r, &["--build-arg"]);
        assert(string_views(r@) =~= seq!["podman"@, "build"@, "-t"@, deriv_tag(self.image@), "--build-arg"@]);
        let mut d = string_of("DERIVE_FROM=");
        push_str(&mut d, self.image.as_str());
        r.push(d);
        r.push(string_of("-f"));
        r.push(string_of(derivation));
        match &self.context {
            Some(c) => r.push(c.clone()),
            None => r.push(string_of(".")),
        }
        assert(string_views(r@) =~= seq!["podman"@, "build"@, "-t"@, deriv_tag(self.image@),
            "--build-arg"@, "DERIVE_FROM="@ + self.image@, "-f"@, derivation@,
            match self.context { Some(c) => c@, None => "."@ }]);
        r
    }
}

/// The name of the container made from an image with digest `digest`.
pub fn container_name(digest: &str) -> (r: String)
    ensures
        r@ == container_name_spec(digest@),
{
    let t = trim_sha256(digest);
    let short = truncate_to(t.as_str(), 7);
    proof {
        crate::cfg::auth::lemma_chars_within(t@, 7);
    }
    let mut r = string_of("katsu-");
    if utf8_len_of(short.as_str()) == 7 {
        push_str(&mut r, short.as_str());
    } else {
        push_str(&mut r, "unknown");
    }
    r
}

/// The number of bytes UTF-8 takes for `s`, when it is at most 8.
fn utf8_len_of(s: &str) -> (n: usize)
    requires
        utf8_len(s@) <= 8,
    ensures
        n == utf8_len(s@),
{
    let cs = chars_of(s);
    let mut n: usize = 0;
    let mut i: usize = 0;
    while i < cs.len()
        invariant
            cs@ == s@,
            i <= cs@.len(),
            n == utf8_len(cs@.subrange(0, i as int)),
            utf8_len(s@) <= 8,
        decreases cs@.len() - i,
    {
        proof {
            crate::cfg::auth::lemma_utf8_len_prefix(s@, i + 1);
        }
        assert(cs@.subrange(0, i + 1).drop_last() =~= cs@.subrange(0, i as int));
        n = n + crate::cfg::auth::utf8_width_of(cs[i]);
        i = i + 1;
    }
    assert(cs@.subrange(0, i as int) =~= s@);
    n
}

/// The image name that an image is copied to in the root's container store:
/// the image without its digest (what comes before `@`).
pub fn dest_image(image: &str) -> (r: String)
    ensures
        r@ == before_char(image@, '@'),
{
    text_before(image, '@')
}

} // verus!
