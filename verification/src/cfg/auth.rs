//! Users of the image.
use vstd::prelude::*;
use crate::text::{chars_of, decimal, push_char, push_decimal, push_str, string_of};

verus! {

/// The default of settings that are on unless turned off.
pub fn _default_true() -> (r: bool)
    ensures
        r,
{
    true
}

/// Image default users configuration
pub struct Auth {
    /// Username for the user
    pub username: String,
    /// Passwords are optional, but heavily recommended.
    /// Passwords must be hashed with crypt(3) or mkpasswd(1)
    pub password: Option<String>,
    /// Groups to add the user to
    pub groups: Vec<String>,
    /// Whether to create a home directory for the user (defaults to true)
    pub create_home: bool,
    /// Shell for the user
    pub shell: Option<String>,
    /// UID for the user
    pub uid: Option<u32>,
    /// GID for the user
    pub gid: Option<u32>,
    /// SSH keys for the user, written to `~/.ssh/authorized_keys`
    pub ssh_keys: Vec<String>,
}

/// The number of bytes UTF-8 takes for `c`.
pub open spec fn utf8_width(c: char) -> nat {
    if (c as u32) < 0x80 {
        1
    } else if (c as u32) < 0x800 {
        2
    } else if (c as u32) < 0x10000 {
        3
    } else {
        4
    }
}

/// The number of bytes UTF-8 takes for `s`.
pub open spec fn utf8_len(s: Seq<char>) -> nat
    decreases s.len(),
{
    if s.len() == 0 {
        0
    } else {
        utf8_len(s.drop_last()) + utf8_width(s.last())
    }
}

/// The number of leading characters of `s` that fit in `n` bytes.
pub open spec fn chars_within(s: Seq<char>, n: int) -> nat
    decreases s.len(),
{
    if s.len() == 0 || n < utf8_width(s[0]) {
        0
    } else {
        1 + chars_within(s.drop_first(), n - utf8_width(s[0]))
    }
}

/// `s` cut to its first `n` bytes (all of it when it is shorter).
pub open spec fn truncate_bytes(s: Seq<char>, n: int) -> Seq<char> {
    s.subrange(0, chars_within(s, n) as int)
}

/// Cutting `s` to `n` bytes falls between two characters: `s` is at most `n`
/// bytes long, or its first characters take exactly `n` bytes.
pub open spec fn cut_on_boundary(s: Seq<char>, n: int) -> bool {
    utf8_len(s) <= n || utf8_len(truncate_bytes(s, n)) == n
}

/// The byte count of `s` is that of its first character and of the rest.
pub proof fn lemma_utf8_len_first(s: Seq<char>)
    requires
        s.len() > 0,
    ensures
        utf8_len(s) == utf8_width(s[0]) + utf8_len(s.drop_first()),
    decreases s.len(),
{
    if s.len() > 1 {
        lemma_utf8_len_first(s.drop_last());
        assert(s.drop_last().drop_first() =~= s.drop_first().drop_last());
        assert(s.drop_first().last() == s.last());
        assert(s.drop_last()[0] == s[0]);
    } else {
        assert(s.drop_first().len() == 0);
        assert(s.drop_last().len() == 0);
        assert(s.last() == s[0]);
        assert(utf8_len(s.drop_first()) == 0);
        assert(utf8_len(s.drop_last()) == 0);
    }
}

/// What fits in `n` bytes: a prefix of `s` of at most `n` bytes, all of `s`
/// when `s` fits.
pub proof fn lemma_chars_within(s: Seq<char>, n: int)
    requires
        n >= 0,
    ensures
        chars_within(s, n) <= s.len(),
        utf8_len(truncate_bytes(s, n)) <= n,
        utf8_len(s) <= n ==> chars_within(s, n) == s.len(),
        chars_within(s, n) < s.len() ==> utf8_len(truncate_bytes(s, n)) + utf8_width(s[chars_within(s, n) as int]) > n,
    decreases s.len(),
{
    if s.len() > 0 {
        lemma_utf8_len_first(s);
        if n >= utf8_width(s[0]) {
            let t = s.drop_first();
            lemma_chars_within(t, n - utf8_width(s[0]));
            let p = truncate_bytes(s, n);
            assert(p.len() > 0);
            lemma_utf8_len_first(p);
            assert(p.drop_first() =~= truncate_bytes(t, n - utf8_width(s[0])));
            if chars_within(s, n) < s.len() {
                assert(s[chars_within(s, n) as int] == t[chars_within(t, n - utf8_width(s[0])) as int]);
            }
        } else {
            assert(truncate_bytes(s, n) =~= Seq::<char>::empty());
        }
    } else {
        assert(truncate_bytes(s, n) =~= Seq::<char>::empty());
    }
}

} // verus!

verus! {

/// The number of bytes UTF-8 takes for `c`.
pub fn utf8_width_of(c: char) -> (w: usize)
    ensures
        w == utf8_width(c),
{
    let u = c as u32;
    if u < 0x80 {
        1
    } else if u < 0x800 {
        2
    } else if u < 0x10000 {
        3
    } else {
        4
    }
}

/// `s` cut to its first `n` bytes, that is, to the characters that fit in them.
pub fn truncate_to(s: &str, n: usize) -> (r: String)
    ensures
        r@ == truncate_bytes(s@, n as int),
{
    let cs = chars_of(s);
    let mut r = String::new();
    let mut used: usize = 0;
    let mut i: usize = 0;
    assert(cs@.subrange(0, cs@.len() as int) =~= s@);
    while i < cs.len()
        invariant_except_break
            i <= cs@.len(),
            cs@ == s@,
            used <= n,
            r@ == cs@.subrange(0, i as int),
            chars_within(s@, n as int) == i + chars_within(cs@.subrange(i as int, cs@.len() as int), n - used),
        ensures
            r@ == truncate_bytes(s@, n as int),
        decreases cs@.len() - i,
    {
        let c = cs[i];
        let w = utf8_width_of(c);
        let ghost rest = cs@.subrange(i as int, cs@.len() as int);
        assert(rest[0] == c);
        if w > n - used {
            assert(chars_within(rest, n - used) == 0);
            break;
        }
        assert(rest.drop_first() =~= cs@.subrange(i + 1, cs@.len() as int));
        push_char(&mut r, c);
        used = used + w;
        i = i + 1;
        assert(r@ =~= cs@.subrange(0, i as int));
    }
    r
}

/// The `/etc/shadow` entry of a user: its nine fields are the name, the
/// password (empty when there is none) and seven empty fields (last change,
/// minimum and maximum age, warning, inactivity, expiry, reserved).
pub open spec fn shadow_line(a: Auth) -> Seq<char> {
    a.username@ + ":"@ + (match a.password { Some(p) => p@, None => Seq::<char>::empty() }) + ":::::::"@
}

impl Auth {
    /// Converts the Auth struct into a shadowdb entry (/etc/shadow), cut to
    /// 1024 bytes; the cut must fall between two characters.
    ///
    /// May be useful when one wants to write shadowdb manually
    /// instead of imperatively writing commands
    pub fn to_shadow(&self) -> (r: String)
        requires
            cut_on_boundary(shadow_line(*self), 1024),
        ensures
            r@ == truncate_bytes(shadow_line(*self), 1024),
    {
        let mut shadow = string_of(self.username.as_str());
        push_str(&mut shadow, ":");
        match &self.password {
            Some(p) => push_str(&mut shadow, p.as_str()),
            None => {},
        }
        push_str(&mut shadow, ":::::::");
        assert(shadow@ =~= shadow_line(*self));
        truncate_to(shadow.as_str(), 1024)
    }
}

/// A shadow entry is never longer than 1024 bytes, and is the start of the
/// full line: all of it when the line fits.
pub proof fn law_shadow_bounded(a: Auth)
    ensures
        utf8_len(truncate_bytes(shadow_line(a), 1024)) <= 1024,
        shadow_line(a).len() >= truncate_bytes(shadow_line(a), 1024).len(),
        truncate_bytes(shadow_line(a), 1024) == shadow_line(a).subrange(0, truncate_bytes(shadow_line(a), 1024).len() as int),
        utf8_len(shadow_line(a)) <= 1024 ==> truncate_bytes(shadow_line(a), 1024) == shadow_line(a),
{
    lemma_chars_within(shadow_line(a), 1024);
    assert(shadow_line(a).subrange(0, shadow_line(a).len() as int) =~= shadow_line(a));
}

} // verus!

verus! {

/// A flag followed by its value, when there is a value.
pub open spec fn flag_arg(flag: Seq<char>, v: Option<Seq<char>>) -> Seq<Seq<char>> {
    match v {
        Some(x) => seq![flag, x],
        None => Seq::empty(),
    }
}

/// The decimal text of an optional number.
pub open spec fn opt_decimal(v: Option<u32>) -> Option<Seq<char>> {
    match v {
        Some(x) => Some(decimal(x as nat)),
        None => None,
    }
}

/// The `useradd` arguments for a user: the name, then shell, uid and gid when
/// set, and `-m` when a home directory is made.
pub open spec fn add_user_spec(a: Auth) -> Seq<Seq<char>> {
    seq![a.username@]
        + flag_arg("-s"@, match a.shell { Some(s) => Some(s@), None => None })
        + flag_arg("-u"@, opt_decimal(a.uid))
        + flag_arg("-g"@, opt_decimal(a.gid))
        + (if a.create_home { seq!["-m"@] } else { Seq::empty() })
}

/// The decimal text of a number, as a new string.
pub fn decimal_string(n: u64) -> (r: String)
    ensures
        r@ == decimal(n as nat),
{
    let mut r = String::new();
    push_decimal(&mut r, n);
    assert(r@ =~= decimal(n as nat));
    r
}

impl Auth {
    /// The arguments of the `useradd` command that adds the user.
    pub fn add_user(&self) -> (r: Vec<String>)
        ensures
            crate::text::string_views(r@) == add_user_spec(*self),
    {
        let mut r: Vec<String> = Vec::new();
        r.push(self.username.clone());
        match &self.shell {
            Some(s) => {
                r.push(string_of("-s"));
                r.push(s.clone());
            },
            None => {},
        }
        match self.uid {
            Some(u) => {
                r.push(string_of("-u"));
                r.push(decimal_string(u as u64));
            },
            None => {},
        }
        match self.gid {
            Some(g) => {
                r.push(string_of("-g"));
                r.push(decimal_string(g as u64));
            },
            None => {},
        }
        if self.create_home {
            r.push(string_of("-m"));
        }
        assert(crate::text::string_views(r@) =~= add_user_spec(*self));
        r
    }
}

} // verus!

verus! {

/// A prefix of a text takes no more bytes than the text.
pub proof fn lemma_utf8_len_prefix(s: Seq<char>, k: int)
    requires
        0 <= k <= s.len(),
    ensures
        utf8_len(s.subrange(0, k)) <= utf8_len(s),
    decreases s.len() - k,
{
    if k < s.len() {
        lemma_utf8_len_prefix(s, k + 1);
        assert(s.subrange(0, k + 1).drop_last() =~= s.subrange(0, k));
    } else {
        assert(s.subrange(0, k) =~= s);
    }
}

} // verus!
