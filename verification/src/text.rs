//! Character-level helpers on `String`/`&str`, stated over their `Seq<char>` views.
use vstd::prelude::*;

verus! {

/// Appends one character to a `String` (std's `String::push`).
#[verifier::external_body]
pub(crate) fn push_char(s: &mut String, c: char)
    ensures
        final(s)@ == old(s)@.push(c),
{
    s.push(c);
}

/// The characters of a string slice, as a vector.
pub fn chars_of(s: &str) -> (v: Vec<char>)
    ensures
        v@ == s@,
{
    let mut v: Vec<char> = Vec::new();
    for c in it: s.chars()
        invariant
            v@ == it.seq().take(it.index() as int),
    {
        v.push(c);
    }
    v
}

} // verus!

verus! {

/// The character of a decimal digit `d` (`0 <= d < 10`).
pub open spec fn digit_char(d: nat) -> char {
    ((d + 48) as u32) as char
}

/// The decimal representation of `n`, without sign or leading zeros.
pub open spec fn decimal(n: nat) -> Seq<char>
    decreases n,
{
    if n < 10 {
        seq![digit_char(n)]
    } else {
        decimal(n / 10).push(digit_char(n % 10))
    }
}

/// Appends the decimal representation of `n` to `s`.
pub fn push_decimal(s: &mut String, n: u64)
    ensures
        final(s)@ == old(s)@ + decimal(n as nat),
    decreases n,
{
    if n >= 10 {
        push_decimal(s, n / 10);
    }
    let d: u8 = (n % 10) as u8;
    let c: char = (d + 48u8) as char;
    push_char(s, c);
    assert(final(s)@ =~= old(s)@ + decimal(n as nat));
}

} // verus!

verus! {

/// `s` begins with `p`.
pub open spec fn starts_with(s: Seq<char>, p: Seq<char>) -> bool {
    p.len() <= s.len() && s.subrange(0, p.len() as int) == p
}

/// Whether the characters `s` begin with the characters `p`.
pub fn vec_starts_with(s: &Vec<char>, p: &Vec<char>) -> (r: bool)
    ensures
        r == starts_with(s@, p@),
{
    if p.len() > s.len() {
        return false;
    }
    let mut i: usize = 0;
    while i < p.len()
        invariant
            p@.len() <= s@.len(),
            i <= p@.len(),
            forall|j: int| 0 <= j < i ==> s@[j] == p@[j],
        decreases p@.len() - i,
    {
        if s[i] != p[i] {
            assert(s@.subrange(0, p@.len() as int)[i as int] != p@[i as int]);
            return false;
        }
        i = i + 1;
    }
    assert(s@.subrange(0, p@.len() as int) =~= p@);
    true
}

/// Whether the string slice `s` begins with the string slice `p`.
pub fn str_starts_with(s: &str, p: &str) -> (r: bool)
    ensures
        r == starts_with(s@, p@),
{
    let sv = chars_of(s);
    let pv = chars_of(p);
    vec_starts_with(&sv, &pv)
}

/// A new `String` holding the characters of `s`.
pub fn string_of(s: &str) -> (r: String)
    ensures
        r@ == s@,
{
    let mut r = String::new();
    let v = chars_of(s);
    let mut i: usize = 0;
    while i < v.len()
        invariant
            v@ == s@,
            i <= v@.len(),
            r@ == v@.subrange(0, i as int),
        decreases v@.len() - i,
    {
        push_char(&mut r, v[i]);
        i = i + 1;
        assert(r@ =~= v@.subrange(0, i as int));
    }
    assert(v@.subrange(0, v@.len() as int) =~= v@);
    r
}

/// Appends the characters of `p` to `s`.
pub fn push_str(s: &mut String, p: &str)
    ensures
        final(s)@ == old(s)@ + p@,
{
    let v = chars_of(p);
    let mut i: usize = 0;
    while i < v.len()
        invariant
            v@ == p@,
            i <= v@.len(),
            s@ == old(s)@ + v@.subrange(0, i as int),
        decreases v@.len() - i,
    {
        push_char(s, v[i]);
        i = i + 1;
        assert(s@ =~= old(s)@ + v@.subrange(0, i as int));
    }
    assert(v@.subrange(0, v@.len() as int) =~= v@);
}

} // verus!

verus! {

/// Whether two character vectors are equal.
pub fn vec_eq(a: &Vec<char>, b: &Vec<char>) -> (r: bool)
    ensures
        r == (a@ == b@),
{
    if a.len() != b.len() {
        return false;
    }
    let mut i: usize = 0;
    while i < a.len()
        invariant
            a@.len() == b@.len(),
            i <= a@.len(),
            forall|j: int| 0 <= j < i ==> a@[j] == b@[j],
        decreases a@.len() - i,
    {
        if a[i] != b[i] {
            return false;
        }
        i = i + 1;
    }
    assert(a@ =~= b@);
    true
}

/// Whether two string slices hold the same characters.
pub fn str_eq(a: &str, b: &str) -> (r: bool)
    ensures
        r == (a@ == b@),
{
    let av = chars_of(a);
    let bv = chars_of(b);
    vec_eq(&av, &bv)
}

/// `s` without all leading occurrences of `c`.
pub open spec fn trim_start_char(s: Seq<char>, c: char) -> Seq<char>
    decreases s.len(),
{
    if s.len() > 0 && s[0] == c {
        trim_start_char(s.drop_first(), c)
    } else {
        s
    }
}

/// `s` without all trailing occurrences of `c`.
pub open spec fn trim_end_char(s: Seq<char>, c: char) -> Seq<char>
    decreases s.len(),
{
    if s.len() > 0 && s.last() == c {
        trim_end_char(s.drop_last(), c)
    } else {
        s
    }
}

/// The number of occurrences of `c` in `s`.
pub open spec fn count_char(s: Seq<char>, c: char) -> nat
    decreases s.len(),
{
    if s.len() == 0 {
        0
    } else {
        count_char(s.drop_last(), c) + (if s.last() == c { 1nat } else { 0nat })
    }
}

/// A `String` holding `s` without its leading occurrences of `c`.
pub fn string_trim_start(s: &str, c: char) -> (r: String)
    ensures
        r@ == trim_start_char(s@, c),
{
    let v = chars_of(s);
    let mut i: usize = 0;
    assert(v@.subrange(0, v@.len() as int) =~= v@);
    while i < v.len() && v[i] == c
        invariant
            v@ == s@,
            i <= v@.len(),
            trim_start_char(v@.subrange(i as int, v@.len() as int), c) == trim_start_char(s@, c),
        decreases v@.len() - i,
    {
        assert(v@.subrange(i as int, v@.len() as int).drop_first() =~= v@.subrange(
            i + 1,
            v@.len() as int,
        ));
        i = i + 1;
    }
    let mut r = String::new();
    let mut j: usize = i;
    while j < v.len()
        invariant
            v@ == s@,
            i <= j <= v@.len(),
            r@ == v@.subrange(i as int, j as int),
        decreases v@.len() - j,
    {
        push_char(&mut r, v[j]);
        j = j + 1;
        assert(r@ =~= v@.subrange(i as int, j as int));
    }
    r
}

/// The number of occurrences of `c` in `s` once its trailing occurrences of `t` are removed.
pub fn count_char_trimmed_end(s: &str, t: char, c: char) -> (n: usize)
    ensures
        n as nat == count_char(trim_end_char(s@, t), c),
{
    let v = chars_of(s);
    let mut end: usize = v.len();
    assert(v@.subrange(0, v@.len() as int) =~= v@);
    while end > 0 && v[end - 1] == t
        invariant
            v@ == s@,
            end <= v@.len(),
            trim_end_char(v@.subrange(0, end as int), t) == trim_end_char(s@, t),
        decreases end,
    {
        assert(v@.subrange(0, end as int).drop_last() =~= v@.subrange(0, end - 1));
        end = end - 1;
    }
    assert(v@.subrange(0, end as int) =~= v@.subrange(0, end as int));
    assert(trim_end_char(v@.subrange(0, end as int), t) == v@.subrange(0, end as int));
    let mut n: usize = 0;
    let mut j: usize = 0;
    while j < end
        invariant
            v@ == s@,
            j <= end <= v@.len(),
            n as nat == count_char(v@.subrange(0, j as int), c),
            n <= j,
        decreases end - j,
    {
        assert(v@.subrange(0, j + 1).drop_last() =~= v@.subrange(0, j as int));
        if v[j] == c {
            n = n + 1;
        }
        j = j + 1;
    }
    n
}

/// Pieces of `s` between occurrences of `c` (as `str::split` with a `char` pattern).
pub open spec fn split_char(s: Seq<char>, c: char) -> Seq<Seq<char>>
    decreases s.len(),
{
    if s.len() == 0 {
        seq![Seq::<char>::empty()]
    } else {
        let init = split_char(s.drop_last(), c);
        if s.last() == c {
            init.push(Seq::<char>::empty())
        } else {
            init.update(init.len() - 1, init.last().push(s.last()))
        }
    }
}

/// `split_char` never yields an empty list of pieces.
pub proof fn lemma_split_char_nonempty(s: Seq<char>, c: char)
    ensures
        split_char(s, c).len() >= 1,
    decreases s.len(),
{
    if s.len() > 0 {
        lemma_split_char_nonempty(s.drop_last(), c);
    }
}

/// The views of a vector of strings.
pub open spec fn string_views(v: Seq<String>) -> Seq<Seq<char>> {
    v.map_values(|x: String| x@)
}

/// Splits `s` at every occurrence of `c`.
pub fn split_by_char(s: &str, c: char) -> (r: Vec<String>)
    ensures
        string_views(r@) == split_char(s@, c),
{
    let v = chars_of(s);
    let mut pieces: Vec<String> = Vec::new();
    let mut cur = String::new();
    let mut i: usize = 0;
    proof {
        assert(v@.subrange(0, 0) =~= Seq::<char>::empty());
    }
    while i < v.len()
        invariant
            v@ == s@,
            i <= v@.len(),
            string_views(pieces@).push(cur@) == split_char(v@.subrange(0, i as int), c),
        decreases v@.len() - i,
    {
        let ghost pre = v@.subrange(0, i as int);
        assert(v@.subrange(0, i + 1).drop_last() =~= pre);
        proof {
            lemma_split_char_nonempty(pre, c);
        }
        if v[i] == c {
            let done = cur;
            pieces.push(done);
            cur = String::new();
            assert(string_views(pieces@).push(cur@) =~= split_char(v@.subrange(0, i + 1), c));
        } else {
            push_char(&mut cur, v[i]);
            assert(string_views(pieces@).push(cur@) =~= split_char(v@.subrange(0, i + 1), c));
        }
        i = i + 1;
    }
    assert(v@.subrange(0, v@.len() as int) =~= v@);
    pieces.push(cur);
    assert(string_views(pieces@) =~= split_char(s@, c));
    pieces
}

/// The pieces `ps` joined with `sep` between each two.
pub open spec fn join(ps: Seq<Seq<char>>, sep: Seq<char>) -> Seq<char>
    decreases ps.len(),
{
    if ps.len() == 0 {
        Seq::<char>::empty()
    } else if ps.len() == 1 {
        ps[0]
    } else {
        join(ps.drop_last(), sep) + sep + ps.last()
    }
}

/// Joins the strings of `v` with `sep` between each two.
pub fn join_strings(v: &Vec<String>, sep: &str) -> (r: String)
    ensures
        r@ == join(string_views(v@), sep@),
{
    let mut r = String::new();
    let mut i: usize = 0;
    while i < v.len()
        invariant
            i <= v@.len(),
            r@ == join(string_views(v@.subrange(0, i as int)), sep@),
        decreases v@.len() - i,
    {
        assert(string_views(v@.subrange(0, i + 1)).drop_last() =~= string_views(
            v@.subrange(0, i as int),
        ));
        if i > 0 {
            push_str(&mut r, sep);
        }
        push_str(&mut r, v[i].as_str());
        i = i + 1;
        assert(r@ =~= join(string_views(v@.subrange(0, i as int)), sep@));
    }
    assert(v@.subrange(0, v@.len() as int) =~= v@);
    r
}

} // verus!

verus! {

/// A copy of an optional string.
pub fn clone_opt_string(o: &Option<String>) -> (r: Option<String>)
    ensures
        r == *o,
{
    match o {
        Some(s) => Some(s.clone()),
        None => None,
    }
}

/// A copy of a vector of strings.
pub fn clone_strings(v: &Vec<String>) -> (r: Vec<String>)
    ensures
        r@ == v@,
{
    let mut r: Vec<String> = Vec::new();
    let mut i: usize = 0;
    while i < v.len()
        invariant
            i <= v@.len(),
            r@ == v@.subrange(0, i as int),
        decreases v@.len() - i,
    {
        r.push(v[i].clone());
        i = i + 1;
        assert(r@ =~= v@.subrange(0, i as int));
    }
    assert(v@.subrange(0, v@.len() as int) =~= v@);
    r
}

} // verus!

verus! {

/// `s` without any occurrence of `c`.
pub open spec fn remove_char(s: Seq<char>, c: char) -> Seq<char>
    decreases s.len(),
{
    if s.len() == 0 {
        s
    } else {
        remove_char(s.drop_last(), c) + if s.last() == c { Seq::<char>::empty() } else { seq![s.last()] }
    }
}

/// A copy of `s` with every occurrence of `c` removed.
pub fn string_without(s: &str, c: char) -> (r: String)
    ensures
        r@ == remove_char(s@, c),
{
    let cs = chars_of(s);
    let mut r = String::new();
    let mut i: usize = 0;
    while i < cs.len()
        invariant
            i <= cs@.len(),
            cs@ == s@,
            r@ == remove_char(cs@.subrange(0, i as int), c),
        decreases cs@.len() - i,
    {
        if cs[i] != c {
            push_char(&mut r, cs[i]);
        }
        i = i + 1;
        assert(cs@.subrange(0, i as int).drop_last() =~= cs@.subrange(0, i - 1));
        assert(r@ =~= remove_char(cs@.subrange(0, i as int), c));
    }
    assert(cs@.subrange(0, cs@.len() as int) =~= cs@);
    r
}

/// The views of a list of commands, each a list of arguments.
pub open spec fn commands_view(v: Seq<Vec<String>>) -> Seq<Seq<Seq<char>>> {
    v.map_values(|c: Vec<String>| string_views(c@))
}

} // verus!

verus! {

/// `rel` appended to the path `base`, with a `/` between them unless `base`
/// is empty or already ends with one (how `PathBuf::push` joins a relative path).
pub open spec fn join_path(base: Seq<char>, rel: Seq<char>) -> Seq<char> {
    if base.len() == 0 || base.last() == '/' { base + rel } else { base + "/"@ + rel }
}

/// The path `base` joined with the relative path `rel`.
pub fn path_join(base: &str, rel: &str) -> (r: String)
    ensures
        r@ == join_path(base@, rel@),
{
    let cs = chars_of(base);
    let mut r = string_of(base);
    if cs.len() > 0 && cs[cs.len() - 1] != '/' {
        push_str(&mut r, "/");
    }
    push_str(&mut r, rel);
    r
}

} // verus!

verus! {

/// `s` holds `p` somewhere.
pub open spec fn contains_seq(s: Seq<char>, p: Seq<char>) -> bool {
    exists|i: int| 0 <= i <= s.len() - p.len() && #[trigger] s.subrange(i, i + p.len()) == p
}

/// Whether `p` occurs in `s` at position `i`.
pub fn occurs_at(s: &Vec<char>, p: &Vec<char>, i: usize) -> (r: bool)
    requires
        i + p@.len() <= s@.len(),
    ensures
        r == (s@.subrange(i as int, i + p@.len()) == p@),
{
    let n = s.len();
    let mut k: usize = 0;
    while k < p.len()
        invariant
            n == s@.len(),
            i + p@.len() <= s@.len(),
            k <= p@.len(),
            forall|j: int| 0 <= j < k ==> s@[i + j] == p@[j],
        decreases p@.len() - k,
    {
        if s[i + k] != p[k] {
            assert(s@.subrange(i as int, i + p@.len())[k as int] != p@[k as int]);
            return false;
        }
        k = k + 1;
    }
    assert(s@.subrange(i as int, i + p@.len()) =~= p@);
    true
}

/// Whether `p` occurs in `s`.
pub fn str_contains(s: &str, p: &str) -> (r: bool)
    ensures
        r == contains_seq(s@, p@),
{
    let sc = chars_of(s);
    let pc = chars_of(p);
    if pc.len() > sc.len() {
        return false;
    }
    let last = sc.len() - pc.len();
    let mut i: usize = 0;
    loop
        invariant
            sc@ == s@,
            pc@ == p@,
            pc@.len() <= sc@.len(),
            last == sc@.len() - pc@.len(),
            i <= last,
            forall|j: int| 0 <= j < i ==> #[trigger] s@.subrange(j, j + p@.len()) != p@,
        decreases last - i,
    {
        if occurs_at(&sc, &pc, i) {
            return true;
        }
        if i == last {
            return false;
        }
        i = i + 1;
    }
}

} // verus!

verus! {

/// Appends the given arguments to a command.
pub fn push_args(v: &mut Vec<String>, items: &[&str])
    ensures
        string_views(final(v)@) == string_views(old(v)@) + items@.map_values(|a: &str| a@),
{
    let ghost v0 = string_views(v@);
    let mut i: usize = 0;
    while i < items.len()
        invariant
            i <= items@.len(),
            string_views(v@) == v0 + items@.subrange(0, i as int).map_values(|a: &str| a@),
        decreases items@.len() - i,
    {
        let ghost before = string_views(v@);
        v.push(string_of(items[i]));
        assert(string_views(v@) =~= before.push(items@[i as int]@));
        i = i + 1;
        assert(items@.subrange(0, i as int).map_values(|a: &str| a@) =~= items@.subrange(0, i - 1).map_values(|a: &str| a@).push(items@[i - 1]@));
        assert(string_views(v@) =~= v0 + items@.subrange(0, i as int).map_values(|a: &str| a@));
    }
    assert(items@.subrange(0, items@.len() as int) =~= items@);
}

} // verus!

verus! {

/// Whether `c` has the Unicode `White_Space` property (as `char::is_whitespace`).
pub open spec fn is_space(c: char) -> bool {
    let n = c as u32;
    ||| 0x9 <= n <= 0xd
    ||| n == 0x20
    ||| n == 0x85
    ||| n == 0xa0
    ||| n == 0x1680
    ||| 0x2000 <= n <= 0x200a
    ||| n == 0x2028
    ||| n == 0x2029
    ||| n == 0x202f
    ||| n == 0x205f
    ||| n == 0x3000
}

/// Whether `c` is a whitespace character.
pub fn is_space_char(c: char) -> (r: bool)
    ensures
        r == is_space(c),
{
    let n = c as u32;
    (0x9 <= n && n <= 0xd) || n == 0x20 || n == 0x85 || n == 0xa0 || n == 0x1680 || (0x2000
        <= n && n <= 0x200a) || n == 0x2028 || n == 0x2029 || n == 0x202f || n == 0x205f || n
        == 0x3000
}

/// The maximal runs of non-whitespace characters of `s`, in order (as
/// `str::split_whitespace`).
pub open spec fn words(s: Seq<char>) -> Seq<Seq<char>>
    decreases s.len(),
{
    if s.len() == 0 {
        Seq::<Seq<char>>::empty()
    } else {
        let init = words(s.drop_last());
        if is_space(s.last()) {
            init
        } else if s.len() >= 2 && !is_space(s[s.len() - 2]) {
            init.update(init.len() - 1, init.last().push(s.last()))
        } else {
            init.push(seq![s.last()])
        }
    }
}

/// Splits `s` into its words.
pub fn split_words(s: &str) -> (r: Vec<String>)
    ensures
        string_views(r@) == words(s@),
{
    let v = chars_of(s);
    let mut out: Vec<String> = Vec::new();
    let mut cur = String::new();
    let mut in_word = false;
    let mut i: usize = 0;
    assert(v@.subrange(0, 0) =~= Seq::<char>::empty());
    while i < v.len()
        invariant
            v@ == s@,
            i <= v@.len(),
            in_word == (i > 0 && !is_space(v@[i - 1])),
            in_word ==> string_views(out@).push(cur@) == words(v@.subrange(0, i as int)),
            !in_word ==> string_views(out@) == words(v@.subrange(0, i as int)),
        decreases v@.len() - i,
    {
        let ghost pre = v@.subrange(0, i as int);
        let ghost next = v@.subrange(0, i + 1);
        assert(next.drop_last() =~= pre);
        assert(next.last() == v@[i as int]);
        let c = v[i];
        if is_space_char(c) {
            if in_word {
                let done = cur;
                out.push(done);
                cur = String::new();
            }
            in_word = false;
            assert(string_views(out@) =~= words(next));
        } else {
            if in_word {
                assert(next[next.len() - 2] == v@[i - 1]);
                push_char(&mut cur, c);
                assert(string_views(out@).push(cur@) =~= words(next));
            } else {
                cur = String::new();
                push_char(&mut cur, c);
                assert(string_views(out@).push(cur@) =~= words(next));
            }
            in_word = true;
        }
        i = i + 1;
    }
    assert(v@.subrange(0, v@.len() as int) =~= v@);
    if in_word {
        out.push(cur);
        assert(string_views(out@) =~= words(s@));
    }
    out
}

/// The lines of `s`: its pieces between newlines, without the empty piece
/// after a final newline (as `str::lines`, up to the `\r` that `str::lines`
/// takes off a line's end, which is whitespace and no part of any word).
pub open spec fn text_lines(s: Seq<char>) -> Seq<Seq<char>> {
    let p = split_char(s, '\n');
    if p.last().len() == 0 {
        p.drop_last()
    } else {
        p
    }
}

/// Splits `s` into its lines.
pub fn split_lines(s: &str) -> (r: Vec<String>)
    ensures
        string_views(r@) == text_lines(s@),
{
    let mut p = split_by_char(s, '\n');
    proof {
        lemma_split_char_nonempty(s@, '\n');
    }
    let n = p.len();
    let last = chars_of(p[n - 1].as_str());
    if last.len() == 0 {
        p.pop();
        assert(string_views(p@) =~= text_lines(s@));
    }
    p
}

} // verus!
