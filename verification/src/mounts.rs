//! The order in which partitions are mounted: `/` first, then from the least
//! nested mountpoint to the most nested, ties broken alphabetically.
use vstd::prelude::*;
use crate::text::{chars_of, count_char, count_char_trimmed_end, string_views, trim_end_char, vec_eq};

verus! {

/// Strict lexicographic order on character sequences, by code point.
/// For UTF-8 strings this agrees with the byte order of `str`'s `Ord`.
pub open spec fn lex_lt(a: Seq<char>, b: Seq<char>) -> bool
    decreases a.len(),
{
    if a.len() == 0 {
        b.len() > 0
    } else if b.len() == 0 {
        false
    } else if a[0] != b[0] {
        (a[0] as u32) < (b[0] as u32)
    } else {
        lex_lt(a.drop_first(), b.drop_first())
    }
}

/// No sequence is below itself.
pub proof fn lemma_lex_irreflexive(a: Seq<char>)
    ensures
        !lex_lt(a, a),
    decreases a.len(),
{
    if a.len() > 0 {
        lemma_lex_irreflexive(a.drop_first());
    }
}

/// `lex_lt` is transitive.
pub proof fn lemma_lex_transitive(a: Seq<char>, b: Seq<char>, c: Seq<char>)
    requires
        lex_lt(a, b),
        lex_lt(b, c),
    ensures
        lex_lt(a, c),
    decreases a.len(),
{
    if a.len() > 0 && b.len() > 0 && c.len() > 0 {
        if a[0] == b[0] && b[0] == c[0] {
            lemma_lex_transitive(a.drop_first(), b.drop_first(), c.drop_first());
        }
    }
}

/// Two different sequences are ordered one way or the other.
pub proof fn lemma_lex_total(a: Seq<char>, b: Seq<char>)
    requires
        a != b,
    ensures
        lex_lt(a, b) || lex_lt(b, a),
    decreases a.len(),
{
    if a.len() > 0 && b.len() > 0 {
        if a[0] == b[0] {
            if a.drop_first() == b.drop_first() {
                assert(a =~= seq![a[0]] + a.drop_first());
                assert(b =~= seq![b[0]] + b.drop_first());
            }
            lemma_lex_total(a.drop_first(), b.drop_first());
        } else {
            let x = a[0];
            let y = b[0];
            assert(x as u32 != y as u32) by {
                vstd::utf8::char_u32_cast(x, x as u32);
                vstd::utf8::char_u32_cast(y, y as u32);
            }
        }
    } else if a.len() == 0 && b.len() == 0 {
        assert(a =~= b);
    }
}

/// How deeply a mountpoint is nested: its `/` count once trailing `/` are removed.
pub open spec fn depth(mp: Seq<char>) -> nat {
    count_char(trim_end_char(mp, '/'), '/')
}

/// `a` is mounted before `b`: `/` comes first, then shallower mountpoints,
/// and among mountpoints of equal depth the alphabetically smaller one.
pub open spec fn mount_before(a: Seq<char>, b: Seq<char>) -> bool {
    if a == "/"@ {
        b != "/"@
    } else if b == "/"@ {
        false
    } else if depth(a) == depth(b) {
        lex_lt(a, b)
    } else {
        depth(a) < depth(b)
    }
}

/// `mount_before` is irreflexive.
pub proof fn lemma_before_irreflexive(a: Seq<char>)
    ensures
        !mount_before(a, a),
{
    lemma_lex_irreflexive(a);
}

/// `mount_before` is transitive.
pub proof fn lemma_before_transitive(a: Seq<char>, b: Seq<char>, c: Seq<char>)
    requires
        mount_before(a, b),
        mount_before(b, c),
    ensures
        mount_before(a, c),
{
    if a != "/"@ && b != "/"@ && c != "/"@ && depth(a) == depth(b) && depth(b) == depth(c) {
        lemma_lex_transitive(a, b, c);
    }
}

/// Two different mountpoints are ordered one way or the other.
pub proof fn lemma_before_total(a: Seq<char>, b: Seq<char>)
    requires
        a != b,
    ensures
        mount_before(a, b) || mount_before(b, a),
{
    lemma_lex_total(a, b);
}

/// `mount_before` is asymmetric.
pub proof fn lemma_before_asymmetric(a: Seq<char>, b: Seq<char>)
    requires
        mount_before(a, b),
    ensures
        !mount_before(b, a),
{
    if mount_before(b, a) {
        lemma_before_transitive(a, b, a);
        lemma_before_irreflexive(a);
    }
}

/// Whether `a` comes strictly before `b` in `lex_lt`.
pub fn lex_less(a: &Vec<char>, b: &Vec<char>) -> (r: bool)
    ensures
        r == lex_lt(a@, b@),
{
    let mut i: usize = 0;
    assert(a@.skip(0) =~= a@);
    assert(b@.skip(0) =~= b@);
    while i < a.len() && i < b.len() && a[i] == b[i]
        invariant
            i <= a@.len(),
            i <= b@.len(),
            lex_lt(a@, b@) == lex_lt(a@.skip(i as int), b@.skip(i as int)),
        decreases a@.len() - i,
    {
        assert(a@.skip(i as int).drop_first() =~= a@.skip(i + 1));
        assert(b@.skip(i as int).drop_first() =~= b@.skip(i + 1));
        i = i + 1;
    }
    if i == a.len() {
        i < b.len()
    } else if i == b.len() {
        false
    } else {
        let x = a[i];
        let y = b[i];
        (x as u32) < (y as u32)
    }
}

} // verus!

verus! {

/// Position `p` holds the first occurrence of its mountpoint.
pub open spec fn is_first(mps: Seq<Seq<char>>, p: int) -> bool {
    0 <= p < mps.len() && forall|q: int| 0 <= q < p ==> mps[q] != mps[p]
}

/// Position `p` holds the last occurrence of its mountpoint.
pub open spec fn is_last(mps: Seq<Seq<char>>, p: int) -> bool {
    0 <= p < mps.len() && forall|q: int| p < q < mps.len() ==> mps[q] != mps[p]
}

/// A mount-order entry `(index, source)`: `index` is one more than the first
/// position of the mountpoint, `source` the last position that holds it.
pub open spec fn mount_entry_ok(mps: Seq<Seq<char>>, e: (usize, usize)) -> bool {
    &&& 1 <= e.0
    &&& is_first(mps, e.0 - 1)
    &&& is_last(mps, e.1 as int)
    &&& mps[e.0 - 1] == mps[e.1 as int]
}

/// Positions `a` and `b` of `mps` hold the same mountpoint.
pub open spec fn same_mount(mps: Seq<Seq<char>>, a: int, b: int) -> bool {
    mps[a] == mps[b]
}

/// The mountpoint at position `p` of `mps` is held by some entry of `r`.
pub open spec fn covered(mps: Seq<Seq<char>>, r: Seq<(usize, usize)>, p: int) -> bool {
    exists|k: int| 0 <= k < r.len() && #[trigger] same_mount(mps, r[k].1 as int, p)
}

/// Every mountpoint of `mps` is held by some entry of `r`.
pub open spec fn mount_order_covers(mps: Seq<Seq<char>>, r: Seq<(usize, usize)>) -> bool {
    forall|p: int| 0 <= p < mps.len() ==> #[trigger] covered(mps, r, p)
}

/// The entries of `r` are in mount order.
pub open spec fn mount_order_sorted(mps: Seq<Seq<char>>, r: Seq<(usize, usize)>) -> bool {
    forall|k: int, l: int|
        0 <= k < l < r.len() ==> mount_before(mps[#[trigger] r[k].1 as int], mps[#[trigger] r[l].1 as int])
}

/// `r` is the mount order of the mountpoints `mps`.
pub open spec fn is_mount_order(mps: Seq<Seq<char>>, r: Seq<(usize, usize)>) -> bool {
    &&& forall|k: int| 0 <= k < r.len() ==> mount_entry_ok(mps, #[trigger] r[k])
    &&& mount_order_covers(mps, r)
    &&& mount_order_sorted(mps, r)
}

/// Per-mountpoint facts computed once: characters, whether it is `/`, and its depth.
struct MountKeys {
    chars: Vec<Vec<char>>,
    root: Vec<bool>,
    depth: Vec<usize>,
}

impl MountKeys {
    spec fn wf(&self, mps: Seq<Seq<char>>) -> bool {
        &&& self.chars@.len() == mps.len()
        &&& self.root@.len() == mps.len()
        &&& self.depth@.len() == mps.len()
        &&& forall|i: int| 0 <= i < mps.len() ==> #[trigger] self.chars@[i]@ == mps[i]
        &&& forall|i: int| 0 <= i < mps.len() ==> #[trigger] self.root@[i] == (mps[i] == "/"@)
        &&& forall|i: int| 0 <= i < mps.len() ==> #[trigger] self.depth@[i] as nat == depth(mps[i])
    }

    fn new(mps: &Vec<String>) -> (k: MountKeys)
        ensures
            k.wf(string_views(mps@)),
    {
        let mut k = MountKeys { chars: Vec::new(), root: Vec::new(), depth: Vec::new() };
        let ghost v = string_views(mps@);
        let mut i: usize = 0;
        while i < mps.len()
            invariant
                v == string_views(mps@),
                i <= mps@.len(),
                k.chars@.len() == i,
                k.root@.len() == i,
                k.depth@.len() == i,
                forall|j: int| 0 <= j < i ==> #[trigger] k.chars@[j]@ == v[j],
                forall|j: int| 0 <= j < i ==> #[trigger] k.root@[j] == (v[j] == "/"@),
                forall|j: int| 0 <= j < i ==> #[trigger] k.depth@[j] as nat == depth(v[j]),
            decreases mps@.len() - i,
        {
            let s = mps[i].as_str();
            k.chars.push(chars_of(s));
            k.root.push(crate::text::str_eq(s, "/"));
            k.depth.push(count_char_trimmed_end(s, '/', '/'));
            i = i + 1;
        }
        k
    }

    /// Whether the mountpoint at `i` is mounted before the one at `j`.
    fn before(&self, Ghost(mps): Ghost<Seq<Seq<char>>>, i: usize, j: usize) -> (r: bool)
        requires
            self.wf(mps),
            i < mps.len(),
            j < mps.len(),
        ensures
            r == mount_before(mps[i as int], mps[j as int]),
    {
        if self.root[i] {
            !self.root[j]
        } else if self.root[j] {
            false
        } else if self.depth[i] == self.depth[j] {
            lex_less(&self.chars[i], &self.chars[j])
        } else {
            self.depth[i] < self.depth[j]
        }
    }
}

/// One entry per distinct mountpoint of `v`, in order of first occurrence.
fn first_occurrences(keys: &MountKeys, Ghost(v): Ghost<Seq<Seq<char>>>) -> (entries: Vec<(usize, usize)>)
    requires
        keys.wf(v),
    ensures
        forall|k: int| 0 <= k < entries@.len() ==> mount_entry_ok(v, #[trigger] entries@[k]),
        mount_order_covers(v, entries@),
        forall|k: int, l: int|
            0 <= k < l < entries@.len() ==> !same_mount(v, (#[trigger] entries@[k]).1 as int, (#[trigger] entries@[l]).1 as int),
{
    let n = keys.chars.len();
    let mut entries: Vec<(usize, usize)> = Vec::new();
    // `w[q]` is the entry that holds the mountpoint at position `q`.
    let ghost mut w: Seq<int> = Seq::empty();
    let mut p: usize = 0;
    while p < n
        invariant
            keys.wf(v),
            n == v.len(),
            p <= n,
            w.len() == p,
            forall|k: int| 0 <= k < entries@.len() ==> mount_entry_ok(v, #[trigger] entries@[k]),
            forall|k: int| 0 <= k < entries@.len() ==> (#[trigger] entries@[k]).0 - 1 < p,
            forall|q: int|
                0 <= q < p ==> 0 <= #[trigger] w[q] < entries@.len() && same_mount(v, entries@[w[q]].1 as int, q),
            forall|k: int, l: int|
                0 <= k < l < entries@.len() ==> !same_mount(v, (#[trigger] entries@[k]).1 as int, (#[trigger] entries@[l]).1 as int),
        decreases n - p,
    {
        let mut f: usize = 0;
        while !vec_eq(&keys.chars[f], &keys.chars[p])
            invariant
                keys.wf(v),
                n == v.len(),
                p < n,
                f <= p,
                forall|q: int| 0 <= q < f ==> v[q] != v[p as int],
            decreases p - f,
        {
            f = f + 1;
        }
        let ghost old_entries = entries@;
        if f == p {
            let mut l: usize = n - 1;
            while !vec_eq(&keys.chars[l], &keys.chars[p])
                invariant
                    keys.wf(v),
                    n == v.len(),
                    p <= l < n,
                    forall|q: int| l < q < n ==> v[q] != v[p as int],
                decreases l - p,
            {
                l = l - 1;
            }
            let fl: usize = f + 1;
            entries.push((fl, l));
            proof {
                assert forall|k: int, m: int| 0 <= k < m < entries@.len() implies
                    !same_mount(v, (#[trigger] entries@[k]).1 as int, (#[trigger] entries@[m]).1 as int) by {
                    if m == old_entries.len() {
                        let e = old_entries[k];
                        assert(entries@[k] == e);
                        assert(mount_entry_ok(v, e));
                    } else {
                        assert(entries@[k] == old_entries[k]);
                        assert(entries@[m] == old_entries[m]);
                    }
                }
                w = w.push(old_entries.len() as int);
            }
        } else {
            proof {
                w = w.push(w[f as int]);
            }
        }
        p = p + 1;
    }
    proof {
        assert forall|q: int| 0 <= q < v.len() implies #[trigger] covered(v, entries@, q) by {
            let k = w[q];
            assert(same_mount(v, entries@[k].1 as int, q));
        }
    }
    entries
}

/// Inserts `x` into `out` at its place in mount order.
fn insert_in_mount_order(
    keys: &MountKeys,
    Ghost(v): Ghost<Seq<Seq<char>>>,
    out: &mut Vec<(usize, usize)>,
    x: (usize, usize),
)
    requires
        keys.wf(v),
        mount_entry_ok(v, x),
        forall|k: int| 0 <= k < old(out)@.len() ==> mount_entry_ok(v, #[trigger] old(out)@[k]),
        forall|k: int| 0 <= k < old(out)@.len() ==> v[x.1 as int] != v[(#[trigger] old(out)@[k]).1 as int],
        mount_order_sorted(v, old(out)@),
    ensures
        exists|pos: int| 0 <= pos <= old(out)@.len() && final(out)@ == old(out)@.insert(pos, x),
        forall|k: int| 0 <= k < final(out)@.len() ==> mount_entry_ok(v, #[trigger] final(out)@[k]),
        mount_order_sorted(v, final(out)@),
{
    let mut pos: usize = 0;
    while pos < out.len() && !keys.before(Ghost(v), x.1, out[pos].1)
        invariant
            keys.wf(v),
            mount_entry_ok(v, x),
            out@ == old(out)@,
            pos <= out@.len(),
            forall|k: int| 0 <= k < out@.len() ==> mount_entry_ok(v, #[trigger] out@[k]),
            forall|k: int| 0 <= k < pos ==> !mount_before(v[x.1 as int], v[(#[trigger] out@[k]).1 as int]),
        decreases out@.len() - pos,
    {
        pos = pos + 1;
    }
    let ghost old_out = out@;
    proof {
        assert forall|k: int| 0 <= k < pos implies mount_before(v[(#[trigger] old_out[k]).1 as int], v[x.1 as int]) by {
            lemma_before_total(v[old_out[k].1 as int], v[x.1 as int]);
        }
        if pos < old_out.len() {
            assert(mount_before(v[x.1 as int], v[old_out[pos as int].1 as int]));
            assert forall|k: int| pos <= k < old_out.len() implies mount_before(v[x.1 as int], v[(#[trigger] old_out[k]).1 as int]) by {
                if k > pos {
                    lemma_before_transitive(v[x.1 as int], v[old_out[pos as int].1 as int], v[old_out[k].1 as int]);
                }
            }
        }
    }
    out.insert(pos, x);
    proof {
        let no = out@;
        assert(no == old_out.insert(pos as int, x));
        assert forall|k: int, l: int| 0 <= k < l < no.len() implies mount_before(v[(#[trigger] no[k]).1 as int], v[(#[trigger] no[l]).1 as int]) by {
            if k < pos && l < pos {
                assert(no[k] == old_out[k] && no[l] == old_out[l]);
            } else if k < pos && l == pos {
            } else if k < pos {
                assert(no[l] == old_out[l - 1]);
                lemma_before_transitive(v[old_out[k].1 as int], v[x.1 as int], v[old_out[l - 1].1 as int]);
            } else if k == pos {
                assert(no[l] == old_out[l - 1]);
            } else {
                assert(no[k] == old_out[k - 1] && no[l] == old_out[l - 1]);
            }
        }
        assert forall|k: int| 0 <= k < no.len() implies mount_entry_ok(v, #[trigger] no[k]) by {
            if k < pos {
                assert(no[k] == old_out[k]);
            } else if k > pos {
                assert(no[k] == old_out[k - 1]);
            }
        }
    }
}

/// The mount order of the mountpoints `mps`: one entry per distinct mountpoint,
/// `(1 + position of its first occurrence, position of its last occurrence)`,
/// sorted by `mount_before`.
pub fn mount_order(mps: &Vec<String>) -> (r: Vec<(usize, usize)>)
    ensures
        is_mount_order(string_views(mps@), r@),
        r@ == mount_order_of(string_views(mps@)),
{
    let ghost v = string_views(mps@);
    let keys = MountKeys::new(mps);
    let entries = first_occurrences(&keys, Ghost(v));
    let mut out: Vec<(usize, usize)> = Vec::new();
    // `src[k]` is the entry placed at `out[k]`; `at[j]` is where entry `j` was placed.
    let ghost mut src: Seq<int> = Seq::empty();
    let ghost mut at: Seq<int> = Seq::empty();
    let mut i: usize = 0;
    while i < entries.len()
        invariant
            keys.wf(v),
            i <= entries@.len(),
            forall|k: int| 0 <= k < entries@.len() ==> mount_entry_ok(v, #[trigger] entries@[k]),
            forall|k: int, l: int|
                0 <= k < l < entries@.len() ==> !same_mount(v, (#[trigger] entries@[k]).1 as int, (#[trigger] entries@[l]).1 as int),
            mount_order_covers(v, entries@),
            forall|k: int| 0 <= k < out@.len() ==> mount_entry_ok(v, #[trigger] out@[k]),
            src.len() == out@.len(),
            at.len() == i,
            forall|k: int| 0 <= k < out@.len() ==> 0 <= #[trigger] src[k] < i && out@[k] == entries@[src[k]],
            forall|j: int| 0 <= j < i ==> 0 <= #[trigger] at[j] < out@.len() && out@[at[j]] == entries@[j],
            mount_order_sorted(v, out@),
        decreases entries@.len() - i,
    {
        let x = entries[i];
        let ghost old_out = out@;
        proof {
            assert forall|k: int| 0 <= k < old_out.len() implies v[x.1 as int] != v[(#[trigger] old_out[k]).1 as int] by {
                let j = src[k];
                assert(old_out[k] == entries@[j]);
                if j < i {
                    assert(!same_mount(v, entries@[j].1 as int, entries@[i as int].1 as int));
                }
            }
        }
        insert_in_mount_order(&keys, Ghost(v), &mut out, x);
        proof {
            let pos = choose|pos: int| 0 <= pos <= old_out.len() && out@ == old_out.insert(pos, x);
            let old_src = src;
            let old_at = at;
            src = old_src.insert(pos, i as int);
            at = Seq::new((i + 1) as nat, |j: int| if j == i { pos } else if old_at[j] >= pos { old_at[j] + 1 } else { old_at[j] });
            assert forall|k: int| 0 <= k < out@.len() implies 0 <= #[trigger] src[k] < i + 1 && out@[k] == entries@[src[k]] by {
                if k < pos {
                    assert(out@[k] == old_out[k]);
                    assert(src[k] == old_src[k]);
                } else if k > pos {
                    assert(out@[k] == old_out[k - 1]);
                    assert(src[k] == old_src[k - 1]);
                }
            }
            assert forall|j: int| 0 <= j < i + 1 implies 0 <= #[trigger] at[j] < out@.len() && out@[at[j]] == entries@[j] by {
                if j < i {
                    if old_at[j] >= pos {
                        assert(out@[old_at[j] + 1] == old_out[old_at[j]]);
                    } else {
                        assert(out@[old_at[j]] == old_out[old_at[j]]);
                    }
                }
            }
        }
        i = i + 1;
    }
    proof {
        assert forall|q: int| 0 <= q < v.len() implies #[trigger] covered(v, out@, q) by {
            assert(covered(v, entries@, q));
            let j = choose|j: int| 0 <= j < entries@.len() && #[trigger] same_mount(v, entries@[j].1 as int, q);
            let k = at[j];
            assert(same_mount(v, out@[k].1 as int, q));
        }
        lemma_mount_order_of(v, out@);
    }
    out
}

} // verus!

verus! {

/// Two entries that hold the same mountpoint are the same entry.
proof fn lemma_entry_determined(mps: Seq<Seq<char>>, e: (usize, usize), f: (usize, usize))
    requires
        mount_entry_ok(mps, e),
        mount_entry_ok(mps, f),
        same_mount(mps, e.1 as int, f.1 as int),
    ensures
        e == f,
{
    if e.0 < f.0 {
        assert(mps[e.0 - 1] == mps[f.0 - 1]);
    } else if f.0 < e.0 {
        assert(mps[e.0 - 1] == mps[f.0 - 1]);
    }
    if e.1 < f.1 {
        assert(mps[f.1 as int] == mps[e.1 as int]);
    } else if f.1 < e.1 {
        assert(mps[f.1 as int] == mps[e.1 as int]);
    }
}

/// Two sorted lists of the same entries are equal.
proof fn lemma_sorted_same_entries(mps: Seq<Seq<char>>, a: Seq<(usize, usize)>, b: Seq<(usize, usize)>)
    requires
        mount_order_sorted(mps, a),
        mount_order_sorted(mps, b),
        forall|k: int| 0 <= k < a.len() ==> b.contains(#[trigger] a[k]),
        forall|k: int| 0 <= k < b.len() ==> a.contains(#[trigger] b[k]),
    ensures
        a == b,
    decreases a.len(),
{
    if a.len() == 0 {
        if b.len() > 0 {
            assert(a.contains(b[0]));
        }
        assert(a =~= b);
    } else {
        assert(b.contains(a[0]));
        let kb = choose|kb: int| 0 <= kb < b.len() && b[kb] == a[0];
        assert(a.contains(b[0]));
        let ka = choose|ka: int| 0 <= ka < a.len() && a[ka] == b[0];
        if kb > 0 {
            // b[0] comes before a[0] in b, and after it in a.
            assert(mount_before(mps[b[0].1 as int], mps[b[kb].1 as int]));
            if ka > 0 {
                assert(mount_before(mps[a[0].1 as int], mps[a[ka].1 as int]));
                lemma_before_asymmetric(mps[b[0].1 as int], mps[a[0].1 as int]);
            } else {
                lemma_before_irreflexive(mps[b[0].1 as int]);
            }
        }
        assert(b[0] == a[0]);
        let a1 = a.drop_first();
        let b1 = b.drop_first();
        assert forall|k: int| 0 <= k < a1.len() implies b1.contains(#[trigger] a1[k]) by {
            assert(b.contains(a[k + 1]));
            let j = choose|j: int| 0 <= j < b.len() && b[j] == a[k + 1];
            if j == 0 {
                assert(mount_before(mps[a[0].1 as int], mps[a[k + 1].1 as int]));
                lemma_before_irreflexive(mps[a[0].1 as int]);
            }
            assert(b1[j - 1] == a1[k]);
        }
        assert forall|k: int| 0 <= k < b1.len() implies a1.contains(#[trigger] b1[k]) by {
            assert(a.contains(b[k + 1]));
            let j = choose|j: int| 0 <= j < a.len() && a[j] == b[k + 1];
            if j == 0 {
                assert(mount_before(mps[b[0].1 as int], mps[b[k + 1].1 as int]));
                lemma_before_irreflexive(mps[b[0].1 as int]);
            }
            assert(a1[j - 1] == b1[k]);
        }
        assert forall|k: int, l: int| 0 <= k < l < a1.len() implies mount_before(mps[(#[trigger] a1[k]).1 as int], mps[(#[trigger] a1[l]).1 as int]) by {
            assert(a1[k] == a[k + 1] && a1[l] == a[l + 1]);
        }
        assert forall|k: int, l: int| 0 <= k < l < b1.len() implies mount_before(mps[(#[trigger] b1[k]).1 as int], mps[(#[trigger] b1[l]).1 as int]) by {
            assert(b1[k] == b[k + 1] && b1[l] == b[l + 1]);
        }
        lemma_sorted_same_entries(mps, a1, b1);
        assert(a =~= b) by {
            assert forall|k: int| 0 <= k < a.len() implies a[k] == b[k] by {
                if k > 0 {
                    assert(a[k] == a1[k - 1]);
                    assert(b[k] == b1[k - 1]);
                }
            }
        }
    }
}

/// A list of mountpoints has exactly one mount order.
pub proof fn lemma_mount_order_unique(mps: Seq<Seq<char>>, a: Seq<(usize, usize)>, b: Seq<(usize, usize)>)
    requires
        is_mount_order(mps, a),
        is_mount_order(mps, b),
    ensures
        a == b,
{
    assert forall|k: int| 0 <= k < a.len() implies b.contains(#[trigger] a[k]) by {
        let e = a[k];
        assert(mount_entry_ok(mps, e));
        assert(covered(mps, b, e.1 as int));
        let j = choose|j: int| 0 <= j < b.len() && #[trigger] same_mount(mps, b[j].1 as int, e.1 as int);
        assert(mount_entry_ok(mps, b[j]));
        lemma_entry_determined(mps, b[j], e);
    }
    assert forall|k: int| 0 <= k < b.len() implies a.contains(#[trigger] b[k]) by {
        let e = b[k];
        assert(mount_entry_ok(mps, e));
        assert(covered(mps, a, e.1 as int));
        let j = choose|j: int| 0 <= j < a.len() && #[trigger] same_mount(mps, a[j].1 as int, e.1 as int);
        assert(mount_entry_ok(mps, a[j]));
        lemma_entry_determined(mps, a[j], e);
    }
    lemma_sorted_same_entries(mps, a, b);
}

/// The mount order of `mps`.
pub open spec fn mount_order_of(mps: Seq<Seq<char>>) -> Seq<(usize, usize)> {
    choose|o: Seq<(usize, usize)>| is_mount_order(mps, o)
}

/// Any mount order is the mount order.
pub proof fn lemma_mount_order_of(mps: Seq<Seq<char>>, o: Seq<(usize, usize)>)
    requires
        is_mount_order(mps, o),
    ensures
        mount_order_of(mps) == o,
{
    let c = mount_order_of(mps);
    assert(is_mount_order(mps, c));
    lemma_mount_order_unique(mps, c, o);
}

} // verus!

verus! {

/// `count_char` adds up over a concatenation.
proof fn lemma_count_concat(x: Seq<char>, y: Seq<char>, c: char)
    ensures
        count_char(x + y, c) == count_char(x, c) + count_char(y, c),
    decreases y.len(),
{
    if y.len() == 0 {
        assert(x + y =~= x);
    } else {
        assert((x + y).drop_last() =~= x + y.drop_last());
        lemma_count_concat(x, y.drop_last(), c);
    }
}

/// Trailing `c` are taken off the second part only, when it holds another
/// character.
proof fn lemma_trim_end_concat(x: Seq<char>, y: Seq<char>, c: char, i: int)
    requires
        0 <= i < y.len(),
        y[i] != c,
    ensures
        trim_end_char(x + y, c) == x + trim_end_char(y, c),
        count_char(trim_end_char(y, c), c) <= count_char(y, c),
    decreases y.len(),
{
    if y.last() == c {
        assert((x + y).drop_last() =~= x + y.drop_last());
        assert(i < y.len() - 1);
        lemma_trim_end_concat(x, y.drop_last(), c, i);
        assert((x + y).last() == c);
    }
}

/// `parent` is the directory of an enclosing mount of `child`: either `/`
/// under any other mountpoint, or a path without a trailing `/` followed by
/// `/` and a rest that is more than slashes.
pub open spec fn is_parent_dir(parent: Seq<char>, child: Seq<char>) -> bool {
    ||| parent == "/"@ && child != "/"@
    ||| exists|rest: Seq<char>, i: int| {
        &&& parent.len() > 0
        &&& parent.last() != '/'
        &&& child == parent + seq!['/'] + rest
        &&& 0 <= i < rest.len()
        &&& #[trigger] rest[i] != '/'
    }
}

/// A mountpoint is mounted before every mountpoint nested under it.
pub proof fn law_parent_before_child(parent: Seq<char>, child: Seq<char>)
    requires
        is_parent_dir(parent, child),
    ensures
        mount_before(parent, child),
{
    reveal_strlit("/");
    if parent != "/"@ {
        let (rest, i) = choose|rest: Seq<char>, i: int| {
            &&& parent.len() > 0
            &&& parent.last() != '/'
            &&& child == parent + seq!['/'] + rest
            &&& 0 <= i < rest.len()
            &&& #[trigger] rest[i] != '/'
        };
        let head = parent + seq!['/'];
        assert(child == head + rest);
        lemma_trim_end_concat(head, rest, '/', i);
        lemma_count_concat(head, trim_end_char(rest, '/'), '/');
        lemma_count_concat(parent, seq!['/'], '/');
        assert(count_char(seq!['/'], '/') == 1) by {
            assert(seq!['/'].drop_last() =~= Seq::<char>::empty());
            assert(count_char(Seq::<char>::empty(), '/') == 0);
            assert(seq!['/'].last() == '/');
        }
        assert(trim_end_char(parent, '/') == parent);
        assert(child.len() > 1);
        assert(child != "/"@);
    }
}

/// In a mount order, an entry whose mountpoint encloses another's comes first.
pub proof fn law_parents_mount_first(mps: Seq<Seq<char>>, r: Seq<(usize, usize)>, k: int, l: int)
    requires
        is_mount_order(mps, r),
        0 <= k < r.len(),
        0 <= l < r.len(),
        is_parent_dir(mps[r[k].1 as int], mps[r[l].1 as int]),
    ensures
        k < l,
{
    law_parent_before_child(mps[r[k].1 as int], mps[r[l].1 as int]);
    if l < k {
        assert(mount_before(mps[r[l].1 as int], mps[r[k].1 as int]));
        lemma_before_asymmetric(mps[r[l].1 as int], mps[r[k].1 as int]);
    } else if l == k {
        lemma_before_irreflexive(mps[r[k].1 as int]);
    }
}

} // verus!

verus! {

/// `o` with `x` inserted at its place in mount order.
spec fn insert_sorted(mps: Seq<Seq<char>>, o: Seq<(usize, usize)>, x: (usize, usize)) -> Seq<(usize, usize)>
    decreases o.len(),
{
    if o.len() == 0 {
        seq![x]
    } else if mount_before(mps[x.1 as int], mps[o[0].1 as int]) {
        seq![x] + o
    } else {
        seq![o[0]] + insert_sorted(mps, o.drop_first(), x)
    }
}

/// Inserting in mount order puts `x` somewhere in the list and keeps it sorted.
proof fn lemma_insert_sorted(mps: Seq<Seq<char>>, o: Seq<(usize, usize)>, x: (usize, usize))
    requires
        mount_order_sorted(mps, o),
        forall|k: int| 0 <= k < o.len() ==> mps[(#[trigger] o[k]).1 as int] != mps[x.1 as int],
    ensures
        exists|pos: int| 0 <= pos <= o.len() && insert_sorted(mps, o, x) == o.insert(pos, x),
        mount_order_sorted(mps, insert_sorted(mps, o, x)),
    decreases o.len(),
{
    let r = insert_sorted(mps, o, x);
    if o.len() == 0 {
        assert(r =~= o.insert(0, x));
    } else if mount_before(mps[x.1 as int], mps[o[0].1 as int]) {
        assert(r =~= o.insert(0, x));
        assert forall|k: int, l: int| 0 <= k < l < r.len() implies mount_before(mps[(#[trigger] r[k]).1 as int], mps[(#[trigger] r[l]).1 as int]) by {
            if k == 0 {
                assert(r[l] == o[l - 1]);
                if l > 1 {
                    assert(mount_before(mps[o[0].1 as int], mps[o[l - 1].1 as int]));
                    lemma_before_transitive(mps[x.1 as int], mps[o[0].1 as int], mps[o[l - 1].1 as int]);
                }
            } else {
                assert(r[k] == o[k - 1] && r[l] == o[l - 1]);
            }
        }
    } else {
        let o1 = o.drop_first();
        assert forall|k: int, l: int| 0 <= k < l < o1.len() implies mount_before(mps[(#[trigger] o1[k]).1 as int], mps[(#[trigger] o1[l]).1 as int]) by {
            assert(o1[k] == o[k + 1] && o1[l] == o[l + 1]);
        }
        assert forall|k: int| 0 <= k < o1.len() implies mps[(#[trigger] o1[k]).1 as int] != mps[x.1 as int] by {
            assert(o1[k] == o[k + 1]);
        }
        lemma_insert_sorted(mps, o1, x);
        let rest = insert_sorted(mps, o1, x);
        let pos = choose|pos: int| 0 <= pos <= o1.len() && rest == o1.insert(pos, x);
        assert(r == seq![o[0]] + rest);
        assert(r =~= o.insert(pos + 1, x));
        assert(o[0] != x);
        lemma_before_total(mps[o[0].1 as int], mps[x.1 as int]);
        assert(mount_before(mps[o[0].1 as int], mps[x.1 as int]));
        assert forall|k: int, l: int| 0 <= k < l < r.len() implies mount_before(mps[(#[trigger] r[k]).1 as int], mps[(#[trigger] r[l]).1 as int]) by {
            if k == 0 {
                assert(r[l] == rest[l - 1]);
                if l - 1 < pos {
                    assert(rest[l - 1] == o1[l - 1]);
                    assert(o1[l - 1] == o[l]);
                } else if l - 1 > pos {
                    assert(rest[l - 1] == o1[l - 2]);
                    assert(o1[l - 2] == o[l - 1]);
                }
            } else {
                assert(r[k] == rest[k - 1] && r[l] == rest[l - 1]);
            }
        }
    }
}

/// A mount order of `mps`, built one mountpoint at a time.
proof fn mount_order_witness(mps: Seq<Seq<char>>) -> (o: Seq<(usize, usize)>)
    requires
        mps.len() <= usize::MAX,
    ensures
        is_mount_order(mps, o),
    decreases mps.len(),
{
    if mps.len() == 0 {
        let o = Seq::<(usize, usize)>::empty();
        assert(mount_order_covers(mps, o));
        o
    } else {
        let n = mps.len() as int;
        let pre = mps.drop_last();
        let m = mps.last();
        let o0 = mount_order_witness(pre);
        assert forall|q: int| 0 <= q < n - 1 implies #[trigger] mps[q] == pre[q] by {}
        // The mountpoints the entries of `o0` stand for stay the same in `mps`.
        assert forall|k: int| 0 <= k < o0.len() implies mps[(#[trigger] o0[k]).1 as int] == pre[o0[k].1 as int] by {
            assert(mount_entry_ok(pre, o0[k]));
        }
        // Entries of a sorted list stand for different mountpoints.
        assert forall|k: int, l: int| 0 <= k < o0.len() && 0 <= l < o0.len() && k != l implies pre[(#[trigger] o0[k]).1 as int] != pre[(#[trigger] o0[l]).1 as int] by {
            if k < l {
                lemma_before_irreflexive(pre[o0[k].1 as int]);
            } else {
                lemma_before_irreflexive(pre[o0[l].1 as int]);
            }
        }
        if exists|q: int| 0 <= q < n - 1 && pre[q] == m {
            let q = choose|q: int| 0 <= q < n - 1 && pre[q] == m;
            assert(covered(pre, o0, q));
            let k = choose|k: int| 0 <= k < o0.len() && #[trigger] same_mount(pre, o0[k].1 as int, q);
            let e = o0[k];
            assert(mount_entry_ok(pre, e));
            let o = o0.update(k, (e.0, (n - 1) as usize));
            assert forall|j: int| 0 <= j < o.len() implies mount_entry_ok(mps, #[trigger] o[j]) by {
                assert(mount_entry_ok(pre, o0[j]));
                if j != k {
                    assert(o[j] == o0[j]);
                    assert(pre[o0[j].1 as int] != pre[e.1 as int]);
                }
            }
            assert forall|p: int| 0 <= p < mps.len() implies #[trigger] covered(mps, o, p) by {
                if p == n - 1 {
                    assert(same_mount(mps, o[k].1 as int, p));
                } else {
                    assert(covered(pre, o0, p));
                    let j = choose|j: int| 0 <= j < o0.len() && #[trigger] same_mount(pre, o0[j].1 as int, p);
                    assert(same_mount(mps, o[j].1 as int, p));
                }
            }
            assert forall|a: int, b: int| 0 <= a < b < o.len() implies mount_before(mps[(#[trigger] o[a]).1 as int], mps[(#[trigger] o[b]).1 as int]) by {
                assert(mount_before(pre[o0[a].1 as int], pre[o0[b].1 as int]));
            }
            o
        } else {
            let x = (n as usize, (n - 1) as usize);
            assert forall|a: int, b: int| 0 <= a < b < o0.len() implies mount_before(mps[(#[trigger] o0[a]).1 as int], mps[(#[trigger] o0[b]).1 as int]) by {
                assert(mount_before(pre[o0[a].1 as int], pre[o0[b].1 as int]));
            }
            assert forall|k: int| 0 <= k < o0.len() implies mps[(#[trigger] o0[k]).1 as int] != mps[x.1 as int] by {
                assert(mount_entry_ok(pre, o0[k]));
            }
            lemma_insert_sorted(mps, o0, x);
            let o = insert_sorted(mps, o0, x);
            let pos = choose|pos: int| 0 <= pos <= o0.len() && o == o0.insert(pos, x);
            assert forall|j: int| 0 <= j < o.len() implies mount_entry_ok(mps, #[trigger] o[j]) by {
                if j == pos {
                    assert(o[j] == x);
                } else {
                    let i = if j < pos { j } else { j - 1 };
                    assert(o[j] == o0[i]);
                    assert(mount_entry_ok(pre, o0[i]));
                }
            }
            assert forall|p: int| 0 <= p < mps.len() implies #[trigger] covered(mps, o, p) by {
                if p == n - 1 {
                    assert(same_mount(mps, o[pos].1 as int, p));
                } else {
                    assert(covered(pre, o0, p));
                    let j = choose|j: int| 0 <= j < o0.len() && #[trigger] same_mount(pre, o0[j].1 as int, p);
                    let i = if j < pos { j } else { j + 1 };
                    assert(o[i] == o0[j]);
                    assert(same_mount(mps, o[i].1 as int, p));
                }
            }
            o
        }
    }
}

/// Every list of mountpoints that a `Vec` can hold has a mount order.
pub proof fn lemma_mount_order_exists(mps: Seq<Seq<char>>)
    requires
        mps.len() <= usize::MAX,
    ensures
        is_mount_order(mps, mount_order_of(mps)),
{
    let o = mount_order_witness(mps);
    lemma_mount_order_of(mps, o);
}

} // verus!
