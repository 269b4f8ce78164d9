//! Calls into outside crates, each behind a small trusted item whose contract
//! says what the crate's source shows of it.
use vstd::prelude::*;
use crate::text::{decimal, digit_char, string_views};
use crate::config::{Script, ScriptView};
use indexmap::IndexMap;

verus! {

/// `1024` to the power `e`.
pub open spec fn kib_pow(e: nat) -> nat
    decreases e,
{
    if e == 0 {
        1
    } else {
        1024 * kib_pow((e - 1) as nat)
    }
}

/// The letter of the binary unit `1024^e` (`1 <= e <= 6`), as bytesize writes it.
pub open spec fn unit_letter(e: nat) -> char {
    if e == 1 {
        'k'
    } else if e == 2 {
        'M'
    } else if e == 3 {
        'G'
    } else if e == 4 {
        'T'
    } else if e == 5 {
        'P'
    } else {
        'E'
    }
}

/// `n.d` (in units of `1024^e`) is within a tenth of a unit of `bytes`:
/// `|(10n + d)·1024^e − 10·bytes| <= 1024^e`.
pub open spec fn within_a_tenth(n: nat, d: nat, e: nat, bytes: nat) -> bool {
    let p = (10 * n + d) * kib_pow(e);
    let b = 10 * bytes;
    (if p >= b { p - b } else { b - p }) <= kib_pow(e)
}

/// What holds of the text that `bytesize` renders for `bytes` with binary
/// units, whatever the platform: below 1024 it is the decimal count and
/// ` B`; from 1024 on it is `n.d <letter>iB` for a unit `1024^e` with
/// `1 <= e <= 6`, the one-decimal value `n.d` lying within a tenth of a
/// unit of `bytes / 1024^e`.
pub open spec fn iec_text_ok(bytes: nat, t: Seq<char>) -> bool {
    if bytes < 1024 {
        t == decimal(bytes) + " B"@
    } else {
        exists|n: nat, d: nat, e: nat|
            #![trigger decimal(n), digit_char(d), kib_pow(e)]
            1 <= e <= 6 && d < 10 && t == decimal(n) + seq!['.', digit_char(d), ' ', unit_letter(e), 'i', 'B']
                && within_a_tenth(n, d, e, bytes)
    }
}

/// `bytesize::ByteSize::b(bytes).to_string_as(true)`: below 1024 bytes the
/// count followed by ` B`; above, `format!("{:.1} {}iB", bytes / 1024^e,
/// letter)` (e.g. `1.0 MiB`), where `e` (1 to 6 for a `u64`) is picked from
/// `f64::ln`. std leaves the precision of `ln` open, so near a unit boundary
/// the unit (and with it the text) may differ between platforms or calls;
/// whichever unit is picked, the one-decimal rounding of the quotient is
/// within a tenth of a unit of it. Only `iec_text_ok` is claimed.
#[verifier::external_body]
pub(crate) fn bytesize_iec(bytes: u64) -> (r: String)
    ensures
        iec_text_ok(bytes as nat, r@),
{
    bytesize::ByteSize::b(bytes).to_string_as(true)
}

} // verus!

verus! {

/// `indexmap::IndexMap`, declared so that it can hold scripts by key.
#[verifier::external_type_specification]
#[verifier::external_body]
#[verifier::reject_recursive_types(K)]
#[verifier::reject_recursive_types(V)]
#[verifier::reject_recursive_types(S)]
pub struct ExIndexMap<K, V, S>(IndexMap<K, V, S>);

/// An entry of a script table: the key, the script and whether it is done.
pub open spec fn entry_view(k: String, v: (Script, bool)) -> (Seq<char>, (ScriptView, bool)) {
    (k@, (v.0@, v.1))
}

/// The entries of a script table, in the table's order.
pub uninterp spec fn script_table(m: IndexMap<String, (Script, bool)>) -> Seq<(Seq<char>, (ScriptView, bool))>;

/// The position of the first entry of `e` with key `k`, or -1.
pub open spec fn key_index(e: Seq<(Seq<char>, (ScriptView, bool))>, k: Seq<char>) -> int
    decreases e.len(),
{
    if e.len() == 0 {
        -1
    } else if e[0].0 == k {
        0
    } else {
        let r = key_index(e.drop_first(), k);
        if r < 0 { -1 } else { r + 1 }
    }
}

/// `key_index` finds the first entry with the key, and nothing when there is none.
pub proof fn lemma_key_index(e: Seq<(Seq<char>, (ScriptView, bool))>, k: Seq<char>)
    ensures
        -1 <= key_index(e, k) < e.len(),
        key_index(e, k) >= 0 ==> e[key_index(e, k)].0 == k,
        forall|j: int| 0 <= j < e.len() && (j < key_index(e, k) || key_index(e, k) < 0) ==> e[j].0 != k,
    decreases e.len(),
{
    if e.len() > 0 && e[0].0 != k {
        lemma_key_index(e.drop_first(), k);
        assert forall|j: int| 0 <= j < e.len() && (j < key_index(e, k) || key_index(e, k) < 0) implies e[j].0 != k by {
            if j > 0 {
                assert(e[j] == e.drop_first()[j - 1]);
            }
        }
    }
}

/// `IndexMap::new`: an empty table.
#[verifier::external_body]
pub(crate) fn table_new() -> (m: IndexMap<String, (Script, bool)>)
    ensures
        script_table(m) == Seq::<(Seq<char>, (ScriptView, bool))>::empty(),
{
    IndexMap::new()
}

/// `IndexMap::len`: the number of entries.
#[verifier::external_body]
pub(crate) fn table_len(m: &IndexMap<String, (Script, bool)>) -> (n: usize)
    ensures
        n == script_table(*m).len(),
{
    m.len()
}

/// `IndexMap::get_index`: the entry at position `i`, if there is one.
#[verifier::external_body]
pub(crate) fn table_get_index(m: &IndexMap<String, (Script, bool)>, i: usize) -> (r: Option<(&String, &(Script, bool))>)
    ensures
        i < script_table(*m).len() ==> r is Some && entry_view(*r.unwrap().0, *r.unwrap().1) == script_table(*m)[i as int],
        i >= script_table(*m).len() ==> r is None,
{
    m.get_index(i)
}

/// `IndexMap::get_index_of`: the position of the entry with key `key`; keys
/// are unique in a table, so no other entry has it.
#[verifier::external_body]
pub(crate) fn table_get_index_of(m: &IndexMap<String, (Script, bool)>, key: &str) -> (r: Option<usize>)
    ensures
        match r {
            Some(i) => i < script_table(*m).len() && script_table(*m)[i as int].0 == key@
                && forall|j: int| 0 <= j < script_table(*m).len() && j != i ==> script_table(*m)[j].0 != key@,
            None => forall|j: int| 0 <= j < script_table(*m).len() ==> script_table(*m)[j].0 != key@,
        },
{
    m.get_index_of(key)
}

/// `IndexMap::insert`: where the key is present its value is replaced in place
/// and the old value returned; otherwise the entry is added last and `None` returned.
#[verifier::external_body]
pub(crate) fn table_insert(m: &mut IndexMap<String, (Script, bool)>, key: String, value: (Script, bool)) -> (r: Option<(Script, bool)>)
    ensures
        key_index(script_table(*old(m)), key@) >= 0 ==> {
            let p = key_index(script_table(*old(m)), key@);
            &&& script_table(*final(m)) == script_table(*old(m)).update(p, entry_view(key, value))
            &&& r is Some
            &&& (r.unwrap().0@, r.unwrap().1) == script_table(*old(m))[p].1
        },
        key_index(script_table(*old(m)), key@) < 0 ==> {
            &&& script_table(*final(m)) == script_table(*old(m)).push(entry_view(key, value))
            &&& r is None
        },
{
    m.insert(key, value)
}

} // verus!

verus! {

/// The lowercase form of a text, as `str::to_lowercase` gives it.
pub uninterp spec fn lowercase(s: Seq<char>) -> Seq<char>;

/// Whether every character of `s` is ASCII.
pub open spec fn ascii_text(s: Seq<char>) -> bool {
    forall|i: int| 0 <= i < s.len() ==> ((#[trigger] s[i]) as u32) < 128
}

/// The ASCII lowercase of `c`: `A`..`Z` become `a`..`z`, other characters stay.
pub open spec fn ascii_lower(c: char) -> char {
    if 65 <= c as u32 <= 90 {
        ((c as u32) + 32) as char
    } else {
        c
    }
}

/// The lowercase form of `s`, spelled out where `s` is ASCII.
pub open spec fn lower_text(s: Seq<char>) -> Seq<char> {
    if ascii_text(s) {
        s.map_values(|c: char| ascii_lower(c))
    } else {
        lowercase(s)
    }
}

/// `str::to_lowercase`: the text in lowercase, by the Unicode rules.
/// Claimed: the result is `lowercase(s)`, the same for the same text; and for
/// an ASCII text, whose Unicode lowercase mappings (UnicodeData.txt) take
/// `A`..`Z` to `a`..`z` and leave every other ASCII character alone, it is
/// the text with each character lowered so.
#[verifier::external_body]
pub(crate) fn to_lowercase(s: &str) -> (r: String)
    ensures
        r@ == lowercase(s@),
        ascii_text(s@) ==> r@ == s@.map_values(|c: char| ascii_lower(c)),
        r@ == lower_text(s@),
{
    s.to_lowercase()
}

} // verus!

verus! {

/// The words `shellish_parse` splits a command line into, or `None` when it
/// cannot parse it.
pub uninterp spec fn shell_words(s: Seq<char>) -> Option<Seq<Seq<char>>>;

/// `shellish_parse::parse(s, false)`: splits a command line into words as a
/// shell would, without strict escapes. Claimed: the words are
/// `shell_words(s)`, and it fails exactly when `shell_words(s)` is `None`.
#[verifier::external_body]
pub(crate) fn shell_split(s: &str) -> (r: Option<Vec<String>>)
    ensures
        match r {
            Some(v) => shell_words(s@) == Some(string_views(v@)),
            None => shell_words(s@) is None,
        },
{
    shellish_parse::parse(s, false).ok()
}

} // verus!

verus! {

/// The lowercase hexadecimal digit of `d` (`0 <= d < 16`).
pub open spec fn hex_digit(d: nat) -> char {
    if d < 10 {
        ((d + 48) as u32) as char
    } else {
        ((d + 87) as u32) as char
    }
}

/// The last `n` hexadecimal digits of `v`, most significant first.
pub open spec fn hex_digits(v: nat, n: nat) -> Seq<char>
    decreases n,
{
    if n == 0 {
        Seq::<char>::empty()
    } else {
        hex_digits(v / 16, (n - 1) as nat).push(hex_digit(v % 16))
    }
}

/// The hyphenated lowercase form of the UUID with the 128-bit value `v`: its
/// 32 hexadecimal digits, most significant first, in groups of 8, 4, 4, 4
/// and 12 joined by `-`.
pub open spec fn uuid_hyphenated(v: u128) -> Seq<char> {
    let h = hex_digits(v as nat, 32);
    h.subrange(0, 8) + seq!['-'] + h.subrange(8, 12) + seq!['-'] + h.subrange(12, 16) + seq!['-']
        + h.subrange(16, 20) + seq!['-'] + h.subrange(20, 32)
}

/// `uuid::Uuid::from_u128(v).to_string()`: `from_u128` takes the bytes of `v`
/// in big-endian order and `Display` writes them as lowercase hexadecimal in
/// the hyphenated 8-4-4-4-12 layout. Claimed: the text is `uuid_hyphenated(v)`.
#[verifier::external_body]
pub(crate) fn uuid_string(v: u128) -> (r: String)
    ensures
        r@ == uuid_hyphenated(v),
{
    uuid::Uuid::from_u128(v).to_string()
}

} // verus!

verus! {

/// The byte writes that hashing an optional script source makes on a hasher.
pub uninterp spec fn source_writes(source: Option<Seq<char>>) -> Seq<Seq<u8>>;

/// `<Option<String> as Hash>::hash`: feeds an optional source to a
/// `DefaultHasher`. Claimed: the writes it makes depend on the source alone
/// (`source_writes`) and come after those already made.
#[verifier::external_body]
pub(crate) fn hash_source_into(source: &Option<String>, hasher: &mut std::hash::DefaultHasher)
    ensures
        final(hasher)@ == old(hasher)@ + source_writes(match source { Some(s) => Some(s@), None => None }),
{
    std::hash::Hash::hash(source, hasher)
}

} // verus!

verus! {

/// `tera::Tera::one_off(template, context, false)`: renders a template with
/// the given variables, without autoescaping; `Err` holds the error's text.
/// A template may read the clock or the environment (`now()`, `get_env`),
/// so nothing is claimed of the result.
#[verifier::external_body]
pub(crate) fn render_template(template: &str, vars: &Vec<(String, String)>) -> (r: Result<String, String>)
{
    let mut context = tera::Context::new();
    for (k, v) in vars.iter() {
        context.insert(k.clone(), v);
    }
    tera::Tera::one_off(template, &context, false).map_err(|e| e.to_string())
}

} // verus!
