//! Planning the build: the order in which scripts run, and the commands that
//! produce the image.
use vstd::prelude::*;
use crate::bindings::{shell_split, shell_words, entry_view, key_index, lemma_key_index, script_table, table_get_index, table_get_index_of, table_insert, table_len, table_new};
use crate::config::{add_shebang, default_script_view, with_shebang, Script, ScriptView};
use crate::text::{contains_seq, str_contains, chars_of, split_by_char, split_char, clone_opt_string, clone_strings, commands_view, join_path, path_join, push_args, push_str, str_eq, string_of, string_views};
use crate::backends::bootloader::{known_arch, Bootloader};
use crate::cli::{OutputFormat, SkipPhases};
use crate::config::PartitionLayout;
use crate::order::{stable_order, stable_priority_order};
use indexmap::IndexMap;

verus! {

/// The default of boolean settings that are on unless turned off.
pub fn default_true() -> (r: bool)
    ensures
        r,
{
    true
}

/// The number of entries of a script table that are not done yet.
pub open spec fn pending(e: Seq<(Seq<char>, (ScriptView, bool))>) -> nat
    decreases e.len(),
{
    if e.len() == 0 {
        0
    } else {
        pending(e.drop_last()) + if e.last().1.1 { 0nat } else { 1nat }
    }
}

/// Replacing one entry changes the count of pending entries by what the two entries differ in.
pub proof fn lemma_pending_update(e: Seq<(Seq<char>, (ScriptView, bool))>, p: int, x: (Seq<char>, (ScriptView, bool)))
    requires
        0 <= p < e.len(),
    ensures
        pending(e.update(p, x)) + (if e[p].1.1 { 0int } else { 1int }) == pending(e) + (if x.1.1 { 0int } else { 1int }),
    decreases e.len(),
{
    if p < e.len() - 1 {
        lemma_pending_update(e.drop_last(), p, x);
        assert(e.update(p, x).drop_last() =~= e.drop_last().update(p, x));
    } else {
        assert(e.update(p, x).drop_last() =~= e.drop_last());
    }
}

/// At most every entry is pending.
pub proof fn lemma_pending_le_len(e: Seq<(Seq<char>, (ScriptView, bool))>)
    ensures
        pending(e) <= e.len(),
    decreases e.len(),
{
    if e.len() > 0 {
        lemma_pending_le_len(e.drop_last());
    }
}

/// When no entry is done, every entry is pending.
pub proof fn lemma_pending_all(e: Seq<(Seq<char>, (ScriptView, bool))>)
    requires
        forall|q: int| 0 <= q < e.len() ==> !e[q].1.1,
    ensures
        pending(e) == e.len(),
    decreases e.len(),
{
    if e.len() > 0 {
        lemma_pending_all(e.drop_last());
    }
}

/// An entry that is not done is counted.
pub proof fn lemma_pending_pos(e: Seq<(Seq<char>, (ScriptView, bool))>, p: int)
    requires
        0 <= p < e.len(),
        !e[p].1.1,
    ensures
        pending(e) >= 1,
{
    lemma_pending_update(e, p, (e[p].0, (e[p].1.0, true)));
}

/// The entry left behind when a script is taken out of the table to be run.
pub open spec fn taken(k: Seq<char>) -> (Seq<char>, (ScriptView, bool)) {
    (k, (default_script_view(), true))
}

/// Gathering the needs of the script with key `own`, from the `j`th on: each
/// need is looked up in the table `e`; one that is missing is the error; one
/// that is done is passed over; any other is taken out of `e` (marked done)
/// and added, not done, to the table `n` of scripts to run first.
pub open spec fn gather(
    e: Seq<(Seq<char>, (ScriptView, bool))>,
    own: Seq<char>,
    needs: Seq<Seq<char>>,
    j: int,
    n: Seq<(Seq<char>, (ScriptView, bool))>,
) -> Result<(Seq<(Seq<char>, (ScriptView, bool))>, Seq<(Seq<char>, (ScriptView, bool))>), Seq<char>>
    decreases needs.len() - j,
{
    if j < 0 || j >= needs.len() {
        Ok((e, n))
    } else {
        let k = needs[j];
        let p = key_index(e, k);
        if p < 0 {
            Err(k)
        } else if e[p].1.1 || k == own {
            gather(e, own, needs, j + 1, n)
        } else {
            gather(e.update(p, taken(k)), own, needs, j + 1, n.push((k, (e[p].1.0, false))))
        }
    }
}

/// What gathering keeps: the keys of the table, the entry of the script
/// itself, the count of pending entries and needed scripts, and that the
/// needed scripts are not done.
pub proof fn lemma_gather(
    e: Seq<(Seq<char>, (ScriptView, bool))>,
    own: Seq<char>,
    needs: Seq<Seq<char>>,
    j: int,
    n: Seq<(Seq<char>, (ScriptView, bool))>,
)
    requires
        0 <= j,
        forall|t: int| 0 <= t < n.len() ==> !n[t].1.1,
    ensures
        gather(e, own, needs, j, n) matches Ok((e2, n2)) ==> {
            &&& e2.len() == e.len()
            &&& forall|q: int| 0 <= q < e.len() ==> #[trigger] e2[q].0 == e[q].0
            &&& forall|q: int| 0 <= q < e.len() && e[q].0 == own ==> #[trigger] e2[q] == e[q]
            &&& pending(e2) + n2.len() == pending(e) + n.len()
            &&& forall|t: int| 0 <= t < n2.len() ==> !(#[trigger] n2[t]).1.1
            &&& no_self_needs(e) && no_self_needs(n) ==> no_self_needs(e2) && no_self_needs(n2)
        },
    decreases needs.len() - j,
{
    if j < needs.len() {
        let k = needs[j];
        let p = key_index(e, k);
        lemma_key_index(e, k);
        if p >= 0 && !(e[p].1.1 || k == own) {
            lemma_pending_update(e, p, taken(k));
            let n1 = n.push((k, (e[p].1.0, false)));
            assert forall|t: int| 0 <= t < n1.len() implies !n1[t].1.1 by {
                if t < n.len() {
                    assert(n1[t] == n[t]);
                }
            }
            if no_self_needs(e) && no_self_needs(n) {
                let e1 = e.update(p, taken(k));
                assert forall|q: int| 0 <= q < e1.len() implies !(#[trigger] e1[q].1.0.needs).contains(e1[q].0) by {
                    if q != p {
                        assert(e1[q] == e[q]);
                    }
                }
                assert forall|t: int| 0 <= t < n1.len() implies !(#[trigger] n1[t].1.0.needs).contains(n1[t].0) by {
                    if t < n.len() {
                        assert(n1[t] == n[t]);
                    } else {
                        assert(e[p].1.0.needs == n1[t].1.0.needs);
                    }
                }
            }
            lemma_gather(e.update(p, taken(k)), own, needs, j + 1, n1);
        } else if p >= 0 {
            lemma_gather(e, own, needs, j + 1, n);
        }
    }
}

/// The text that stands for a script without an id in messages.
pub open spec fn id_or_null(id: Option<Seq<char>>) -> Seq<char> {
    match id {
        Some(s) => s,
        None => "<NULL>"@,
    }
}

/// What running the scripts of table `e` from position `i` on does: the
/// scripts run, in order, and the missing need (with the id of the script that
/// needs it) that stops the run, if one does. A script that is not done has
/// its needs gathered and run first (their own needs are looked up among
/// them), then runs itself.
pub open spec fn plan_from(e: Seq<(Seq<char>, (ScriptView, bool))>, i: int) -> (Seq<ScriptView>, Option<(Seq<char>, Seq<char>)>)
    decreases pending(e), e.len() - i,
{
    if i < 0 || i >= e.len() {
        (Seq::empty(), None)
    } else if e[i].1.1 {
        plan_from(e, i + 1)
    } else {
        match gather(e, e[i].0, e[i].1.0.needs, 0, Seq::empty()) {
            Err(k) => (Seq::empty(), Some((k, id_or_null(e[i].1.0.id)))),
            Ok((e2, n)) => {
                proof {
                    lemma_gather(e, e[i].0, e[i].1.0.needs, 0, Seq::empty());
                    lemma_pending_all(n);
                    lemma_pending_pos(e2, i);
                    lemma_pending_update(e2, i, taken(e[i].0));
                }
                let sub = plan_from(n, 0);
                if sub.1 is Some {
                    sub
                } else {
                    let rest = plan_from(e2.update(i, taken(e[i].0)), i + 1);
                    (sub.0.push(e[i].1.0) + rest.0, rest.1)
                }
            },
        }
    }
}

} // verus!

verus! {

/// Tables with the same keys in the same order find a key at the same position.
pub proof fn lemma_key_index_same_keys(e: Seq<(Seq<char>, (ScriptView, bool))>, f: Seq<(Seq<char>, (ScriptView, bool))>, k: Seq<char>)
    requires
        e.len() == f.len(),
        forall|q: int| 0 <= q < e.len() ==> #[trigger] e[q].0 == f[q].0,
    ensures
        key_index(e, k) == key_index(f, k),
    decreases e.len(),
{
    if e.len() > 0 {
        assert(e[0].0 == f[0].0);
        assert forall|q: int| 0 <= q < e.drop_first().len() implies #[trigger] e.drop_first()[q].0 == f.drop_first()[q].0 by {
            assert(e[q + 1].0 == f[q + 1].0);
        }
        lemma_key_index_same_keys(e.drop_first(), f.drop_first(), k);
    }
}

/// Where a table has exactly one entry with key `k`, `key_index` finds it.
pub proof fn lemma_key_index_unique(e: Seq<(Seq<char>, (ScriptView, bool))>, k: Seq<char>, p: int)
    requires
        0 <= p < e.len(),
        e[p].0 == k,
        forall|j: int| 0 <= j < e.len() && j != p ==> e[j].0 != k,
    ensures
        key_index(e, k) == p,
{
    lemma_key_index(e, k);
}

/// Every key of the table of needed scripts `n` is that of a done entry of `e`.
pub open spec fn taken_from(e: Seq<(Seq<char>, (ScriptView, bool))>, n: Seq<(Seq<char>, (ScriptView, bool))>) -> bool {
    forall|t: int| 0 <= t < n.len() ==> {
        let p = #[trigger] key_index(e, n[t].0);
        &&& 0 <= p < e.len()
        &&& e[p].1.1
    }
}

/// No script of the table needs itself.
pub open spec fn no_self_needs(e: Seq<(Seq<char>, (ScriptView, bool))>) -> bool {
    forall|q: int| 0 <= q < e.len() ==> !(#[trigger] e[q].1.0.needs).contains(e[q].0)
}

/// Takes the needs of the script with key `own` out of `scripts`, into a new
/// table of the scripts to run first; or the first need that has no script.
fn gather_needs(scripts: &mut IndexMap<String, (Script, bool)>, own: &String, needs: &Vec<String>) -> (r: Result<IndexMap<String, (Script, bool)>, String>)
    requires
        !string_views(needs@).contains(own@),
    ensures
        match gather(script_table(*old(scripts)), own@, string_views(needs@), 0, Seq::empty()) {
            Err(k) => r is Err && r->Err_0@ == k,
            Ok((e2, n)) => r is Ok && script_table(r->Ok_0) == n && script_table(*final(scripts)) == e2,
        },
{
    let ghost nv = string_views(needs@);
    let ghost goal = gather(script_table(*scripts), own@, nv, 0, Seq::empty());
    let mut n = table_new();
    let mut j: usize = 0;
    while j < needs.len()
        invariant
            nv == string_views(needs@),
            !nv.contains(own@),
            j <= needs@.len(),
            goal == gather(script_table(*old(scripts)), own@, nv, 0, Seq::empty()),
            goal == gather(script_table(*scripts), own@, nv, j as int, script_table(n)),
            taken_from(script_table(*scripts), script_table(n)),
        decreases needs@.len() - j,
    {
        let ghost e = script_table(*scripts);
        let ghost m = script_table(n);
        let k = &needs[j];
        assert(nv[j as int] == k@);
        assert(k@ != own@) by {
            if k@ == own@ {
                assert(nv.contains(own@));
            }
        }
        proof {
            lemma_key_index(e, k@);
        }
        match table_get_index_of(scripts, k.as_str()) {
            None => {
                assert(key_index(e, k@) < 0);
                assert(goal matches Err(kk) && kk == k@);
                let kc = k.clone();
                assert(kc@ == k@);
                return Err(kc);
            },
            Some(p) => {
                proof {
                    lemma_key_index_unique(e, k@, p as int);
                }
                let done = match table_get_index(scripts, p) {
                    Some(kv) => kv.1.1,
                    None => true,
                };
                if !done {
                    let old_entry = table_insert(scripts, k.clone(), (Script::default(), true));
                    assert(script_table(*scripts) == e.update(p as int, taken(k@)));
                    let ghost e2 = script_table(*scripts);
                    assert forall|q: int| 0 <= q < e.len() implies #[trigger] e[q].0 == e2[q].0 by {}
                    proof {
                        lemma_key_index(m, k@);
                        if key_index(m, k@) >= 0 {
                            let t = key_index(m, k@);
                            assert(m[t].0 == k@);
                            assert(key_index(e, m[t].0) == p);
                        }
                    }
                    match old_entry {
                        Some(se) => {
                            let (s, _) = se;
                            table_insert(&mut n, k.clone(), (s, false));
                            proof {
                                let m2 = script_table(n);
                                assert(m2 == m.push((k@, (e[p as int].1.0, false))));
                                assert forall|t: int| 0 <= t < m2.len() implies {
                                    let q = #[trigger] key_index(e2, m2[t].0);
                                    &&& 0 <= q < e2.len()
                                    &&& e2[q].1.1
                                } by {
                                    lemma_key_index_same_keys(e, e2, m2[t].0);
                                    if t < m.len() {
                                        assert(m2[t] == m[t]);
                                        assert(key_index(e, m[t].0) >= 0);
                                    }
                                }
                            }
                        },
                        None => {},
                    }
                }
            },
        }
        j = j + 1;
    }
    Ok(n)
}

} // verus!

verus! {

/// A need that no script of its table provides: running stops there.
#[derive(Debug, PartialEq, Eq)]
pub struct MissingScript {
    /// The id that was needed.
    pub need: String,
    /// The id of the script that needs it (`<NULL>` for a script without one).
    pub required_by: String,
}

/// The scripts to run, in order, and the missing need that stops the run after them, if any.
#[derive(Debug)]
pub struct ScriptPlan {
    pub runs: Vec<Script>,
    pub missing: Option<MissingScript>,
}

/// The views of a list of scripts.
pub open spec fn script_views(s: Seq<Script>) -> Seq<ScriptView> {
    s.map_values(|x: Script| x@)
}

/// The view of a missing need: the need and the id that needs it.
pub open spec fn missing_view(m: Option<MissingScript>) -> Option<(Seq<char>, Seq<char>)> {
    match m {
        Some(x) => Some((x.need@, x.required_by@)),
        None => None,
    }
}

/// The view of a plan.
pub open spec fn plan_view(p: ScriptPlan) -> (Seq<ScriptView>, Option<(Seq<char>, Seq<char>)>) {
    (script_views(p.runs@), missing_view(p.missing))
}

/// Works out how a table of scripts runs (what `plan_from` says): the scripts
/// in the order they run, each after the scripts it needs, and the missing
/// need that stops the run, if one does. A script that needs itself would be
/// gathered again without end, so no script may.
pub fn run_scripts(scripts: IndexMap<String, (Script, bool)>) -> (r: ScriptPlan)
    requires
        no_self_needs(script_table(scripts)),
    ensures
        plan_view(r) == plan_from(script_table(scripts), 0),
    decreases pending(script_table(scripts)),
{
    let ghost init = script_table(scripts);
    let mut table = scripts;
    let mut runs: Vec<Script> = Vec::new();
    let len = table_len(&table);
    let mut i: usize = 0;
    while i < len
        invariant
            init == script_table(scripts),
            script_table(table).len() == len,
            i <= len,
            no_self_needs(script_table(table)),
            pending(script_table(table)) <= pending(init),
            script_views(runs@) + plan_from(script_table(table), i as int).0 == plan_from(init, 0).0,
            plan_from(script_table(table), i as int).1 == plan_from(init, 0).1,
        decreases len - i,
    {
        let ghost cur = script_table(table);
        let (key, done, needs, id) = match table_get_index(&table, i) {
            Some(kv) => (kv.0.clone(), kv.1.1, clone_strings(&kv.1.0.needs), clone_opt_string(&kv.1.0.id)),
            None => (String::new(), true, Vec::new(), None),
        };
        if !done {
            assert(string_views(needs@) == cur[i as int].1.0.needs);
            assert(!string_views(needs@).contains(key@));
            match gather_needs(&mut table, &key, &needs) {
                Err(need) => {
                    let required_by = match id {
                        Some(s) => s,
                        None => string_of("<NULL>"),
                    };
                    assert(required_by@ == id_or_null(cur[i as int].1.0.id));
                    assert(plan_from(cur, i as int) == (Seq::<ScriptView>::empty(), Some((need@, required_by@))));
                    assert(script_views(runs@) =~= script_views(runs@) + Seq::<ScriptView>::empty());
                    return ScriptPlan { runs, missing: Some(MissingScript { need, required_by }) };
                },
                Ok(n) => {
                    let ghost e2 = script_table(table);
                    proof {
                        lemma_gather(cur, key@, string_views(needs@), 0, Seq::empty());
                        lemma_pending_all(script_table(n));
                        lemma_pending_pos(e2, i as int);
                        lemma_pending_update(e2, i as int, taken(key@));
                        assert(no_self_needs(Seq::<(Seq<char>, (ScriptView, bool))>::empty()));
                        assert(gather(cur, key@, string_views(needs@), 0, Seq::empty()) == Ok::<_, Seq<char>>((e2, script_table(n))));
                        assert(pending(e2) + script_table(n).len() == pending(cur));
                        assert(pending(script_table(n)) < pending(init));
                    }
                    let mut sub = run_scripts(n);
                    let ghost runs0 = runs@;
                    runs.append(&mut sub.runs);
                    assert(script_views(runs@) =~= script_views(runs0) + plan_from(script_table(n), 0).0);
                    if sub.missing.is_some() {
                        return ScriptPlan { runs, missing: sub.missing };
                    }
                    let p = table_get_index_of(&table, key.as_str());
                    proof {
                        assert(e2[i as int] == cur[i as int]);
                        lemma_key_index_unique(e2, key@, i as int);
                    }
                    let old_entry = table_insert(&mut table, key, (Script::default(), true));
                    let ghost e3 = script_table(table);
                    assert(e3 == e2.update(i as int, taken(cur[i as int].0)));
                    match old_entry {
                        Some(se) => {
                            let (s, _) = se;
                            let ghost runs1 = runs@;
                            runs.push(s);
                            assert(script_views(runs@) =~= script_views(runs1).push(cur[i as int].1.0));
                        },
                        None => {},
                    }
                    proof {
                        let rest = plan_from(e3, i + 1);
                        assert(script_views(runs@) + rest.0 =~= script_views(runs0) + plan_from(cur, i as int).0);
                        assert forall|q: int| 0 <= q < e3.len() implies !(#[trigger] e3[q].1.0.needs).contains(e3[q].0) by {
                            if q != i {
                                assert(e3[q] == e2[q]);
                            }
                        }
                    }
                },
            }
        }
        i = i + 1;
    }
    assert(script_views(runs@) =~= script_views(runs@) + Seq::<ScriptView>::empty());
    ScriptPlan { runs, missing: None }
}

} // verus!

verus! {

/// The key a script is filed under when scripts are run together: its id, or `<?>`.
pub open spec fn script_key(s: ScriptView) -> Seq<char> {
    match s.id {
        Some(id) => id,
        None => "<?>"@,
    }
}

/// Filing `v` under `k`: an entry with that key keeps its place and takes the
/// new value; otherwise the entry is added last.
pub open spec fn insert_entry(e: Seq<(Seq<char>, (ScriptView, bool))>, k: Seq<char>, v: (ScriptView, bool)) -> Seq<(Seq<char>, (ScriptView, bool))> {
    let p = key_index(e, k);
    if p >= 0 {
        e.update(p, (k, v))
    } else {
        e.push((k, v))
    }
}

/// The table of the scripts `s`, each filed under its key and not done; of
/// scripts with the same key the last one stays, in the place of the first.
pub open spec fn table_of(s: Seq<ScriptView>) -> Seq<(Seq<char>, (ScriptView, bool))>
    decreases s.len(),
{
    if s.len() == 0 {
        Seq::empty()
    } else {
        insert_entry(table_of(s.drop_last()), script_key(s.last()), (s.last(), false))
    }
}

/// The priorities of a list of scripts.
pub open spec fn priorities(s: Seq<Script>) -> Seq<i32> {
    s.map_values(|x: Script| x.priority)
}

/// The scripts of `s` in the order `p`.
pub open spec fn in_order(s: Seq<Script>, p: Seq<usize>) -> Seq<ScriptView> {
    p.map_values(|i: usize| s[i as int]@)
}

/// The key of a script: its id, or `<?>`.
fn key_of(s: &Script) -> (k: String)
    ensures
        k@ == script_key(s@),
{
    match &s.id {
        Some(id) => id.clone(),
        None => string_of("<?>"),
    }
}

/// Works out how a list of scripts runs: they are ordered by priority (a
/// stable sort), filed by key (the last of several scripts with the same key
/// wins), and run as `run_scripts` runs them. No script may need its own key.
pub fn run_all_scripts(scrs: &Vec<Script>) -> (r: ScriptPlan)
    requires
        forall|i: int| 0 <= i < scrs@.len() ==> !(#[trigger] scrs@[i])@.needs.contains(script_key(scrs@[i]@)),
    ensures
        exists|p: Seq<usize>| #[trigger] stable_priority_order(priorities(scrs@), p)
            && plan_view(r) == plan_from(table_of(in_order(scrs@, p)), 0),
{
    let mut prios: Vec<i32> = Vec::new();
    let mut i: usize = 0;
    while i < scrs.len()
        invariant
            i <= scrs@.len(),
            prios@ == priorities(scrs@).subrange(0, i as int),
        decreases scrs@.len() - i,
    {
        prios.push(scrs[i].priority);
        i = i + 1;
        assert(prios@ =~= priorities(scrs@).subrange(0, i as int));
    }
    assert(prios@ =~= priorities(scrs@));
    let order = stable_order(&prios);
    let ghost sorted = in_order(scrs@, order@);
    let mut table = table_new();
    let mut t: usize = 0;
    while t < order.len()
        invariant
            stable_priority_order(priorities(scrs@), order@),
            prios@ == priorities(scrs@),
            sorted == in_order(scrs@, order@),
            t <= order@.len(),
            script_table(table) == table_of(sorted.subrange(0, t as int)),
            forall|q: int| 0 <= q < script_table(table).len() ==> #[trigger] script_table(table)[q].0 == script_key(script_table(table)[q].1.0),
            no_self_needs(script_table(table)),
            forall|i: int| 0 <= i < scrs@.len() ==> !(#[trigger] scrs@[i])@.needs.contains(script_key(scrs@[i]@)),
        decreases order@.len() - t,
    {
        let s = scrs[order[t]].clone();
        let k = key_of(&s);
        let ghost e = script_table(table);
        assert(s@ == sorted[t as int]);
        proof {
            lemma_key_index(e, k@);
        }
        table_insert(&mut table, k, (s, false));
        proof {
            let e2 = script_table(table);
            assert(sorted.subrange(0, t + 1).drop_last() =~= sorted.subrange(0, t as int));
            assert(e2 == table_of(sorted.subrange(0, t + 1)));
            assert forall|q: int| 0 <= q < e2.len() implies #[trigger] e2[q].0 == script_key(e2[q].1.0) by {
                if q < e.len() && q != key_index(e, k@) {
                    assert(e2[q] == e[q]);
                }
            }
            assert forall|q: int| 0 <= q < e2.len() implies !(#[trigger] e2[q].1.0.needs).contains(e2[q].0) by {
                if q < e.len() && q != key_index(e, k@) {
                    assert(e2[q] == e[q]);
                } else {
                    assert(e2[q].1.0 == scrs@[order@[t as int] as int]@);
                }
            }
        }
        t = t + 1;
    }
    assert(sorted.subrange(0, order@.len() as int) =~= sorted);
    run_scripts(table)
}

} // verus!

verus! {

/// Every entry of the table that is not done is filed under its script's key.
pub open spec fn keyed(e: Seq<(Seq<char>, (ScriptView, bool))>) -> bool {
    forall|q: int| 0 <= q < e.len() && !e[q].1.1 ==> #[trigger] e[q].0 == script_key(e[q].1.0)
}

/// Some done entry of `e` has key `k`.
pub open spec fn has_done_key(e: Seq<(Seq<char>, (ScriptView, bool))>, k: Seq<char>) -> bool {
    exists|q: int| 0 <= q < e.len() && (#[trigger] e[q]).0 == k && e[q].1.1
}

/// Some entry of `n` has key `k`.
pub open spec fn has_key(n: Seq<(Seq<char>, (ScriptView, bool))>, k: Seq<char>) -> bool {
    exists|t: int| 0 <= t < n.len() && (#[trigger] n[t]).0 == k
}

/// What gathering tells of keys: the table of needed scripts only grows; each
/// entry that gathering marks done is in it; each need is the script's own
/// key, or done before, or in it; and entries keep being filed under their keys.
pub proof fn lemma_gather_keys(
    e: Seq<(Seq<char>, (ScriptView, bool))>,
    own: Seq<char>,
    needs: Seq<Seq<char>>,
    j: int,
    n: Seq<(Seq<char>, (ScriptView, bool))>,
)
    requires
        0 <= j,
    ensures
        gather(e, own, needs, j, n) matches Ok((e2, n2)) ==> {
            &&& n.len() <= n2.len()
            &&& forall|t: int| 0 <= t < n.len() ==> #[trigger] n2[t] == n[t]
            &&& e2.len() == e.len()
            &&& forall|q: int| 0 <= q < e.len() && !(#[trigger] e2[q]).1.1 ==> e2[q] == e[q]
            &&& forall|q: int| 0 <= q < e.len() && !e[q].1.1 && (#[trigger] e2[q]).1.1 ==> has_key(n2, e[q].0)
            &&& forall|q: int| 0 <= q < e.len() && e[q].1.1 ==> (#[trigger] e2[q]).1.1
            &&& forall|jj: int| j <= jj < needs.len() ==> needs[jj] == own || has_done_key(e, #[trigger] needs[jj]) || has_key(n2, needs[jj])
            &&& keyed(e) && (forall|t: int| 0 <= t < n.len() ==> (#[trigger] n[t]).0 == script_key(n[t].1.0))
                ==> forall|t: int| 0 <= t < n2.len() ==> (#[trigger] n2[t]).0 == script_key(n2[t].1.0)
        },
    decreases needs.len() - j,
{
    if j < needs.len() {
        let k = needs[j];
        let p = key_index(e, k);
        lemma_key_index(e, k);
        if p >= 0 && !(e[p].1.1 || k == own) {
            let e1 = e.update(p, taken(k));
            let n1 = n.push((k, (e[p].1.0, false)));
            lemma_gather_keys(e1, own, needs, j + 1, n1);
            if let Ok((e2, n2)) = gather(e1, own, needs, j + 1, n1) {
                assert(n2[n.len() as int] == n1[n.len() as int]);
                assert(has_key(n2, k));
                assert forall|t: int| 0 <= t < n.len() implies #[trigger] n2[t] == n[t] by {
                    assert(n2[t] == n1[t]);
                }
                assert forall|q: int| 0 <= q < e.len() && !(#[trigger] e2[q]).1.1 implies e2[q] == e[q] by {
                    assert(e2[q] == e1[q]);
                }
                assert forall|q: int| 0 <= q < e.len() && !e[q].1.1 && (#[trigger] e2[q]).1.1 implies has_key(n2, e[q].0) by {
                    if q != p {
                        assert(e1[q] == e[q]);
                    }
                }
                assert forall|q: int| 0 <= q < e.len() && e[q].1.1 implies (#[trigger] e2[q]).1.1 by {
                    assert(e1[q].1.1);
                }
                assert forall|jj: int| j <= jj < needs.len() implies needs[jj] == own || has_done_key(e, #[trigger] needs[jj]) || has_key(n2, needs[jj]) by {
                    if jj > j {
                        if has_done_key(e1, needs[jj]) {
                            let q = choose|q: int| 0 <= q < e1.len() && (#[trigger] e1[q]).0 == needs[jj] && e1[q].1.1;
                            if q != p {
                                assert(e[q] == e1[q]);
                            }
                        }
                    }
                }
                if keyed(e) && (forall|t: int| 0 <= t < n.len() ==> (#[trigger] n[t]).0 == script_key(n[t].1.0)) {
                    assert(keyed(e1)) by {
                        assert forall|q: int| 0 <= q < e1.len() && !e1[q].1.1 implies #[trigger] e1[q].0 == script_key(e1[q].1.0) by {
                            assert(q != p);
                            assert(e1[q] == e[q]);
                        }
                    }
                    assert forall|t: int| 0 <= t < n1.len() implies (#[trigger] n1[t]).0 == script_key(n1[t].1.0) by {
                        if t < n.len() {
                            assert(n1[t] == n[t]);
                        }
                    }
                }
            }
        } else if p >= 0 {
            lemma_gather_keys(e, own, needs, j + 1, n);
            if let Ok((e2, n2)) = gather(e, own, needs, j + 1, n) {
                if e[p].1.1 {
                    assert(has_done_key(e, needs[j]));
                }
            }
        }
    }
}

} // verus!

verus! {

/// One of the first `t` scripts of `s` is filed under `k`.
pub open spec fn ran_before(s: Seq<ScriptView>, t: int, k: Seq<char>) -> bool {
    exists|u: int| 0 <= u < t && u < s.len() && #[trigger] script_key(s[u]) == k
}

/// From position `from` on, every need of a script of `s` is the key of a script before it.
pub open spec fn needs_first(s: Seq<ScriptView>, from: int) -> bool {
    forall|t: int, k: Seq<char>| from <= t < s.len() && #[trigger] s[t].needs.contains(k) ==> ran_before(s, t, k)
}

/// A script that ran before position `t` of `s` ran before any later position
/// of a sequence that begins as `s` does.
pub proof fn lemma_ran_extend(s: Seq<ScriptView>, t: int, k: Seq<char>, s2: Seq<ScriptView>, t2: int)
    requires
        ran_before(s, t, k),
        t <= t2,
        t <= s.len(),
        t <= s2.len(),
        forall|u: int| 0 <= u < t ==> s2[u] == s[u],
    ensures
        ran_before(s2, t2, k),
{
    let u = choose|u: int| 0 <= u < t && u < s.len() && #[trigger] script_key(s[u]) == k;
    assert(s2[u] == s[u]);
    assert(script_key(s2[u]) == k);
}

/// Running a table from position `i`, after the scripts `prior` (which include
/// every done entry), succeeds only with every script's needs run before it,
/// and with every pending entry from `i` on run.
pub proof fn lemma_plan_order(e: Seq<(Seq<char>, (ScriptView, bool))>, i: int, prior: Seq<ScriptView>)
    requires
        0 <= i,
        keyed(e),
        no_self_needs(e),
        forall|q: int| 0 <= q < e.len() && (#[trigger] e[q]).1.1 ==> ran_before(prior, prior.len() as int, e[q].0),
    ensures
        plan_from(e, i).1 is None ==> {
            &&& needs_first(prior + plan_from(e, i).0, prior.len() as int)
            &&& forall|q: int| i <= q < e.len() && !(#[trigger] e[q]).1.1
                ==> ran_before(prior + plan_from(e, i).0, (prior.len() + plan_from(e, i).0.len()) as int, e[q].0)
        },
    decreases pending(e), e.len() - i,
{
    if i >= e.len() {
        assert(prior + plan_from(e, i).0 =~= prior);
    } else if e[i].1.1 {
        lemma_plan_order(e, i + 1, prior);
    } else {
        let own = e[i].0;
        let v = e[i].1.0;
        lemma_gather(e, own, v.needs, 0, Seq::empty());
        lemma_gather_keys(e, own, v.needs, 0, Seq::empty());
        if let Ok((e2, n2)) = gather(e, own, v.needs, 0, Seq::empty()) {
            lemma_pending_all(n2);
            lemma_pending_pos(e2, i);
            lemma_pending_update(e2, i, taken(own));
            assert(keyed(n2));
            assert(no_self_needs(Seq::<(Seq<char>, (ScriptView, bool))>::empty()));
            lemma_plan_order(n2, 0, prior);
            let sub = plan_from(n2, 0);
            if sub.1 is None {
                let e3 = e2.update(i, taken(own));
                let prior2 = prior + sub.0.push(v);
                let ps = prior + sub.0;
                assert(e2[i] == e[i]);
                assert(script_key(prior2[(prior.len() + sub.0.len()) as int]) == own);
                assert(ran_before(prior2, prior2.len() as int, own));
                assert(keyed(e3)) by {
                    assert forall|q: int| 0 <= q < e3.len() && !e3[q].1.1 implies #[trigger] e3[q].0 == script_key(e3[q].1.0) by {
                        assert(e3[q] == e2[q]);
                        assert(e2[q] == e[q]);
                    }
                }
                assert(no_self_needs(e3)) by {
                    assert forall|q: int| 0 <= q < e3.len() implies !(#[trigger] e3[q].1.0.needs).contains(e3[q].0) by {
                        if q != i {
                            assert(e3[q] == e2[q]);
                        }
                    }
                }
                assert forall|q: int| 0 <= q < e3.len() && (#[trigger] e3[q]).1.1 implies ran_before(prior2, prior2.len() as int, e3[q].0) by {
                    if q != i {
                        assert(e3[q] == e2[q]);
                        if e[q].1.1 {
                            lemma_ran_extend(prior, prior.len() as int, e[q].0, prior2, prior2.len() as int);
                        } else {
                            assert(has_key(n2, e[q].0));
                            let t = choose|t: int| 0 <= t < n2.len() && (#[trigger] n2[t]).0 == e[q].0;
                            assert(!n2[t].1.1);
                            lemma_ran_extend(ps, ps.len() as int, e[q].0, prior2, prior2.len() as int);
                        }
                    }
                }
                lemma_plan_order(e3, i + 1, prior2);
                let rest = plan_from(e3, i + 1);
                if rest.1 is None {
                    let runs = sub.0.push(v) + rest.0;
                    assert(plan_from(e, i).0 == runs);
                    let all = prior + runs;
                    assert(all =~= prior2 + rest.0);
                    assert forall|t: int, k: Seq<char>| prior.len() <= t < all.len() && #[trigger] all[t].needs.contains(k) implies ran_before(all, t, k) by {
                        if t < ps.len() {
                            assert(all[t] == ps[t]);
                            assert(ps[t].needs.contains(k));
                            lemma_ran_extend(ps, t, k, all, t);
                        } else if t == ps.len() {
                            assert(all[t] == v);
                            assert(v.needs.contains(k));
                            let jj = choose|jj: int| 0 <= jj < v.needs.len() && v.needs[jj] == k;
                            assert(v.needs[jj] != own);
                            if has_done_key(e, v.needs[jj]) {
                                let q = choose|q: int| 0 <= q < e.len() && (#[trigger] e[q]).0 == v.needs[jj] && e[q].1.1;
                                lemma_ran_extend(prior, prior.len() as int, k, all, t);
                            } else {
                                assert(has_key(n2, v.needs[jj]));
                                let tt = choose|tt: int| 0 <= tt < n2.len() && (#[trigger] n2[tt]).0 == v.needs[jj];
                                assert(!n2[tt].1.1);
                                lemma_ran_extend(ps, ps.len() as int, k, all, t);
                            }
                        } else {
                            assert((prior2 + rest.0)[t].needs.contains(k));
                        }
                    }
                    assert forall|q: int| i <= q < e.len() && !(#[trigger] e[q]).1.1 implies ran_before(all, all.len() as int, e[q].0) by {
                        if q == i {
                            lemma_ran_extend(prior2, prior2.len() as int, own, all, all.len() as int);
                        } else if !e2[q].1.1 {
                            assert(e3[q] == e2[q]);
                            assert(e2[q] == e[q]);
                        } else {
                            assert(has_key(n2, e[q].0));
                            let t = choose|t: int| 0 <= t < n2.len() && (#[trigger] n2[t]).0 == e[q].0;
                            assert(!n2[t].1.1);
                            lemma_ran_extend(ps, ps.len() as int, e[q].0, all, all.len() as int);
                        }
                    }
                }
            }
        }
    }
}

} // verus!

verus! {

/// A run has at most as many scripts as the table has pending entries.
pub proof fn lemma_plan_len(e: Seq<(Seq<char>, (ScriptView, bool))>, i: int)
    requires
        0 <= i,
    ensures
        plan_from(e, i).0.len() <= pending(e),
    decreases pending(e), e.len() - i,
{
    if i < e.len() {
        if e[i].1.1 {
            lemma_plan_len(e, i + 1);
        } else {
            let own = e[i].0;
            lemma_gather(e, own, e[i].1.0.needs, 0, Seq::empty());
            if let Ok((e2, n2)) = gather(e, own, e[i].1.0.needs, 0, Seq::empty()) {
                lemma_pending_all(n2);
                lemma_pending_pos(e2, i);
                lemma_pending_update(e2, i, taken(own));
                lemma_plan_len(n2, 0);
                lemma_plan_len(e2.update(i, taken(own)), i + 1);
            }
        }
    }
}

/// With no needs, the pending entries from position `i` on run in table order.
pub proof fn lemma_plan_no_needs(e: Seq<(Seq<char>, (ScriptView, bool))>, i: int)
    requires
        0 <= i <= e.len(),
        forall|q: int| i <= q < e.len() ==> (#[trigger] e[q]).1.0.needs.len() == 0 && !e[q].1.1,
    ensures
        plan_from(e, i) == (e.subrange(i, e.len() as int).map_values(|x: (Seq<char>, (ScriptView, bool))| x.1.0), None::<(Seq<char>, Seq<char>)>),
    decreases e.len() - i,
{
    if i < e.len() {
        let own = e[i].0;
        assert(gather(e, own, e[i].1.0.needs, 0, Seq::empty()) == Ok::<_, Seq<char>>((e, Seq::<(Seq<char>, (ScriptView, bool))>::empty())));
        assert(plan_from(Seq::<(Seq<char>, (ScriptView, bool))>::empty(), 0) == (Seq::<ScriptView>::empty(), None::<(Seq<char>, Seq<char>)>));
        let e3 = e.update(i, taken(own));
        assert forall|q: int| i + 1 <= q < e3.len() implies (#[trigger] e3[q]).1.0.needs.len() == 0 && !e3[q].1.1 by {
            assert(e3[q] == e[q]);
        }
        lemma_plan_no_needs(e3, i + 1);
        assert(e3.subrange(i + 1, e3.len() as int) =~= e.subrange(i + 1, e.len() as int));
        assert(Seq::<ScriptView>::empty().push(e[i].1.0) + e.subrange(i + 1, e.len() as int).map_values(|x: (Seq<char>, (ScriptView, bool))| x.1.0)
            =~= e.subrange(i, e.len() as int).map_values(|x: (Seq<char>, (ScriptView, bool))| x.1.0));
    } else {
        assert(e.subrange(i, e.len() as int).map_values(|x: (Seq<char>, (ScriptView, bool))| x.1.0) =~= Seq::<ScriptView>::empty());
    }
}

/// What filing scripts gives: every entry is pending, filed under its
/// script's key, and holds one of the scripts; every script's key is filed.
pub proof fn lemma_table_of(s: Seq<ScriptView>)
    ensures
        forall|q: int| 0 <= q < table_of(s).len() ==> !(#[trigger] table_of(s)[q]).1.1
            && table_of(s)[q].0 == script_key(table_of(s)[q].1.0)
            && exists|u: int| 0 <= u < s.len() && s[u] == table_of(s)[q].1.0,
        forall|u: int| 0 <= u < s.len() ==> has_key(table_of(s), script_key(#[trigger] s[u])),
    decreases s.len(),
{
    if s.len() > 0 {
        let init = s.drop_last();
        lemma_table_of(init);
        let e = table_of(init);
        let k = script_key(s.last());
        lemma_key_index(e, k);
        let e2 = table_of(s);
        assert forall|q: int| 0 <= q < e2.len() implies !(#[trigger] e2[q]).1.1
            && e2[q].0 == script_key(e2[q].1.0)
            && exists|u: int| 0 <= u < s.len() && s[u] == e2[q].1.0 by {
            if q < e.len() && q != key_index(e, k) {
                assert(e2[q] == e[q]);
                let u = choose|u: int| 0 <= u < init.len() && init[u] == e[q].1.0;
                assert(s[u] == init[u]);
            } else {
                assert(e2[q].1.0 == s[s.len() - 1]);
            }
        }
        assert forall|u: int| 0 <= u < s.len() implies has_key(e2, script_key(#[trigger] s[u])) by {
            if u < s.len() - 1 {
                assert(s[u] == init[u]);
                assert(has_key(e, script_key(init[u])));
                let t = choose|t: int| 0 <= t < e.len() && (#[trigger] e[t]).0 == script_key(init[u]);
                assert(e2[t].0 == e[t].0);
            } else {
                if key_index(e, k) >= 0 {
                    assert(e2[key_index(e, k)].0 == k);
                } else {
                    assert(e2[e.len() as int].0 == k);
                }
            }
        }
    }
}

/// With keys all different, each script gets an entry of its own, in order.
pub proof fn lemma_table_of_distinct(s: Seq<ScriptView>)
    requires
        forall|a: int, b: int| 0 <= a < b < s.len() ==> script_key(s[a]) != script_key(s[b]),
    ensures
        table_of(s) == s.map_values(|x: ScriptView| (script_key(x), (x, false))),
    decreases s.len(),
{
    if s.len() > 0 {
        let init = s.drop_last();
        lemma_table_of_distinct(init);
        let e = table_of(init);
        let k = script_key(s.last());
        lemma_key_index(e, k);
        if key_index(e, k) >= 0 {
            let q = key_index(e, k);
            assert(e[q].0 == script_key(init[q]));
            assert(script_key(s[q]) != script_key(s[s.len() - 1]));
        }
        assert(table_of(s) =~= s.map_values(|x: ScriptView| (script_key(x), (x, false))));
    }
}

/// Scripts without needs run in the order they are filed, all of them, when
/// no two share a key.
pub proof fn law_no_needs_in_order(s: Seq<ScriptView>)
    requires
        forall|a: int, b: int| 0 <= a < b < s.len() ==> script_key(s[a]) != script_key(s[b]),
        forall|u: int| 0 <= u < s.len() ==> (#[trigger] s[u]).needs.len() == 0,
    ensures
        plan_from(table_of(s), 0) == (s, None::<(Seq<char>, Seq<char>)>),
{
    lemma_table_of_distinct(s);
    let e = table_of(s);
    assert forall|q: int| 0 <= q < e.len() implies (#[trigger] e[q]).1.0.needs.len() == 0 && !e[q].1.1 by {
        assert(e[q].1.0 == s[q]);
    }
    lemma_plan_no_needs(e, 0);
    assert(e.subrange(0, e.len() as int).map_values(|x: (Seq<char>, (ScriptView, bool))| x.1.0) =~= s);
}

/// A run of filed scripts that completes runs every script after the scripts
/// it needs, and runs a script under every key that was filed; none twice
/// over: there are at most as many runs as keys.
pub proof fn law_needs_run_first(s: Seq<ScriptView>)
    requires
        forall|u: int| 0 <= u < s.len() ==> !(#[trigger] s[u]).needs.contains(script_key(s[u])),
    ensures
        plan_from(table_of(s), 0).0.len() <= table_of(s).len(),
        plan_from(table_of(s), 0).1 is None ==> {
            &&& needs_first(plan_from(table_of(s), 0).0, 0)
            &&& forall|u: int| 0 <= u < s.len()
                ==> ran_before(plan_from(table_of(s), 0).0, plan_from(table_of(s), 0).0.len() as int, script_key(#[trigger] s[u]))
        },
{
    let e = table_of(s);
    lemma_table_of(s);
    assert(keyed(e));
    assert(no_self_needs(e)) by {
        assert forall|q: int| 0 <= q < e.len() implies !(#[trigger] e[q].1.0.needs).contains(e[q].0) by {
            let u = choose|u: int| 0 <= u < s.len() && s[u] == e[q].1.0;
            assert(!s[u].needs.contains(script_key(s[u])));
        }
    }
    lemma_plan_order(e, 0, Seq::empty());
    lemma_plan_len(e, 0);
    lemma_pending_le_len(e);
    let runs = plan_from(e, 0).0;
    assert(Seq::<ScriptView>::empty() + runs =~= runs);
    if plan_from(e, 0).1 is None {
        assert forall|u: int| 0 <= u < s.len() implies ran_before(runs, runs.len() as int, script_key(#[trigger] s[u])) by {
            assert(has_key(e, script_key(s[u])));
            let t = choose|t: int| 0 <= t < e.len() && (#[trigger] e[t]).0 == script_key(s[u]);
            assert(!e[t].1.1);
        }
    }
}

/// Filing scripts gives every key one entry.
pub proof fn lemma_table_of_unique_keys(s: Seq<ScriptView>)
    ensures
        forall|a: int, b: int| 0 <= a < b < table_of(s).len() ==> table_of(s)[a].0 != table_of(s)[b].0,
    decreases s.len(),
{
    if s.len() > 0 {
        let init = s.drop_last();
        lemma_table_of_unique_keys(init);
        let e = table_of(init);
        let k = script_key(s.last());
        lemma_key_index(e, k);
        let e2 = table_of(s);
        assert forall|a: int, b: int| 0 <= a < b < e2.len() implies e2[a].0 != e2[b].0 by {
            if b < e.len() {
                assert(e2[a].0 == e[a].0 && e2[b].0 == e[b].0);
            } else {
                assert(e2[a].0 == e[a].0);
            }
        }
    }
}

/// A run of filed scripts that completes runs each filed script exactly once:
/// as many runs as keys, and no key run twice.
pub proof fn law_each_script_runs_once(s: Seq<ScriptView>)
    requires
        forall|u: int| 0 <= u < s.len() ==> !(#[trigger] s[u]).needs.contains(script_key(s[u])),
    ensures
        plan_from(table_of(s), 0).1 is None ==> {
            &&& plan_from(table_of(s), 0).0.len() == table_of(s).len()
            &&& forall|a: int, b: int| 0 <= a < b < plan_from(table_of(s), 0).0.len()
                ==> script_key(plan_from(table_of(s), 0).0[a]) != script_key(plan_from(table_of(s), 0).0[b])
        },
{
    law_needs_run_first(s);
    lemma_table_of(s);
    lemma_table_of_unique_keys(s);
    let e = table_of(s);
    let runs = plan_from(e, 0).0;
    if plan_from(e, 0).1 is None {
        let keys = e.map_values(|x: (Seq<char>, (ScriptView, bool))| x.0);
        let ks = runs.map_values(|x: ScriptView| script_key(x));
        assert(keys.no_duplicates()) by {
            assert forall|a: int, b: int| 0 <= a < keys.len() && 0 <= b < keys.len() && a != b implies keys[a] != keys[b] by {
                if a < b {
                    assert(e[a].0 != e[b].0);
                } else {
                    assert(e[b].0 != e[a].0);
                }
            }
        }
        keys.unique_seq_to_set();
        assert(keys.to_set().subset_of(ks.to_set())) by {
            assert forall|k: Seq<char>| keys.to_set().contains(k) implies ks.to_set().contains(k) by {
                let q = choose|q: int| 0 <= q < keys.len() && keys[q] == k;
                assert(!e[q].1.1);
                let u = choose|u: int| 0 <= u < s.len() && s[u] == e[q].1.0;
                assert(ran_before(runs, runs.len() as int, script_key(s[u])));
                let w = choose|w: int| 0 <= w < runs.len() && w < runs.len() && #[trigger] script_key(runs[w]) == script_key(s[u]);
                assert(ks[w] == k);
            }
        }
        vstd::seq_lib::seq_to_set_is_finite(ks);
        vstd::seq_lib::seq_to_set_is_finite(keys);
        vstd::set_lib::lemma_len_subset(keys.to_set(), ks.to_set());
        ks.lemma_cardinality_of_set();
        assert(ks.to_set().len() == ks.len());
        ks.lemma_no_dup_set_cardinality();
        assert forall|a: int, b: int| 0 <= a < b < runs.len() implies script_key(runs[a]) != script_key(runs[b]) by {
            assert(ks[a] == script_key(runs[a]) && ks[b] == script_key(runs[b]));
        }
    }
}

/// Each need from the `j`th on names an entry of `e` that is done or needs nothing.
pub open spec fn needs_found(e: Seq<(Seq<char>, (ScriptView, bool))>, needs: Seq<Seq<char>>, j: int) -> bool {
    forall|jj: int| j <= jj < needs.len() ==> {
        let p = #[trigger] key_index(e, needs[jj]);
        &&& p >= 0
        &&& (e[p].1.1 || e[p].1.0.needs.len() == 0)
    }
}

/// Every need of every pending entry of `e` names an entry that is done or
/// needs nothing.
pub open spec fn needs_available(e: Seq<(Seq<char>, (ScriptView, bool))>) -> bool {
    forall|q: int| 0 <= q < e.len() && !(#[trigger] e[q]).1.1 ==> needs_found(e, e[q].1.0.needs, 0)
}

/// Gathering needs that are all found succeeds, and gathers only scripts
/// that need nothing.
proof fn lemma_gather_ok(
    e: Seq<(Seq<char>, (ScriptView, bool))>,
    own: Seq<char>,
    needs: Seq<Seq<char>>,
    j: int,
    n: Seq<(Seq<char>, (ScriptView, bool))>,
)
    requires
        0 <= j,
        needs_found(e, needs, j),
        forall|t: int| 0 <= t < n.len() ==> (#[trigger] n[t]).1.0.needs.len() == 0 && !n[t].1.1,
    ensures
        gather(e, own, needs, j, n) is Ok,
        gather(e, own, needs, j, n) matches Ok((e2, n2))
            ==> forall|t: int| 0 <= t < n2.len() ==> (#[trigger] n2[t]).1.0.needs.len() == 0 && !n2[t].1.1,
    decreases needs.len() - j,
{
    if j < needs.len() {
        let k = needs[j];
        let p = key_index(e, k);
        assert(p >= 0);
        lemma_key_index(e, k);
        if e[p].1.1 || k == own {
            lemma_gather_ok(e, own, needs, j + 1, n);
        } else {
            let e1 = e.update(p, taken(k));
            let n1 = n.push((k, (e[p].1.0, false)));
            assert forall|q: int| 0 <= q < e.len() implies #[trigger] e[q].0 == e1[q].0 by {}
            assert forall|jj: int| j + 1 <= jj < needs.len() implies {
                let p1 = #[trigger] key_index(e1, needs[jj]);
                &&& p1 >= 0
                &&& (e1[p1].1.1 || e1[p1].1.0.needs.len() == 0)
            } by {
                let k1 = needs[jj];
                lemma_key_index_same_keys(e, e1, k1);
                lemma_key_index(e, k1);
                let p1 = key_index(e, k1);
                assert(p1 >= 0);
                if p1 != p {
                    assert(e1[p1] == e[p1]);
                }
            }
            assert forall|t: int| 0 <= t < n1.len() implies (#[trigger] n1[t]).1.0.needs.len() == 0 && !n1[t].1.1 by {
                if t < n.len() {
                    assert(n1[t] == n[t]);
                }
            }
            lemma_gather_ok(e1, own, needs, j + 1, n1);
        }
    }
}

/// A table whose needs are all available runs to the end without error.
proof fn lemma_plan_ok(e: Seq<(Seq<char>, (ScriptView, bool))>, i: int)
    requires
        0 <= i,
        needs_available(e),
    ensures
        plan_from(e, i).1 is None,
    decreases pending(e), e.len() - i,
{
    if i < e.len() {
        if e[i].1.1 {
            lemma_plan_ok(e, i + 1);
        } else {
            let own = e[i].0;
            let needs = e[i].1.0.needs;
            assert(needs_found(e, needs, 0));
            lemma_gather_ok(e, own, needs, 0, Seq::empty());
            lemma_gather(e, own, needs, 0, Seq::empty());
            lemma_gather_keys(e, own, needs, 0, Seq::empty());
            let (e2, n2) = gather(e, own, needs, 0, Seq::empty())->Ok_0;
            lemma_pending_all(n2);
            lemma_pending_pos(e2, i);
            lemma_pending_update(e2, i, taken(own));
            lemma_plan_no_needs(n2, 0);
            let e3 = e2.update(i, taken(own));
            assert forall|q: int| 0 <= q < e.len() implies #[trigger] e[q].0 == e3[q].0 by {
                assert(e2[q].0 == e[q].0);
            }
            assert forall|q: int| 0 <= q < e3.len() && !(#[trigger] e3[q]).1.1 implies needs_found(e3, e3[q].1.0.needs, 0) by {
                assert(e3[q] == e2[q]);
                assert(e2[q] == e[q]);
                assert(needs_found(e, e[q].1.0.needs, 0));
                assert forall|jj: int| 0 <= jj < e3[q].1.0.needs.len() implies {
                    let p = #[trigger] key_index(e3, e3[q].1.0.needs[jj]);
                    &&& p >= 0
                    &&& (e3[p].1.1 || e3[p].1.0.needs.len() == 0)
                } by {
                    let k = e3[q].1.0.needs[jj];
                    lemma_key_index_same_keys(e, e3, k);
                    let p = key_index(e, k);
                    lemma_key_index(e, k);
                    assert(p >= 0);
                    if !e3[p].1.1 {
                        assert(p != i);
                        assert(e3[p] == e2[p]);
                        assert(!e2[p].1.1);
                        assert(e2[p] == e[p]);
                    }
                }
            }
            lemma_plan_ok(e3, i + 1);
        }
    }
}

/// Every key of the table is filed once.
pub open spec fn unique_table_keys(e: Seq<(Seq<char>, (ScriptView, bool))>) -> bool {
    forall|a: int, b: int| 0 <= a < b < e.len() ==> e[a].0 != e[b].0
}

/// A table (with each key once, as a map holds it) in which every need of a
/// pending script names a script that is done or needs nothing is run to the
/// end without a missing script.
pub proof fn law_runs_when_needs_exist(e: Seq<(Seq<char>, (ScriptView, bool))>)
    requires
        unique_table_keys(e),
        forall|q: int, k: Seq<char>| 0 <= q < e.len() && !e[q].1.1 && #[trigger] e[q].1.0.needs.contains(k)
            ==> exists|r: int| 0 <= r < e.len() && (#[trigger] e[r]).0 == k && (e[r].1.1 || e[r].1.0.needs.len() == 0),
    ensures
        plan_from(e, 0).1 is None,
{
    assert forall|q: int| 0 <= q < e.len() && !(#[trigger] e[q]).1.1 implies needs_found(e, e[q].1.0.needs, 0) by {
        assert forall|jj: int| 0 <= jj < e[q].1.0.needs.len() implies {
            let p = #[trigger] key_index(e, e[q].1.0.needs[jj]);
            &&& p >= 0
            &&& (e[p].1.1 || e[p].1.0.needs.len() == 0)
        } by {
            let k = e[q].1.0.needs[jj];
            assert(e[q].1.0.needs.contains(k));
            let r = choose|r: int| 0 <= r < e.len() && (#[trigger] e[r]).0 == k && (e[r].1.1 || e[r].1.0.needs.len() == 0);
            assert forall|x: int| 0 <= x < e.len() && x != r implies e[x].0 != k by {
                if x < r {
                    assert(e[x].0 != e[r].0);
                } else {
                    assert(e[r].0 != e[x].0);
                }
            }
            lemma_key_index_unique(e, k, r);
        }
    }
    lemma_plan_ok(e, 0);
}

} // verus!

verus! {

/// Why a script could not be run.
#[derive(Debug, PartialEq, Eq)]
pub enum ScriptError {
    /// Its text could not be loaded; the id of the script (`<NULL>` without one).
    CannotLoad(String),
    /// A need that no script provides.
    Missing(MissingScript),
}

/// A script ready to run: the name of the file it is written to, its text,
/// and whether it runs inside the chroot.
#[derive(Debug, PartialEq, Eq)]
pub struct ScriptInvocation {
    pub file_name: String,
    pub data: String,
    pub in_chroot: bool,
}

/// The file name a script is written to: `script-` and its id (or `untitled`).
pub open spec fn script_file_name(id: Option<Seq<char>>) -> Seq<char> {
    "script-"@ + match id {
        Some(s) => s,
        None => "untitled"@,
    }
}

/// Prepares a script for running, given the text that loading it gave (none
/// when it could not be loaded): the text gets a shebang if it has none, and
/// the script runs inside the chroot when it says so, or by default when it
/// runs after the build (`is_post`).
pub fn run_script(script: &Script, loaded: Option<String>, is_post: bool) -> (r: Result<ScriptInvocation, ScriptError>)
    ensures
        match loaded {
            None => r matches Err(ScriptError::CannotLoad(id)) && id@ == id_or_null(script@.id),
            Some(text) => r is Ok
                && r->Ok_0.file_name@ == script_file_name(script@.id)
                && r->Ok_0.data@ == with_shebang(text@)
                && r->Ok_0.in_chroot == match script.chroot {
                    Some(c) => c,
                    None => is_post,
                },
        },
{
    match loaded {
        None => {
            let id = match &script.id {
                Some(s) => s.clone(),
                None => string_of("<NULL>"),
            };
            Err(ScriptError::CannotLoad(id))
        },
        Some(text) => {
            let mut file_name = string_of("script-");
            match &script.id {
                Some(s) => push_str(&mut file_name, s.as_str()),
                None => push_str(&mut file_name, "untitled"),
            }
            let in_chroot = match script.chroot {
                Some(c) => c,
                None => is_post,
            };
            Ok(ScriptInvocation { file_name, data: add_shebang(text), in_chroot })
        },
    }
}

impl MissingScript {
    /// The message of the error: ``Script `need` required by `id` not found``.
    pub fn message(&self) -> (r: String)
        ensures
            r@ == "Script `"@ + self.need@ + "` required by `"@ + self.required_by@ + "` not found"@,
    {
        let mut r = string_of("Script `");
        push_str(&mut r, self.need.as_str());
        push_str(&mut r, "` required by `");
        push_str(&mut r, self.required_by.as_str());
        push_str(&mut r, "` not found");
        r
    }
}

impl ScriptError {
    /// The message of the error.
    pub fn message(&self) -> (r: String)
        ensures
            match self {
                ScriptError::CannotLoad(id) => r@ == "Cannot load script `"@ + id@ + "`"@,
                ScriptError::Missing(m) => r@ == "Script `"@ + m.need@ + "` required by `"@ + m.required_by@ + "` not found"@,
            },
    {
        match self {
            ScriptError::CannotLoad(id) => {
                let mut r = string_of("Cannot load script `");
                push_str(&mut r, id.as_str());
                push_str(&mut r, "`");
                r
            },
            ScriptError::Missing(m) => m.message(),
        }
    }
}

} // verus!

verus! {

/// The directory, under the workspace, that holds the tree of the ISO image.
pub open spec fn iso_tree_of(workspace: Seq<char>) -> Seq<char> {
    join_path(workspace, "iso-tree"@)
}

/// The EFI boot image inside the ISO tree.
pub open spec fn efiboot_of(workspace: Seq<char>) -> Seq<char> {
    join_path(iso_tree_of(workspace), "boot/efiboot.img"@)
}

/// The hybrid MBR boot image among the boot images of the workspace.
pub open spec fn mbr_hybrid_of(workspace: Seq<char>) -> Seq<char> {
    join_path(join_path(workspace, "boot_imgs"@), "boot_hybrid.img"@)
}

/// The GUID of an EFI system partition.
pub open spec fn esp_guid() -> Seq<char> {
    "C12A7328-F81F-11D2-BA4B-00A0C93EC93B"@
}

/// The command that writes the ISO image: `xorrisofs` with a GPT-appended
/// ESP for GRUB (with the hybrid MBR on x86_64), `xorriso -as mkisofs` with
/// an appended ESP for rEFInd, and `xorriso -as mkisofs` with El Torito EFI
/// and BIOS boot for the others.
pub open spec fn xorriso_spec(bootloader: Bootloader, arch: Seq<char>, volid: Seq<char>, workspace: Seq<char>, image: Seq<char>) -> Seq<Seq<char>> {
    let tree = iso_tree_of(workspace);
    let efiboot = efiboot_of(workspace);
    match bootloader {
        Bootloader::Grub => seq!["xorrisofs"@, "-iso-level"@, "3"@, "-R"@, "-V"@, volid]
            + (if arch == "x86_64"@ { seq!["--grub2-mbr"@, mbr_hybrid_of(workspace)] } else { Seq::empty() })
            + seq!["-partition_offset"@, "16"@, "-appended_part_as_gpt"@, "-append_partition"@, "2"@, esp_guid(), efiboot,
                "-iso_mbr_part_type"@, "EBD0A0A2-B9E5-4433-87C0-68B6B72699C7"@, "-c"@, "boot.cat"@, "--boot-catalog-hide"@,
                "-b"@, "boot/eltorito.img"@, "-no-emul-boot"@, "-boot-load-size"@, "4"@, "-boot-info-table"@,
                "--grub2-boot-info"@, "-eltorito-alt-boot"@, "-e"@, "--interval:appended_partition_2:all::"@,
                "-no-emul-boot"@, "-vvvvv"@, "--md5"@, tree, "-o"@, image],
        Bootloader::REFInd => seq!["xorriso"@, "-as"@, "mkisofs"@, "-iso-level"@, "3"@, "-full-iso9660-filenames"@,
            "-joliet"@, "-joliet-long"@, "-rational-rock"@, "-volid"@, volid, "-eltorito-alt-boot"@, "-e"@,
            "boot/efiboot.img"@, "-no-emul-boot"@, "-append_partition"@, "2"@, esp_guid(), efiboot,
            "-appended_part_as_gpt"@, "-o"@, image, tree],
        _ => seq!["xorriso"@, "-iso-level"@, "3"@, "-as"@, "mkisofs"@, "-R"@, "--efi-boot"@, "boot/limine-uefi-cd.bin"@,
            "-b"@, "boot/limine-bios-cd.bin"@, "-no-emul-boot"@, "-boot-load-size"@, "4"@, "-boot-info-table"@,
            "--efi-boot"@, "boot/limine-uefi-cd.bin"@, "-efi-boot-part"@, "--efi-boot-image"@, "--protective-msdos-label"@,
            tree, "-volid"@, volid, "-o"@, image],
    }
}

/// The EFI El Torito entry of a GRUB ISO: the appended ESP, booted without emulation.
pub open spec fn has_efi_entry(s: Seq<Seq<char>>) -> bool {
    exists|i: int| 0 <= i && i + 3 < s.len() && #[trigger] s[i] == "-eltorito-alt-boot"@ && s[i + 1] == "-e"@
        && s[i + 2] == "--interval:appended_partition_2:all::"@ && s[i + 3] == "-no-emul-boot"@
}

/// A GRUB ISO boots from EFI on every architecture: its command always has
/// the EFI El Torito entry and writes `image`. The architecture decides only
/// the hybrid MBR: the x86_64 command is any other architecture's with
/// `--grub2-mbr` and the hybrid boot image inserted after the volume ID.
pub proof fn law_grub_iso_efi_entry(arch: Seq<char>, other: Seq<char>, volid: Seq<char>, workspace: Seq<char>, image: Seq<char>)
    ensures
        has_efi_entry(xorriso_spec(Bootloader::Grub, arch, volid, workspace, image)),
        xorriso_spec(Bootloader::Grub, arch, volid, workspace, image).last() == image,
        other != "x86_64"@ ==> xorriso_spec(Bootloader::Grub, "x86_64"@, volid, workspace, image)
            == xorriso_spec(Bootloader::Grub, other, volid, workspace, image).take(6)
                + seq!["--grub2-mbr"@, mbr_hybrid_of(workspace)]
                + xorriso_spec(Bootloader::Grub, other, volid, workspace, image).skip(6),
{
    let s = xorriso_spec(Bootloader::Grub, arch, volid, workspace, image);
    let head = seq!["xorrisofs"@, "-iso-level"@, "3"@, "-R"@, "-V"@, volid];
    let mbr = if arch == "x86_64"@ { seq!["--grub2-mbr"@, mbr_hybrid_of(workspace)] } else { Seq::<Seq<char>>::empty() };
    let tail = seq!["-partition_offset"@, "16"@, "-appended_part_as_gpt"@, "-append_partition"@, "2"@, esp_guid(), efiboot_of(workspace),
        "-iso_mbr_part_type"@, "EBD0A0A2-B9E5-4433-87C0-68B6B72699C7"@, "-c"@, "boot.cat"@, "--boot-catalog-hide"@,
        "-b"@, "boot/eltorito.img"@, "-no-emul-boot"@, "-boot-load-size"@, "4"@, "-boot-info-table"@,
        "--grub2-boot-info"@, "-eltorito-alt-boot"@, "-e"@, "--interval:appended_partition_2:all::"@,
        "-no-emul-boot"@, "-vvvvv"@, "--md5"@, iso_tree_of(workspace), "-o"@, image];
    assert(s == head + mbr + tail);
    let i = (head + mbr).len() + 19int;
    assert(s[i] == "-eltorito-alt-boot"@ && s[i + 1] == "-e"@ && s[i + 2] == "--interval:appended_partition_2:all::"@
        && s[i + 3] == "-no-emul-boot"@);
    if other != "x86_64"@ {
        let o = xorriso_spec(Bootloader::Grub, other, volid, workspace, image);
        assert(o == head + tail);
        assert(o.take(6) =~= head);
        assert(o.skip(6) =~= tail);
        assert(xorriso_spec(Bootloader::Grub, "x86_64"@, volid, workspace, image) =~= head + seq!["--grub2-mbr"@, mbr_hybrid_of(workspace)] + tail);
    }
}

/// The commands that make the ISO image `image` from the ISO tree of
/// `workspace`: the `xorriso_spec` command, then `implantisomd5`, which
/// implants the MD5 checksums. GRUB images are made for x86_64 or aarch64 only;
/// the boot binaries of GRUB BIOS and systemd-boot are not known.
pub fn xorriso(bootloader: Bootloader, arch: &str, volid: &str, workspace: &str, image: &str) -> (r: Vec<Vec<String>>)
    requires
        bootloader != Bootloader::GrubBios,
        bootloader != Bootloader::SystemdBoot,
        bootloader == Bootloader::Grub ==> known_arch(arch@),
    ensures
        commands_view(r@) == seq![
            xorriso_spec(bootloader, arch@, volid@, workspace@, image@),
            seq!["implantisomd5"@, "--force"@, "--supported-iso"@, image@],
        ],
{
    let (uefi_bin, bios_bin) = bootloader.get_bins();
    let tree = path_join(workspace, "iso-tree");
    let efiboot = path_join(tree.as_str(), "boot/efiboot.img");
    let mut c: Vec<String> = Vec::new();
    match bootloader {
        Bootloader::Grub => {
            push_args(&mut c, &["xorrisofs", "-iso-level", "3", "-R", "-V", volid]);
            assert(string_views(c@) =~= seq!["xorrisofs"@, "-iso-level"@, "3"@, "-R"@, "-V"@, volid@]);
            if str_eq(arch, "x86_64") {
                let imgs = path_join(workspace, "boot_imgs");
                c.push(string_of("--grub2-mbr"));
                c.push(path_join(imgs.as_str(), "boot_hybrid.img"));
            }
            let ghost head = string_views(c@);
            assert(head =~= seq!["xorrisofs"@, "-iso-level"@, "3"@, "-R"@, "-V"@, volid@]
                + (if arch@ == "x86_64"@ { seq!["--grub2-mbr"@, mbr_hybrid_of(workspace@)] } else { Seq::empty() }));
            push_args(&mut c, &["-partition_offset", "16", "-appended_part_as_gpt", "-append_partition", "2",
                "C12A7328-F81F-11D2-BA4B-00A0C93EC93B", efiboot.as_str(),
                "-iso_mbr_part_type", "EBD0A0A2-B9E5-4433-87C0-68B6B72699C7", "-c", "boot.cat", "--boot-catalog-hide",
                "-b", bios_bin, "-no-emul-boot", "-boot-load-size", "4", "-boot-info-table",
                "--grub2-boot-info", "-eltorito-alt-boot", "-e", "--interval:appended_partition_2:all::",
                "-no-emul-boot", "-vvvvv", "--md5", tree.as_str(), "-o", image]);
        },
        Bootloader::REFInd => {
            push_args(&mut c, &["xorriso", "-as", "mkisofs", "-iso-level", "3", "-full-iso9660-filenames",
                "-joliet", "-joliet-long", "-rational-rock", "-volid", volid, "-eltorito-alt-boot", "-e",
                "boot/efiboot.img", "-no-emul-boot", "-append_partition", "2",
                "C12A7328-F81F-11D2-BA4B-00A0C93EC93B", efiboot.as_str(),
                "-appended_part_as_gpt", "-o", image, tree.as_str()]);
        },
        _ => {
            push_args(&mut c, &["xorriso", "-iso-level", "3", "-as", "mkisofs", "-R", "--efi-boot", uefi_bin,
                "-b", bios_bin, "-no-emul-boot", "-boot-load-size", "4", "-boot-info-table",
                "--efi-boot", uefi_bin, "-efi-boot-part", "--efi-boot-image", "--protective-msdos-label",
                tree.as_str(), "-volid", volid, "-o", image]);
        },
    }
    assert(string_views(c@) =~= xorriso_spec(bootloader, arch@, volid@, workspace@, image@));
    let mut md5: Vec<String> = Vec::new();
    push_args(&mut md5, &["implantisomd5", "--force", "--supported-iso", image]);
    assert(string_views(md5@) =~= seq!["implantisomd5"@, "--force"@, "--supported-iso"@, image@]);
    let ghost cv = string_views(c@);
    let ghost mv = string_views(md5@);
    let mut r: Vec<Vec<String>> = Vec::new();
    r.push(c);
    r.push(md5);
    assert(commands_view(r@)[0] == cv);
    assert(commands_view(r@)[1] == mv);
    assert(commands_view(r@) =~= seq![
        xorriso_spec(bootloader, arch@, volid@, workspace@, image@),
        seq!["implantisomd5"@, "--force"@, "--supported-iso"@, image@],
    ]);
    r
}

} // verus!

verus! {

/// The dracut modules added to the live initramfs unless configured otherwise.
pub open spec fn default_dracut_mods() -> Seq<char> {
    "livenet dmsquash-live dmsquash-live-autooverlay convertfs pollcdrom qemu qemu-net"@
}

/// The basic dracut arguments unless configured otherwise.
pub open spec fn default_dracut_args() -> Seq<char> {
    "-vv --xz --reproducible"@
}

/// The settings of the initramfs build, read from the `dracut-*` feature flags.
pub struct DracutFlags {
    /// `dracut-mods`: the modules to add.
    pub mods: Option<String>,
    /// `dracut-omit`: the modules to leave out.
    pub omit: Option<String>,
    /// `dracut-args`: extra arguments (they also replace the basic ones).
    pub args: Option<String>,
    /// `dracut-outside-chroot`: run dracut from the host on the root.
    pub outside_chroot: bool,
}

/// A flag's value, or the default.
pub open spec fn flag_or(v: Option<String>, d: Seq<char>) -> Seq<char> {
    match v {
        Some(s) => s@,
        None => d,
    }
}

/// Where the initramfs goes in the ISO tree next to the root `root`.
pub open spec fn initramfs_dest(root: Seq<char>) -> Seq<char> {
    join_path(join_path(join_path(root, "../"@), "iso-tree"@), "boot/initramfs.img"@)
}

/// The arguments of the dracut command that makes the live initramfs of
/// kernel `kver`: run on the (canonical) root `root` and writing into the ISO
/// tree when run outside the chroot, else writing `/boot/initramfs-<kver>.img`
/// in the chroot; the basic arguments split at spaces, then the fixed ones,
/// the modules and extra arguments, and the modules to omit when there are any.
pub open spec fn dracut_spec(f: DracutFlags, kver: Seq<char>, root: Seq<char>) -> Seq<Seq<char>> {
    let omit = flag_or(f.omit, ""@);
    (if f.outside_chroot { seq!["-r"@, root] } else { Seq::empty() })
        + split_char(flag_or(f.args, default_dracut_args()), ' ')
        + seq!["--nomdadmconf"@, "--nolvmconf"@, "-fN"@, "-a"@, flag_or(f.mods, default_dracut_mods()), flag_or(f.args, ""@)]
        + (if omit.len() > 0 { seq!["--omit"@, omit] } else { Seq::empty() })
        + seq!["--kver"@, kver]
        + (if f.outside_chroot { seq![initramfs_dest(root)] } else { seq!["/boot/initramfs-"@ + kver + ".img"@] })
}

/// Whether `x` then `y` stand next to each other in `s`.
pub open spec fn adjacent(s: Seq<Seq<char>>, x: Seq<char>, y: Seq<char>) -> bool {
    exists|i: int| 0 <= i && i + 1 < s.len() && #[trigger] s[i] == x && s[i + 1] == y
}

/// Modules to leave out are always handed to dracut as `--omit <modules>`,
/// whether dracut runs inside the chroot or outside it; the modules to add
/// follow `-a`, and the kernel version follows `--kver`.
pub proof fn law_dracut_flags_kept(f: DracutFlags, kver: Seq<char>, root: Seq<char>)
    ensures
        flag_or(f.omit, ""@).len() > 0 ==> adjacent(dracut_spec(f, kver, root), "--omit"@, flag_or(f.omit, ""@)),
        adjacent(dracut_spec(f, kver, root), "-a"@, flag_or(f.mods, default_dracut_mods())),
        adjacent(dracut_spec(f, kver, root), "--kver"@, kver),
{
    let omit = flag_or(f.omit, ""@);
    let s = dracut_spec(f, kver, root);
    let r = if f.outside_chroot { seq!["-r"@, root] } else { Seq::<Seq<char>>::empty() };
    let b = split_char(flag_or(f.args, default_dracut_args()), ' ');
    let m = seq!["--nomdadmconf"@, "--nolvmconf"@, "-fN"@, "-a"@, flag_or(f.mods, default_dracut_mods()), flag_or(f.args, ""@)];
    let o = if omit.len() > 0 { seq!["--omit"@, omit] } else { Seq::<Seq<char>>::empty() };
    let k = seq!["--kver"@, kver];
    let d = if f.outside_chroot { seq![initramfs_dest(root)] } else { seq!["/boot/initramfs-"@ + kver + ".img"@] };
    assert(s == r + b + m + o + k + d);
    let i = (r + b).len() + 3int;
    assert(s[i] == "-a"@ && s[i + 1] == flag_or(f.mods, default_dracut_mods()));
    if omit.len() > 0 {
        let j = (r + b + m).len() as int;
        assert(s[j] == "--omit"@ && s[j + 1] == omit);
    }
    let j2 = (r + b + m + o).len() as int;
    assert(s[j2] == "--kver"@ && s[j2 + 1] == kver);
}

/// The text of an optional flag, or a default.
fn flag_text(v: &Option<String>, d: &str) -> (r: String)
    ensures
        r@ == flag_or(*v, d@),
{
    match v {
        Some(s) => s.clone(),
        None => string_of(d),
    }
}

/// The arguments of the dracut command for kernel `kver` (see `dracut_spec`);
/// `root` is the canonical path of the root, used when dracut runs outside the chroot.
pub fn dracut(f: &DracutFlags, kver: &str, root: &str) -> (r: Vec<String>)
    ensures
        string_views(r@) == dracut_spec(*f, kver@, root@),
{
    let mut r: Vec<String> = Vec::new();
    if f.outside_chroot {
        r.push(string_of("-r"));
        r.push(string_of(root));
    }
    let ghost p0 = string_views(r@);
    assert(p0 =~= (if f.outside_chroot { seq!["-r"@, root@] } else { Seq::empty() }));
    let basic = flag_text(&f.args, "-vv --xz --reproducible");
    let mut words = split_by_char(basic.as_str(), ' ');
    let ghost wv = string_views(words@);
    let ghost r0 = r@;
    let ghost w0 = words@;
    r.append(&mut words);
    assert(r@ =~= r0 + w0);
    let ghost p1 = string_views(r@);
    assert(p1 =~= p0 + wv);
    push_args(&mut r, &["--nomdadmconf", "--nolvmconf", "-fN", "-a"]);
    let ghost p15 = string_views(r@);
    assert(p15 =~= p1 + seq!["--nomdadmconf"@, "--nolvmconf"@, "-fN"@, "-a"@]);
    let m = flag_text(&f.mods, "livenet dmsquash-live dmsquash-live-autooverlay convertfs pollcdrom qemu qemu-net");
    assert(m@ == flag_or(f.mods, default_dracut_mods()));
    let a = flag_text(&f.args, "");
    let ghost mv = m@;
    let ghost av = a@;
    let ghost rr = r@;
    r.push(m);
    r.push(a);
    assert(r@ =~= rr.push(m).push(a));
    assert(string_views(r@) =~= p15.push(mv).push(av));
    let ghost p2 = string_views(r@);
    assert(p2 =~= p1 + seq!["--nomdadmconf"@, "--nolvmconf"@, "-fN"@, "-a"@, flag_or(f.mods, default_dracut_mods()), flag_or(f.args, ""@)]);
    let omit = flag_text(&f.omit, "");
    if chars_of(omit.as_str()).len() > 0 {
        r.push(string_of("--omit"));
        r.push(omit);
    }
    let ghost p3 = string_views(r@);
    assert(p3 =~= p2 + (if flag_or(f.omit, ""@).len() > 0 { seq!["--omit"@, flag_or(f.omit, ""@)] } else { Seq::empty() }));
    r.push(string_of("--kver"));
    r.push(string_of(kver));
    if f.outside_chroot {
        let up = path_join(root, "../");
        let tree = path_join(up.as_str(), "iso-tree");
        r.push(path_join(tree.as_str(), "boot/initramfs.img"));
    } else {
        let mut p = string_of("/boot/initramfs-");
        push_str(&mut p, kver);
        push_str(&mut p, ".img");
        r.push(p);
    }
    assert(string_views(r@) =~= dracut_spec(*f, kver@, root@));
    r
}

/// The compression arguments of `mksquashfs` for a compressor name; a name it
/// does not know is passed on as it is.
pub open spec fn squashfs_comp_spec(comp: Seq<char>) -> Seq<char> {
    if comp == "gzip"@ {
        "-comp gzip -Xcompression-level 9"@
    } else if comp == "lzo"@ {
        "-comp lzo"@
    } else if comp == "lz4"@ {
        "-comp lz4 -Xhc"@
    } else if comp == "xz"@ {
        "-comp xz"@
    } else if comp == "zstd"@ {
        "-comp zstd -Xcompression-level 19"@
    } else if comp == "lzma"@ {
        "-comp lzma"@
    } else {
        comp
    }
}

/// The compression arguments of `mksquashfs` for a compressor name.
pub fn squashfs_comp(comp: &str) -> (r: String)
    ensures
        r@ == squashfs_comp_spec(comp@),
{
    if str_eq(comp, "gzip") {
        string_of("-comp gzip -Xcompression-level 9")
    } else if str_eq(comp, "lzo") {
        string_of("-comp lzo")
    } else if str_eq(comp, "lz4") {
        string_of("-comp lz4 -Xhc")
    } else if str_eq(comp, "xz") {
        string_of("-comp xz")
    } else if str_eq(comp, "zstd") {
        string_of("-comp zstd -Xcompression-level 19")
    } else if str_eq(comp, "lzma") {
        string_of("-comp lzma")
    } else {
        string_of(comp)
    }
}

/// The `mksquashfs` arguments, given the words of the compression arguments
/// and of the extra arguments: source and image, the compression, a 1 MiB
/// block size, no appending, `/dev`, `/proc` and `/sys` left out but created
/// empty, then the extra arguments.
pub open spec fn squashfs_spec(chroot: Seq<char>, image: Seq<char>, comp: Seq<Seq<char>>, extra: Seq<Seq<char>>) -> Seq<Seq<char>> {
    seq![chroot, image] + comp
        + seq!["-b"@, "1048576"@, "-noappend"@, "-e"@, "/dev/"@, "-e"@, "/proc/"@, "-e"@, "/sys/"@]
        + seq!["-p"@, "/dev 755 0 0"@, "-p"@, "/proc 755 0 0"@, "-p"@, "/sys 755 0 0"@]
        + extra
}

/// The `mksquashfs` arguments from the words of the compression and extra arguments.
pub fn squashfs_args(chroot: &str, image: &str, comp: Vec<String>, extra: Vec<String>) -> (r: Vec<String>)
    ensures
        string_views(r@) == squashfs_spec(chroot@, image@, string_views(comp@), string_views(extra@)),
{
    let ghost cv = string_views(comp@);
    let ghost xv = string_views(extra@);
    let mut c = comp;
    let mut x = extra;
    let mut r: Vec<String> = Vec::new();
    r.push(string_of(chroot));
    r.push(string_of(image));
    let ghost r0 = r@;
    r.append(&mut c);
    assert(string_views(r@) =~= seq![chroot@, image@] + cv) by {
        assert(r@ =~= r0 + comp@);
    }
    push_args(&mut r, &["-b", "1048576", "-noappend", "-e", "/dev/", "-e", "/proc/", "-e", "/sys/"]);
    push_args(&mut r, &["-p", "/dev 755 0 0", "-p", "/proc 755 0 0", "-p", "/sys 755 0 0"]);
    let ghost r1 = r@;
    r.append(&mut x);
    assert(r@ =~= r1 + extra@);
    assert(string_views(r@) =~= string_views(r1) + xv);
    assert(string_views(r@) =~= squashfs_spec(chroot@, image@, cv, xv));
    r
}

/// The `mksquashfs` arguments for the `squashfs-comp` flag (zstd by default)
/// and the `squashfs-args` flag (none by default). The flags are split into
/// words here; where either cannot be split the build cannot go on (the
/// caller stops, as a failed split always stopped the build), and the answer
/// is `None`. For words already split, `squashfs_args` is exact on every input.
pub fn squashfs(comp: &Option<String>, extra: &Option<String>, chroot: &str, image: &str) -> (r: Option<Vec<String>>)
    ensures
        ({
            let c = shell_words(squashfs_comp_spec(flag_or(*comp, "zstd"@)));
            let x = shell_words(flag_or(*extra, ""@));
            match r {
                Some(a) => c is Some && x is Some && string_views(a@) == squashfs_spec(chroot@, image@, c->Some_0, x->Some_0),
                None => c is None || x is None,
            }
        }),
{
    let name = flag_text(comp, "zstd");
    let comp_args = squashfs_comp(name.as_str());
    let extra_text = flag_text(extra, "");
    match shell_split(comp_args.as_str()) {
        None => None,
        Some(c) => match shell_split(extra_text.as_str()) {
            None => None,
            Some(x) => Some(squashfs_args(chroot, image, c, x)),
        },
    }
}

} // verus!

verus! {

/// The builder of the root tree.
#[derive(Debug, Clone, Copy, PartialEq, Eq, Structural)]
pub enum RootBuilderKind {
    Dnf,
    Bootc,
}

/// The builder of the image.
#[derive(Debug, Clone, Copy, PartialEq, Eq, Structural)]
pub enum ImageBuilderKind {
    /// An ISO image.
    Iso,
    /// A disk image, written to `./katsu-work/image/katsu.img`.
    DiskImage,
    /// A root tree in a folder.
    Folder,
}

/// The builders of a build, and the phases to skip.
pub struct KatsuBuilder {
    pub root_builder: RootBuilderKind,
    pub image_builder: ImageBuilderKind,
    pub skip_phases: Vec<String>,
}

/// The image builder for an output format other than a device.
pub open spec fn image_builder_for(f: OutputFormat) -> ImageBuilderKind {
    match f {
        OutputFormat::Iso => ImageBuilderKind::Iso,
        OutputFormat::DiskImage => ImageBuilderKind::DiskImage,
        _ => ImageBuilderKind::Folder,
    }
}

impl KatsuBuilder {
    /// The builders for a manifest's builder name (`dnf` or `bootc`, which
    /// must be given) and an output format (other than a device, which is not
    /// implemented).
    pub fn new(builder: &Option<String>, output_format: OutputFormat, skip_phases: Vec<String>) -> (r: KatsuBuilder)
        requires
            builder matches Some(b) && (b@ == "dnf"@ || b@ == "bootc"@),
            output_format != OutputFormat::Device,
        ensures
            r.root_builder == (if builder.unwrap()@ == "dnf"@ { RootBuilderKind::Dnf } else { RootBuilderKind::Bootc }),
            r.image_builder == image_builder_for(output_format),
            r.skip_phases@ == skip_phases@,
    {
        let root_builder = match builder {
            Some(b) => if str_eq(b.as_str(), "dnf") { RootBuilderKind::Dnf } else { RootBuilderKind::Bootc },
            None => RootBuilderKind::Dnf,
        };
        let image_builder = match output_format {
            OutputFormat::Iso => ImageBuilderKind::Iso,
            OutputFormat::DiskImage => ImageBuilderKind::DiskImage,
            _ => ImageBuilderKind::Folder,
        };
        KatsuBuilder { root_builder, image_builder, skip_phases }
    }
}

/// The working directory of a build, its chroot and its image directory.
pub fn work_paths() -> (r: (String, String, String))
    ensures
        r.0@ == "katsu-work"@,
        r.1@ == join_path("katsu-work"@, "chroot"@),
        r.2@ == join_path("katsu-work"@, "image"@),
{
    let w = string_of("katsu-work");
    let c = path_join(w.as_str(), "chroot");
    let i = path_join(w.as_str(), "image");
    (w, c, i)
}

/// A step of building an ISO image.
#[derive(Debug, Clone, Copy, PartialEq, Eq, Structural)]
pub enum IsoStep {
    /// Build the root tree (phase `root`).
    Root,
    /// Make the live initramfs (phase `dracut`).
    Dracut,
    /// Remove rescue images from the chroot's `/boot`.
    CleanBoot,
    /// Make the root image, with mksquashfs or else mkfs.erofs (phase `rootimg`).
    RootImage { squashfs: bool },
    /// Copy the bootloader files (phase `copy-live`).
    CopyLive,
    /// Unmount and remove the chroot.
    RemoveChroot,
    /// Write the ISO image (phase `iso`).
    Iso,
    /// Install the bootloader to the image (phase `bootloader`).
    Bootloader,
}

/// The step, unless its phase is skipped.
pub open spec fn phase(skip: Seq<Seq<char>>, key: Seq<char>, step: IsoStep) -> Seq<IsoStep> {
    if skip.contains(key) { Seq::empty() } else { seq![step] }
}

/// The steps of an ISO build, in order; the phases in `skip` are left out,
/// the root image is a squashfs when EROFS is turned off, and the chroot is
/// removed before the ISO is written unless it is kept.
pub open spec fn iso_steps_spec(skip: Seq<Seq<char>>, no_erofs: bool, remove_chroot: bool) -> Seq<IsoStep> {
    phase(skip, "root"@, IsoStep::Root)
        + phase(skip, "dracut"@, IsoStep::Dracut)
        + seq![IsoStep::CleanBoot]
        + phase(skip, "rootimg"@, IsoStep::RootImage { squashfs: no_erofs })
        + phase(skip, "copy-live"@, IsoStep::CopyLive)
        + (if remove_chroot { seq![IsoStep::RemoveChroot] } else { Seq::empty() })
        + phase(skip, "iso"@, IsoStep::Iso)
        + phase(skip, "bootloader"@, IsoStep::Bootloader)
}

/// Whether the chroot goes once the root image is made: unless the
/// `keep-chroot` flag is on with a value other than `false`.
pub open spec fn removes_chroot(keep_on: bool, keep_value: Option<Seq<char>>) -> bool {
    !keep_on || keep_value == Some("false"@)
}

/// Appends the step unless its phase is skipped.
fn push_phase(v: &mut Vec<IsoStep>, skip: &SkipPhases, key: &str, step: IsoStep)
    ensures
        final(v)@ == old(v)@ + phase(string_views(skip.phases@), key@, step),
{
    if !skip.contains(key) {
        v.push(step);
        assert(final(v)@ =~= old(v)@ + seq![step]);
    } else {
        assert(final(v)@ =~= old(v)@ + Seq::<IsoStep>::empty());
    }
}

/// The steps of an ISO build (see `iso_steps_spec`), given the phases to
/// skip, the `no-erofs` flag, and the `keep-chroot` flag with its value.
pub fn iso_steps(skip: &SkipPhases, no_erofs: bool, keep_on: bool, keep_value: &Option<String>) -> (r: Vec<IsoStep>)
    ensures
        r@ == iso_steps_spec(string_views(skip.phases@), no_erofs, removes_chroot(keep_on, match keep_value { Some(s) => Some(s@), None => None })),
{
    let remove = !keep_on || match keep_value {
        Some(s) => str_eq(s.as_str(), "false"),
        None => false,
    };
    let mut r: Vec<IsoStep> = Vec::new();
    push_phase(&mut r, skip, "root", IsoStep::Root);
    push_phase(&mut r, skip, "dracut", IsoStep::Dracut);
    r.push(IsoStep::CleanBoot);
    push_phase(&mut r, skip, "rootimg", IsoStep::RootImage { squashfs: no_erofs });
    push_phase(&mut r, skip, "copy-live", IsoStep::CopyLive);
    if remove {
        r.push(IsoStep::RemoveChroot);
    }
    let ghost mid = r@;
    push_phase(&mut r, skip, "iso", IsoStep::Iso);
    push_phase(&mut r, skip, "bootloader", IsoStep::Bootloader);
    assert(r@ =~= iso_steps_spec(string_views(skip.phases@), no_erofs, removes_chroot(keep_on, match keep_value { Some(s) => Some(s@), None => None })));
    r
}

/// A file of `/boot` that is removed before the root image is made: a rescue image.
pub fn is_boot_artifact(name: &str) -> (r: bool)
    ensures
        r == contains_seq(name@, "-rescue-"@),
{
    str_contains(name, "-rescue-")
}

/// The ISO image to write: the manifest's output file, else `out.iso`.
pub fn iso_image(out_file: &Option<String>) -> (r: String)
    ensures
        r@ == match out_file { Some(f) => f@, None => "out.iso"@ },
{
    match out_file {
        Some(f) => f.clone(),
        None => string_of("out.iso"),
    }
}

/// The folder a root tree is built into: the manifest's output file, else `katsu-work/chroot`.
pub fn folder_output(out_file: &Option<String>) -> (r: String)
    ensures
        r@ == match out_file { Some(f) => f@, None => "katsu-work/chroot"@ },
{
    match out_file {
        Some(f) => f.clone(),
        None => string_of("katsu-work/chroot"),
    }
}

/// The size of the disk image to create, or why there is none: a disk
/// layout and its size must be given.
pub fn disk_image_size(disk: &Option<PartitionLayout>) -> (r: Result<u64, String>)
    ensures
        match disk {
            None => r matches Err(m) && m@ == "Disk layout not specified"@,
            Some(d) => match d.size {
                None => r matches Err(m) && m@ == "Disk size not specified"@,
                Some(s) => r == Ok::<u64, String>(s),
            },
        },
{
    match disk {
        None => Err(string_of("Disk layout not specified")),
        Some(d) => match d.size {
            None => Err(string_of("Disk size not specified")),
            Some(s) => Ok(s),
        },
    }
}

/// The `grub2-install` command that blesses a disk for BIOS boot, when the
/// bootloader is not UEFI (GRUB BIOS).
pub fn bios_install(bootloader: Bootloader, chroot: &str, device: &str) -> (r: Option<Vec<String>>)
    ensures
        bootloader != Bootloader::GrubBios ==> r is None,
        bootloader == Bootloader::GrubBios ==> (r matches Some(c) && string_views(c@)
            == seq!["grub2-install"@, "--target=i386-pc"@, "--boot-directory="@ + join_path(chroot@, "boot"@), device@]),
{
    if bootloader != Bootloader::GrubBios {
        return None;
    }
    let mut c: Vec<String> = Vec::new();
    c.push(string_of("grub2-install"));
    c.push(string_of("--target=i386-pc"));
    let mut b = string_of("--boot-directory=");
    let boot = path_join(chroot, "boot");
    push_str(&mut b, boot.as_str());
    c.push(b);
    c.push(string_of(device));
    assert(string_views(c@) =~= seq!["grub2-install"@, "--target=i386-pc"@, "--boot-directory="@ + join_path(chroot@, "boot"@), device@]);
    Some(c)
}

} // verus!
