//! Scripts run before and after the build.
use vstd::prelude::*;
use crate::bindings::{hash_source_into, source_writes};
use vstd::std_specs::hash::DefaultHasherAdditionalSpecFns;
use crate::cfg::auth::decimal_string;
use crate::config::{add_shebang, opt_view, with_shebang};
use crate::order::{stable_order, stable_priority_order};
use crate::text::{clone_opt_string, clone_strings, decimal, push_str, string_of, string_views};

verus! {

/// The priority a script gets when none is given.
pub fn script_default_priority() -> (r: i32)
    ensures
        r == 50,
{
    50
}

/// What a script holds, as plain values.
pub struct ScriptView {
    pub id: Option<Seq<char>>,
    pub name: Option<Seq<char>>,
    pub source: Option<Seq<char>>,
    pub chroot: bool,
    pub needs: Seq<Seq<char>>,
    pub priority: i32,
}

/// A script to run before or after the build.
#[derive(Debug)]
pub struct Script {
    pub id: Option<String>,
    pub name: Option<String>,
    /// The text of the script
    pub source: Option<String>,
    /// Whether it runs inside the chroot
    pub chroot: bool,
    pub needs: Vec<String>,
    /// Default 50, the higher, the later the script executes
    pub priority: i32,
}

impl View for Script {
    type V = ScriptView;

    open spec fn view(&self) -> ScriptView {
        ScriptView {
            id: opt_view(self.id),
            name: opt_view(self.name),
            source: opt_view(self.source),
            chroot: self.chroot,
            needs: string_views(self.needs@),
            priority: self.priority,
        }
    }
}

impl Default for Script {
    fn default() -> (r: Self)
        ensures
            r@ == (ScriptView { id: None, name: None, source: None, chroot: true, needs: Seq::empty(), priority: 50 }),
    {
        let r = Script { id: None, name: None, source: None, chroot: true, needs: Vec::new(), priority: 50 };
        assert(r@.needs =~= Seq::<Seq<char>>::empty());
        r
    }
}

impl Clone for Script {
    fn clone(&self) -> (r: Self)
        ensures
            r@ == self@,
    {
        Script {
            id: clone_opt_string(&self.id),
            name: clone_opt_string(&self.name),
            source: clone_opt_string(&self.source),
            chroot: self.chroot,
            needs: clone_strings(&self.needs),
            priority: self.priority,
        }
    }
}

/// The scripts to run before and after the build.
#[derive(Debug)]
pub struct ScriptsManifest {
    pub pre: Vec<Script>,
    pub post: Vec<Script>,
}

/// The id a script goes by: its own, or the decimal hash of its source.
pub open spec fn script_id(s: Script) -> Seq<char> {
    match s.id {
        Some(id) => id@,
        None => decimal(std::hash::DefaultHasher::spec_finish(source_writes(opt_view(s.source))) as nat),
    }
}

impl Script {
    /// The text of the script.
    pub fn load(&self) -> (r: Option<String>)
        ensures
            opt_view(r) == opt_view(self.source),
    {
        clone_opt_string(&self.source)
    }

    /// The text of the script, with `#!/bin/sh` in front when it has no shebang.
    pub fn shebang_if_needed(&self) -> (r: Option<String>)
        ensures
            match self.source {
                Some(s) => r matches Some(t) && t@ == with_shebang(s@),
                None => r is None,
            },
    {
        match self.load() {
            Some(s) => Some(add_shebang(s)),
            None => None,
        }
    }

    /// The id the script goes by: its own, or the hash of its source.
    pub fn get_id(&self) -> (r: String)
        ensures
            r@ == script_id(*self),
    {
        match &self.id {
            Some(id) => id.clone(),
            None => {
                let mut hasher = std::hash::DefaultHasher::new();
                hash_source_into(&self.source, &mut hasher);
                assert(hasher@ =~= source_writes(opt_view(self.source)));
                decimal_string(std::hash::Hasher::finish(&hasher))
            },
        }
    }

    /// How the script runs: the name of its temporary file, its text (with a
    /// shebang), and whether it runs in the chroot; or the error for a script
    /// without a source.
    pub fn execute(&self) -> (r: Result<(String, String, bool), String>)
        ensures
            match self.source {
                Some(s) => r matches Ok(x) && x.0@ == "katsu-script-"@ + script_id(*self) && x.1@ == with_shebang(s@) && x.2 == self.chroot,
                None => r matches Err(m) && m@ == "Fail to load undefined script that cannot be found"@,
            },
    {
        match self.shebang_if_needed() {
            None => Err(string_of("Fail to load undefined script that cannot be found")),
            Some(text) => {
                let mut name = string_of("katsu-script-");
                let id = self.get_id();
                push_str(&mut name, id.as_str());
                Ok((name, text, self.chroot))
            },
        }
    }
}

/// The priorities of a list of scripts.
pub open spec fn priorities(s: Seq<Script>) -> Seq<i32> {
    s.map_values(|x: Script| x.priority)
}

/// Sorts the scripts by priority, lower first; scripts of equal priority keep their order.
pub fn sort_script_priority(scripts: &mut Vec<Script>)
    ensures
        exists|p: Seq<usize>| #[trigger] stable_priority_order(priorities(old(scripts)@), p)
            && final(scripts)@.map_values(|x: Script| x@) == p.map_values(|i: usize| old(scripts)@[i as int]@),
{
    let mut prios: Vec<i32> = Vec::new();
    let mut i: usize = 0;
    while i < scripts.len()
        invariant
            i <= scripts@.len(),
            prios@ == priorities(scripts@).subrange(0, i as int),
        decreases scripts@.len() - i,
    {
        prios.push(scripts[i].priority);
        i = i + 1;
        assert(prios@ =~= priorities(scripts@).subrange(0, i as int));
    }
    assert(prios@ =~= priorities(scripts@));
    let order = stable_order(&prios);
    let mut sorted: Vec<Script> = Vec::new();
    let mut t: usize = 0;
    while t < order.len()
        invariant
            stable_priority_order(priorities(scripts@), order@),
            t <= order@.len(),
            sorted@.len() == t,
            forall|j: int| 0 <= j < t ==> (#[trigger] sorted@[j])@ == scripts@[order@[j] as int]@,
        decreases order@.len() - t,
    {
        sorted.push(scripts[order[t]].clone());
        t = t + 1;
    }
    let ghost before = scripts@;
    assert(sorted@.map_values(|x: Script| x@) =~= order@.map_values(|i: usize| before[i as int]@));
    *scripts = sorted;
}

} // verus!
