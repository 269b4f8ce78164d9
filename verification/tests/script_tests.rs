use indexmap::IndexMap;
use katsu::builder::{run_all_scripts, run_script, run_scripts, MissingScript, ScriptError};
use katsu::config::Script;

fn s(id: Option<&str>, needs: &[&str], priority: i32) -> Script {
    Script {
        id: id.map(str::to_string),
        name: None,
        file: None,
        inline: Some(format!("echo {}", id.unwrap_or("anon"))),
        needs: needs.iter().map(|n| n.to_string()).collect(),
        chroot: None,
        priority,
    }
}

fn ids(runs: &[Script]) -> Vec<Option<String>> {
    runs.iter().map(|r| r.id.clone()).collect()
}

fn table(scripts: Vec<Script>) -> IndexMap<String, (Script, bool)> {
    let mut m = IndexMap::new();
    for sc in scripts {
        let k = sc.id.clone().unwrap_or("<?>".to_string());
        m.insert(k, (sc, false));
    }
    m
}

#[test]
fn needed_script_runs_first() {
    let plan = run_scripts(table(vec![s(Some("a"), &["b"], 50), s(Some("b"), &[], 50)]));
    assert_eq!(ids(&plan.runs), vec![Some("b".to_string()), Some("a".to_string())]);
    assert!(plan.missing.is_none());
}

#[test]
fn shared_need_runs_once() {
    let plan = run_scripts(table(vec![s(Some("a"), &["b"], 50), s(Some("c"), &["b"], 50), s(Some("b"), &[], 50)]));
    assert_eq!(ids(&plan.runs), vec![Some("b".to_string()), Some("a".to_string()), Some("c".to_string())]);
    assert!(plan.missing.is_none());
}

#[test]
fn needs_of_needs_among_siblings() {
    let plan = run_scripts(table(vec![s(Some("a"), &["b", "c"], 50), s(Some("b"), &["c"], 50), s(Some("c"), &[], 50)]));
    assert_eq!(
        ids(&plan.runs),
        vec![Some("c".to_string()), Some("b".to_string()), Some("a".to_string())]
    );
    assert!(plan.missing.is_none());
}

#[test]
fn need_of_a_need_is_looked_up_among_its_siblings_only() {
    let plan = run_scripts(table(vec![s(Some("a"), &["b"], 50), s(Some("b"), &["c"], 50), s(Some("c"), &[], 50)]));
    assert!(plan.runs.is_empty());
    assert_eq!(plan.missing, Some(MissingScript { need: "c".to_string(), required_by: "b".to_string() }));
}

#[test]
fn missing_need_stops_the_run() {
    let plan = run_scripts(table(vec![s(Some("first"), &[], 50), s(Some("a"), &["zz"], 50), s(Some("later"), &[], 50)]));
    assert_eq!(ids(&plan.runs), vec![Some("first".to_string())]);
    let m = plan.missing.unwrap();
    assert_eq!(m.need, "zz");
    assert_eq!(m.required_by, "a");
    assert_eq!(m.message(), "Script `zz` required by `a` not found");
}

#[test]
fn missing_need_of_script_without_id() {
    let plan = run_scripts(table(vec![s(None, &["x"], 50)]));
    let m = plan.missing.unwrap();
    assert_eq!(m.required_by, "<NULL>");
    assert_eq!(ScriptError::Missing(m).message(), "Script `x` required by `<NULL>` not found");
}

#[test]
fn done_scripts_do_not_run() {
    let mut m = table(vec![s(Some("a"), &[], 50), s(Some("b"), &["a"], 50)]);
    m.get_mut("a").unwrap().1 = true;
    let plan = run_scripts(m);
    assert_eq!(ids(&plan.runs), vec![Some("b".to_string())]);
    assert!(plan.missing.is_none());
}

#[test]
fn empty_table_runs_nothing() {
    let plan = run_scripts(IndexMap::new());
    assert!(plan.runs.is_empty() && plan.missing.is_none());
}

#[test]
fn run_all_sorts_by_priority_stably() {
    let scripts = vec![s(Some("late"), &[], 60), s(Some("early"), &[], 10), s(Some("mid1"), &[], 50), s(Some("mid2"), &[], 50)];
    let plan = run_all_scripts(&scripts);
    assert_eq!(
        ids(&plan.runs),
        vec![Some("early".to_string()), Some("mid1".to_string()), Some("mid2".to_string()), Some("late".to_string())]
    );
}

#[test]
fn run_all_same_key_last_wins_in_first_place() {
    let mut first = s(Some("x"), &[], 10);
    first.inline = Some("one".to_string());
    let other = s(Some("y"), &[], 20);
    let mut second = s(Some("x"), &[], 30);
    second.inline = Some("two".to_string());
    let plan = run_all_scripts(&vec![first, other, second]);
    assert_eq!(plan.runs.len(), 2);
    assert_eq!(plan.runs[0].inline.as_deref(), Some("two"));
    assert_eq!(plan.runs[1].id.as_deref(), Some("y"));
}

#[test]
fn run_all_scripts_without_id_share_a_key() {
    let plan = run_all_scripts(&vec![s(None, &[], 1), s(None, &[], 2)]);
    assert_eq!(plan.runs.len(), 1);
    assert_eq!(plan.runs[0].priority, 2);
}

#[test]
fn run_all_need_of_later_priority_runs_first() {
    let plan = run_all_scripts(&vec![s(Some("b"), &[], 90), s(Some("a"), &["b"], 10)]);
    assert_eq!(ids(&plan.runs), vec![Some("b".to_string()), Some("a".to_string())]);
}

#[test]
fn run_script_adds_shebang_and_names_file() {
    let sc = s(Some("setup"), &[], 50);
    let inv = run_script(&sc, Some("echo hi".to_string()), true).unwrap();
    assert_eq!(inv.file_name, "script-setup");
    assert_eq!(inv.data, "#!/bin/sh\necho hi");
    assert!(inv.in_chroot);
    let inv = run_script(&sc, Some("#!/bin/bash\necho hi".to_string()), false).unwrap();
    assert_eq!(inv.data, "#!/bin/bash\necho hi");
    assert!(!inv.in_chroot);
}

#[test]
fn run_script_chroot_setting_wins() {
    let mut sc = s(None, &[], 50);
    sc.chroot = Some(false);
    let inv = run_script(&sc, Some(String::new()), true).unwrap();
    assert_eq!(inv.file_name, "script-untitled");
    assert!(!inv.in_chroot);
    assert_eq!(inv.data, "#!/bin/sh\n");
}

#[test]
fn run_script_cannot_load() {
    let e = run_script(&s(Some("gone"), &[], 50), None, false).unwrap_err();
    assert_eq!(e, ScriptError::CannotLoad("gone".to_string()));
    assert_eq!(e.message(), "Cannot load script `gone`");
    let e = run_script(&s(None, &[], 50), None, false).unwrap_err();
    assert_eq!(e.message(), "Cannot load script `<NULL>`");
}

#[test]
fn every_need_found_runs_each_script_once() {
    let scripts = vec![
        s(Some("a"), &["d", "b"], 10),
        s(Some("b"), &[], 20),
        s(Some("c"), &["b", "d"], 30),
        s(Some("d"), &[], 40),
    ];
    let plan = run_all_scripts(&scripts);
    assert!(plan.missing.is_none());
    let mut got = ids(&plan.runs);
    assert_eq!(got, vec![Some("d".to_string()), Some("b".to_string()), Some("a".to_string()), Some("c".to_string())]);
    got.sort();
    got.dedup();
    assert_eq!(got.len(), scripts.len());
}
