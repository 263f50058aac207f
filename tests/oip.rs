use std::collections::HashMap;

use oip::apply::{plan_apply, ApplyPlan, OipError, PriorRead};
use oip::infer::infer_target;
use oip::languages::Language;
use oip::mode::{choose_mode, Mode};
use oip::naming::{backup_path, has_backup_suffix, without_backup_suffix};
use oip::revert::plan_revert;
use oip::text::{contains_chars, same_chars};
use oip::watcher::{WatchAction, Watcher, POLL_INTERVAL_MS, QUIET_THRESHOLD_MS};

fn chars(s: &str) -> Vec<char> {
    s.chars().collect()
}

fn strings(items: &[&str]) -> Vec<String> {
    items.iter().map(|s| s.to_string()).collect()
}

/// Runs a watcher from time 0, polling every interval until `end_ms`, and
/// returns every fire as (time, text).
fn run_watcher(end_ms: u64, clipboard: impl Fn(u64) -> Option<String>) -> Vec<(u64, String)> {
    let mut w = Watcher::new(0);
    let mut fires = Vec::new();
    let mut now = POLL_INTERVAL_MS;
    while now <= end_ms {
        if let WatchAction::Fire(t) = w.observe(now, clipboard(now)) {
            fires.push((now, t));
            break;
        }
        now += POLL_INTERVAL_MS;
    }
    fires
}

/// Applies a plan to an in-memory directory.
fn perform(files: &mut HashMap<String, Vec<u8>>, plan: ApplyPlan) {
    if let Some((p, b)) = plan.backup {
        files.insert(p, b);
    }
    files.insert(plan.target, plan.contents);
}

/// Runs a revert over an in-memory directory.
fn revert(files: &mut HashMap<String, Vec<u8>>) {
    let names: Vec<String> = files.keys().cloned().collect();
    for (from, to) in plan_revert(&names) {
        let bytes = files[&from].clone();
        files.insert(to, bytes);
    }
}

fn prior_of(files: &HashMap<String, Vec<u8>>, p: &str) -> PriorRead {
    match files.get(p) {
        Some(b) => PriorRead::Found(b.clone()),
        None => PriorRead::Missing,
    }
}

#[test]
fn detects_rust() {
    assert!(matches!(Language::from_text("fn main() { let x = 1; }"), Language::Rust));
}

#[test]
fn detects_rust_ignoring_case() {
    assert!(matches!(Language::from_text("FN MAIN() { LET X = 1; }"), Language::Rust));
}

#[test]
fn detects_python() {
    assert!(matches!(Language::from_text("def f(x):\n    return x"), Language::Python));
}

#[test]
fn detects_javascript() {
    assert!(matches!(Language::from_text("function f() { return 1; }"), Language::Javascript));
}

#[test]
fn detects_typescript() {
    assert!(matches!(
        Language::from_text("// TypeScript\nfunction f(): number { return 1; }"),
        Language::Typescript
    ));
}

#[test]
fn detects_other_as_txt() {
    match Language::from_text("just some words") {
        Language::Other(s) => assert_eq!(s, "txt"),
        _ => panic!("expected plain text"),
    }
}

#[test]
fn detects_from_lowercase() {
    assert!(matches!(Language::from_lowercase(&chars("let f = fn")), Language::Rust));
    assert!(matches!(Language::from_lowercase(&chars("FN LET")), Language::Other(_)));
}

#[test]
fn finds_substrings() {
    assert!(contains_chars(&chars("function"), "unc"));
    assert!(contains_chars(&chars("abc"), ""));
    assert!(!contains_chars(&chars("ab"), "abc"));
    assert!(!contains_chars(&chars("abd"), "abc"));
    assert!(same_chars("abc", "abc"));
    assert!(!same_chars("abc", "abd"));
}

#[test]
fn backup_path_replaces_extension() {
    assert_eq!(backup_path("notes.txt"), "notes.oip.backup");
    assert_eq!(backup_path("a/b.c.d"), "a/b.c.oip.backup");
    assert_eq!(backup_path("src/main.rs"), "src/main.oip.backup");
}

#[test]
fn backup_path_appends_without_extension() {
    assert_eq!(backup_path("fresh"), "fresh.oip.backup");
    assert_eq!(backup_path("dir.d/file"), "dir.d/file.oip.backup");
    assert_eq!(backup_path(".profile"), ".profile.oip.backup");
    assert_eq!(backup_path(""), ".oip.backup");
}

#[test]
fn backup_suffix_is_recognised_and_stripped() {
    assert!(has_backup_suffix("a.oip.backup"));
    assert!(!has_backup_suffix("a.backup"));
    assert!(!has_backup_suffix("a.txt"));
    assert_eq!(without_backup_suffix("a.oip.backup"), "a");
}

#[test]
fn one_shot_apply_backs_up_old_contents() {
    let mut files = HashMap::new();
    files.insert("notes.txt".to_string(), b"old\n".to_vec());
    let prior = prior_of(&files, "notes.txt");
    let plan = plan_apply("notes.txt", prior, b"hello\n".to_vec()).unwrap();
    perform(&mut files, plan);
    assert_eq!(files["notes.txt"], b"hello\n".to_vec());
    assert_eq!(files["notes.oip.backup"], b"old\n".to_vec());
}

#[test]
fn one_shot_apply_new_file_has_no_backup() {
    let mut files = HashMap::new();
    let prior = prior_of(&files, "fresh.txt");
    let plan = plan_apply("fresh.txt", prior, b"x".to_vec()).unwrap();
    assert!(plan.backup.is_none());
    perform(&mut files, plan);
    assert_eq!(files["fresh.txt"], b"x".to_vec());
    assert!(!files.contains_key("fresh.oip.backup"));
}

#[test]
fn new_file_keeps_existing_backup() {
    let mut files = HashMap::new();
    files.insert("fresh.oip.backup".to_string(), b"kept".to_vec());
    let prior = prior_of(&files, "fresh.txt");
    let plan = plan_apply("fresh.txt", prior, b"x".to_vec()).unwrap();
    perform(&mut files, plan);
    assert_eq!(files["fresh.oip.backup"], b"kept".to_vec());
}

#[test]
fn unreadable_target_is_a_backup_failure() {
    let r = plan_apply("notes.txt", PriorRead::Failed, b"hello".to_vec());
    assert!(matches!(r, Err(OipError::BackupFailed)));
}

#[test]
fn interactive_fires_once_when_stable() {
    let fires = run_watcher(4000, |t| {
        Some(if t < 600 { "" } else if t < 1000 { "A" } else { "B" }.to_string())
    });
    assert_eq!(fires, vec![(3000, "B".to_string())]);
}

#[test]
fn interactive_ignores_empty() {
    let fires = run_watcher(10_000, |_| Some(String::new()));
    assert!(fires.is_empty());
}

#[test]
fn interactive_ignores_unreadable_clipboard() {
    let fires = run_watcher(10_000, |_| None);
    assert!(fires.is_empty());
}

#[test]
fn quiescence_fires_at_first_poll_past_threshold() {
    let fires = run_watcher(10_000, |_| Some("V".to_string()));
    assert_eq!(fires, vec![(500 + QUIET_THRESHOLD_MS, "V".to_string())]);
}

#[test]
fn change_resets_the_timer() {
    let fires = run_watcher(10_000, |t| Some(if t < 2000 { "V" } else { "W" }.to_string()));
    assert_eq!(fires, vec![(2000 + QUIET_THRESHOLD_MS, "W".to_string())]);
}

#[test]
fn observe_reports_updates_and_waits() {
    let mut w = Watcher::new(0);
    assert!(matches!(w.observe(500, Some("A".to_string())), WatchAction::Updated));
    assert_eq!(w.last_text, "A");
    assert_eq!(w.last_change_at, 500);
    assert!(matches!(w.observe(1000, Some("A".to_string())), WatchAction::Idle));
    assert!(matches!(w.observe(2499, Some("A".to_string())), WatchAction::Idle));
    assert!(matches!(w.observe(2500, Some("A".to_string())), WatchAction::Fire(t) if t == "A"));
}

#[test]
fn revert_restores_prior() {
    let mut files = HashMap::new();
    files.insert("a.txt".to_string(), b"new".to_vec());
    files.insert("a.oip.backup".to_string(), b"old".to_vec());
    revert(&mut files);
    assert_eq!(files["a.txt"], b"old".to_vec());
    assert_eq!(files["a.oip.backup"], b"old".to_vec());
    assert_eq!(files.len(), 2);
}

#[test]
fn revert_plan_pairs_backups_with_their_files() {
    let plan = plan_revert(&strings(&["a.txt", "a.oip.backup", "b.md", "c.oip.backup", "d.backup"]));
    assert_eq!(
        plan,
        vec![
            ("a.oip.backup".to_string(), "a.txt".to_string()),
            ("c.oip.backup".to_string(), "c".to_string()),
        ]
    );
}

#[test]
fn revert_twice_is_revert_once() {
    let mut files = HashMap::new();
    files.insert("a.txt".to_string(), b"new".to_vec());
    files.insert("a.oip.backup".to_string(), b"old".to_vec());
    files.insert("c.oip.backup".to_string(), b"gone".to_vec());
    files.insert("e".to_string(), b"e".to_vec());
    revert(&mut files);
    let once = files.clone();
    revert(&mut files);
    assert_eq!(files, once);
    assert_eq!(once["c"], b"gone".to_vec());
}

#[test]
fn no_target_non_interactive_fails() {
    assert!(matches!(choose_mode(None, false, false), Err(OipError::NoTarget)));
}

#[test]
fn modes_are_chosen_by_flags() {
    assert!(matches!(choose_mode(Some("x".to_string()), true, true), Ok(Mode::Revert)));
    assert!(matches!(choose_mode(None, true, false), Ok(Mode::Interactive(None))));
    assert!(matches!(choose_mode(Some("x".to_string()), false, false), Ok(Mode::OneShot(p)) if p == "x"));
}

#[test]
fn infers_from_build_dir() {
    let r = infer_target(&strings(&["/", "home", "p", "target", "debug"]));
    assert_eq!(r, Some(strings(&["/", "home", "src", "main.rs"])));
    let r = infer_target(&strings(&["/", "p", "target", "release"]));
    assert_eq!(r, Some(strings(&["/", "src", "main.rs"])));
}

#[test]
fn infers_from_plain_dir() {
    let r = infer_target(&strings(&["/", "proj"]));
    assert_eq!(r, Some(strings(&["/", "proj", "src", "main.rs"])));
}

#[test]
fn inference_fails_without_three_parents() {
    assert_eq!(infer_target(&strings(&["/", "x", "debug"])), None);
}
