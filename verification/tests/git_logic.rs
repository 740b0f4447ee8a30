use hk::git::{
    existing_paths, new_patch_file_name, patch_file_name, present_paths, record_changed_line,
    record_delta, remote_branch_ref, repo_dir_name, root_relative_pathspecs, DiffText, PopAction,
    PatchFileName, StashAction, StashEvent, StashOutcome, StashPhase, StashState,
};
use hk::path::RelPath;
use hk::path_set::PathSet;

fn p(s: &str) -> RelPath {
    RelPath::from_components(s.split('/').map(|c| c.to_string()).collect())
}

fn is_finish(a: &StashAction, o: StashOutcome) -> bool {
    matches!(a, StashAction::Finish(x) if *x == o)
}

#[test]
fn patch_file_name_takes_eight_digits() {
    assert_eq!(patch_file_name("proj", 4294967295), "proj-42949672.patch");
    assert_eq!(patch_file_name("proj", 0), "proj-0.patch");
    assert_eq!(patch_file_name("a", 12345678), "a-12345678.patch");
    assert_eq!(patch_file_name("a", 123456789), "a-12345678.patch");
}

#[test]
fn new_patch_file_name_has_the_shape() {
    let name = new_patch_file_name("work");
    assert!(name.starts_with("work-"));
    assert!(name.ends_with(".patch"));
    let digits = &name["work-".len()..name.len() - ".patch".len()];
    assert!(!digits.is_empty() && digits.len() <= 8);
    assert!(digits.chars().all(|c| c.is_ascii_digit()));
}

#[test]
fn repo_dir_name_is_the_parent_directory_name() {
    assert_eq!(repo_dir_name(&p("home/me/proj")).unwrap(), "me");
    assert!(repo_dir_name(&p("proj")).is_none());
}

#[test]
fn remote_ref_name() {
    assert_eq!(remote_branch_ref("origin", "main"), "refs/remotes/origin/main");
    assert_eq!(remote_branch_ref("up", "feat/x"), "refs/remotes/up/feat/x");
}

#[test]
fn pathspecs_lose_the_root() {
    let out = root_relative_pathspecs(&["/repo/src/a.rs", "b.rs", "/repo//repo/c"], "/repo/");
    assert_eq!(out, vec!["src/a.rs".to_string(), "b.rs".to_string(), "c".to_string()]);
    assert_eq!("/repo//repo/c".replace("/repo/", ""), "c");
    let same = root_relative_pathspecs(&["x"], "");
    assert_eq!(same, vec!["x".to_string()]);
    assert_eq!(root_relative_pathspecs(&["aaa"], "aa"), vec!["a".to_string()]);
}

#[test]
fn diff_text_marks_lines() {
    let mut d = DiffText::new();
    d.push_line('F', b"diff --git a/x b/x\n");
    d.push_line('+', b"new\n");
    d.push_line('-', b"old\n");
    d.push_line(' ', b"ctx\n");
    d.push_line('H', b"@@ -1 +1 @@\n");
    let patch = d.into_patch(true).unwrap();
    assert_eq!(patch, "diff --git a/x b/x\n+new\n-old\n ctx\n@@ -1 +1 @@\n");
}

#[test]
fn diff_text_without_patch() {
    assert!(DiffText::new().into_patch(true).is_none());
    let mut d = DiffText::new();
    d.push_line('+', b"x");
    assert!(d.into_patch(false).is_none());
}

#[test]
fn diff_text_replaces_invalid_utf8() {
    let mut d = DiffText::new();
    d.push_line('+', &[b'a', 0xff, b'b']);
    assert_eq!(d.into_patch(true).unwrap(), "+a\u{fffd}b");
    let mut only_invalid = DiffText::new();
    only_invalid.push_line('F', &[0xff]);
    assert_eq!(only_invalid.into_patch(true).unwrap(), "\u{fffd}");
}

#[test]
fn stash_skipped_when_disabled_or_headless() {
    let mut s = StashState::new();
    assert!(is_finish(&s.begin(false, false, false, true), StashOutcome::Skipped));
    assert!(is_finish(&s.begin(true, true, false, false), StashOutcome::Skipped));
    assert_eq!(s.current_phase(), StashPhase::Idle);
    assert!(!s.has_stash());
    assert!(matches!(s.begin(true, false, false, true), StashAction::ListUnstaged));
}

#[test]
fn stash_with_clean_tree_does_nothing() {
    let mut s = StashState::new();
    assert!(matches!(s.begin(false, true, false, true), StashAction::ListUnstaged));
    assert!(is_finish(&s.on_event(StashEvent::UnstagedListed(0)), StashOutcome::NoUnstagedChanges));
    assert!(!s.has_stash());
    assert!(matches!(s.pop(), PopAction::Nothing));
}

#[test]
fn patch_stash_round_trip() {
    let mut s = StashState::new();
    assert!(matches!(s.begin(false, true, false, true), StashAction::ListUnstaged));
    assert!(matches!(s.on_event(StashEvent::UnstagedListed(2)), StashAction::BuildPatch));
    match s.on_event(StashEvent::PatchBuilt(Some("+x\n".to_string()))) {
        StashAction::WritePatch(p) => assert_eq!(p, "+x\n"),
        _ => panic!("expected a patch to write"),
    }
    assert!(s.has_stash());
    assert!(matches!(s.on_event(StashEvent::PatchFileWritten), StashAction::CheckoutIndex));
    assert!(is_finish(&s.on_event(StashEvent::CheckedOut), StashOutcome::Stashed));
    match s.pop() {
        PopAction::ApplyPatch(p) => assert_eq!(p, "+x\n"),
        _ => panic!("expected the patch back"),
    }
    assert!(matches!(s.pop(), PopAction::Nothing));
}

#[test]
fn git_stash_round_trip() {
    let mut s = StashState::new();
    assert!(matches!(s.begin(false, true, true, true), StashAction::ListUnstaged));
    assert!(matches!(s.on_event(StashEvent::UnstagedListed(1)), StashAction::SaveGitStash));
    assert!(matches!(s.on_event(StashEvent::GitStashSaved(Some(vec![1, 2, 3]))), StashAction::CheckoutIndex));
    assert!(is_finish(&s.on_event(StashEvent::CheckedOut), StashOutcome::Stashed));
    assert!(matches!(s.pop(), PopAction::PopGitStash));
    assert!(!s.has_stash());
}

#[test]
fn nothing_stashed_clears_the_stash() {
    let mut s = StashState::new();
    s.begin(true, false, false, true);
    s.on_event(StashEvent::UnstagedListed(3));
    assert!(is_finish(&s.on_event(StashEvent::PatchBuilt(None)), StashOutcome::NothingStashed));
    assert!(!s.has_stash());
    s.begin(true, false, true, true);
    s.on_event(StashEvent::UnstagedListed(3));
    assert!(is_finish(&s.on_event(StashEvent::GitStashSaved(None)), StashOutcome::NothingStashed));
}

#[test]
fn out_of_order_events_are_ignored() {
    let mut s = StashState::new();
    assert!(matches!(s.on_event(StashEvent::CheckedOut), StashAction::Ignored));
    s.begin(true, true, false, true);
    assert!(matches!(s.on_event(StashEvent::PatchFileWritten), StashAction::Ignored));
    assert_eq!(s.current_phase(), StashPhase::ListingUnstaged);
}

#[test]
fn modified_files_skip_deleted_and_sort() {
    let mut set = PathSet::new();
    record_delta(&mut set, false, Some(p("b.rs")));
    record_delta(&mut set, true, Some(p("gone.rs")));
    record_delta(&mut set, false, Some(p("a.rs")));
    record_delta(&mut set, false, None);
    record_delta(&mut set, false, Some(p("b.rs")));
    let out: Vec<String> = set.into_sorted_vec().iter().map(|x| x.to_slash_string()).collect();
    assert_eq!(out, vec!["a.rs", "b.rs"]);
}

#[test]
fn files_between_refs_keep_existing() {
    let mut set = PathSet::new();
    record_changed_line(&mut set, Some(p("z.rs")), true);
    record_changed_line(&mut set, Some(p("z.rs")), true);
    record_changed_line(&mut set, Some(p("old.rs")), false);
    record_changed_line(&mut set, Some(p("m/n.rs")), true);
    let out: Vec<String> = set.into_sorted_vec().iter().map(|x| x.to_slash_string()).collect();
    assert_eq!(out, vec!["m/n.rs", "z.rs"]);
}

#[test]
fn status_paths_filters() {
    let present = present_paths(&vec![Some(p("a")), None, Some(p("b"))]);
    assert_eq!(present.iter().map(|x| x.to_slash_string()).collect::<Vec<_>>(), vec!["a", "b"]);
    let existing = existing_paths(&vec![(Some(p("a")), false), (None, true), (Some(p("c/d")), true)]);
    assert_eq!(existing.iter().map(|x| x.to_slash_string()).collect::<Vec<_>>(), vec!["c/d"]);
}

#[test]
fn patch_file_name_is_made_once() {
    let mut names = PatchFileName::new();
    let first = names.get("repo");
    assert!(first.starts_with("repo-") && first.ends_with(".patch"));
    assert_eq!(names.get("repo"), first);
    assert_eq!(names.get("other"), first);
}
