use hk::path::RelPath;
use hk::step::{CheckType, LinterStep, RunType};
use hk::step_run::{
    changed_files, command_line, planned_command, failure_report, files_message, files_to_add_source,
    progress_message, AddSource, CommandOutcome, FailureReport, StepAction, StepOutcome, StepPhase, StepRun,
};
use hk::text::{decimal_string, remove_all};
use indexmap::IndexMap;

fn p(s: &str) -> RelPath {
    RelPath::from_components(s.split('/').map(|c| c.to_string()).collect())
}

#[test]
fn command_line_with_prefix() {
    assert_eq!(command_line("eslint .", Some("npx")), "npx eslint .");
    assert_eq!(command_line("eslint .", None), "eslint .");
}

#[test]
fn add_source_only_when_fixing() {
    assert_eq!(files_to_add_source(RunType::Fix, true, true), AddSource::StageMatches);
    assert_eq!(files_to_add_source(RunType::Fix, false, true), AddSource::StepFiles);
    assert_eq!(files_to_add_source(RunType::Fix, false, false), AddSource::Nothing);
    assert_eq!(files_to_add_source(RunType::Check(CheckType::Check), true, true), AddSource::Nothing);
}

#[test]
fn failure_reports() {
    assert_eq!(failure_report(RunType::Check(CheckType::ListFiles), true), FailureReport::ListFilesFailed);
    assert_eq!(failure_report(RunType::Check(CheckType::ListFiles), false), FailureReport::CommandFailed);
    assert_eq!(failure_report(RunType::Check(CheckType::Check), true), FailureReport::CommandFailed);
    assert_eq!(failure_report(RunType::Fix, true), FailureReport::CommandFailed);
}

#[test]
fn file_count_words() {
    assert_eq!(files_message(0), "0 files");
    assert_eq!(files_message(1), "1 file");
    assert_eq!(files_message(12), "12 files");
}

#[test]
fn progress_line() {
    let globs = vec!["*.rs".to_string(), "*.toml".to_string()];
    assert_eq!(progress_message(3, &globs, "cargo fmt"), "3 files \u{2013} *.rs *.toml \u{2013} cargo fmt");
    assert_eq!(progress_message(1, &vec![], "x"), "1 file \u{2013}  \u{2013} x");
}

#[test]
fn changed_files_need_a_later_time() {
    let before = vec![(10i128, p("a")), (10i128, p("b")), (10i128, p("c")), (-5i128, p("d"))];
    let after = vec![Some(11i128), Some(10i128), None, Some(0i128)];
    let out = changed_files(&before, &after);
    assert_eq!(out.iter().map(|x| x.to_slash_string()).collect::<Vec<_>>(), vec!["a", "d"]);
}

#[test]
fn decimal_numerals() {
    assert_eq!(decimal_string(0), "0");
    assert_eq!(decimal_string(7), "7");
    assert_eq!(decimal_string(1234567890123), "1234567890123");
    assert_eq!(decimal_string(u64::MAX), u64::MAX.to_string());
}

#[test]
fn remove_all_matches_str_replace() {
    for (s, pat) in [("banana", "an"), ("aaaa", "aa"), ("abc", ""), ("", "x"), ("x\u{e9}y\u{e9}", "\u{e9}"), ("abab", "abab")] {
        assert_eq!(remove_all(s, pat), s.replace(pat, ""));
    }
}

fn linter_with_indicator(ind: Option<&str>) -> LinterStep {
    LinterStep {
        step_type: None,
        name: "l".to_string(),
        profiles: None,
        exclusive: false,
        interactive: false,
        depends: vec![],
        check_first: false,
        batch: false,
        stomp: false,
        glob: None,
        check: Some("c".to_string()),
        check_diff: None,
        check_list_files: None,
        fix: None,
        workspace_indicator: ind.map(|s| s.to_string()),
        prefix: None,
        dir: None,
        env: IndexMap::new(),
        root: None,
        stage: None,
        linter_dependencies: IndexMap::new(),
    }
}

#[test]
fn workspace_search_without_indicator() {
    assert!(linter_with_indicator(None).workspaces_for_files(&[p("a/b.rs")]).is_none());
}

#[test]
fn workspace_search_as_documented() {
    let files = [
        p("src/crate-1/src/lib.rs"),
        p("src/crate-1/src/subdir/mod.rs"),
        p("src/crate-2/src/lib.rs"),
        p("src/crate-2/src/subdir/mod.rs"),
    ];
    let step = linter_with_indicator(Some("Cargo.toml"));
    let mut search = step.workspaces_for_files(&files).unwrap();
    assert_eq!(search.indicator(), "Cargo.toml");
    let mut lookups = 0;
    while let Some(dir) = search.next_dir() {
        lookups += 1;
        // Cargo.toml files sit in src/crate-1 and src/crate-2.
        let comps = dir.components.clone();
        let found = if comps.len() >= 2 && (comps[1] == "crate-1" || comps[1] == "crate-2") {
            Some(p(&format!("src/{}/Cargo.toml", comps[1])))
        } else {
            None
        };
        search.found(&dir, found);
    }
    assert_eq!(lookups, 2);
    let ws: Vec<String> = search.into_workspaces().iter().map(|x| x.to_slash_string()).collect();
    assert_eq!(ws, vec!["src/crate-1/Cargo.toml", "src/crate-2/Cargo.toml"]);
}

#[test]
fn workspace_search_keeps_looking_when_nothing_found() {
    let step = linter_with_indicator(Some("go.mod"));
    let mut search = step.workspaces_for_files(&[p("a/x.go"), p("b/y.go")]).unwrap();
    let mut seen = vec![];
    while let Some(dir) = search.next_dir() {
        seen.push(dir.to_slash_string());
        search.found(&dir, None);
    }
    assert_eq!(seen, vec!["b", "a"]);
    assert_eq!(search.into_workspaces().len(), 0);
}

#[test]
fn remove_all_leaves_text_without_the_pattern_alone() {
    assert_eq!(remove_all("src/lib.rs", "/home/me/"), "src/lib.rs");
    assert!(remove_all("abcabc", "b").len() <= "abcabc".len());
}

#[test]
fn planned_command_needs_a_command() {
    assert_eq!(planned_command(None, Some("npx")), None);
    assert_eq!(planned_command(Some("eslint"), Some("npx")), Some("npx eslint".to_string()));
    assert_eq!(planned_command(Some("eslint"), None), Some("eslint".to_string()));
}

#[test]
fn workspaces_come_out_in_file_order() {
    let step = linter_with_indicator(Some("package.json"));
    let mut search = step
        .workspaces_for_files(&[p("a/src/x.js"), p("b/src/y.js"), p("c/src/z.js")])
        .unwrap();
    while let Some(dir) = search.next_dir() {
        let found = Some(dir.parent().unwrap().join("package.json"));
        search.found(&dir, found);
    }
    let ws: Vec<String> = search.into_workspaces().iter().map(|x| x.to_slash_string()).collect();
    assert_eq!(ws, vec!["a/package.json", "b/package.json", "c/package.json"]);
}

#[test]
fn step_run_without_command_does_nothing() {
    let (run, action) = StepRun::start(None, Some("npx"), RunType::Fix, true, true, true);
    assert!(matches!(action, StepAction::Finish(StepOutcome::NoCommand)));
    let mut run = run;
    assert!(matches!(run.command_finished(CommandOutcome::Succeeded), StepAction::Ignored));
}

#[test]
fn step_run_fix_stages_changed_files() {
    let (mut run, action) = StepRun::start(Some("fmt"), Some("npx"), RunType::Fix, true, false, true);
    assert!(matches!(action, StepAction::CollectFiles(AddSource::StepFiles)));
    match run.files_collected(vec![(Some(5), p("a")), (None, p("b")), (Some(9), p("c"))]) {
        StepAction::RunCommand { command, pause_progress } => {
            assert_eq!(command, "npx fmt");
            assert!(pause_progress);
        }
        _ => panic!("expected the command"),
    }
    match run.command_finished(CommandOutcome::Succeeded) {
        StepAction::RetimeFiles { resume_progress, files } => {
            assert!(resume_progress);
            assert_eq!(files.iter().map(|f| f.to_slash_string()).collect::<Vec<_>>(), vec!["a", "b", "c"]);
        }
        _ => panic!("expected a retime"),
    }
    // "b" had no readable time: it counts from the epoch, so any later time stages it.
    match run.times_read(vec![Some(5), Some(1), Some(10)]) {
        StepAction::Finish(StepOutcome::Completed(files)) => {
            assert_eq!(files.iter().map(|f| f.to_slash_string()).collect::<Vec<_>>(), vec!["b", "c"]);
        }
        _ => panic!("expected completion"),
    }
}

#[test]
fn step_run_failures() {
    let (mut run, _) = StepRun::start(Some("ls"), None, RunType::Check(CheckType::ListFiles), false, false, false);
    run.files_collected(vec![]);
    match run.command_finished(CommandOutcome::ScriptFailed) {
        StepAction::Fail { resume_progress, report } => {
            assert!(!resume_progress);
            assert_eq!(report, FailureReport::ListFilesFailed);
        }
        _ => panic!("expected a failure"),
    }
    let (mut run, _) = StepRun::start(Some("x"), None, RunType::Fix, true, false, false);
    run.files_collected(vec![]);
    match run.command_finished(CommandOutcome::OtherFailure) {
        StepAction::Fail { resume_progress, report } => {
            assert!(resume_progress);
            assert_eq!(report, FailureReport::CommandFailed);
        }
        _ => panic!("expected a failure"),
    }
}

#[test]
fn step_run_ignores_mismatched_times() {
    let (mut run, _) = StepRun::start(Some("x"), None, RunType::Fix, false, false, true);
    run.files_collected(vec![(Some(1), p("a"))]);
    run.command_finished(CommandOutcome::Succeeded);
    assert!(matches!(run.times_read(vec![]), StepAction::Ignored));
    assert!(matches!(run.times_read(vec![Some(2)]), StepAction::Finish(StepOutcome::Completed(_))));
    let _ = StepPhase::Done;
}
