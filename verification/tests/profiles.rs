use hk::step::{is_profile_enabled, CheckType, LinterStep, RunStep, RunType};
use indexmap::{IndexMap, IndexSet};

fn strings(items: &[&str]) -> Vec<String> {
    items.iter().map(|s| s.to_string()).collect()
}

fn set(items: &[&str]) -> IndexSet<String> {
    items.iter().map(|s| s.to_string()).collect()
}

fn run_step(profiles: Option<Vec<String>>) -> RunStep {
    RunStep {
        step_type: None,
        name: String::new(),
        profiles,
        glob: None,
        dir: None,
        run: "echo hi".to_string(),
        exclusive: false,
        interactive: false,
        depends: vec![],
        env: IndexMap::new(),
        stage: None,
    }
}

fn linter(check: Option<&str>, fix: Option<&str>) -> LinterStep {
    LinterStep {
        step_type: None,
        name: String::new(),
        profiles: None,
        exclusive: false,
        interactive: false,
        depends: vec![],
        check_first: false,
        batch: false,
        stomp: false,
        glob: None,
        check: check.map(|s| s.to_string()),
        check_diff: None,
        check_list_files: None,
        fix: fix.map(|s| s.to_string()),
        workspace_indicator: None,
        prefix: None,
        dir: None,
        env: IndexMap::new(),
        root: None,
        stage: None,
        linter_dependencies: IndexMap::new(),
    }
}

#[test]
fn enabled_and_disabled_profiles_split_on_bang() {
    let step = run_step(Some(strings(&["slow", "!fast", "ci", "slow", "!fast", "!x"])));
    let enabled = step.enabled_profiles().unwrap();
    let disabled = step.disabled_profiles().unwrap();
    assert_eq!(enabled.iter().cloned().collect::<Vec<_>>(), strings(&["slow", "ci"]));
    assert_eq!(disabled.iter().cloned().collect::<Vec<_>>(), strings(&["fast", "x"]));
}

#[test]
fn no_profiles_gives_no_sets_and_always_runs() {
    let step = run_step(None);
    assert!(step.enabled_profiles().is_none());
    assert!(step.disabled_profiles().is_none());
    assert!(step.is_profile_enabled(&set(&[])));
    assert!(step.is_profile_enabled(&set(&["slow"])));
}

#[test]
fn enabled_profile_must_be_active() {
    let step = run_step(Some(strings(&["slow"])));
    assert!(!step.is_profile_enabled(&set(&[])));
    assert!(step.is_profile_enabled(&set(&["slow"])));
    assert!(step.is_profile_enabled(&set(&["fast", "slow"])));
}

#[test]
fn disabled_profile_must_be_inactive() {
    let step = run_step(Some(strings(&["!fast"])));
    assert!(step.is_profile_enabled(&set(&[])));
    assert!(!step.is_profile_enabled(&set(&["fast"])));
    assert!(step.is_profile_enabled(&set(&["slow"])));
}

#[test]
fn mixed_profiles_need_both_conditions() {
    let step = run_step(Some(strings(&["slow", "!fast"])));
    assert!(step.is_profile_enabled(&set(&["slow"])));
    assert!(!step.is_profile_enabled(&set(&["slow", "fast"])));
    assert!(!step.is_profile_enabled(&set(&["other"])));
}

#[test]
fn free_profile_check_uses_difference_and_intersection() {
    assert!(is_profile_enabled(Some(set(&["a", "b"])), Some(set(&["c"])), &set(&["a", "b", "d"])));
    assert!(!is_profile_enabled(Some(set(&["a", "b"])), None, &set(&["a"])));
    assert!(!is_profile_enabled(None, Some(set(&["c", "d"])), &set(&["d"])));
    assert!(is_profile_enabled(None, None, &set(&[])));
    assert!(is_profile_enabled(Some(set(&[])), Some(set(&[])), &set(&[])));
}

#[test]
fn linter_profiles_behave_like_run_step_profiles() {
    let mut step = linter(Some("check"), None);
    step.profiles = Some(strings(&["!slow", "lint"]));
    assert_eq!(step.enabled_profiles().unwrap().len(), 1);
    assert_eq!(step.disabled_profiles().unwrap().iter().next().unwrap(), "slow");
    assert!(step.is_profile_enabled(&set(&["lint"])));
    assert!(!step.is_profile_enabled(&set(&["lint", "slow"])));
}

#[test]
fn init_names_and_makes_interactive_exclusive() {
    let mut step = run_step(None);
    step.interactive = true;
    step.init("fmt");
    assert_eq!(step.name, "fmt");
    assert!(step.exclusive);

    let mut quiet = run_step(None);
    quiet.init("lint");
    assert_eq!(quiet.name, "lint");
    assert!(!quiet.exclusive);

    let mut l = linter(Some("c"), None);
    l.interactive = true;
    l.init("eslint");
    assert_eq!(l.name, "eslint");
    assert!(l.exclusive);
}

#[test]
fn run_cmd_picks_commands_with_fallbacks() {
    let mut l = linter(Some("check"), Some("fix"));
    assert_eq!(l.run_cmd(RunType::Check(CheckType::Check)), Some("check"));
    assert_eq!(l.run_cmd(RunType::Check(CheckType::Diff)), Some("check"));
    assert_eq!(l.run_cmd(RunType::Check(CheckType::ListFiles)), Some("check"));
    assert_eq!(l.run_cmd(RunType::Fix), Some("fix"));
    l.check_diff = Some("diff".to_string());
    l.check_list_files = Some("list".to_string());
    assert_eq!(l.run_cmd(RunType::Check(CheckType::Diff)), Some("diff"));
    assert_eq!(l.run_cmd(RunType::Check(CheckType::ListFiles)), Some("list"));

    let only_check = linter(Some("check"), None);
    assert_eq!(only_check.run_cmd(RunType::Fix), Some("check"));
    let none = linter(None, None);
    assert_eq!(none.run_cmd(RunType::Fix), None);
    assert_eq!(none.run_cmd(RunType::Check(CheckType::Check)), None);
}

#[test]
fn available_run_type_prefers_check_then_fix() {
    let both = linter(Some("c"), Some("f"));
    assert_eq!(both.available_run_type(RunType::Check(CheckType::Diff)), Some(RunType::Check(CheckType::Check)));
    assert_eq!(both.available_run_type(RunType::Fix), Some(RunType::Fix));
    let only_fix = linter(None, Some("f"));
    assert_eq!(only_fix.available_run_type(RunType::Check(CheckType::Check)), Some(RunType::Fix));
    let neither = linter(None, None);
    assert_eq!(neither.available_run_type(RunType::Check(CheckType::ListFiles)), None);
    assert_eq!(neither.available_run_type(RunType::Fix), Some(RunType::Fix));
}

#[test]
fn served_run_type_has_a_command() {
    for (check, fix) in [(Some("c"), None), (None, Some("f")), (Some("c"), Some("f"))] {
        let l = linter(check, fix);
        for rt in [
            RunType::Check(CheckType::Check),
            RunType::Check(CheckType::Diff),
            RunType::Check(CheckType::ListFiles),
            RunType::Fix,
        ] {
            let served = l.available_run_type(rt).unwrap();
            assert!(l.run_cmd(served).is_some());
        }
    }
}

#[test]
fn profile_sets_hold_each_name_once_without_bang() {
    let step = run_step(Some(strings(&["a", "!b", "a", "!b", "c", "!a"])));
    let enabled: Vec<String> = step.enabled_profiles().unwrap().into_iter().collect();
    let disabled: Vec<String> = step.disabled_profiles().unwrap().into_iter().collect();
    assert_eq!(enabled, strings(&["a", "c"]));
    assert_eq!(disabled, strings(&["b", "a"]));
    assert!(enabled.iter().all(|n| !n.starts_with('!')));
    // "a" is both asked for and ruled out: never runs.
    assert!(!step.is_profile_enabled(&set(&["a", "c"])));
    assert!(!step.is_profile_enabled(&set(&["c"])));
}
