use grove::commands::{
    is_unlisted_repo, lists_detected, parse_vcs_override, passes_filter, validate_worktree_name,
    HookAction, HookRun,
};
use grove::config::{resolve_next, Config, Project, ResolveAction, ResolveEvent};
use grove::env::{
    export_looks_up, export_output, load_merged_env, merged_env_json, EnvSource, EnvVars,
    ExportFormat, MergedEnvVar, UnsetOutcome,
};
use grove::error::Error;
use grove::omap::OrderedMap;
use grove::vcs::{classify_add_failure, AddFailure};

fn env_map(pairs: &[(&str, &str)]) -> OrderedMap<String> {
    let mut m = OrderedMap::new();
    for (k, v) in pairs {
        m.insert(k.to_string(), v.to_string());
    }
    m
}

fn var(key: &str, value: &str) -> MergedEnvVar {
    MergedEnvVar { key: key.to_string(), value: value.to_string(), source: EnvSource::Project }
}

#[test]
fn unset_reports_what_becomes_of_the_file() {
    let mut vars = EnvVars { vars: env_map(&[("A", "1"), ("B", "2")]) };
    assert_eq!(vars.unset("C"), UnsetOutcome::NotFound);
    assert_eq!(vars.vars.len(), 2);
    assert_eq!(vars.unset("A"), UnsetOutcome::SaveFile);
    assert!(!vars.vars.contains_key("A"));
    assert_eq!(vars.unset("B"), UnsetOutcome::DeleteFile);
    assert!(vars.vars.is_empty());
    assert_eq!(vars.unset("B"), UnsetOutcome::NotFound);
}

#[test]
fn export_lookup_depends_on_format_and_path() {
    assert!(export_looks_up(ExportFormat::Shell, false));
    assert!(export_looks_up(ExportFormat::Shell, true));
    assert!(export_looks_up(ExportFormat::Json, true));
    assert!(!export_looks_up(ExportFormat::Json, false));
}

#[test]
fn export_output_without_project() {
    assert_eq!(export_output(ExportFormat::Json, "/nowhere", None).unwrap(), Some("{}".to_string()));
    assert!(matches!(
        export_output(ExportFormat::Shell, "/nowhere", None),
        Err(Error::NoProjectForPath(p)) if p == "/nowhere"
    ));
}

#[test]
fn export_output_with_variables() {
    let repo = env_map(&[("A", "repo")]);
    let project = env_map(&[("B", "it's")]);
    let merged = load_merged_env(&repo, &project, None);
    assert_eq!(
        export_output(ExportFormat::Shell, "/p", Some(&merged)).unwrap(),
        Some("export A='repo'\nexport B='it'\"'\"'s'".to_string())
    );
    assert_eq!(
        export_output(ExportFormat::Json, "/p", Some(&merged)).unwrap(),
        Some("{\"A\":\"repo\",\"B\":\"it's\"}".to_string())
    );
    let none: Vec<MergedEnvVar> = Vec::new();
    assert_eq!(export_output(ExportFormat::Shell, "/p", Some(&none)).unwrap(), None);
    assert_eq!(export_output(ExportFormat::Json, "/p", Some(&none)).unwrap(), Some("{}".to_string()));
}

#[test]
fn merged_json_later_value_wins_and_sorts() {
    let vars = vec![var("B", "1"), var("A", "2"), var("B", "3")];
    assert_eq!(merged_env_json(&vars), "{\"A\":\"2\",\"B\":\"3\"}");
}

#[test]
fn hooks_run_in_order_until_one_fails() {
    let mut run = HookRun::new(vec!["one".to_string(), "two".to_string(), "three".to_string()]);
    assert!(matches!(run.next_action(), HookAction::Run(c) if c == "one"));
    assert!(run.finished(true, String::new()).is_ok());
    assert!(matches!(run.next_action(), HookAction::Run(c) if c == "two"));
    assert!(matches!(
        run.finished(false, "boom".to_string()),
        Err(Error::HookFailed(c, e)) if c == "two" && e == "boom"
    ));
    assert!(matches!(run.next_action(), HookAction::Done));
}

#[test]
fn hooks_all_succeed() {
    let mut run = HookRun::new(vec!["a".to_string()]);
    assert!(matches!(run.next_action(), HookAction::Run(c) if c == "a"));
    assert!(run.finished(true, String::new()).is_ok());
    assert!(matches!(run.next_action(), HookAction::Done));
    let empty = HookRun::new(Vec::new());
    assert!(matches!(empty.next_action(), HookAction::Done));
}

#[test]
fn resolution_order_with_a_name() {
    assert!(matches!(
        resolve_next(Some("app"), ResolveEvent::Start { registered: true }),
        ResolveAction::Registered(n) if n == "app"
    ));
    assert!(matches!(
        resolve_next(Some("app"), ResolveEvent::Start { registered: false }),
        ResolveAction::Discover(Some(n)) if n == "app"
    ));
    assert!(matches!(
        resolve_next(Some("app"), ResolveEvent::NothingDiscovered),
        ResolveAction::Fail(Error::ProjectNotFound(n)) if n == "app"
    ));
}

#[test]
fn resolution_order_without_a_name() {
    assert!(matches!(resolve_next(None, ResolveEvent::Start { registered: false }), ResolveAction::MatchPath));
    assert!(matches!(
        resolve_next(None, ResolveEvent::PathMatched(Some("web".to_string()))),
        ResolveAction::Registered(n) if n == "web"
    ));
    assert!(matches!(resolve_next(None, ResolveEvent::PathMatched(None)), ResolveAction::Discover(None)));
    assert!(matches!(
        resolve_next(None, ResolveEvent::NothingDiscovered),
        ResolveAction::Fail(Error::NoProjectDetected)
    ));
}

#[test]
fn failed_save_takes_registration_back() {
    let mut config = Config::default();
    let project = Project { path: "/repo".to_string(), worktree_base: None, database: None, hooks: None };
    assert!(config.register("app", project));
    assert!(!config.settle_registration("app", false));
    assert!(config.projects.is_empty());
    let project = Project { path: "/repo".to_string(), worktree_base: None, database: None, hooks: None };
    assert!(config.register("app", project));
    assert!(config.settle_registration("app", true));
    assert!(config.projects.contains_key("app"));
}

#[test]
fn add_failure_classification() {
    assert!(matches!(
        classify_add_failure("fatal: a branch named 'feat' already exists\n"),
        AddFailure::BranchExists
    ));
    assert!(matches!(
        classify_add_failure("fatal: invalid reference"),
        AddFailure::Failed(Error::VcsCommandFailed(m)) if m == "fatal: invalid reference"
    ));
}

#[test]
fn listing_filter_and_seen_repositories() {
    assert!(passes_filter(None, "app"));
    assert!(passes_filter(Some("app"), "app"));
    assert!(!passes_filter(Some("web"), "app"));
    let seen = vec!["/a".to_string(), "/b".to_string()];
    assert!(!is_unlisted_repo(&seen, "/b"));
    assert!(is_unlisted_repo(&seen, "/c"));
    assert!(lists_detected(None, "c", &seen, "/c"));
    assert!(!lists_detected(Some("x"), "c", &seen, "/c"));
    assert!(!lists_detected(None, "b", &seen, "/b"));
}

#[test]
fn ascii_letter_case_and_names() {
    assert_eq!(parse_vcs_override(Some("GiT")).unwrap(), Some(grove::vcs::VcsOverride::Git));
    assert!(matches!(parse_vcs_override(Some("JJ")), Err(Error::InvalidVcsOverride(s)) if s == "jj"));
    assert!(validate_worktree_name("Feat-2_B").is_ok());
    assert!(validate_worktree_name("feat.2").is_err());
    assert!(validate_worktree_name("feat!").is_err());
}
