use vscode_launcher::enums::ProgrammingLanguage;
use vscode_launcher::error::RunnerError;
use vscode_launcher::model::{env_lookup, Configuration, EnvList};
use vscode_launcher::runner::{
    build_run_plan, merge_env, RunAction, RunEvent, RunOutcome, RunnerState,
};

fn env(pairs: &[(&str, &str)]) -> EnvList {
    pairs
        .iter()
        .map(|(k, v)| (k.to_string(), v.to_string()))
        .collect()
}

fn python_config() -> Configuration {
    Configuration {
        programming_language: ProgrammingLanguage::Python,
        name: "run".to_string(),
        config_type: "debugpy".to_string(),
        request: "launch".to_string(),
        program: Some("main.py".to_string()),
        python: Some("python3".to_string()),
        windows: None,
        cwd: Some(".".to_string()),
        env: None,
        env_file: None,
        args: None,
        command: None,
        cargo: None,
    }
}

#[test]
fn merge_prefers_the_higher_source() {
    let inherited = env(&[("A", "1")]);
    let file = env(&[("A", "2"), ("B", "2")]);
    let inline = env(&[("B", "3"), ("C", "3")]);
    let effective = merge_env(&merge_env(&inherited, &file), &inline);
    assert_eq!(env_lookup(&effective, "A").unwrap(), "2");
    assert_eq!(env_lookup(&effective, "B").unwrap(), "3");
    assert_eq!(env_lookup(&effective, "C").unwrap(), "3");
    assert!(env_lookup(&effective, "D").is_none());
}

#[test]
fn run_plan_carries_command_cwd_and_env() {
    let mut c = python_config();
    c.env = Some(env(&[("B", "3"), ("C", "3")]));
    let file_vars = env(&[("A", "2"), ("B", "2")]);
    let plan = build_run_plan(&c, Some(file_vars)).unwrap();
    assert_eq!(plan.command, "python3 main.py");
    assert_eq!(plan.cwd.as_deref(), Some("."));
    assert_eq!(env_lookup(&plan.env, "A").unwrap(), "2");
    assert_eq!(env_lookup(&plan.env, "B").unwrap(), "3");
    assert_eq!(env_lookup(&plan.env, "C").unwrap(), "3");
}

#[test]
fn run_plan_without_sources_is_empty() {
    let plan = build_run_plan(&python_config(), None).unwrap();
    assert!(plan.env.is_empty());
}

#[test]
fn run_plan_propagates_build_errors() {
    let mut c = python_config();
    c.python = None;
    assert!(matches!(
        build_run_plan(&c, None).unwrap_err(),
        RunnerError::InvalidConfiguration(_)
    ));
    let mut c = python_config();
    c.programming_language = ProgrammingLanguage::Unknown;
    assert!(matches!(
        build_run_plan(&c, None).unwrap_err(),
        RunnerError::UnknownProgrammingLanguage
    ));
}

#[test]
fn polling_continues_while_nothing_happened() {
    let s = RunnerState::initial();
    let (s, a) = s.step(RunEvent::StillRunning);
    assert_eq!(a, RunAction::PollAgain);
    assert!(s.outcome().is_none());
}

#[test]
fn cancellation_kills_reaps_and_joins_before_finishing() {
    let s = RunnerState::initial();
    let (s, a) = s.step(RunEvent::StillRunning);
    assert_eq!(a, RunAction::PollAgain);
    let (s, a) = s.step(RunEvent::CancelSeen);
    assert_eq!(a, RunAction::KillChild);
    let (s, a) = s.step(RunEvent::StillRunning);
    assert_eq!(a, RunAction::ReapChild);
    let (s, a) = s.step(RunEvent::StillRunning);
    assert_eq!(a, RunAction::JoinStdout);
    let (s, a) = s.step(RunEvent::StillRunning);
    assert_eq!(a, RunAction::JoinStderr);
    let (s, a) = s.step(RunEvent::StillRunning);
    assert_eq!(a, RunAction::Finish);
    assert!(s.killed && s.reaped && s.joined_out && s.joined_err);
    assert_eq!(s.outcome(), Some(RunOutcome::Cancelled));
}

#[test]
fn natural_exit_completes_without_a_kill() {
    let s = RunnerState::initial();
    let (s, a) = s.step(RunEvent::ExitSeen);
    assert_eq!(a, RunAction::ReapChild);
    let (s, a) = s.step(RunEvent::StillRunning);
    assert_eq!(a, RunAction::JoinStdout);
    let (s, a) = s.step(RunEvent::StillRunning);
    assert_eq!(a, RunAction::JoinStderr);
    let (s, a) = s.step(RunEvent::StillRunning);
    assert_eq!(a, RunAction::Finish);
    assert!(!s.killed && s.reaped && s.joined_out && s.joined_err);
    assert_eq!(s.outcome(), Some(RunOutcome::Completed));
}

#[test]
fn repeated_cancellation_is_idempotent() {
    let s = RunnerState::initial();
    let (s, _) = s.step(RunEvent::CancelSeen);
    let (s, _) = s.step(RunEvent::CancelSeen);
    let (s, _) = s.step(RunEvent::CancelSeen);
    let (s, _) = s.step(RunEvent::CancelSeen);
    let (s, a) = s.step(RunEvent::CancelSeen);
    assert_eq!(a, RunAction::Finish);
    assert_eq!(s.outcome(), Some(RunOutcome::Cancelled));
    let (s2, a) = s.step(RunEvent::CancelSeen);
    assert_eq!(a, RunAction::Finish);
    assert_eq!(s2, s);
}
