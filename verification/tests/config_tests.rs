use vscode_launcher::enums::{classify, ProgrammingLanguage};
use vscode_launcher::error::RunnerError;
use vscode_launcher::model::{ArgsElement, ArgsValue, Configuration, LaunchJson};
use vscode_launcher::parsing::{normalize_configuration, normalize_launch};
use vscode_launcher::runner::{build_command, configure_python, find_by_name, NameLookup};

fn base_config(name: &str, config_type: &str) -> Configuration {
    Configuration {
        programming_language: ProgrammingLanguage::Unknown,
        name: name.to_string(),
        config_type: config_type.to_string(),
        request: "launch".to_string(),
        program: None,
        python: None,
        windows: None,
        cwd: None,
        env: None,
        env_file: None,
        args: None,
        command: None,
        cargo: None,
    }
}

#[test]
fn classify_follows_the_table() {
    assert_eq!(classify("debugpy"), ProgrammingLanguage::Python);
    assert_eq!(classify("node-terminal"), ProgrammingLanguage::JavaScript);
    assert_eq!(classify("lldb"), ProgrammingLanguage::Rust);
}

#[test]
fn classify_defaults_to_unknown() {
    assert_eq!(classify("gdb"), ProgrammingLanguage::Unknown);
    assert_eq!(classify(""), ProgrammingLanguage::Unknown);
    assert_eq!(classify("Debugpy"), ProgrammingLanguage::Unknown);
}

#[test]
fn language_display_names() {
    assert_eq!(ProgrammingLanguage::JavaScript.display_name(), "JavaScript");
    assert_eq!(ProgrammingLanguage::Python.display_name(), "Python");
    assert_eq!(ProgrammingLanguage::Rust.display_name(), "Rust");
    assert_eq!(ProgrammingLanguage::Unknown.display_name(), "Unknown");
}

#[test]
fn error_messages() {
    assert_eq!(
        RunnerError::UnknownProgrammingLanguage.message(),
        "Programming language must be known to launch the configuration"
    );
    assert_eq!(
        RunnerError::InvalidConfiguration("bad".to_string()).message(),
        "bad"
    );
    assert_eq!(
        RunnerError::GenericError("boom".to_string()).message(),
        "Got error: boom"
    );
}

#[test]
fn normalize_defaults_absent_cwd() {
    let c = normalize_configuration(base_config("a", "debugpy"));
    assert_eq!(c.cwd.as_deref(), Some("."));
}

#[test]
fn normalize_keeps_declared_cwd() {
    let mut raw = base_config("a", "debugpy");
    raw.cwd = Some("/somewhere".to_string());
    let c = normalize_configuration(raw);
    assert_eq!(c.cwd.as_deref(), Some("/somewhere"));
}

#[test]
fn normalize_classifies_language() {
    let c = normalize_configuration(base_config("a", "node-terminal"));
    assert_eq!(c.programming_language, ProgrammingLanguage::JavaScript);
    let c = normalize_configuration(base_config("a", "made-up"));
    assert_eq!(c.programming_language, ProgrammingLanguage::Unknown);
}

#[test]
fn normalize_launch_touches_every_configuration() {
    let l = LaunchJson {
        version: "0.2.0".to_string(),
        configurations: vec![base_config("a", "debugpy"), base_config("b", "lldb")],
    };
    let l = normalize_launch(l);
    assert_eq!(l.version, "0.2.0");
    assert_eq!(l.configurations.len(), 2);
    assert_eq!(
        l.configurations[0].programming_language,
        ProgrammingLanguage::Python
    );
    assert_eq!(
        l.configurations[1].programming_language,
        ProgrammingLanguage::Rust
    );
    assert_eq!(l.configurations[0].cwd.as_deref(), Some("."));
}

#[test]
fn python_strategy_builds_the_documented_command() {
    let mut c = base_config("run", "debugpy");
    c.programming_language = ProgrammingLanguage::Python;
    c.python = Some("python3".to_string());
    c.program = Some("main.py".to_string());
    c.args = Some(ArgsValue::Array(vec![ArgsElement::Text("--flag".to_string())]));
    let cmd = build_command(&c).unwrap();
    assert_eq!(cmd, "python3 main.py --flag");
}

#[test]
fn python_strategy_skips_non_string_args() {
    let mut c = base_config("run", "debugpy");
    c.programming_language = ProgrammingLanguage::Python;
    c.python = Some("py".to_string());
    c.program = Some("m.py".to_string());
    c.args = Some(ArgsValue::Array(vec![
        ArgsElement::Text("-a".to_string()),
        ArgsElement::Other,
        ArgsElement::Text("-b".to_string()),
    ]));
    assert_eq!(configure_python(&c).unwrap(), "py m.py -a -b");
}

#[test]
fn python_strategy_without_args_field() {
    let mut c = base_config("run", "debugpy");
    c.programming_language = ProgrammingLanguage::Python;
    c.python = Some("py".to_string());
    c.program = Some("m.py".to_string());
    assert_eq!(configure_python(&c).unwrap(), "py m.py");
}

#[test]
fn python_strategy_requires_python_field() {
    let mut c = base_config("run", "debugpy");
    c.programming_language = ProgrammingLanguage::Python;
    c.program = Some("main.py".to_string());
    let e = build_command(&c).unwrap_err();
    assert!(matches!(e, RunnerError::InvalidConfiguration(_)));
    assert_eq!(
        e.message(),
        "In Python configuration, python field must be present"
    );
}

#[test]
fn python_strategy_requires_program_field() {
    let mut c = base_config("run", "debugpy");
    c.programming_language = ProgrammingLanguage::Python;
    c.python = Some("python3".to_string());
    let e = build_command(&c).unwrap_err();
    assert!(matches!(e, RunnerError::InvalidConfiguration(_)));
    assert_eq!(
        e.message(),
        "In Python configuration, program field must be present"
    );
}

#[test]
fn reserved_strategies_report_not_implemented() {
    let mut c = base_config("run", "node-terminal");
    c.programming_language = ProgrammingLanguage::JavaScript;
    assert!(matches!(
        build_command(&c).unwrap_err(),
        RunnerError::NotImplemented(_)
    ));
    c.programming_language = ProgrammingLanguage::Rust;
    assert!(matches!(
        build_command(&c).unwrap_err(),
        RunnerError::NotImplemented(_)
    ));
}

#[test]
fn unknown_language_is_rejected() {
    let c = base_config("run", "whatever");
    assert!(matches!(
        build_command(&c).unwrap_err(),
        RunnerError::UnknownProgrammingLanguage
    ));
}

#[test]
fn lookup_with_no_match_is_not_found() {
    let configs = vec![base_config("a", "debugpy")];
    assert!(matches!(find_by_name(configs, "b"), NameLookup::NotFound));
}

#[test]
fn lookup_with_unique_match_hands_out_the_configuration() {
    let configs = vec![
        base_config("a", "debugpy"),
        base_config("b", "lldb"),
        base_config("c", "debugpy"),
    ];
    match find_by_name(configs, "b") {
        NameLookup::Found(c) => {
            assert_eq!(c.name, "b");
            assert_eq!(c.config_type, "lldb");
        }
        _ => panic!("expected a unique match"),
    }
}

#[test]
fn lookup_with_duplicate_names_is_ambiguous() {
    let configs = vec![base_config("a", "debugpy"), base_config("a", "lldb")];
    assert!(matches!(find_by_name(configs, "a"), NameLookup::Ambiguous));
}
