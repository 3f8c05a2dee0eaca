use mici::commands::{EditCommand, InitCommand, ValidateCommand};
use mici::config::{InitConfiguration, LogLevel, LogTimer};
use mici::errors::{CommandError, Span};
use mici::loader::{check_command_file, location_to_offset, read_error, yaml_syntax_error, ReadFailure};
use mici::schema::{
    CommandSchema, CommandSchemaConfiguration, CommandSchemaStep, CommandSchemaStepRun, CommandSchemaStepRunExecution,
};

#[test]
fn default_configuration_text() {
    let c = InitConfiguration {
        upstream_url: None,
        upstream_cmd_path: None,
        disable_cli_color: None,
        disable_pager: None,
        log_timer: None,
        log_level: None,
    };
    let t = c.format_config_yaml();
    assert!(t.starts_with("##  ===="));
    assert!(t.contains("\nupstream_url: null\nupstream_cmd_path: null\n"));
    assert!(t.contains("\ndisable_cli_color: false\ndisable_pager: false\n"));
    assert!(t.ends_with("\nlog_timer: wallclock\nlog_level: info\n"));
}

#[test]
fn configuration_defaults() {
    assert_eq!(LogTimer::default(), LogTimer::Wallclock);
    assert_eq!(LogLevel::default(), LogLevel::Info);
    let d = InitConfiguration::default();
    assert_eq!(d.upstream_url, None);
    assert!(d.format_config_yaml().ends_with("\nlog_timer: wallclock\nlog_level: info\n"));
}

#[test]
fn schema_key_order_is_checked() {
    let mut s = CommandSchema {
        version: "1".to_string(),
        name: "x".to_string(),
        description: None,
        usage: None,
        inputs: None,
        configuration: CommandSchemaConfiguration {
            confirm: false,
            environment: Some(vec![("A".to_string(), None), ("B".to_string(), None)]),
            working_directory: None,
        },
        steps: vec![],
    };
    assert!(s.is_wf());
    s.configuration.environment = Some(vec![("B".to_string(), None), ("A".to_string(), None)]);
    assert!(!s.is_wf());
    s.configuration.environment = Some(vec![("A".to_string(), None), ("A".to_string(), None)]);
    assert!(!s.is_wf());
}

#[test]
fn set_configuration_text() {
    let c = InitConfiguration {
        upstream_url: Some("git@host:cmds.git".to_string()),
        upstream_cmd_path: Some("cmds".to_string()),
        disable_cli_color: Some(true),
        disable_pager: Some(false),
        log_timer: Some(LogTimer::Disabled),
        log_level: Some(LogLevel::Trace),
    };
    let t = c.format_config_yaml();
    assert!(t.contains("\nupstream_url: \"git@host:cmds.git\"\nupstream_cmd_path: \"cmds\"\n"));
    assert!(t.contains("\ndisable_cli_color: true\ndisable_pager: false\n"));
    assert!(t.ends_with("\nlog_timer: none\nlog_level: trace\n"));
}

#[test]
fn command_help_metadata() {
    assert_eq!(EditCommand::new().base.name, "mci edit");
    assert_eq!(ValidateCommand::new().base.synopsis, "mici validate <command>...");
    assert!(InitCommand::new().base.options.contains("--clean"));
}

#[test]
fn parser_location_to_offset() {
    let text = "ab\ncde\nf";
    assert_eq!(location_to_offset(text, 1, 0), 0);
    assert_eq!(location_to_offset(text, 2, 1), 4);
    assert_eq!(location_to_offset(text, 3, 0), 7);
    assert_eq!(location_to_offset(text, 5, 2), 11);
}

#[test]
fn parser_location_counts_lines_without_carriage_returns() {
    let text = "ab\r\ncde\r\nf";
    assert_eq!(location_to_offset(text, 2, 1), 4);
    assert_eq!(location_to_offset(text, 3, 0), 7);
}

#[test]
fn syntax_error_points_at_location() {
    let e = yaml_syntax_error("c.yml".to_string(), "a: b\nc d\n".to_string(), Some((2, 2)), "bad".to_string());
    assert_eq!(
        e,
        CommandError::YamlSyntaxError {
            path: "c.yml".to_string(),
            source: "a: b\nc d\n".to_string(),
            span: Span { offset: 7, length: 1 },
            message: "bad".to_string()
        }
    );
    let e = yaml_syntax_error("c.yml".to_string(), "x".to_string(), None, "bad".to_string());
    assert!(matches!(e, CommandError::YamlSyntaxError { span: Span { offset: 0, .. }, .. }));
}

#[test]
fn read_failures_are_classified() {
    assert_eq!(read_error("p".to_string(), ReadFailure::NotFound), CommandError::FileNotFound { path: "p".to_string() });
    assert_eq!(
        read_error("p".to_string(), ReadFailure::PermissionDenied),
        CommandError::FilePermissionDenied { path: "p".to_string() }
    );
    assert_eq!(read_error("p".to_string(), ReadFailure::Other), CommandError::FileReadError { path: "p".to_string() });
}

#[test]
fn checked_file_comes_back_or_fails_with_findings() {
    let step = CommandSchemaStep {
        id: "s".to_string(),
        name: None,
        when: None,
        run: CommandSchemaStepRun {
            shell: None,
            environment: None,
            working_directory: None,
            execution: CommandSchemaStepRunExecution::Command { command: "ls".to_string() },
            args: None,
        },
    };
    let schema = CommandSchema {
        version: "1".to_string(),
        name: "x".to_string(),
        description: None,
        usage: None,
        inputs: None,
        configuration: CommandSchemaConfiguration { confirm: false, environment: None, working_directory: None },
        steps: vec![step],
    };
    let good = "version: \"1\"\nname: x\nsteps:\n  - id: s\n    run:\n      command: ls\n";
    assert_eq!(check_command_file("c.yml".to_string(), good.to_string(), schema.clone()), Ok(schema.clone()));
    let mut bad = schema.clone();
    bad.version = "9".to_string();
    let bad_text = "version: \"9\"\nname: x\nsteps:\n  - id: s\n    run:\n      command: ls\n";
    match check_command_file("c.yml".to_string(), bad_text.to_string(), bad) {
        Err(CommandError::ValidationErrors { error_count, .. }) => assert_eq!(error_count, 1),
        other => panic!("unexpected {:?}", other),
    }
}
