use mici::context::ExecutionContext;
use mici::coordinator::{
    classify_reply, confirmation_reply, directory_checks, shell_flag_of, step_invocation, Coordinator, RunAction, RunEvent, RunOutcome,
};
use mici::resolver::CliMatches;
use mici::schema::{
    CommandSchema, CommandSchemaConfiguration, CommandSchemaInput, CommandSchemaStep, CommandSchemaStepRun,
    CommandSchemaStepRunExecution,
};

fn step(id: &str, command: &str) -> CommandSchemaStep {
    CommandSchemaStep {
        id: id.to_string(),
        name: None,
        when: None,
        run: CommandSchemaStepRun {
            shell: None,
            environment: None,
            working_directory: None,
            execution: CommandSchemaStepRunExecution::Command { command: command.to_string() },
            args: None,
        },
    }
}

fn input(ty: &str, default: Option<&str>) -> CommandSchemaInput {
    CommandSchemaInput {
        input_type: ty.to_string(),
        description: "d".to_string(),
        options: None,
        required: false,
        secret: false,
        short: Some("f".to_string()),
        long: None,
        default: default.map(|s| s.to_string()),
    }
}

fn command(steps: Vec<CommandSchemaStep>) -> CommandSchema {
    CommandSchema {
        version: "1".to_string(),
        name: "test".to_string(),
        description: None,
        usage: None,
        inputs: None,
        configuration: CommandSchemaConfiguration { confirm: false, environment: None, working_directory: None },
        steps,
    }
}

fn context(cmd: CommandSchema, supplied: Vec<(&str, Option<&str>)>, text: &str) -> ExecutionContext {
    let matches = CliMatches {
        supplied: supplied.into_iter().map(|(k, v)| (k.to_string(), v.map(|s| s.to_string()))).collect(),
    };
    ExecutionContext::new(
        cmd,
        matches,
        vec![("HOME".to_string(), "/home/u".to_string())],
        "/tmp".to_string(),
        "cmd.yml".to_string(),
        text.to_string(),
        "/scripts".to_string(),
        false,
    )
}

fn spawned(a: &RunAction) -> usize {
    match a {
        RunAction::Spawn(i, _) => *i,
        other => panic!("expected a spawn, got {:?}", other),
    }
}

#[test]
fn failing_step_stops_the_run_with_its_exit_code() {
    let cmd = command(vec![step("one", "exit 0"), step("two", "exit 42"), step("three", "touch created")]);
    let mut c = Coordinator::with_context(context(cmd, vec![], ""));
    assert_eq!(c.advance(RunEvent::Begin), RunAction::CheckDirectories(vec![]));
    let a = c.advance(RunEvent::DirectoriesChecked(vec![]));
    assert_eq!(spawned(&a), 0);
    let a = c.advance(RunEvent::StepExited(0));
    assert_eq!(spawned(&a), 1);
    let a = c.advance(RunEvent::StepExited(42));
    let outcome = RunOutcome::StepFailed { step_id: "two".to_string(), exit_code: 42 };
    assert_eq!(a, RunAction::Finish(outcome.clone()));
    assert_eq!(outcome.exit_code(), 42);
}

#[test]
fn all_steps_succeeding_completes() {
    let cmd = command(vec![step("one", "true"), step("two", "true")]);
    let mut c = Coordinator::with_context(context(cmd, vec![], ""));
    c.advance(RunEvent::Begin);
    assert_eq!(spawned(&c.advance(RunEvent::DirectoriesChecked(vec![]))), 0);
    assert_eq!(spawned(&c.advance(RunEvent::StepExited(0))), 1);
    let a = c.advance(RunEvent::StepExited(0));
    assert_eq!(a, RunAction::Finish(RunOutcome::Completed));
    assert_eq!(RunOutcome::Completed.exit_code(), 0);
}

#[test]
fn missing_working_directory_fails_before_any_step() {
    let mut cmd = command(vec![step("one", "pwd")]);
    cmd.inputs = Some(vec![("dir".to_string(), input("string", None))]);
    cmd.configuration.working_directory = Some("@{inputs.dir}".to_string());
    let text = "version: \"1\"\nname: t\nconfiguration:\n  working_directory: \"@{inputs.dir}\"\nsteps:\n  - id: one\n    run:\n      command: pwd\n";
    let mut c = Coordinator::with_context(context(cmd, vec![("dir", Some("/does/not/exist"))], text));
    let checks = match c.advance(RunEvent::Begin) {
        RunAction::CheckDirectories(v) => v,
        other => panic!("unexpected {:?}", other),
    };
    assert_eq!(checks.len(), 1);
    assert_eq!(checks[0].raw, "@{inputs.dir}");
    assert_eq!(checks[0].resolved, "/does/not/exist");
    let span = checks[0].span.unwrap();
    assert_eq!(&text[span.offset - 17..span.offset + 1], "working_directory:");
    match c.advance(RunEvent::DirectoriesChecked(vec![false])) {
        RunAction::Finish(RunOutcome::InvalidWorkingDirectories(bad)) => {
            assert_eq!(bad.len(), 1);
            assert_eq!(bad[0].raw, "@{inputs.dir}");
            assert_eq!(RunOutcome::InvalidWorkingDirectories(bad).exit_code(), 1);
        }
        other => panic!("unexpected {:?}", other),
    }
}

#[test]
fn every_invalid_working_directory_is_reported() {
    let mut s1 = step("a", "pwd");
    s1.run.working_directory = Some("/x".to_string());
    let mut s2 = step("b", "pwd");
    s2.run.working_directory = Some("/y".to_string());
    let mut cmd = command(vec![s1, s2]);
    cmd.configuration.working_directory = Some("/z".to_string());
    let text = "configuration:\n  working_directory: /z\nsteps:\n  - id: a\n    run:\n      command: pwd\n      working_directory: /x\n  - id: b\n    run:\n      command: pwd\n      working_directory: /y\n";
    let ctx = context(cmd, vec![], text);
    let checks = directory_checks(&ctx);
    let ids: Vec<Option<String>> = checks.iter().map(|c| c.step_id.clone()).collect();
    assert_eq!(ids, vec![None, Some("a".to_string()), Some("b".to_string())]);
    let b = checks[2].span.unwrap();
    assert_eq!(&text[b.offset + 2..b.offset + 4], "/y");
    let mut c = Coordinator::with_context(ctx);
    c.advance(RunEvent::Begin);
    match c.advance(RunEvent::DirectoriesChecked(vec![false, true, false])) {
        RunAction::Finish(RunOutcome::InvalidWorkingDirectories(bad)) => {
            assert_eq!(bad.len(), 2);
            assert_eq!(bad[0].resolved, "/z");
            assert_eq!(bad[1].resolved, "/y");
        }
        other => panic!("unexpected {:?}", other),
    }
}

#[test]
fn declined_confirmation_cancels() {
    let mut cmd = command(vec![step("one", "true")]);
    cmd.configuration.confirm = true;
    let mut c = Coordinator::with_context(context(cmd, vec![], ""));
    assert_eq!(c.advance(RunEvent::Begin), RunAction::AskConfirmation);
    let a = c.advance(RunEvent::Confirmed(false));
    assert_eq!(a, RunAction::Finish(RunOutcome::Cancelled));
    assert_eq!(RunOutcome::Cancelled.exit_code(), 0);
}

#[test]
fn accepted_confirmation_goes_on() {
    let mut cmd = command(vec![step("one", "true")]);
    cmd.configuration.confirm = true;
    let mut c = Coordinator::with_context(context(cmd, vec![], ""));
    c.advance(RunEvent::Begin);
    assert_eq!(c.advance(RunEvent::Confirmed(true)), RunAction::CheckDirectories(vec![]));
}

#[test]
fn piped_replies() {
    for y in ["y", "yes", "true", "1"] {
        assert_eq!(classify_reply(y), Some(true));
    }
    for n in ["n", "no", "false", "0"] {
        assert_eq!(classify_reply(n), Some(false));
    }
    assert_eq!(classify_reply("maybe"), None);
}

#[test]
fn shell_flags() {
    assert_eq!(shell_flag_of("bash"), "-c");
    assert_eq!(shell_flag_of("zsh"), "-c");
    assert_eq!(shell_flag_of("pwsh"), "-Command");
    assert_eq!(shell_flag_of("powershell"), "-Command");
    assert_eq!(shell_flag_of("cmd"), "/c");
    assert_eq!(shell_flag_of("nu"), "-c");
}

#[test]
fn boolean_input_variable_follows_the_flag() {
    let mut cmd = command(vec![step("one", "echo @{inputs.force}")]);
    cmd.inputs = Some(vec![("force".to_string(), input("boolean", None))]);
    let given = context(cmd.clone(), vec![("force", None)], "");
    let inv = step_invocation(&given, 0);
    assert!(inv.environment.contains(&("MICI_INPUT_FORCE".to_string(), "true".to_string())));
    assert_eq!(inv.args, vec!["-c".to_string(), "echo true".to_string()]);
    assert_eq!(inv.script, None);
    let omitted = context(cmd, vec![], "");
    let inv = step_invocation(&omitted, 0);
    assert!(inv.environment.contains(&("MICI_INPUT_FORCE".to_string(), "false".to_string())));
}

#[test]
fn step_environment_overrides_configuration() {
    let mut s = step("one", "env");
    s.run.environment = Some(vec![("MODE".to_string(), Some("step-override".to_string()))]);
    s.run.working_directory = Some("/work".to_string());
    let mut cmd = command(vec![s]);
    cmd.configuration.environment = Some(vec![
        ("GLOBAL".to_string(), Some("global-value".to_string())),
        ("MODE".to_string(), Some("global".to_string())),
    ]);
    cmd.configuration.working_directory = Some("/base".to_string());
    let inv = step_invocation(&context(cmd, vec![], ""), 0);
    assert_eq!(inv.program, "bash");
    assert_eq!(inv.working_directory, Some("/work".to_string()));
    let last_mode = inv.environment.iter().rev().find(|(k, _)| k == "MODE").map(|(_, v)| v.clone());
    assert_eq!(last_mode, Some("step-override".to_string()));
    assert!(inv.environment.contains(&("GLOBAL".to_string(), "global-value".to_string())));
}

#[test]
fn script_step_runs_from_the_scripts_directory() {
    let mut s = step("one", "");
    s.run.execution = CommandSchemaStepRunExecution::Script { script: "@{inputs.name}.sh".to_string() };
    s.run.shell = Some("sh".to_string());
    let mut cmd = command(vec![s]);
    cmd.inputs = Some(vec![("name".to_string(), input("string", Some("hello")))]);
    let inv = step_invocation(&context(cmd, vec![], ""), 0);
    assert_eq!(inv.program, "sh");
    assert!(inv.args.is_empty());
    assert_eq!(inv.script, Some("hello.sh".to_string()));
}

#[test]
fn input_variable_names_are_upper_cased() {
    let mut cmd = command(vec![step("one", "true")]);
    cmd.inputs = Some(vec![("name".to_string(), input("string", Some("fallback")))]);
    let inv = step_invocation(&context(cmd, vec![], ""), 0);
    assert_eq!(inv.environment, vec![("MICI_INPUT_NAME".to_string(), "fallback".to_string())]);
}

#[test]
fn input_variable_names_keep_dashes() {
    let mut cmd = command(vec![step("one", "true")]);
    cmd.inputs = Some(vec![("dry-run".to_string(), input("bool", None))]);
    let inv = step_invocation(&context(cmd, vec![("dry-run", None)], ""), 0);
    assert_eq!(inv.environment, vec![("MICI_INPUT_DRY-RUN".to_string(), "true".to_string())]);
}

#[test]
fn unreadable_confirmation_is_fatal() {
    let mut cmd = command(vec![step("one", "true")]);
    cmd.configuration.confirm = true;
    let mut c = Coordinator::with_context(context(cmd, vec![], ""));
    assert_eq!(c.advance(RunEvent::Begin), RunAction::AskConfirmation);
    let a = c.advance(RunEvent::ConfirmationFailed);
    assert_eq!(a, RunAction::Finish(RunOutcome::ConfirmationUnreadable));
    assert_eq!(RunOutcome::ConfirmationUnreadable.exit_code(), 1);
}

#[test]
fn raw_piped_lines() {
    assert_eq!(confirmation_reply("  YES\n"), Some(true));
    assert_eq!(confirmation_reply("True\r\n"), Some(true));
    assert_eq!(confirmation_reply("\tNo \n"), Some(false));
    assert_eq!(confirmation_reply("0\n"), Some(false));
    assert_eq!(confirmation_reply("yes please\n"), None);
    assert_eq!(confirmation_reply(""), None);
}
