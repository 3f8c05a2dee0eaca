use mici::errors::{CommandError, Span, ValidationError};
use mici::schema::{
    CommandSchema, CommandSchemaConfiguration, CommandSchemaInput, CommandSchemaStep, CommandSchemaStepRun,
    CommandSchemaStepRunExecution,
};
use mici::validation::SchemaValidator;

fn input(ty: &str, options: Option<Vec<&str>>, secret: bool) -> CommandSchemaInput {
    CommandSchemaInput {
        input_type: ty.to_string(),
        description: "d".to_string(),
        options: options.map(|v| v.into_iter().map(|s| s.to_string()).collect()),
        required: false,
        secret,
        short: None,
        long: None,
        default: None,
    }
}

fn step(id: &str, command: &str) -> CommandSchemaStep {
    CommandSchemaStep {
        id: id.to_string(),
        name: None,
        when: None,
        run: CommandSchemaStepRun {
            shell: None,
            environment: None,
            working_directory: None,
            execution: CommandSchemaStepRunExecution::Command { command: command.to_string() },
            args: None,
        },
    }
}

fn schema(version: &str, name: &str, inputs: Vec<(&str, CommandSchemaInput)>, steps: Vec<CommandSchemaStep>) -> CommandSchema {
    CommandSchema {
        version: version.to_string(),
        name: name.to_string(),
        description: None,
        usage: None,
        inputs: if inputs.is_empty() {
            None
        } else {
            Some(inputs.into_iter().map(|(k, v)| (k.to_string(), v)).collect())
        },
        configuration: CommandSchemaConfiguration { confirm: false, environment: None, working_directory: None },
        steps,
    }
}

fn findings(text: &str, s: &CommandSchema) -> Vec<ValidationError> {
    let mut v = SchemaValidator::new(text.to_string(), "cmd.yml".to_string());
    match v.validate(s) {
        Ok(()) => Vec::new(),
        Err(CommandError::ValidationErrors { errors, error_count, path }) => {
            assert_eq!(errors.len(), error_count);
            assert_eq!(path, "cmd.yml");
            errors
        }
        Err(e) => panic!("unexpected error {:?}", e),
    }
}

fn at(offset: usize) -> Span {
    Span { offset, length: 1 }
}

#[test]
fn valid_command_passes() {
    let text = "version: \"1.0\"\nname: \"hello\"\nsteps:\n  - id: \"greet\"\n    run:\n      command: echo hi\n";
    let s = schema("1.0", "hello", vec![], vec![step("greet", "echo hi")]);
    assert!(findings(text, &s).is_empty());
}

#[test]
fn version_invalid_reported_with_other_findings() {
    let text = "version: \"2\"\nname: \"\"\nsteps: []\n";
    let s = schema("2", "  ", vec![], vec![]);
    let f = findings(text, &s);
    assert_eq!(
        f,
        vec![
            ValidationError::VersionInvalid { found: "2".to_string(), span: at(7) },
            ValidationError::NameEmpty { span: at(17) },
            ValidationError::StepsEmpty { span: at(27) },
        ]
    );
}

#[test]
fn version_one_is_accepted() {
    let text = "version: \"1\"\nname: \"x\"\nsteps:\n  - id: a\n    run:\n      command: ls\n";
    let s = schema("1", "x", vec![], vec![step("a", "ls")]);
    assert!(findings(text, &s).is_empty());
}

#[test]
fn empty_steps_fail_with_steps_empty_only() {
    let text = "version: \"1\"\nname: \"x\"\nsteps: []\n";
    let s = schema("1", "x", vec![], vec![]);
    assert_eq!(findings(text, &s), vec![ValidationError::StepsEmpty { span: at(28) }]);
}

#[test]
fn duplicate_ids_pair_each_with_first_occurrence() {
    let text = "version: \"1\"\nname: x\nsteps:\n  - id: a\n    run:\n      command: ls\n  - id: a\n    run:\n      command: ls\n  - id: a\n    run:\n      command: ls\n";
    let s = schema("1", "x", vec![], vec![step("a", "ls"), step("a", "ls"), step("a", "ls")]);
    let f = findings(text, &s);
    let pairs: Vec<(usize, usize)> = f
        .iter()
        .filter_map(|e| match e {
            ValidationError::StepIdDuplicate { first_index, second_index, .. } => Some((*first_index, *second_index)),
            _ => None,
        })
        .collect();
    assert_eq!(pairs, vec![(0, 1), (0, 2)]);
    assert_eq!(f.len(), 2);
    match &f[0] {
        ValidationError::StepIdDuplicate { first_span, second_span, step_id, .. } => {
            assert_eq!(step_id, "a");
            assert_eq!(&text[first_span.offset - 2..first_span.offset + 1], "id:");
            assert!(second_span.offset > first_span.offset);
        }
        other => panic!("unexpected {:?}", other),
    }
}

#[test]
fn input_type_findings() {
    let text = "version: \"1\"\nname: x\ninputs:\n  a:\n    type: \"\"\n  b:\n    type: number\nsteps:\n  - id: s\n    run:\n      command: ls\n";
    let s = schema("1", "x", vec![("a", input("", None, false)), ("b", input("number", None, false))], vec![step("s", "ls")]);
    let f = findings(text, &s);
    assert_eq!(f.len(), 2);
    assert!(matches!(&f[0], ValidationError::InputTypeEmpty { input_name, .. } if input_name == "a"));
    assert!(matches!(&f[1], ValidationError::InputTypeInvalid { input_name, found, .. } if input_name == "b" && found == "number"));
}

#[test]
fn secret_requires_string_type() {
    let text = "version: \"1\"\nname: x\ninputs:\n  force:\n    type: bool\n    secret: true\nsteps:\n  - id: s\n    run:\n      command: ls\n";
    let s = schema("1", "x", vec![("force", input("bool", None, true))], vec![step("s", "ls")]);
    let f = findings(text, &s);
    assert_eq!(f.len(), 1);
    match &f[0] {
        ValidationError::SecretRequiresString { secret_span, type_span, input_type, .. } => {
            assert_eq!(input_type, "bool");
            assert_eq!(&text[type_span.offset - 4..type_span.offset + 1], "type:");
            assert_eq!(&text[secret_span.offset - 6..secret_span.offset + 1], "secret:");
        }
        other => panic!("unexpected {:?}", other),
    }
}

#[test]
fn choice_requires_options() {
    let text = "version: \"1\"\nname: x\ninputs:\n  env:\n    type: choice\nsteps:\n  - id: s\n    run:\n      command: ls\n";
    let s = schema("1", "x", vec![("env", input("choice", None, false))], vec![step("s", "ls")]);
    let f = findings(text, &s);
    assert_eq!(f.len(), 1);
    assert!(matches!(&f[0], ValidationError::ChoiceRequiresOptions { input_name, .. } if input_name == "env"));
}

#[test]
fn options_only_for_choice() {
    let text = "version: \"1\"\nname: x\ninputs:\n  who:\n    type: string\n    options: [a, b]\nsteps:\n  - id: s\n    run:\n      command: ls\n";
    let s = schema("1", "x", vec![("who", input("string", Some(vec!["a", "b"]), false))], vec![step("s", "ls")]);
    let f = findings(text, &s);
    assert_eq!(f.len(), 1);
    match &f[0] {
        ValidationError::OptionsOnlyForChoice { span, input_type, .. } => {
            assert_eq!(input_type, "string");
            assert_eq!(&text[span.offset - 7..span.offset + 1], "options:");
        }
        other => panic!("unexpected {:?}", other),
    }
}

#[test]
fn step_id_empty_and_whitespace() {
    let text = "version: \"1\"\nname: x\nsteps:\n  - id: \"\"\n    run:\n      command: ls\n  - id: \"a b\"\n    run:\n      command: ls\n";
    let s = schema("1", "x", vec![], vec![step("", "ls"), step("a b", "ls")]);
    let f = findings(text, &s);
    assert_eq!(f.len(), 2);
    assert!(matches!(&f[0], ValidationError::StepIdEmpty { index: 0, .. }));
    assert!(matches!(&f[1], ValidationError::StepIdWhitespace { step_id, .. } if step_id == "a b"));
}

#[test]
fn command_and_script_are_exclusive() {
    let text = "version: \"1\"\nname: x\nsteps:\n  - id: s\n    run:\n      command: ls\n      script: a.sh\n";
    let s = schema("1", "x", vec![], vec![step("s", "ls")]);
    let f = findings(text, &s);
    assert_eq!(f.len(), 1);
    match &f[0] {
        ValidationError::StepRunMutuallyExclusive { command_span, script_span, .. } => {
            assert_eq!(&text[command_span.offset - 7..command_span.offset + 1], "command:");
            assert_eq!(&text[script_span.offset - 6..script_span.offset + 1], "script:");
        }
        other => panic!("unexpected {:?}", other),
    }
}

#[test]
fn missing_run_body_is_reported() {
    let text = "version: \"1\"\nname: x\nsteps:\n  - id: s\n    run:\n      shell: bash\n";
    let s = schema("1", "x", vec![], vec![step("s", "ls")]);
    let f = findings(text, &s);
    assert_eq!(f.len(), 1);
    assert!(matches!(&f[0], ValidationError::StepRunMissing { step_id, .. } if step_id == "s"));
}

#[test]
fn findings_without_a_located_field_are_skipped() {
    let s = schema("3", "x", vec![], vec![step("s", "ls")]);
    let text = "name: x\nsteps:\n  - id: s\n    run:\n      command: ls\n";
    assert!(findings(text, &s).is_empty());
}

#[test]
fn nested_lists_do_not_shift_step_items() {
    let text = "version: \"1\"\nname: x\nsteps:\n  - id: a\n    run:\n      command: |\n        - not a step\n      args:\n        - one\n        - two\n  - id: \"b c\"\n    run:\n      command: ls\n      script: x.sh\n";
    let s = schema("1", "x", vec![], vec![step("a", "- not a step"), step("b c", "ls")]);
    let f = findings(text, &s);
    assert_eq!(f.len(), 2);
    match &f[0] {
        ValidationError::StepIdWhitespace { step_id, span } => {
            assert_eq!(step_id, "b c");
            assert_eq!(&text[span.offset - 2..span.offset + 4], "id: \"b");
        }
        other => panic!("unexpected {:?}", other),
    }
    match &f[1] {
        ValidationError::StepRunMutuallyExclusive { step_id, script_span, .. } => {
            assert_eq!(step_id, "b c");
            assert_eq!(&text[script_span.offset - 6..script_span.offset + 1], "script:");
        }
        other => panic!("unexpected {:?}", other),
    }
}

#[test]
fn items_at_the_steps_indentation_are_counted() {
    let text = "version: \"1\"\nname: x\nsteps:\n- id: a\n  run:\n    command: ls\n- id: a\n  run:\n    command: ls\ninputs: {}\n";
    let s = schema("1", "x", vec![], vec![step("a", "ls"), step("a", "ls")]);
    let f = findings(text, &s);
    assert_eq!(f.len(), 1);
    match &f[0] {
        ValidationError::StepIdDuplicate { first_span, second_span, .. } => {
            assert_eq!(first_span.offset, text.find("- id: a").unwrap() + 4);
            assert_eq!(second_span.offset, text.rfind("- id: a").unwrap() + 4);
        }
        other => panic!("unexpected {:?}", other),
    }
}

#[test]
fn unicode_indentation_is_skipped_like_trim_start() {
    let text = "\u{a0}version: \"2\"\nname: x\nsteps:\n  - id: s\n    run:\n      command: ls\n";
    let s = schema("2", "x", vec![], vec![step("s", "ls")]);
    let f = findings(text, &s);
    assert_eq!(f, vec![ValidationError::VersionInvalid { found: "2".to_string(), span: at(9) }]);
    assert_eq!(&text[9..10], ":");
}
