use mici::resolver::{resolve_environment_variables, resolve_input_variables, CliMatches};
use mici::schema::CommandSchemaInput;

fn input(ty: &str, default: Option<&str>) -> CommandSchemaInput {
    CommandSchemaInput {
        input_type: ty.to_string(),
        description: "d".to_string(),
        options: None,
        required: false,
        secret: false,
        short: None,
        long: None,
        default: default.map(|s| s.to_string()),
    }
}

fn inputs(v: Vec<(&str, CommandSchemaInput)>) -> Vec<(String, CommandSchemaInput)> {
    v.into_iter().map(|(k, i)| (k.to_string(), i)).collect()
}

fn cli(v: Vec<(&str, Option<&str>)>) -> CliMatches {
    CliMatches { supplied: v.into_iter().map(|(k, x)| (k.to_string(), x.map(|s| s.to_string()))).collect() }
}

fn env(v: Vec<(&str, Option<&str>)>) -> Vec<(String, Option<String>)> {
    v.into_iter().map(|(k, x)| (k.to_string(), x.map(|s| s.to_string()))).collect()
}

fn pairs(v: Vec<(&str, &str)>) -> Vec<(String, String)> {
    v.into_iter().map(|(k, x)| (k.to_string(), x.to_string())).collect()
}

#[test]
fn resolve_text_uses_default() {
    let ins = inputs(vec![("name", input("string", Some("World")))]);
    let r = resolve_input_variables("Hello, @{inputs.name}!", &ins, &cli(vec![]));
    assert_eq!(r, "Hello, World!");
}

#[test]
fn resolve_text_prefers_command_line_value() {
    let ins = inputs(vec![("name", input("string", Some("World")))]);
    let r = resolve_input_variables("Hello, @{inputs.name}!", &ins, &cli(vec![("name", Some("Rust"))]));
    assert_eq!(r, "Hello, Rust!");
}

#[test]
fn resolve_text_unknown_input_is_empty() {
    let ins = inputs(vec![("name", input("string", Some("World")))]);
    let r = resolve_input_variables("[@{inputs.nonexistent}]", &ins, &cli(vec![]));
    assert_eq!(r, "[]");
}

#[test]
fn resolve_text_without_inputs_is_unchanged() {
    let ins = inputs(vec![("name", input("string", Some("World")))]);
    let text = "echo ${HOME} @{other} @{inputs.} $ { }";
    let once = resolve_input_variables(text, &ins, &cli(vec![]));
    assert_eq!(once, text);
    assert_eq!(resolve_input_variables(&once, &ins, &cli(vec![])), once);
}

#[test]
fn resolve_text_boolean_inputs() {
    let ins = inputs(vec![("force", input("boolean", None)), ("dry", input("bool", Some("maybe")))]);
    let text = "@{inputs.force}/@{inputs.dry}";
    assert_eq!(resolve_input_variables(text, &ins, &cli(vec![])), "false/maybe");
    assert_eq!(resolve_input_variables(text, &ins, &cli(vec![("force", None), ("dry", None)])), "true/true");
}

#[test]
fn resolve_text_non_ascii_text() {
    let ins = inputs(vec![("target", input("string", None))]);
    let r = resolve_input_variables("héllo @{inputs.target} ✓", &ins, &cli(vec![("target", Some("wörld"))]));
    assert_eq!(r, "héllo wörld ✓");
}

#[test]
fn environment_plain_values_pass_through() {
    let r = resolve_environment_variables(&env(vec![("A", Some("one")), ("B", None)]), &[], &cli(vec![]), &[]);
    assert_eq!(r, pairs(vec![("A", "one")]));
}

#[test]
fn environment_references_other_entries_both_ways() {
    let block = env(vec![("A", Some("${B}-a")), ("B", Some("b")), ("C", Some("${A}-c"))]);
    let r = resolve_environment_variables(&block, &[], &cli(vec![]), &[]);
    assert_eq!(r, pairs(vec![("A", "b-a"), ("B", "b"), ("C", "b-a-c")]));
}

#[test]
fn environment_falls_back_to_os() {
    let os = pairs(vec![("HOME", "/home/u")]);
    let block = env(vec![("H", Some("${HOME}/x")), ("U", Some("${UNSET_VAR}!"))]);
    let r = resolve_environment_variables(&block, &[], &cli(vec![]), &os);
    assert_eq!(r, pairs(vec![("H", "/home/u/x"), ("U", "!")]));
}

#[test]
fn environment_cycle_falls_back_to_os() {
    let os = pairs(vec![("A", "os-a")]);
    let block = env(vec![("A", Some("${B}")), ("B", Some("${A}"))]);
    let r = resolve_environment_variables(&block, &[], &cli(vec![]), &os);
    assert_eq!(r, pairs(vec![("A", ""), ("B", "os-a")]));
    for (_, v) in &r {
        assert!(!v.contains("${") && !v.contains("@{"));
    }
}

#[test]
fn environment_substitutes_inputs() {
    let ins = inputs(vec![("target", input("string", Some("prod")))]);
    let block = env(vec![("T", Some("to-@{inputs.target}")), ("U", Some("${T}!"))]);
    let r = resolve_environment_variables(&block, &ins, &cli(vec![("target", Some("dev"))]), &[]);
    assert_eq!(r, pairs(vec![("T", "to-dev"), ("U", "to-dev!")]));
}

#[test]
fn environment_chain_longer_than_the_bound_falls_back_to_os() {
    // K00 -> K01 -> ... -> K11 -> K12 = "end"; one link resolves per pass, so
    // after ten passes K00 and K01 are still pending and come from the OS
    // environment (where K02 and K01 are unset).
    let mut v: Vec<(String, Option<String>)> = Vec::new();
    for i in 0..13 {
        let key = format!("K{:02}", i);
        let val = if i == 12 { "end".to_string() } else { format!("${{K{:02}}}", i + 1) };
        v.push((key, Some(val)));
    }
    let r = resolve_environment_variables(&v, &[], &cli(vec![]), &[]);
    assert_eq!(r.len(), 13);
    assert_eq!(r[0].1, "");
    assert_eq!(r[1].1, "");
    for k in 2..13 {
        assert_eq!(r[k].1, "end");
    }
}

#[test]
fn resolve_text_input_names_with_dashes() {
    let ins = inputs(vec![("target-dir", input("string", None))]);
    let r = resolve_input_variables("cd @{inputs.target-dir}", &ins, &cli(vec![("target-dir", Some("/srv"))]));
    assert_eq!(r, "cd /srv");
}

#[test]
fn environment_scans_input_values_for_references() {
    let os = pairs(vec![("HOME", "/home/u")]);
    let ins = inputs(vec![("base", input("string", Some("${HOME}/x")))]);
    let block = env(vec![("P", Some("@{inputs.base}/y")), ("Q", Some("${P}!"))]);
    let r = resolve_environment_variables(&block, &ins, &cli(vec![]), &os);
    assert_eq!(r, pairs(vec![("P", "/home/u/x/y"), ("Q", "/home/u/x/y!")]));
}

#[test]
fn environment_reference_formed_by_an_input_is_resolved() {
    let os = pairs(vec![("A", "from-os")]);
    let ins = inputs(vec![("n", input("string", Some("$")))]);
    let block = env(vec![("A", Some("@{inputs.n}{A}"))]);
    let r = resolve_environment_variables(&block, &ins, &cli(vec![]), &os);
    assert_eq!(r, pairs(vec![("A", "from-os")]));
}
