//! Execution of a validated command as a state machine: the coordinator
//! decides, the caller performs each action (prompt, directory checks,
//! process spawns) and reports back what happened.
use vstd::prelude::*;
use vstd::string::*;
use vstd::utf8::encode_utf8;
use crate::context::ExecutionContext;
use crate::errors::Span;
use crate::resolver::{
    CliMatches,
    input_value,
    input_value_of,
    opt_view,
    pairs_view,
    resolve_environment,
    resolve_environment_variables,
    resolve_input_variables,
    resolve_text,
};
use crate::scan::{find_nested_field_span, find_step_field_span, nested_span, opt_int, path_view, step_field_span};
use crate::schema::{CommandSchemaInput, CommandSchemaStep, CommandSchemaStepRunExecution, input_entries};
use crate::text::{str_eq, trim_str, trimmed};

verus! {

/// The upper-case form of a string, as `str::to_uppercase` gives it.
pub uninterp spec fn upper_of(s: Seq<char>) -> Seq<char>;

/// Relies on `str::to_uppercase`: the result depends on the characters alone.
#[verifier::external_body]
fn to_upper(s: &str) -> (r: String)
    ensures
        r@ == upper_of(s@),
{
    s.to_uppercase()
}

/// The lower-case form of a string, as `str::to_lowercase` gives it.
pub uninterp spec fn lower_of(s: Seq<char>) -> Seq<char>;

/// Relies on `str::to_lowercase`: the result depends on the characters alone.
#[verifier::external_body]
fn to_lower(s: &str) -> (r: String)
    ensures
        r@ == lower_of(s@),
{
    s.to_lowercase()
}

/// A working directory to check before any step runs.
#[derive(Debug, Clone, PartialEq, Eq)]
pub struct DirectoryCheck {
    /// The step that sets it; `None` for the configuration's.
    pub step_id: Option<String>,
    /// As written in the file.
    pub raw: String,
    /// With input references resolved: the path to check.
    pub resolved: String,
    /// Where the `working_directory:` field is written.
    pub span: Option<Span>,
}

/// One process to spawn for a step.
#[derive(Debug, Clone, PartialEq, Eq)]
pub struct StepInvocation {
    pub program: String,
    pub args: Vec<String>,
    /// For a `script:` step, the script's file name with input references
    /// resolved; it is run from the scripts directory, after `args`.
    pub script: Option<String>,
    pub working_directory: Option<String>,
    /// Variables to set, in order: a later entry overrides an earlier one
    /// with the same key.
    pub environment: Vec<(String, String)>,
}

/// How a run ended.
#[derive(Debug, Clone, PartialEq, Eq)]
pub enum RunOutcome {
    Completed,
    /// Confirmation was declined: nothing ran, and that is no failure.
    Cancelled,
    /// Every working directory that does not exist; no step ran.
    InvalidWorkingDirectories(Vec<DirectoryCheck>),
    /// The first step that exited non-zero; no later step ran.
    StepFailed { step_id: String, exit_code: i32 },
    /// The answer to the confirmation could not be read; nothing ran.
    ConfirmationUnreadable,
}

#[derive(Debug, Clone, Copy, PartialEq, Eq)]
pub enum RunPhase {
    Start,
    Confirming,
    CheckingDirectories,
    Running(usize),
    Finished,
}

/// What the caller reports back.
#[derive(Debug, Clone, PartialEq, Eq)]
pub enum RunEvent {
    Begin,
    Confirmed(bool),
    /// The answer to the confirmation could not be read.
    ConfirmationFailed,
    /// For each check asked for, in order, whether the directory exists.
    DirectoriesChecked(Vec<bool>),
    StepExited(i32),
}

/// What the caller is to do next.
#[derive(Debug, Clone, PartialEq, Eq)]
pub enum RunAction {
    AskConfirmation,
    CheckDirectories(Vec<DirectoryCheck>),
    Spawn(usize, StepInvocation),
    Finish(RunOutcome),
}

// ---------------------------------------------------------------------------
// Shells
pub open spec fn default_shell(windows: bool) -> Seq<char> {
    if windows {
        "powershell"@
    } else {
        "bash"@
    }
}

pub open spec fn step_shell(windows: bool, step: CommandSchemaStep) -> Seq<char> {
    match step.run.shell {
        Some(s) => s@,
        None => default_shell(windows),
    }
}

/// The flag that makes a shell run a command string.
pub open spec fn shell_flag(shell: Seq<char>) -> Seq<char> {
    if shell == "bash"@ || shell == "sh"@ || shell == "zsh"@ || shell == "fish"@ {
        "-c"@
    } else if shell == "powershell"@ || shell == "pwsh"@ {
        "-Command"@
    } else if shell == "cmd"@ {
        "/c"@
    } else {
        "-c"@
    }
}

pub fn shell_flag_of(shell: &str) -> (r: &'static str)
    ensures
        r@ == shell_flag(shell@),
{
    if str_eq(shell, "bash") || str_eq(shell, "sh") || str_eq(shell, "zsh") || str_eq(shell, "fish") {
        "-c"
    } else if str_eq(shell, "powershell") || str_eq(shell, "pwsh") {
        "-Command"
    } else if str_eq(shell, "cmd") {
        "/c"
    } else {
        "-c"
    }
}

// ---------------------------------------------------------------------------
// Confirmation
pub open spec fn is_yes(s: Seq<char>) -> bool {
    s == "y"@ || s == "yes"@ || s == "true"@ || s == "1"@
}

pub open spec fn is_no(s: Seq<char>) -> bool {
    s == "n"@ || s == "no"@ || s == "false"@ || s == "0"@
}

/// A piped answer to the confirmation, trimmed and lower-cased: `Some(true)`
/// to proceed, `Some(false)` to cancel, `None` for anything else (which
/// cancels too, with a warning).
pub fn classify_reply(lowered: &str) -> (r: Option<bool>)
    ensures
        r == (if is_yes(lowered@) {
            Some(true)
        } else if is_no(lowered@) {
            Some(false)
        } else {
            None
        }),
{
    if str_eq(lowered, "y") || str_eq(lowered, "yes") || str_eq(lowered, "true") || str_eq(lowered, "1") {
        Some(true)
    } else if str_eq(lowered, "n") || str_eq(lowered, "no") || str_eq(lowered, "false") || str_eq(lowered, "0") {
        Some(false)
    } else {
        None
    }
}

/// The decision on a raw piped line: trimmed, lower-cased, then classified
/// as `classify_reply` does.
pub open spec fn reply_decision(line: Seq<char>) -> Option<bool> {
    let a = lower_of(trimmed(line));
    if is_yes(a) {
        Some(true)
    } else if is_no(a) {
        Some(false)
    } else {
        None
    }
}

/// Reads a piped answer to the confirmation (one raw line of input).
pub fn confirmation_reply(line: &str) -> (r: Option<bool>)
    ensures
        r == reply_decision(line@),
{
    let t = trim_str(line);
    let lowered = to_lower(t.as_str());
    classify_reply(lowered.as_str())
}

// ---------------------------------------------------------------------------
// Context-derived values
pub open spec fn ctx_inputs(ctx: ExecutionContext) -> Seq<(String, CommandSchemaInput)> {
    input_entries(ctx.command)
}

pub open spec fn ctx_cli(ctx: ExecutionContext) -> Seq<(String, Option<String>)> {
    ctx.matches.supplied@
}

pub open spec fn ctx_text(ctx: ExecutionContext) -> Seq<u8> {
    encode_utf8(ctx.source_text@)
}

pub open spec fn wd_key() -> Seq<u8> {
    "working_directory".spec_bytes()
}

pub open spec fn config_wd_path() -> Seq<Seq<u8>> {
    seq!["configuration".spec_bytes(), wd_key()]
}

pub open spec fn span_opt(c: Option<int>) -> Option<Span> {
    match c {
        Some(c) => Some(Span { offset: c as usize, length: 1 }),
        None => None,
    }
}

/// `d` checks the working directory `raw` set by `step_id`, anchored at `c`.
pub open spec fn check_ok(ctx: ExecutionContext, d: DirectoryCheck, step_id: Option<String>, raw: String, c: Option<int>) -> bool {
    &&& d.step_id == step_id
    &&& d.raw == raw
    &&& d.resolved@ == resolve_text(raw@, ctx_inputs(ctx), ctx_cli(ctx))
    &&& d.span == span_opt(c)
}

/// The checks of the steps before `n` that set a working directory, in order.
pub open spec fn step_checks_ok(ctx: ExecutionContext, checks: Seq<DirectoryCheck>, n: int) -> bool
    decreases n,
{
    if n <= 0 {
        checks.len() == 0
    } else {
        let step = ctx.command.steps@[n - 1];
        match step.run.working_directory {
            None => step_checks_ok(ctx, checks, n - 1),
            Some(w) => checks.len() > 0 && step_checks_ok(ctx, checks.drop_last(), n - 1) && check_ok(
                ctx,
                checks.last(),
                Some(step.id),
                w,
                step_field_span(ctx_text(ctx), (n - 1) as nat, wd_key()),
            ),
        }
    }
}

/// The configuration's working directory first, if set, then each step's.
pub open spec fn checks_ok(ctx: ExecutionContext, checks: Seq<DirectoryCheck>) -> bool {
    match ctx.command.configuration.working_directory {
        None => step_checks_ok(ctx, checks, ctx.command.steps@.len() as int),
        Some(w) => checks.len() > 0 && check_ok(
            ctx,
            checks[0],
            None,
            w,
            nested_span(ctx_text(ctx), config_wd_path()),
        ) && step_checks_ok(ctx, checks.drop_first(), ctx.command.steps@.len() as int),
    }
}

/// The checks whose directory does not exist, in order.
pub open spec fn missing_upto(checks: Seq<DirectoryCheck>, exists: Seq<bool>, n: int) -> Seq<DirectoryCheck>
    decreases n,
{
    if n <= 0 {
        seq![]
    } else if exists[n - 1] {
        missing_upto(checks, exists, n - 1)
    } else {
        missing_upto(checks, exists, n - 1).push(checks[n - 1])
    }
}

/// One `MICI_INPUT_<NAME>` variable per declared input (its name upper-cased),
/// in key order, valued as `@{inputs.<name>}` would be.
pub open spec fn input_env_upto(
    inputs: Seq<(String, CommandSchemaInput)>,
    cli: Seq<(String, Option<String>)>,
    n: int,
) -> Seq<(Seq<char>, Seq<char>)>
    decreases n,
{
    if n <= 0 {
        seq![]
    } else {
        input_env_upto(inputs, cli, n - 1).push(
            ("MICI_INPUT_"@ + upper_of(inputs[n - 1].0@), input_value(inputs, cli, inputs[n - 1].0@)),
        )
    }
}

pub open spec fn block_env(ctx: ExecutionContext, block: Option<Vec<(String, Option<String>)>>) -> Seq<
    (Seq<char>, Seq<char>),
> {
    match block {
        Some(b) => resolve_environment(b@, ctx_inputs(ctx), ctx_cli(ctx), ctx.os_environment@),
        None => seq![],
    }
}

/// The variables of step `j`: the configuration's block, then the step's
/// (overriding it key by key), then the input variables.
pub open spec fn step_env(ctx: ExecutionContext, j: int) -> Seq<(Seq<char>, Seq<char>)> {
    let inputs = ctx_inputs(ctx);
    block_env(ctx, ctx.command.configuration.environment) + block_env(
        ctx,
        ctx.command.steps@[j].run.environment,
    ) + input_env_upto(inputs, ctx_cli(ctx), inputs.len() as int)
}

/// The working directory of step `j`: its own, else the configuration's,
/// with input references resolved.
pub open spec fn step_wd(ctx: ExecutionContext, j: int) -> Option<Seq<char>> {
    let w = match ctx.command.steps@[j].run.working_directory {
        Some(w) => Some(w),
        None => ctx.command.configuration.working_directory,
    };
    match w {
        Some(w) => Some(resolve_text(w@, ctx_inputs(ctx), ctx_cli(ctx))),
        None => None,
    }
}

/// `inv` is the process for step `j`.
pub open spec fn invocation_ok(ctx: ExecutionContext, j: int, inv: StepInvocation) -> bool {
    let step = ctx.command.steps@[j];
    let shell = step_shell(ctx.windows, step);
    let inputs = ctx_inputs(ctx);
    let cli = ctx_cli(ctx);
    &&& inv.program@ == shell
    &&& match step.run.execution {
        CommandSchemaStepRunExecution::Command { command } => {
            &&& inv.args@.len() == 2
            &&& inv.args@[0]@ == shell_flag(shell)
            &&& inv.args@[1]@ == resolve_text(command@, inputs, cli)
            &&& inv.script is None
        },
        CommandSchemaStepRunExecution::Script { script } => {
            &&& inv.args@.len() == 0
            &&& opt_view(inv.script) == Some(resolve_text(script@, inputs, cli))
        },
    }
    &&& opt_view(inv.working_directory) == step_wd(ctx, j)
    &&& pairs_view(inv.environment@) == step_env(ctx, j)
}

fn copy_string_opt(o: &Option<String>) -> (r: Option<String>)
    ensures
        r == *o,
{
    match o {
        Some(s) => Some(s.clone()),
        None => None,
    }
}

fn copy_check(d: &DirectoryCheck) -> (r: DirectoryCheck)
    ensures
        r == *d,
{
    DirectoryCheck {
        step_id: copy_string_opt(&d.step_id),
        raw: d.raw.clone(),
        resolved: d.resolved.clone(),
        span: d.span,
    }
}

fn copy_checks(v: &Vec<DirectoryCheck>) -> (r: Vec<DirectoryCheck>)
    ensures
        r@ == v@,
{
    let mut out: Vec<DirectoryCheck> = Vec::new();
    let mut i: usize = 0;
    while i < v.len()
        invariant
            i <= v@.len(),
            out@ == v@.subrange(0, i as int),
        decreases v@.len() - i,
    {
        out.push(copy_check(&v[i]));
        i = i + 1;
        assert(out@ =~= v@.subrange(0, i as int));
    }
    assert(v@.subrange(0, v@.len() as int) =~= v@);
    out
}

fn span_opt_of(c: Option<usize>) -> (r: Option<Span>)
    ensures
        r == span_opt(opt_int(c)),
{
    match c {
        Some(c) => Some(Span { offset: c, length: 1 }),
        None => None,
    }
}

fn make_check(ctx: &ExecutionContext, step_id: Option<String>, raw: &String, c: Option<usize>) -> (r: DirectoryCheck)
    ensures
        check_ok(*ctx, r, step_id, *raw, opt_int(c)),
{
    let resolved = resolve_input_variables(raw.as_str(), ctx.command.input_list(), &ctx.matches);
    DirectoryCheck { step_id, raw: raw.clone(), resolved, span: span_opt_of(c) }
}

proof fn lemma_step_checks_prefix(ctx: ExecutionContext, pre: Seq<DirectoryCheck>, checks: Seq<DirectoryCheck>, n: int)
    requires
        step_checks_ok(ctx, checks, n),
    ensures
        checks_ok(ctx, pre + checks) <== (match ctx.command.configuration.working_directory {
            None => pre.len() == 0,
            Some(w) => pre.len() == 1 && check_ok(ctx, pre[0], None, w, nested_span(ctx_text(ctx), config_wd_path())),
        } && n == ctx.command.steps@.len()),
{
    if ctx.command.configuration.working_directory is Some && pre.len() == 1 {
        assert((pre + checks).drop_first() =~= checks);
    }
    if pre.len() == 0 {
        assert(pre + checks =~= checks);
    }
}

/// Every working directory of the command, resolved, in the order the file
/// sets them: the configuration's, then each step's.
pub fn directory_checks(ctx: &ExecutionContext) -> (r: Vec<DirectoryCheck>)
    ensures
        checks_ok(*ctx, r@),
{
    let t = ctx.source_text.as_str().as_bytes();
    let mut pre: Vec<DirectoryCheck> = Vec::new();
    match &ctx.command.configuration.working_directory {
        Some(w) => {
            let mut path: Vec<Vec<u8>> = Vec::new();
            path.push("configuration".as_bytes_vec());
            path.push("working_directory".as_bytes_vec());
            assert(path_view(path@) =~= config_wd_path());
            let c = find_nested_field_span(t, &path);
            pre.push(make_check(ctx, None, w, c));
        },
        None => {},
    }
    let steps = &ctx.command.steps;
    let mut checks: Vec<DirectoryCheck> = Vec::new();
    let mut j: usize = 0;
    while j < steps.len()
        invariant
            j <= steps@.len(),
            steps == &ctx.command.steps,
            t@ == ctx_text(*ctx),
            step_checks_ok(*ctx, checks@, j as int),
        decreases steps@.len() - j,
    {
        match &steps[j].run.working_directory {
            Some(w) => {
                let c = find_step_field_span(t, j, "working_directory".as_bytes());
                let d = make_check(ctx, Some(steps[j].id.clone()), w, c);
                let ghost before = checks@;
                checks.push(d);
                assert(checks@.drop_last() =~= before);
            },
            None => {},
        }
        j = j + 1;
    }
    proof {
        lemma_step_checks_prefix(*ctx, pre@, checks@, steps@.len() as int);
    }
    pre.append(&mut checks);
    pre
}

/// The checks whose directory does not exist, in order.
pub fn missing_directories(checks: &Vec<DirectoryCheck>, exists: &Vec<bool>) -> (r: Vec<DirectoryCheck>)
    requires
        exists@.len() == checks@.len(),
    ensures
        r@ == missing_upto(checks@, exists@, checks@.len() as int),
{
    let mut out: Vec<DirectoryCheck> = Vec::new();
    let mut i: usize = 0;
    while i < checks.len()
        invariant
            i <= checks@.len(),
            exists@.len() == checks@.len(),
            out@ == missing_upto(checks@, exists@, i as int),
        decreases checks@.len() - i,
    {
        if !exists[i] {
            out.push(copy_check(&checks[i]));
        }
        i = i + 1;
    }
    out
}

fn input_env(inputs: &[(String, CommandSchemaInput)], matches: &CliMatches) -> (r: Vec<(String, String)>)
    ensures
        pairs_view(r@) == input_env_upto(inputs@, matches.supplied@, inputs@.len() as int),
{
    let mut out: Vec<(String, String)> = Vec::new();
    let mut i: usize = 0;
    assert(pairs_view(out@) =~= seq![]);
    while i < inputs.len()
        invariant
            i <= inputs@.len(),
            pairs_view(out@) == input_env_upto(inputs@, matches.supplied@, i as int),
        decreases inputs@.len() - i,
    {
        let mut key = String::from_str("MICI_INPUT_");
        let upper = to_upper(inputs[i].0.as_str());
        key.append(upper.as_str());
        let value = input_value_of(inputs, matches, &inputs[i].0);
        let ghost before = out@;
        out.push((key, value));
        assert(pairs_view(out@) =~= pairs_view(before).push((key@, value@)));
        i = i + 1;
    }
    out
}

fn block_env_of(ctx: &ExecutionContext, block: &Option<Vec<(String, Option<String>)>>) -> (r: Vec<(String, String)>)
    ensures
        pairs_view(r@) == block_env(*ctx, *block),
{
    match block {
        Some(b) => resolve_environment_variables(
            b.as_slice(),
            ctx.command.input_list(),
            &ctx.matches,
            ctx.os_environment.as_slice(),
        ),
        None => {
            let v: Vec<(String, String)> = Vec::new();
            assert(pairs_view(v@) =~= seq![]);
            v
        },
    }
}

/// The process that runs step `j`.
pub fn step_invocation(ctx: &ExecutionContext, j: usize) -> (r: StepInvocation)
    requires
        j < ctx.command.steps@.len(),
    ensures
        invocation_ok(*ctx, j as int, r),
{
    let step = &ctx.command.steps[j];
    let inputs = ctx.command.input_list();
    let program = match &step.run.shell {
        Some(s) => s.clone(),
        None => if ctx.windows {
            String::from_str("powershell")
        } else {
            String::from_str("bash")
        },
    };
    let mut args: Vec<String> = Vec::new();
    let script = match &step.run.execution {
        CommandSchemaStepRunExecution::Command { command } => {
            args.push(String::from_str(shell_flag_of(program.as_str())));
            args.push(resolve_input_variables(command.as_str(), inputs, &ctx.matches));
            None
        },
        CommandSchemaStepRunExecution::Script { script } => {
            Some(resolve_input_variables(script.as_str(), inputs, &ctx.matches))
        },
    };
    let wd_raw = match &step.run.working_directory {
        Some(w) => Some(w),
        None => ctx.command.configuration.working_directory.as_ref(),
    };
    let working_directory = match wd_raw {
        Some(w) => Some(resolve_input_variables(w.as_str(), inputs, &ctx.matches)),
        None => None,
    };
    let mut environment = block_env_of(ctx, &ctx.command.configuration.environment);
    let mut step_vars = block_env_of(ctx, &step.run.environment);
    let mut input_vars = input_env(inputs, &ctx.matches);
    let ghost e1 = environment@;
    let ghost e2 = step_vars@;
    let ghost e3 = input_vars@;
    environment.append(&mut step_vars);
    environment.append(&mut input_vars);
    assert(environment@ == e1 + e2 + e3);
    assert(pairs_view(environment@) =~= pairs_view(e1) + pairs_view(e2) + pairs_view(e3));
    StepInvocation { program, args, script, working_directory, environment }
}

// ---------------------------------------------------------------------------
// The state machine
/// Runs one command: confirm, check every working directory, then the steps
/// in order, stopping at the first that fails.
pub struct Coordinator {
    pub context: ExecutionContext,
    pub phase: RunPhase,
    /// The checks last asked for.
    pub checks: Vec<DirectoryCheck>,
}

/// `event` is what the caller reports in `phase`, after `n_checks` checks were asked for.
pub open spec fn accepts(phase: RunPhase, event: RunEvent, n_checks: int) -> bool {
    match (phase, event) {
        (RunPhase::Start, RunEvent::Begin) => true,
        (RunPhase::Confirming, RunEvent::Confirmed(_)) => true,
        (RunPhase::Confirming, RunEvent::ConfirmationFailed) => true,
        (RunPhase::CheckingDirectories, RunEvent::DirectoriesChecked(v)) => v@.len() == n_checks,
        (RunPhase::Running(_), RunEvent::StepExited(_)) => true,
        _ => false,
    }
}

/// The directory checks were asked for.
pub open spec fn checks_started(ctx: ExecutionContext, s: Coordinator, a: RunAction) -> bool {
    &&& s.phase == RunPhase::CheckingDirectories
    &&& a matches RunAction::CheckDirectories(c) && checks_ok(ctx, c@) && s.checks@ == c@
}

/// Step `j` was spawned, or the run completed when there is none.
pub open spec fn step_started(ctx: ExecutionContext, s: Coordinator, a: RunAction, j: int) -> bool {
    if j < ctx.command.steps@.len() {
        &&& s.phase == RunPhase::Running(j as usize)
        &&& a matches RunAction::Spawn(k, inv) && k == j && invocation_ok(ctx, j, inv)
    } else {
        s.phase == RunPhase::Finished && a == RunAction::Finish(RunOutcome::Completed)
    }
}

/// The process exit code for a run that ended so: zero for success and for a
/// declined confirmation, the failing step's own code, one otherwise (missing
/// directories, an unreadable confirmation).
pub open spec fn outcome_code(o: RunOutcome) -> i32 {
    match o {
        RunOutcome::Completed => 0,
        RunOutcome::Cancelled => 0,
        RunOutcome::InvalidWorkingDirectories(_) => 1,
        RunOutcome::StepFailed { exit_code, .. } => exit_code,
        RunOutcome::ConfirmationUnreadable => 1,
    }
}

impl RunOutcome {
    pub fn exit_code(&self) -> (r: i32)
        ensures
            r == outcome_code(*self),
    {
        match self {
            RunOutcome::Completed => 0,
            RunOutcome::Cancelled => 0,
            RunOutcome::InvalidWorkingDirectories(_) => 1,
            RunOutcome::StepFailed { exit_code, .. } => *exit_code,
            RunOutcome::ConfirmationUnreadable => 1,
        }
    }
}

impl Coordinator {
    pub open spec fn wf(&self) -> bool {
        &&& self.context.command.wf()
        &&& self.phase matches RunPhase::Running(i) ==> i < self.context.command.steps@.len()
    }

    pub fn with_context(context: ExecutionContext) -> (r: Self)
        requires
            context.command.wf(),
        ensures
            r.context == context,
            r.phase == RunPhase::Start,
            r.wf(),
    {
        Coordinator { context, phase: RunPhase::Start, checks: Vec::new() }
    }

    fn start_checks(&mut self) -> (a: RunAction)
        requires
            old(self).context.command.wf(),
        ensures
            final(self).context == old(self).context,
            final(self).wf(),
            checks_started(old(self).context, *final(self), a),
    {
        let checks = directory_checks(&self.context);
        self.checks = copy_checks(&checks);
        self.phase = RunPhase::CheckingDirectories;
        RunAction::CheckDirectories(checks)
    }

    fn start_step(&mut self, j: usize) -> (a: RunAction)
        requires
            old(self).context.command.wf(),
        ensures
            final(self).context == old(self).context,
            final(self).checks == old(self).checks,
            final(self).wf(),
            step_started(old(self).context, *final(self), a, j as int),
    {
        if j < self.context.command.steps.len() {
            let inv = step_invocation(&self.context, j);
            self.phase = RunPhase::Running(j);
            RunAction::Spawn(j, inv)
        } else {
            self.phase = RunPhase::Finished;
            RunAction::Finish(RunOutcome::Completed)
        }
    }

    /// Takes what the caller reports and says what to do next. No step is
    /// spawned before every working directory was found to exist, and none
    /// after a step exits non-zero: the run then finishes with that step's
    /// id and exit code.
    pub fn advance(&mut self, event: RunEvent) -> (a: RunAction)
        requires
            old(self).wf(),
            accepts(old(self).phase, event, old(self).checks@.len() as int),
        ensures
            final(self).context == old(self).context,
            final(self).wf(),
            ({
                let ctx = old(self).context;
                let s = *final(self);
                match (old(self).phase, event) {
                    (RunPhase::Start, RunEvent::Begin) => if ctx.command.configuration.confirm {
                        s.phase == RunPhase::Confirming && a == RunAction::AskConfirmation
                    } else {
                        checks_started(ctx, s, a)
                    },
                    (RunPhase::Confirming, RunEvent::Confirmed(yes)) => if yes {
                        checks_started(ctx, s, a)
                    } else {
                        s.phase == RunPhase::Finished && a == RunAction::Finish(RunOutcome::Cancelled)
                    },
                    (RunPhase::Confirming, RunEvent::ConfirmationFailed) => {
                        s.phase == RunPhase::Finished && a == RunAction::Finish(RunOutcome::ConfirmationUnreadable)
                    },
                    (RunPhase::CheckingDirectories, RunEvent::DirectoriesChecked(exists)) => {
                        let missing = missing_upto(old(self).checks@, exists@, exists@.len() as int);
                        if missing.len() > 0 {
                            &&& s.phase == RunPhase::Finished
                            &&& a matches RunAction::Finish(RunOutcome::InvalidWorkingDirectories(m)) && m@ == missing
                        } else {
                            step_started(ctx, s, a, 0)
                        }
                    },
                    (RunPhase::Running(i), RunEvent::StepExited(code)) => if code != 0 {
                        &&& s.phase == RunPhase::Finished
                        &&& a == RunAction::Finish(
                            RunOutcome::StepFailed { step_id: ctx.command.steps@[i as int].id, exit_code: code },
                        )
                    } else {
                        step_started(ctx, s, a, i + 1)
                    },
                    _ => false,
                }
            }),
    {
        match event {
            RunEvent::Begin => {
                if self.context.command.configuration.confirm {
                    self.phase = RunPhase::Confirming;
                    RunAction::AskConfirmation
                } else {
                    self.start_checks()
                }
            },
            RunEvent::Confirmed(yes) => {
                if yes {
                    self.start_checks()
                } else {
                    self.phase = RunPhase::Finished;
                    RunAction::Finish(RunOutcome::Cancelled)
                }
            },
            RunEvent::ConfirmationFailed => {
                self.phase = RunPhase::Finished;
                RunAction::Finish(RunOutcome::ConfirmationUnreadable)
            },
            RunEvent::DirectoriesChecked(exists) => {
                let missing = missing_directories(&self.checks, &exists);
                if missing.len() > 0 {
                    self.phase = RunPhase::Finished;
                    RunAction::Finish(RunOutcome::InvalidWorkingDirectories(missing))
                } else {
                    self.start_step(0)
                }
            },
            RunEvent::StepExited(code) => {
                let n = self.context.command.steps.len();
                let i = match self.phase {
                    RunPhase::Running(i) => i,
                    _ => 0,
                };
                if code != 0 {
                    self.phase = RunPhase::Finished;
                    RunAction::Finish(
                        RunOutcome::StepFailed { step_id: self.context.command.steps[i].id.clone(), exit_code: code },
                    )
                } else {
                    assert(i < n);
                    self.start_step(i + 1)
                }
            },
        }
    }
}

} // verus!
