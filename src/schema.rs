//! The data model of a command file.
use vstd::prelude::*;

verus! {

/// One declared parameter of a command, bound to a command-line flag.
#[derive(Debug, Clone, PartialEq, Eq)]
pub struct CommandSchemaInput {
    /// `string`, `choice`, `bool` or `boolean`.
    pub input_type: String,
    pub description: String,
    /// The accepted values of a `choice` input.
    pub options: Option<Vec<String>>,
    pub required: bool,
    pub secret: bool,
    pub short: Option<String>,
    pub long: Option<String>,
    pub default: Option<String>,
}

/// Command-wide execution policy.
#[derive(Debug, Clone, PartialEq, Eq)]
pub struct CommandSchemaConfiguration {
    /// Ask before running any step.
    pub confirm: bool,
    /// Variable assignments, in key order; a value may reference
    /// `@{inputs.X}` and `${NAME}`.
    pub environment: Option<Vec<(String, Option<String>)>>,
    /// May reference `@{inputs.X}`.
    pub working_directory: Option<String>,
}

/// What a step runs: exactly one of the two forms.
#[derive(Debug, Clone, PartialEq, Eq)]
pub enum CommandSchemaStepRunExecution {
    Command { command: String },
    Script { script: String },
}

/// Arguments of a step, carried along but not consumed by execution.
#[derive(Debug, Clone, PartialEq, Eq)]
pub enum CommandSchemaStepRunArgsConfig {
    List(Vec<String>),
    Pairs(Vec<(String, String)>),
}

#[derive(Debug, Clone, PartialEq, Eq)]
pub struct CommandSchemaStepRun {
    /// The shell; the platform's default when absent.
    pub shell: Option<String>,
    /// Overrides the configuration's assignments key by key.
    pub environment: Option<Vec<(String, Option<String>)>>,
    /// Overrides the configuration's working directory.
    pub working_directory: Option<String>,
    pub execution: CommandSchemaStepRunExecution,
    pub args: Option<CommandSchemaStepRunArgsConfig>,
}

/// One unit of sequential execution.
#[derive(Debug, Clone, PartialEq, Eq)]
pub struct CommandSchemaStep {
    pub id: String,
    pub name: Option<String>,
    /// Carried along, never evaluated.
    pub when: Option<String>,
    pub run: CommandSchemaStepRun,
}

/// One parsed command file.
#[derive(Debug, Clone, PartialEq, Eq)]
pub struct CommandSchema {
    pub version: String,
    pub name: String,
    pub description: Option<String>,
    pub usage: Option<String>,
    /// Declared inputs in key order.
    pub inputs: Option<Vec<(String, CommandSchemaInput)>>,
    pub configuration: CommandSchemaConfiguration,
    pub steps: Vec<CommandSchemaStep>,
}

/// `a` sorts before `b`, character by character from `i` on (code-point order,
/// which is also the byte order of their UTF-8 text, as `String`'s `Ord` compares).
pub open spec fn sorts_before_from(a: Seq<char>, b: Seq<char>, i: int) -> bool
    decreases a.len() - i,
{
    if i < 0 || i >= a.len() {
        0 <= i < b.len()
    } else if i >= b.len() {
        false
    } else if a[i] != b[i] {
        (a[i] as u32) < (b[i] as u32)
    } else {
        sorts_before_from(a, b, i + 1)
    }
}

pub open spec fn sorts_before(a: Seq<char>, b: Seq<char>) -> bool {
    sorts_before_from(a, b, 0)
}

/// The keys of an association list are in strictly increasing order, as a
/// sorted map holds them (so no key repeats).
pub open spec fn keys_in_order<V>(entries: Seq<(String, V)>) -> bool {
    forall|i: int| 0 <= i < entries.len() - 1 ==> sorts_before(#[trigger] entries[i].0@, entries[i + 1].0@)
}

pub open spec fn env_in_order(env: Option<Vec<(String, Option<String>)>>) -> bool {
    match env {
        Some(v) => keys_in_order(v@),
        None => true,
    }
}

/// Whether `a` sorts before `b`.
pub fn str_sorts_before(a: &str, b: &str) -> (r: bool)
    ensures
        r == sorts_before(a@, b@),
{
    let x = crate::text::chars_of(a);
    let y = crate::text::chars_of(b);
    let mut i: usize = 0;
    while i < x.len() && i < y.len() && x[i] == y[i]
        invariant
            i <= x@.len(),
            i <= y@.len(),
            x@ == a@,
            y@ == b@,
            sorts_before(a@, b@) == sorts_before_from(a@, b@, i as int),
        decreases x@.len() - i,
    {
        i = i + 1;
    }
    if i >= x.len() {
        i < y.len()
    } else if i >= y.len() {
        false
    } else {
        (x[i] as u32) < (y[i] as u32)
    }
}

fn entries_in_order<V>(entries: &[(String, V)]) -> (r: bool)
    ensures
        r == keys_in_order(entries@),
{
    if entries.len() == 0 {
        return true;
    }
    let mut i: usize = 0;
    while i < entries.len() - 1
        invariant
            entries@.len() > 0,
            forall|k: int| 0 <= k < i && k < entries@.len() - 1 ==> sorts_before(#[trigger] entries@[k].0@, entries@[k + 1].0@),
        decreases entries@.len() - i,
    {
        if !str_sorts_before(entries[i].0.as_str(), entries[i + 1].0.as_str()) {
            return false;
        }
        i = i + 1;
    }
    true
}

fn env_entries_in_order(env: &Option<Vec<(String, Option<String>)>>) -> (r: bool)
    ensures
        r == env_in_order(*env),
{
    match env {
        Some(v) => entries_in_order(v.as_slice()),
        None => true,
    }
}

/// The declared inputs, none when the file declares none.
pub open spec fn input_entries(schema: CommandSchema) -> Seq<(String, CommandSchemaInput)> {
    match schema.inputs {
        Some(v) => v@,
        None => Seq::empty(),
    }
}

impl CommandSchema {
    /// Every map-shaped field lists its entries in key order, each key once.
    pub open spec fn wf(&self) -> bool {
        &&& keys_in_order(input_entries(*self))
        &&& env_in_order(self.configuration.environment)
        &&& forall|j: int| 0 <= j < self.steps@.len() ==> env_in_order(#[trigger] self.steps@[j].run.environment)
    }

    /// Whether the schema is well formed (see `wf`).
    pub fn is_wf(&self) -> (r: bool)
        ensures
            r == self.wf(),
    {
        if !entries_in_order(self.input_list()) || !env_entries_in_order(&self.configuration.environment) {
            return false;
        }
        let mut j: usize = 0;
        while j < self.steps.len()
            invariant
                j <= self.steps@.len(),
                forall|k: int| 0 <= k < j ==> env_in_order(#[trigger] self.steps@[k].run.environment),
            decreases self.steps@.len() - j,
        {
            if !env_entries_in_order(&self.steps[j].run.environment) {
                return false;
            }
            j = j + 1;
        }
        true
    }

    /// The declared inputs, empty when the file declares none.
    pub fn input_list(&self) -> (r: &[(String, CommandSchemaInput)])
        ensures
            r@ == input_entries(*self),
    {
        match &self.inputs {
            Some(v) => v.as_slice(),
            None => &[],
        }
    }
}

} // verus!
