//! Structural validation of a parsed command file, with each finding anchored
//! at the place in the raw text where the offending field is written.
use vstd::prelude::*;
use vstd::string::*;
use vstd::utf8::encode_utf8;
use crate::errors::{CommandError, Span, ValidationError};
use crate::scan::{
    field_span,
    find_field_span,
    find_nested_field_span,
    find_step_field_span,
    nested_span,
    opt_int,
    path_view,
    step_field_span,
};
use crate::schema::{CommandSchema, CommandSchemaInput, CommandSchemaStep, input_entries};
use crate::text::{has_ws, has_ws_str, is_blank, is_blank_str, str_eq};

verus! {

pub open spec fn span_at(c: int) -> Span {
    Span { offset: c as usize, length: 1 }
}

pub open spec fn valid_version(v: Seq<char>) -> bool {
    v == "1"@ || v == "1.0"@
}

pub open spec fn valid_input_type(ty: Seq<char>) -> bool {
    ty == "string"@ || ty == "choice"@ || ty == "bool"@ || ty == "boolean"@
}

/// The dotted path `inputs.<name>.<field>`.
pub open spec fn input_path(name: Seq<char>, field: Seq<u8>) -> Seq<Seq<u8>> {
    seq!["inputs".spec_bytes(), encode_utf8(name), field]
}

pub open spec fn input_field_span(t: Seq<u8>, name: Seq<char>, field: Seq<u8>) -> Option<int> {
    nested_span(t, input_path(name, field))
}

pub open spec fn version_findings(t: Seq<u8>, version: String) -> Seq<ValidationError> {
    if valid_version(version@) {
        seq![]
    } else {
        match field_span(t, "version".spec_bytes()) {
            Some(c) => seq![ValidationError::VersionInvalid { found: version, span: span_at(c) }],
            None => seq![],
        }
    }
}

pub open spec fn name_findings(t: Seq<u8>, name: String) -> Seq<ValidationError> {
    if !is_blank(name@) {
        seq![]
    } else {
        match field_span(t, "name".spec_bytes()) {
            Some(c) => seq![ValidationError::NameEmpty { span: span_at(c) }],
            None => seq![],
        }
    }
}

pub open spec fn type_findings(t: Seq<u8>, name: String, ty: String) -> Seq<ValidationError> {
    match input_field_span(t, name@, "type".spec_bytes()) {
        Some(c) => if ty@.len() == 0 {
            seq![ValidationError::InputTypeEmpty { input_name: name, found: ty, span: span_at(c) }]
        } else if !valid_input_type(ty@) {
            seq![ValidationError::InputTypeInvalid { input_name: name, found: ty, span: span_at(c) }]
        } else {
            seq![]
        },
        None => seq![],
    }
}

pub open spec fn secret_findings(t: Seq<u8>, name: String, ty: String, secret: bool) -> Seq<
    ValidationError,
> {
    if secret && ty@ != "string"@ {
        match (
            input_field_span(t, name@, "secret".spec_bytes()),
            input_field_span(t, name@, "type".spec_bytes()),
        ) {
            (Some(a), Some(b)) => seq![
                ValidationError::SecretRequiresString {
                    input_name: name,
                    input_type: ty,
                    secret_span: span_at(a),
                    type_span: span_at(b),
                },
            ],
            _ => seq![],
        }
    } else {
        seq![]
    }
}

pub open spec fn options_findings(t: Seq<u8>, name: String, ty: String, has_options: bool) -> Seq<
    ValidationError,
> {
    if ty@ == "choice"@ && !has_options {
        match input_field_span(t, name@, "type".spec_bytes()) {
            Some(c) => seq![ValidationError::ChoiceRequiresOptions { input_name: name, span: span_at(c) }],
            None => seq![],
        }
    } else if has_options && ty@.len() != 0 && ty@ != "choice"@ {
        match input_field_span(t, name@, "options".spec_bytes()) {
            Some(c) => seq![
                ValidationError::OptionsOnlyForChoice { input_name: name, input_type: ty, span: span_at(c) },
            ],
            None => seq![],
        }
    } else {
        seq![]
    }
}

pub open spec fn input_findings(t: Seq<u8>, name: String, input: CommandSchemaInput) -> Seq<
    ValidationError,
> {
    type_findings(t, name, input.input_type) + secret_findings(
        t,
        name,
        input.input_type,
        input.secret,
    ) + options_findings(t, name, input.input_type, input.options is Some)
}

/// Findings of the first `n` inputs, in order.
pub open spec fn inputs_findings(t: Seq<u8>, entries: Seq<(String, CommandSchemaInput)>, n: int) -> Seq<
    ValidationError,
>
    decreases n,
{
    if n <= 0 {
        seq![]
    } else {
        inputs_findings(t, entries, n - 1) + input_findings(t, entries[n - 1].0, entries[n - 1].1)
    }
}

/// The first step before `j`, from `k` on, whose id equals `id`.
pub open spec fn first_same_id(steps: Seq<CommandSchemaStep>, id: Seq<char>, k: int, j: int) -> Option<
    int,
>
    decreases j - k,
{
    if k >= j {
        None
    } else if steps[k].id@ == id {
        Some(k)
    } else {
        first_same_id(steps, id, k + 1, j)
    }
}

pub open spec fn step_span(t: Seq<u8>, j: int, field: Seq<u8>) -> Option<int> {
    step_field_span(t, j as nat, field)
}

pub open spec fn id_findings(t: Seq<u8>, steps: Seq<CommandSchemaStep>, j: int) -> Seq<
    ValidationError,
> {
    let id = steps[j].id;
    match step_span(t, j, "id".spec_bytes()) {
        Some(c) => if is_blank(id@) {
            seq![ValidationError::StepIdEmpty { index: j as usize, span: span_at(c) }]
        } else if has_ws(id@) {
            seq![ValidationError::StepIdWhitespace { step_id: id, span: span_at(c) }]
        } else {
            seq![]
        },
        None => seq![],
    }
}

pub open spec fn dup_findings(t: Seq<u8>, steps: Seq<CommandSchemaStep>, j: int) -> Seq<
    ValidationError,
> {
    match first_same_id(steps, steps[j].id@, 0, j) {
        Some(f) => match (step_span(t, f, "id".spec_bytes()), step_span(t, j, "id".spec_bytes())) {
            (Some(a), Some(b)) => seq![
                ValidationError::StepIdDuplicate {
                    step_id: steps[j].id,
                    first_span: span_at(a),
                    second_span: span_at(b),
                    first_index: f as usize,
                    second_index: j as usize,
                },
            ],
            _ => seq![],
        },
        None => seq![],
    }
}

pub open spec fn run_findings(t: Seq<u8>, steps: Seq<CommandSchemaStep>, j: int) -> Seq<
    ValidationError,
> {
    let id = steps[j].id;
    match (step_span(t, j, "command".spec_bytes()), step_span(t, j, "script".spec_bytes())) {
        (None, None) => match step_span(t, j, "run".spec_bytes()) {
            Some(c) => seq![ValidationError::StepRunMissing { step_id: id, span: span_at(c) }],
            None => seq![],
        },
        (Some(a), Some(b)) => seq![
            ValidationError::StepRunMutuallyExclusive {
                step_id: id,
                command_span: span_at(a),
                script_span: span_at(b),
            },
        ],
        _ => seq![],
    }
}

pub open spec fn step_findings(t: Seq<u8>, steps: Seq<CommandSchemaStep>, j: int) -> Seq<
    ValidationError,
> {
    id_findings(t, steps, j) + dup_findings(t, steps, j) + run_findings(t, steps, j)
}

/// Findings of the first `n` steps, in order.
pub open spec fn steps_findings(t: Seq<u8>, steps: Seq<CommandSchemaStep>, n: int) -> Seq<
    ValidationError,
>
    decreases n,
{
    if n <= 0 {
        seq![]
    } else {
        steps_findings(t, steps, n - 1) + step_findings(t, steps, n - 1)
    }
}

pub open spec fn all_steps_findings(t: Seq<u8>, steps: Seq<CommandSchemaStep>) -> Seq<
    ValidationError,
> {
    if steps.len() == 0 {
        match field_span(t, "steps".spec_bytes()) {
            Some(c) => seq![ValidationError::StepsEmpty { span: span_at(c) }],
            None => seq![],
        }
    } else {
        steps_findings(t, steps, steps.len() as int)
    }
}

/// Every finding of `schema` against its raw text `t`, in rule order: version,
/// name, inputs in key order, steps in declared order.
pub open spec fn schema_findings(t: Seq<u8>, schema: CommandSchema) -> Seq<ValidationError> {
    let entries = input_entries(schema);
    version_findings(t, schema.version) + name_findings(t, schema.name) + inputs_findings(
        t,
        entries,
        entries.len() as int,
    ) + all_steps_findings(t, schema.steps@)
}


/// `e` is a duplicate-id finding that pairs step `i` with step `j`.
pub open spec fn is_duplicate_of(e: ValidationError, i: int, j: int) -> bool {
    match e {
        ValidationError::StepIdDuplicate { first_index, second_index, .. } => first_index as int == i
            && second_index as int == j,
        _ => false,
    }
}

/// How many findings of `s` pair step `i` with step `j`.
pub open spec fn count_duplicates(s: Seq<ValidationError>, i: int, j: int) -> nat
    decreases s.len(),
{
    if s.len() == 0 {
        0
    } else {
        count_duplicates(s.drop_last(), i, j) + (if is_duplicate_of(s.last(), i, j) {
            1nat
        } else {
            0nat
        })
    }
}

proof fn lemma_count_concat(a: Seq<ValidationError>, b: Seq<ValidationError>, i: int, j: int)
    ensures
        count_duplicates(a + b, i, j) == count_duplicates(a, i, j) + count_duplicates(b, i, j),
    decreases b.len(),
{
    if b.len() == 0 {
        assert(a + b =~= a);
    } else {
        assert((a + b).drop_last() =~= a + b.drop_last());
        lemma_count_concat(a, b.drop_last(), i, j);
    }
}

proof fn lemma_count_none(s: Seq<ValidationError>, i: int, j: int)
    requires
        forall|k: int| 0 <= k < s.len() ==> !is_duplicate_of(#[trigger] s[k], i, j),
    ensures
        count_duplicates(s, i, j) == 0,
    decreases s.len(),
{
    if s.len() > 0 {
        assert(s.last() == s[s.len() - 1]);
        lemma_count_none(s.drop_last(), i, j);
    }
}

proof fn lemma_inputs_no_duplicates(
    t: Seq<u8>,
    entries: Seq<(String, CommandSchemaInput)>,
    n: int,
    i: int,
    j: int,
)
    ensures
        count_duplicates(inputs_findings(t, entries, n), i, j) == 0,
    decreases n,
{
    if n > 0 {
        lemma_inputs_no_duplicates(t, entries, n - 1, i, j);
        let e = entries[n - 1];
        let ty = type_findings(t, e.0, e.1.input_type);
        let se = secret_findings(t, e.0, e.1.input_type, e.1.secret);
        let op = options_findings(t, e.0, e.1.input_type, e.1.options is Some);
        lemma_count_none(ty, i, j);
        lemma_count_none(se, i, j);
        lemma_count_none(op, i, j);
        lemma_count_concat(ty, se, i, j);
        lemma_count_concat(ty + se, op, i, j);
        lemma_count_concat(inputs_findings(t, entries, n - 1), ty + se + op, i, j);
    }
}

proof fn lemma_first_same_id(steps: Seq<CommandSchemaStep>, id: Seq<char>, k: int, i: int, j: int)
    requires
        0 <= k <= i < j,
        steps[i].id@ == id,
        forall|m: int| k <= m < i ==> (#[trigger] steps[m]).id@ != id,
    ensures
        first_same_id(steps, id, k, j) == Some(i),
    decreases i - k,
{
    if k < i {
        lemma_first_same_id(steps, id, k + 1, i, j);
    }
}

proof fn lemma_steps_duplicates(t: Seq<u8>, steps: Seq<CommandSchemaStep>, n: int, i: int, j: int)
    requires
        0 <= i < j < steps.len(),
        steps.len() <= usize::MAX,
        0 <= n <= steps.len(),
        steps[i].id@ == steps[j].id@,
        forall|m: int| 0 <= m < i ==> (#[trigger] steps[m]).id@ != steps[i].id@,
        step_span(t, i, "id".spec_bytes()) is Some,
        step_span(t, j, "id".spec_bytes()) is Some,
    ensures
        count_duplicates(steps_findings(t, steps, n), i, j) == (if n > j {
            1nat
        } else {
            0nat
        }),
    decreases n,
{
    if n > 0 {
        let k = n - 1;
        lemma_steps_duplicates(t, steps, k, i, j);
        let a = id_findings(t, steps, k);
        let d = dup_findings(t, steps, k);
        let r = run_findings(t, steps, k);
        lemma_count_none(a, i, j);
        lemma_count_none(r, i, j);
        if k == j {
            lemma_first_same_id(steps, steps[j].id@, 0, i, j);
            assert(i as usize as int == i && j as usize as int == j);
            assert(d.len() == 1 && is_duplicate_of(d[0], i, j));
            assert(d.drop_last() =~= Seq::<ValidationError>::empty());
            assert(count_duplicates(d.drop_last(), i, j) == 0);
            assert(count_duplicates(d, i, j) == 1);
        } else {
            assert forall|m: int| 0 <= m < d.len() implies !is_duplicate_of(#[trigger] d[m], i, j) by {
                assert(d.len() == 1);
                assert(k as usize as int == k);
            }
            lemma_count_none(d, i, j);
        }
        lemma_count_concat(a, d, i, j);
        lemma_count_concat(a + d, r, i, j);
        lemma_count_concat(steps_findings(t, steps, k), a + d + r, i, j);
        assert(steps_findings(t, steps, n) == steps_findings(t, steps, k) + (a + d + r));
    }
}

/// When two steps share an id and `i` is the first step with it, the
/// findings pair `i` with `j` exactly once, however many other duplicates the
/// file holds (given that both `id` lines can be found in the text).
pub proof fn lemma_duplicate_reported_once(t: Seq<u8>, schema: CommandSchema, i: int, j: int)
    requires
        0 <= i < j < schema.steps@.len(),
        schema.steps@.len() <= usize::MAX,
        schema.steps@[i].id@ == schema.steps@[j].id@,
        forall|m: int| 0 <= m < i ==> (#[trigger] schema.steps@[m]).id@ != schema.steps@[i].id@,
        step_span(t, i, "id".spec_bytes()) is Some,
        step_span(t, j, "id".spec_bytes()) is Some,
    ensures
        count_duplicates(schema_findings(t, schema), i, j) == 1,
{
    let steps = schema.steps@;
    let entries = input_entries(schema);
    let v = version_findings(t, schema.version);
    let nm = name_findings(t, schema.name);
    let inp = inputs_findings(t, entries, entries.len() as int);
    lemma_count_none(v, i, j);
    lemma_count_none(nm, i, j);
    lemma_inputs_no_duplicates(t, entries, entries.len() as int, i, j);
    lemma_steps_duplicates(t, steps, steps.len() as int, i, j);
    lemma_count_concat(v, nm, i, j);
    lemma_count_concat(v + nm, inp, i, j);
    lemma_count_concat(v + nm + inp, all_steps_findings(t, steps), i, j);
}

/// A version other than `1` or `1.0` is reported whenever its line can be found,
/// and in the same pass as the other findings of the file, such as an empty
/// name or an empty step list.
pub proof fn lemma_version_invalid_reported(t: Seq<u8>, schema: CommandSchema)
    requires
        !valid_version(schema.version@),
        field_span(t, "version".spec_bytes()) is Some,
    ensures
        schema_findings(t, schema).contains(
            ValidationError::VersionInvalid {
                found: schema.version,
                span: span_at(field_span(t, "version".spec_bytes())->0),
            },
        ),
        is_blank(schema.name@) && field_span(t, "name".spec_bytes()) is Some ==> schema_findings(
            t,
            schema,
        ).contains(
            ValidationError::NameEmpty { span: span_at(field_span(t, "name".spec_bytes())->0) },
        ),
        schema.steps@.len() == 0 && field_span(t, "steps".spec_bytes()) is Some ==> schema_findings(
            t,
            schema,
        ).contains(
            ValidationError::StepsEmpty { span: span_at(field_span(t, "steps".spec_bytes())->0) },
        ),
{
    let entries = input_entries(schema);
    let v = version_findings(t, schema.version);
    let nm = name_findings(t, schema.name);
    let inp = inputs_findings(t, entries, entries.len() as int);
    let st = all_steps_findings(t, schema.steps@);
    let all = schema_findings(t, schema);
    assert(all == v + nm + inp + st);
    assert(all[0] == v[0]);
    if is_blank(schema.name@) && field_span(t, "name".spec_bytes()) is Some {
        assert(all[v.len() as int] == nm[0]);
    }
    if schema.steps@.len() == 0 && field_span(t, "steps".spec_bytes()) is Some {
        assert(all[all.len() - 1] == st[0]);
    }
}


/// How many findings of `s` satisfy `p`.
pub open spec fn count_where(s: Seq<ValidationError>, p: spec_fn(ValidationError) -> bool) -> nat
    decreases s.len(),
{
    if s.len() == 0 {
        0
    } else {
        count_where(s.drop_last(), p) + (if p(s.last()) {
            1nat
        } else {
            0nat
        })
    }
}

proof fn lemma_count_where_concat(a: Seq<ValidationError>, b: Seq<ValidationError>, p: spec_fn(ValidationError) -> bool)
    ensures
        count_where(a + b, p) == count_where(a, p) + count_where(b, p),
    decreases b.len(),
{
    if b.len() == 0 {
        assert(a + b =~= a);
    } else {
        assert((a + b).drop_last() =~= a + b.drop_last());
        lemma_count_where_concat(a, b.drop_last(), p);
    }
}

proof fn lemma_count_where_none(s: Seq<ValidationError>, p: spec_fn(ValidationError) -> bool)
    requires
        forall|k: int| 0 <= k < s.len() ==> !p(#[trigger] s[k]),
    ensures
        count_where(s, p) == 0,
    decreases s.len(),
{
    if s.len() > 0 {
        assert(s.last() == s[s.len() - 1]);
        lemma_count_where_none(s.drop_last(), p);
    }
}

pub open spec fn is_version_invalid(e: ValidationError) -> bool {
    e is VersionInvalid
}

/// A finding of an input rule.
pub open spec fn is_input_kind(e: ValidationError) -> bool {
    e is InputTypeEmpty || e is InputTypeInvalid || e is SecretRequiresString || e is ChoiceRequiresOptions
        || e is OptionsOnlyForChoice
}

proof fn lemma_inputs_count_zero(
    t: Seq<u8>,
    entries: Seq<(String, CommandSchemaInput)>,
    n: int,
    p: spec_fn(ValidationError) -> bool,
)
    requires
        forall|e: ValidationError| #[trigger] p(e) ==> !is_input_kind(e),
    ensures
        count_where(inputs_findings(t, entries, n), p) == 0,
    decreases n,
{
    if n > 0 {
        lemma_inputs_count_zero(t, entries, n - 1, p);
        let e = entries[n - 1];
        let ty = type_findings(t, e.0, e.1.input_type);
        let se = secret_findings(t, e.0, e.1.input_type, e.1.secret);
        let op = options_findings(t, e.0, e.1.input_type, e.1.options is Some);
        lemma_count_where_none(ty, p);
        lemma_count_where_none(se, p);
        lemma_count_where_none(op, p);
        lemma_count_where_concat(ty, se, p);
        lemma_count_where_concat(ty + se, op, p);
        lemma_count_where_concat(inputs_findings(t, entries, n - 1), ty + se + op, p);
    }
}

proof fn lemma_steps_no_version(t: Seq<u8>, steps: Seq<CommandSchemaStep>, n: int)
    ensures
        count_where(steps_findings(t, steps, n), |e: ValidationError| is_version_invalid(e)) == 0,
    decreases n,
{
    let p = |e: ValidationError| is_version_invalid(e);
    if n > 0 {
        lemma_steps_no_version(t, steps, n - 1);
        let k = n - 1;
        let a = id_findings(t, steps, k);
        let d = dup_findings(t, steps, k);
        let r = run_findings(t, steps, k);
        lemma_count_where_none(a, p);
        lemma_count_where_none(d, p);
        lemma_count_where_none(r, p);
        lemma_count_where_concat(a, d, p);
        lemma_count_where_concat(a + d, r, p);
        lemma_count_where_concat(steps_findings(t, steps, k), a + d + r, p);
        assert(steps_findings(t, steps, n) == steps_findings(t, steps, k) + (a + d + r));
    }
}

/// The version is reported at most once: exactly once when it is neither `1`
/// nor `1.0` and its line can be found, never when it is `1` or `1.0`.
pub proof fn lemma_version_reported_once(t: Seq<u8>, schema: CommandSchema)
    ensures
        count_where(schema_findings(t, schema), |e: ValidationError| is_version_invalid(e)) == (if !valid_version(
            schema.version@,
        ) && field_span(t, "version".spec_bytes()) is Some {
            1nat
        } else {
            0nat
        }),
{
    let p = |e: ValidationError| is_version_invalid(e);
    let entries = input_entries(schema);
    let v = version_findings(t, schema.version);
    let nm = name_findings(t, schema.name);
    let inp = inputs_findings(t, entries, entries.len() as int);
    let st = all_steps_findings(t, schema.steps@);
    if v.len() > 0 {
        assert(v.drop_last() =~= Seq::<ValidationError>::empty());
        assert(count_where(v.drop_last(), p) == 0);
    }
    lemma_count_where_none(nm, p);
    lemma_inputs_count_zero(t, entries, entries.len() as int, p);
    if schema.steps@.len() == 0 {
        lemma_count_where_none(st, p);
    } else {
        lemma_steps_no_version(t, schema.steps@, schema.steps@.len() as int);
    }
    lemma_count_where_concat(v, nm, p);
    lemma_count_where_concat(v + nm, inp, p);
    lemma_count_where_concat(v + nm + inp, st, p);
}

/// A file that is valid but for an empty step list has exactly one finding,
/// `StepsEmpty` at its `steps:` line (given that line can be found).
pub proof fn lemma_only_steps_empty(t: Seq<u8>, schema: CommandSchema)
    requires
        valid_version(schema.version@),
        !is_blank(schema.name@),
        inputs_findings(t, input_entries(schema), input_entries(schema).len() as int).len() == 0,
        schema.steps@.len() == 0,
        field_span(t, "steps".spec_bytes()) is Some,
    ensures
        schema_findings(t, schema) == seq![
            ValidationError::StepsEmpty { span: span_at(field_span(t, "steps".spec_bytes())->0) },
        ],
{
    let entries = input_entries(schema);
    let inp = inputs_findings(t, entries, entries.len() as int);
    assert(inp =~= Seq::<ValidationError>::empty());
    assert(schema_findings(t, schema) =~= seq![
        ValidationError::StepsEmpty { span: span_at(field_span(t, "steps".spec_bytes())->0) },
    ]);
}


/// `e` is a duplicate-id finding for the id `x`.
pub open spec fn is_duplicate_named(e: ValidationError, x: Seq<char>) -> bool {
    match e {
        ValidationError::StepIdDuplicate { step_id, .. } => step_id@ == x,
        _ => false,
    }
}

/// The duplicate-id finding that pairs steps `i` and `j`, anchored at their `id` lines.
pub open spec fn duplicate_finding(t: Seq<u8>, steps: Seq<CommandSchemaStep>, i: int, j: int) -> ValidationError {
    ValidationError::StepIdDuplicate {
        step_id: steps[j].id,
        first_span: span_at(step_span(t, i, "id".spec_bytes())->0),
        second_span: span_at(step_span(t, j, "id".spec_bytes())->0),
        first_index: i as usize,
        second_index: j as usize,
    }
}

proof fn lemma_first_same_none(steps: Seq<CommandSchemaStep>, id: Seq<char>, k: int, j: int)
    requires
        forall|m: int| k <= m < j ==> (#[trigger] steps[m]).id@ != id,
    ensures
        first_same_id(steps, id, k, j) is None,
    decreases j - k,
{
    if k < j {
        lemma_first_same_none(steps, id, k + 1, j);
    }
}

proof fn lemma_steps_named(t: Seq<u8>, steps: Seq<CommandSchemaStep>, n: int, i: int, j: int)
    requires
        0 <= i < j < steps.len(),
        steps.len() <= usize::MAX,
        0 <= n <= steps.len(),
        steps[i].id@ == steps[j].id@,
        forall|m: int| 0 <= m < steps.len() && m != i && m != j ==> (#[trigger] steps[m]).id@ != steps[i].id@,
        step_span(t, i, "id".spec_bytes()) is Some,
        step_span(t, j, "id".spec_bytes()) is Some,
    ensures
        count_where(steps_findings(t, steps, n), |e: ValidationError| is_duplicate_named(e, steps[i].id@)) == (if n > j {
            1nat
        } else {
            0nat
        }),
        n > j ==> steps_findings(t, steps, n).contains(duplicate_finding(t, steps, i, j)),
    decreases n,
{
    let x = steps[i].id@;
    let p = |e: ValidationError| is_duplicate_named(e, x);
    if n > 0 {
        let k = n - 1;
        lemma_steps_named(t, steps, k, i, j);
        let prev = steps_findings(t, steps, k);
        let a = id_findings(t, steps, k);
        let d = dup_findings(t, steps, k);
        let r = run_findings(t, steps, k);
        lemma_count_where_none(a, p);
        lemma_count_where_none(r, p);
        if k == j {
            lemma_first_same_id(steps, x, 0, i, j);
            assert(d =~= seq![duplicate_finding(t, steps, i, j)]);
            assert(d.drop_last() =~= Seq::<ValidationError>::empty());
            assert(count_where(d.drop_last(), p) == 0);
            assert(count_where(d, p) == 1);
        } else if k == i {
            lemma_first_same_none(steps, x, 0, i);
            lemma_count_where_none(d, p);
        } else {
            assert(steps[k].id@ != x);
            lemma_count_where_none(d, p);
        }
        lemma_count_where_concat(a, d, p);
        lemma_count_where_concat(a + d, r, p);
        lemma_count_where_concat(prev, a + d + r, p);
        let all = steps_findings(t, steps, n);
        assert(all == prev + (a + d + r));
        if k == j {
            assert(all[(prev.len() + a.len()) as int] == duplicate_finding(t, steps, i, j));
        } else if n > j {
            let q = choose|q: int| 0 <= q < prev.len() && prev[q] == duplicate_finding(t, steps, i, j);
            assert(all[q] == prev[q]);
        }
    }
}

/// When an id occurs at exactly two steps `i < j`, the findings hold exactly
/// one duplicate-id finding for that id: the one that pairs `i` with `j`,
/// anchored at both `id` lines (given that both can be found).
pub proof fn lemma_duplicate_named_once(t: Seq<u8>, schema: CommandSchema, i: int, j: int)
    requires
        0 <= i < j < schema.steps@.len(),
        schema.steps@.len() <= usize::MAX,
        schema.steps@[i].id@ == schema.steps@[j].id@,
        forall|m: int|
            0 <= m < schema.steps@.len() && m != i && m != j ==> (#[trigger] schema.steps@[m]).id@
                != schema.steps@[i].id@,
        step_span(t, i, "id".spec_bytes()) is Some,
        step_span(t, j, "id".spec_bytes()) is Some,
    ensures
        count_where(
            schema_findings(t, schema),
            |e: ValidationError| is_duplicate_named(e, schema.steps@[i].id@),
        ) == 1,
        schema_findings(t, schema).contains(duplicate_finding(t, schema.steps@, i, j)),
{
    let steps = schema.steps@;
    let x = steps[i].id@;
    let p = |e: ValidationError| is_duplicate_named(e, x);
    let entries = input_entries(schema);
    let v = version_findings(t, schema.version);
    let nm = name_findings(t, schema.name);
    let inp = inputs_findings(t, entries, entries.len() as int);
    let st = all_steps_findings(t, steps);
    lemma_count_where_none(v, p);
    lemma_count_where_none(nm, p);
    lemma_inputs_count_zero(t, entries, entries.len() as int, p);
    lemma_steps_named(t, steps, steps.len() as int, i, j);
    lemma_count_where_concat(v, nm, p);
    lemma_count_where_concat(v + nm, inp, p);
    lemma_count_where_concat(v + nm + inp, st, p);
    let all = schema_findings(t, schema);
    assert(all == (v + nm + inp) + st);
    let q = choose|q: int| 0 <= q < st.len() && st[q] == duplicate_finding(t, steps, i, j);
    assert(all[(v + nm + inp).len() as int + q] == st[q]);
}

fn span_of(c: usize) -> (r: Span)
    ensures
        r == span_at(c as int),
{
    Span { offset: c, length: 1 }
}

fn check_version(t: &[u8], version: &String, errs: &mut Vec<ValidationError>)
    ensures
        final(errs)@ == old(errs)@ + version_findings(t@, *version),
{
    let v = version.as_str();
    if str_eq(v, "1") || str_eq(v, "1.0") {
        assert(old(errs)@ + seq![] =~= old(errs)@);
        return;
    }
    match find_field_span(t, "version".as_bytes()) {
        Some(c) => errs.push(ValidationError::VersionInvalid { found: version.clone(), span: span_of(c) }),
        None => {},
    }
    assert(errs@ =~= old(errs)@ + version_findings(t@, *version));
}

fn check_name(t: &[u8], name: &String, errs: &mut Vec<ValidationError>)
    ensures
        final(errs)@ == old(errs)@ + name_findings(t@, *name),
{
    if is_blank_str(name.as_str()) {
        match find_field_span(t, "name".as_bytes()) {
            Some(c) => errs.push(ValidationError::NameEmpty { span: span_of(c) }),
            None => {},
        }
    }
    assert(errs@ =~= old(errs)@ + name_findings(t@, *name));
}

fn find_input_field_span(t: &[u8], name: &String, field: &str) -> (r: Option<usize>)
    ensures
        opt_int(r) == input_field_span(t@, name@, field.spec_bytes()),
{
    let mut path: Vec<Vec<u8>> = Vec::new();
    path.push("inputs".as_bytes_vec());
    path.push(name.as_str().as_bytes_vec());
    path.push(field.as_bytes_vec());
    assert(path_view(path@) =~= input_path(name@, field.spec_bytes()));
    find_nested_field_span(t, &path)
}

fn check_input(t: &[u8], name: &String, input: &CommandSchemaInput, errs: &mut Vec<ValidationError>)
    ensures
        final(errs)@ == old(errs)@ + input_findings(t@, *name, *input),
{
    let ty = &input.input_type;
    let tys = ty.as_str();
    // Type.
    let type_span = find_input_field_span(t, name, "type");
    match type_span {
        Some(c) => {
            if tys.is_empty() {
                errs.push(ValidationError::InputTypeEmpty { input_name: name.clone(), found: ty.clone(), span: span_of(c) });
            } else if !(str_eq(tys, "string") || str_eq(tys, "choice") || str_eq(tys, "bool") || str_eq(tys, "boolean")) {
                errs.push(ValidationError::InputTypeInvalid { input_name: name.clone(), found: ty.clone(), span: span_of(c) });
            }
        },
        None => {},
    }
    let ghost e1 = errs@;
    assert(e1 =~= old(errs)@ + type_findings(t@, *name, *ty));
    // Secret.
    if input.secret && !str_eq(tys, "string") {
        let secret_span = find_input_field_span(t, name, "secret");
        match (secret_span, type_span) {
            (Some(a), Some(b)) => errs.push(
                ValidationError::SecretRequiresString {
                    input_name: name.clone(),
                    input_type: ty.clone(),
                    secret_span: span_of(a),
                    type_span: span_of(b),
                },
            ),
            _ => {},
        }
    }
    let ghost e2 = errs@;
    assert(e2 =~= e1 + secret_findings(t@, *name, *ty, input.secret));
    // Options.
    let has_options = input.options.is_some();
    if str_eq(tys, "choice") && !has_options {
        match type_span {
            Some(c) => errs.push(ValidationError::ChoiceRequiresOptions { input_name: name.clone(), span: span_of(c) }),
            None => {},
        }
    } else if has_options && !tys.is_empty() && !str_eq(tys, "choice") {
        match find_input_field_span(t, name, "options") {
            Some(c) => errs.push(
                ValidationError::OptionsOnlyForChoice { input_name: name.clone(), input_type: ty.clone(), span: span_of(c) },
            ),
            None => {},
        }
    }
    assert(errs@ =~= e2 + options_findings(t@, *name, *ty, has_options));
    assert(errs@ =~= old(errs)@ + input_findings(t@, *name, *input));
}

fn check_inputs(t: &[u8], inputs: &[(String, CommandSchemaInput)], errs: &mut Vec<ValidationError>)
    ensures
        final(errs)@ == old(errs)@ + inputs_findings(t@, inputs@, inputs@.len() as int),
{
    let ghost e0 = errs@;
    let mut i: usize = 0;
    assert(e0 + inputs_findings(t@, inputs@, 0) =~= e0);
    while i < inputs.len()
        invariant
            i <= inputs@.len(),
            errs@ == e0 + inputs_findings(t@, inputs@, i as int),
        decreases inputs@.len() - i,
    {
        let ghost before = errs@;
        check_input(t, &inputs[i].0, &inputs[i].1, errs);
        i = i + 1;
        assert(errs@ =~= e0 + inputs_findings(t@, inputs@, i as int));
    }
}

fn first_same_id_exec(steps: &Vec<CommandSchemaStep>, j: usize) -> (r: Option<usize>)
    requires
        j < steps@.len(),
    ensures
        opt_int(r) == first_same_id(steps@, steps@[j as int].id@, 0, j as int),
{
    let mut k: usize = 0;
    while k < j
        invariant
            k <= j < steps@.len(),
            first_same_id(steps@, steps@[j as int].id@, 0, j as int) == first_same_id(
                steps@,
                steps@[j as int].id@,
                k as int,
                j as int,
            ),
        decreases j - k,
    {
        if steps[k].id == steps[j].id {
            return Some(k);
        }
        k = k + 1;
    }
    None
}

fn check_step(t: &[u8], steps: &Vec<CommandSchemaStep>, j: usize, errs: &mut Vec<ValidationError>)
    requires
        j < steps@.len(),
    ensures
        final(errs)@ == old(errs)@ + step_findings(t@, steps@, j as int),
{
    let id = &steps[j].id;
    let id_span = find_step_field_span(t, j, "id".as_bytes());
    match id_span {
        Some(c) => {
            if is_blank_str(id.as_str()) {
                errs.push(ValidationError::StepIdEmpty { index: j, span: span_of(c) });
            } else if has_ws_str(id.as_str()) {
                errs.push(ValidationError::StepIdWhitespace { step_id: id.clone(), span: span_of(c) });
            }
        },
        None => {},
    }
    let ghost e1 = errs@;
    assert(e1 =~= old(errs)@ + id_findings(t@, steps@, j as int));
    match first_same_id_exec(steps, j) {
        Some(f) => {
            let first_span = find_step_field_span(t, f, "id".as_bytes());
            match (first_span, id_span) {
                (Some(a), Some(b)) => errs.push(
                    ValidationError::StepIdDuplicate {
                        step_id: id.clone(),
                        first_span: span_of(a),
                        second_span: span_of(b),
                        first_index: f,
                        second_index: j,
                    },
                ),
                _ => {},
            }
        },
        None => {},
    }
    let ghost e2 = errs@;
    assert(e2 =~= e1 + dup_findings(t@, steps@, j as int));
    let command_span = find_step_field_span(t, j, "command".as_bytes());
    let script_span = find_step_field_span(t, j, "script".as_bytes());
    match (command_span, script_span) {
        (None, None) => match find_step_field_span(t, j, "run".as_bytes()) {
            Some(c) => errs.push(ValidationError::StepRunMissing { step_id: id.clone(), span: span_of(c) }),
            None => {},
        },
        (Some(a), Some(b)) => errs.push(
            ValidationError::StepRunMutuallyExclusive {
                step_id: id.clone(),
                command_span: span_of(a),
                script_span: span_of(b),
            },
        ),
        _ => {},
    }
    assert(errs@ =~= e2 + run_findings(t@, steps@, j as int));
    assert(errs@ =~= old(errs)@ + step_findings(t@, steps@, j as int));
}

fn check_steps(t: &[u8], steps: &Vec<CommandSchemaStep>, errs: &mut Vec<ValidationError>)
    ensures
        final(errs)@ == old(errs)@ + all_steps_findings(t@, steps@),
{
    let ghost e0 = errs@;
    if steps.len() == 0 {
        match find_field_span(t, "steps".as_bytes()) {
            Some(c) => errs.push(ValidationError::StepsEmpty { span: span_of(c) }),
            None => {},
        }
        assert(errs@ =~= e0 + all_steps_findings(t@, steps@));
        return;
    }
    let mut j: usize = 0;
    assert(e0 + steps_findings(t@, steps@, 0) =~= e0);
    while j < steps.len()
        invariant
            j <= steps@.len(),
            errs@ == e0 + steps_findings(t@, steps@, j as int),
        decreases steps@.len() - j,
    {
        check_step(t, steps, j, errs);
        j = j + 1;
        assert(errs@ =~= e0 + steps_findings(t@, steps@, j as int));
    }
}

/// Checks a parsed command file against the rules of the format, pointing each
/// finding at the raw text it was parsed from.
pub struct SchemaValidator {
    pub yaml_content: String,
    pub filename: String,
    pub errors: Vec<ValidationError>,
}

impl SchemaValidator {
    /// The raw text as bytes, which spans index.
    pub open spec fn source(&self) -> Seq<u8> {
        encode_utf8(self.yaml_content@)
    }

    pub fn new(yaml_content: String, filename: String) -> (r: Self)
        ensures
            r.yaml_content == yaml_content,
            r.filename == filename,
            r.errors@.len() == 0,
    {
        SchemaValidator { yaml_content, filename, errors: Vec::new() }
    }

    /// Collects every finding of `schema` (never stopping at the first) and
    /// fails with all of them, or succeeds when there is none.
    pub fn validate(&mut self, schema: &CommandSchema) -> (r: Result<(), CommandError>)
        ensures
            final(self).yaml_content == old(self).yaml_content,
            final(self).filename == old(self).filename,
            final(self).errors@.len() == 0,
            ({
                let all = old(self).errors@ + schema_findings(old(self).source(), *schema);
                match r {
                    Ok(()) => all.len() == 0,
                    Err(CommandError::ValidationErrors { path, errors, error_count }) => {
                        &&& all.len() > 0
                        &&& errors@ == all
                        &&& error_count == all.len()
                        &&& path == old(self).filename
                    },
                    Err(_) => false,
                }
            }),
    {
        let mut errs: Vec<ValidationError> = Vec::new();
        std::mem::swap(&mut errs, &mut self.errors);
        let t = self.yaml_content.as_str().as_bytes();
        let ghost e0 = errs@;
        check_version(t, &schema.version, &mut errs);
        check_name(t, &schema.name, &mut errs);
        check_inputs(t, schema.input_list(), &mut errs);
        check_steps(t, &schema.steps, &mut errs);
        assert(errs@ =~= e0 + schema_findings(t@, *schema));
        if errs.len() == 0 {
            return Ok(());
        }
        let error_count = errs.len();
        Err(CommandError::ValidationErrors { path: self.filename.clone(), errors: errs, error_count })
    }
}

} // verus!
