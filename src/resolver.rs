//! Variable resolution: `@{inputs.X}` from declared inputs and the command
//! line, `${NAME}` from the same environment block or the OS environment.
use vstd::prelude::*;
use crate::schema::CommandSchemaInput;
use crate::scan::opt_int;
use crate::text::{chars_of, str_eq};
use vstd::string::*;

verus! {

/// What the command line supplied: one entry per flag given, with its value
/// when the flag takes one.
#[derive(Debug, Clone, PartialEq, Eq)]
pub struct CliMatches {
    pub supplied: Vec<(String, Option<String>)>,
}

/// The passes of environment resolution before what is left falls back to the
/// OS environment.
pub const MAX_ITERATIONS: usize = 10;

// ---------------------------------------------------------------------------
// Lookup in association lists
pub open spec fn keys_of<V>(s: Seq<(String, V)>) -> Seq<Seq<char>> {
    s.map_values(|p: (String, V)| p.0@)
}

/// The first index, from `k` on, whose key is `n`.
pub open spec fn index_of(keys: Seq<Seq<char>>, n: Seq<char>, k: int) -> Option<int>
    decreases keys.len() - k,
{
    if k < 0 || k >= keys.len() {
        None
    } else if keys[k] == n {
        Some(k)
    } else {
        index_of(keys, n, k + 1)
    }
}

pub proof fn lemma_index_of(keys: Seq<Seq<char>>, n: Seq<char>, k: int)
    requires
        0 <= k,
    ensures
        index_of(keys, n, k) matches Some(i) ==> k <= i < keys.len() && keys[i] == n,
    decreases keys.len() - k,
{
    if k < keys.len() && keys[k] != n {
        lemma_index_of(keys, n, k + 1);
    }
}

pub fn find_key<V>(s: &[(String, V)], n: &String) -> (r: Option<usize>)
    ensures
        opt_int(r) == index_of(keys_of(s@), n@, 0),
        r matches Some(i) ==> i < s@.len() && s@[i as int].0@ == n@,
{
    let ghost keys = keys_of(s@);
    let mut k: usize = 0;
    while k < s.len()
        invariant
            k <= s@.len(),
            keys == keys_of(s@),
            index_of(keys, n@, 0) == index_of(keys, n@, k as int),
        decreases s@.len() - k,
    {
        if s[k].0 == *n {
            assert(keys[k as int] == n@);
            return Some(k);
        }
        k = k + 1;
    }
    None
}

// ---------------------------------------------------------------------------
// Input values
pub open spec fn is_bool_type(ty: Seq<char>) -> bool {
    ty == "bool"@ || ty == "boolean"@
}

/// What `@{inputs.<n>}` stands for: for a boolean input `true` when its flag
/// was given, else its default or `false`; for any other input the value given,
/// else its default, else empty; empty for a name that no input declares.
pub open spec fn input_value(
    inputs: Seq<(String, CommandSchemaInput)>,
    cli: Seq<(String, Option<String>)>,
    n: Seq<char>,
) -> Seq<char> {
    match index_of(keys_of(inputs), n, 0) {
        None => seq![],
        Some(i) => {
            let input = inputs[i].1;
            let given = index_of(keys_of(cli), n, 0);
            if is_bool_type(input.input_type@) {
                if given is Some {
                    "true"@
                } else {
                    match input.default {
                        Some(d) => d@,
                        None => "false"@,
                    }
                }
            } else {
                match given {
                    Some(g) if cli[g].1 is Some => cli[g].1->0@,
                    _ => match input.default {
                        Some(d) => d@,
                        None => seq![],
                    },
                }
            }
        },
    }
}

/// The value of `@{inputs.<name>}` for this command line.
pub fn input_value_of(inputs: &[(String, CommandSchemaInput)], matches: &CliMatches, name: &String) -> (r: String)
    ensures
        r@ == input_value(inputs@, matches.supplied@, name@),
{
    let i = match find_key(inputs, name) {
        Some(i) => i,
        None => return String::new(),
    };
    let input = &inputs[i].1;
    let given = find_key(matches.supplied.as_slice(), name);
    let ty = input.input_type.as_str();
    if str_eq(ty, "bool") || str_eq(ty, "boolean") {
        if given.is_some() {
            String::from_str("true")
        } else {
            match &input.default {
                Some(d) => d.clone(),
                None => String::from_str("false"),
            }
        }
    } else {
        match given {
            Some(g) => match &matches.supplied[g].1 {
                Some(v) => {
                    return v.clone();
                },
                None => {},
            },
            None => {},
        }
        match &input.default {
            Some(d) => d.clone(),
            None => String::new(),
        }
    }
}

// ---------------------------------------------------------------------------
// References
pub open spec fn is_input_start(c: char) -> bool {
    ('a' <= c && c <= 'z') || ('A' <= c && c <= 'Z') || c == '_'
}

pub open spec fn is_env_start(c: char) -> bool {
    ('A' <= c && c <= 'Z') || c == '_'
}

/// After the first character: digits too, and for input names `-`.
pub open spec fn is_name_char(c: char, env: bool) -> bool {
    (if env {
        is_env_start(c)
    } else {
        is_input_start(c) || c == '-'
    }) || ('0' <= c && c <= '9')
}

/// End of the run of name characters that starts at `k`.
pub open spec fn name_end(t: Seq<char>, k: int, env: bool) -> int
    decreases t.len() - k,
{
    if k < 0 || k >= t.len() || !is_name_char(t[k], env) {
        k
    } else {
        name_end(t, k + 1, env)
    }
}

pub proof fn lemma_name_end(t: Seq<char>, k: int, env: bool)
    ensures
        k <= name_end(t, k, env),
        0 <= k <= t.len() ==> name_end(t, k, env) <= t.len(),
        forall|m: int| k <= m < name_end(t, k, env) ==> is_name_char(#[trigger] t[m], env),
    decreases t.len() - k,
{
    if 0 <= k < t.len() && is_name_char(t[k], env) {
        lemma_name_end(t, k + 1, env);
    }
}

pub open spec fn input_prefix() -> Seq<char> {
    seq!['@', '{', 'i', 'n', 'p', 'u', 't', 's', '.']
}

/// `@{inputs.<name>}` at `i`: its name and where it ends.
pub open spec fn input_ref_at(t: Seq<char>, i: int) -> Option<(Seq<char>, int)> {
    let p = i + 9;
    if 0 <= i && p < t.len() && t.subrange(i, p) == input_prefix() && is_input_start(t[p]) {
        let k = name_end(t, p + 1, false);
        if k < t.len() && t[k] == '}' {
            Some((t.subrange(p, k), k + 1))
        } else {
            None
        }
    } else {
        None
    }
}

/// `${<NAME>}` at `i`: its name and where it ends.
pub open spec fn env_ref_at(t: Seq<char>, i: int) -> Option<(Seq<char>, int)> {
    let p = i + 2;
    if 0 <= i && p < t.len() && t[i] == '$' && t[i + 1] == '{' && is_env_start(t[p]) {
        let k = name_end(t, p + 1, true);
        if k < t.len() && t[k] == '}' {
            Some((t.subrange(p, k), k + 1))
        } else {
            None
        }
    } else {
        None
    }
}

/// What an environment reference `[i, e)` turns into: the looked-up value, or
/// the reference as written.
pub open spec fn env_piece(t: Seq<char>, i: int, e: int, v: Option<Seq<char>>) -> Seq<char> {
    match v {
        Some(v) => v,
        None => t.subrange(i, e),
    }
}

/// `t` from `i` on with every input reference replaced by `fin` of its name,
/// and every environment reference by `fenv` of its name, or kept as written
/// where `fenv` gives nothing.
pub open spec fn render_from(
    t: Seq<char>,
    i: int,
    fin: spec_fn(Seq<char>) -> Seq<char>,
    fenv: spec_fn(Seq<char>) -> Option<Seq<char>>,
) -> Seq<char>
    decreases t.len() - i,
    via render_from_decreases
{
    if i < 0 || i >= t.len() {
        seq![]
    } else {
        match input_ref_at(t, i) {
            Some((n, e)) => fin(n) + render_from(t, e, fin, fenv),
            None => match env_ref_at(t, i) {
                Some((n, e)) => env_piece(t, i, e, fenv(n)) + render_from(t, e, fin, fenv),
                None => seq![t[i]] + render_from(t, i + 1, fin, fenv),
            },
        }
    }
}

#[via_fn]
proof fn render_from_decreases(
    t: Seq<char>,
    i: int,
    fin: spec_fn(Seq<char>) -> Seq<char>,
    fenv: spec_fn(Seq<char>) -> Option<Seq<char>>,
) {
    lemma_name_end(t, i + 10, false);
    lemma_name_end(t, i + 3, true);
}

/// `t` from `i` on with every environment reference replaced by `fenv` of its
/// name, or kept as written where `fenv` gives nothing; all else as written.
pub open spec fn subst_env_from(t: Seq<char>, i: int, fenv: spec_fn(Seq<char>) -> Option<Seq<char>>) -> Seq<
    char,
>
    decreases t.len() - i,
    via subst_env_from_decreases
{
    if i < 0 || i >= t.len() {
        seq![]
    } else {
        match env_ref_at(t, i) {
            Some((n, e)) => env_piece(t, i, e, fenv(n)) + subst_env_from(t, e, fenv),
            None => seq![t[i]] + subst_env_from(t, i + 1, fenv),
        }
    }
}

#[via_fn]
proof fn subst_env_from_decreases(t: Seq<char>, i: int, fenv: spec_fn(Seq<char>) -> Option<Seq<char>>) {
    lemma_name_end(t, i + 3, true);
}

/// Some environment reference of `t`, from `i` on, is one that `fenv` leaves in place.
pub open spec fn kept_env_from(t: Seq<char>, i: int, fenv: spec_fn(Seq<char>) -> Option<Seq<char>>) -> bool
    decreases t.len() - i,
    via kept_env_from_decreases
{
    if i < 0 || i >= t.len() {
        false
    } else {
        match env_ref_at(t, i) {
            Some((n, e)) => fenv(n) is None || kept_env_from(t, e, fenv),
            None => kept_env_from(t, i + 1, fenv),
        }
    }
}

#[via_fn]
proof fn kept_env_from_decreases(t: Seq<char>, i: int, fenv: spec_fn(Seq<char>) -> Option<Seq<char>>) {
    lemma_name_end(t, i + 3, true);
}

pub open spec fn input_lookup(
    inputs: Seq<(String, CommandSchemaInput)>,
    cli: Seq<(String, Option<String>)>,
) -> spec_fn(Seq<char>) -> Seq<char> {
    |n: Seq<char>| input_value(inputs, cli, n)
}

/// Leaves every environment reference as written.
pub open spec fn keep_env() -> spec_fn(Seq<char>) -> Option<Seq<char>> {
    |n: Seq<char>| None
}

pub open spec fn os_value(os: Seq<(String, String)>, n: Seq<char>) -> Seq<char> {
    match index_of(keys_of(os), n, 0) {
        Some(i) => os[i].1@,
        None => seq![],
    }
}

/// Resolves against the OS environment alone; an unset variable is empty.
pub open spec fn os_env(os: Seq<(String, String)>) -> spec_fn(Seq<char>) -> Option<Seq<char>> {
    |n: Seq<char>| Some(os_value(os, n))
}

/// During a pass: a resolved entry first; a name still pending stays in place;
/// anything else comes from the OS environment.
pub open spec fn pass_env(
    resolved: Seq<(Seq<char>, Seq<char>)>,
    pending: Seq<(Seq<char>, Seq<char>)>,
    os: Seq<(String, String)>,
) -> spec_fn(Seq<char>) -> Option<Seq<char>> {
    |n: Seq<char>|
        match index_of(resolved.map_values(|p: (Seq<char>, Seq<char>)| p.0), n, 0) {
            Some(i) => Some(resolved[i].1),
            None => if index_of(pending.map_values(|p: (Seq<char>, Seq<char>)| p.0), n, 0) is Some {
                None
            } else {
                Some(os_value(os, n))
            },
        }
}

/// What `resolve_input_variables` gives: input references substituted, all
/// else as written.
pub open spec fn resolve_text(
    t: Seq<char>,
    inputs: Seq<(String, CommandSchemaInput)>,
    cli: Seq<(String, Option<String>)>,
) -> Seq<char> {
    render_from(t, 0, input_lookup(inputs, cli), keep_env())
}


pub open spec fn pairs_view(v: Seq<(String, String)>) -> Seq<(Seq<char>, Seq<char>)> {
    v.map_values(|p: (String, String)| (p.0@, p.1@))
}

pub open spec fn opt_view(r: Option<String>) -> Option<Seq<char>> {
    match r {
        Some(s) => Some(s@),
        None => None,
    }
}

/// How environment references are resolved: by a resolution pass (1), or
/// from the OS environment alone (otherwise).
pub open spec fn env_mode(
    mode: u8,
    resolved: Seq<(String, String)>,
    pending: Seq<(String, String)>,
    os: Seq<(String, String)>,
) -> spec_fn(Seq<char>) -> Option<Seq<char>> {
    if mode == 1 {
        pass_env(pairs_view(resolved), pairs_view(pending), os)
    } else {
        os_env(os)
    }
}

fn name_end_exec(t: &Vec<char>, k: usize, env: bool) -> (r: usize)
    requires
        k <= t@.len(),
    ensures
        r == name_end(t@, k as int, env),
        k <= r <= t@.len(),
{
    let mut m: usize = k;
    while m < t.len() && is_name_char_exec(t[m], env)
        invariant
            k <= m <= t@.len(),
            name_end(t@, k as int, env) == name_end(t@, m as int, env),
        decreases t@.len() - m,
    {
        m = m + 1;
    }
    proof {
        lemma_name_end(t@, m as int, env);
    }
    m
}

fn is_name_char_exec(c: char, env: bool) -> (r: bool)
    ensures
        r == is_name_char(c, env),
{
    let start = if env {
        ('A' <= c && c <= 'Z') || c == '_'
    } else {
        ('a' <= c && c <= 'z') || ('A' <= c && c <= 'Z') || c == '_' || c == '-'
    };
    start || ('0' <= c && c <= '9')
}

/// An input reference at `i`: the bounds of its name.
fn input_ref_exec(t: &Vec<char>, i: usize) -> (r: Option<(usize, usize)>)
    requires
        i < t@.len(),
    ensures
        match r {
            Some((p, k)) => i < p <= k < t@.len() && input_ref_at(t@, i as int) == Some(
                (t@.subrange(p as int, k as int), k + 1),
            ),
            None => input_ref_at(t@, i as int) is None,
        },
{
    if t.len() - i <= 9 {
        return None;
    }
    let pre: [char; 9] = ['@', '{', 'i', 'n', 'p', 'u', 't', 's', '.'];
    let n = t.len();
    let mut j: usize = 0;
    while j < 9
        invariant
            j <= 9,
            n == t@.len(),
            i + 9 < t@.len(),
            pre@ == input_prefix(),
            forall|m: int| 0 <= m < j ==> t@[i + m] == input_prefix()[m],
        decreases 9 - j,
    {
        if t[i + j] != pre[j] {
            assert(t@.subrange(i as int, i + 9)[j as int] != input_prefix()[j as int]);
            return None;
        }
        j = j + 1;
    }
    assert(t@.subrange(i as int, i + 9) =~= input_prefix());
    let p = i + 9;
    let c = t[p];
    if !(('a' <= c && c <= 'z') || ('A' <= c && c <= 'Z') || c == '_') {
        return None;
    }
    let k = name_end_exec(t, p + 1, false);
    if k < t.len() && t[k] == '}' {
        Some((p, k))
    } else {
        None
    }
}

/// An environment reference at `i`: the bounds of its name.
fn env_ref_exec(t: &Vec<char>, i: usize) -> (r: Option<(usize, usize)>)
    requires
        i < t@.len(),
    ensures
        match r {
            Some((p, k)) => i < p <= k < t@.len() && env_ref_at(t@, i as int) == Some(
                (t@.subrange(p as int, k as int), k + 1),
            ),
            None => env_ref_at(t@, i as int) is None,
        },
{
    if t.len() - i <= 2 {
        return None;
    }
    let p = i + 2;
    let c = t[p];
    if !(t[i] == '$' && t[i + 1] == '{' && (('A' <= c && c <= 'Z') || c == '_')) {
        return None;
    }
    let k = name_end_exec(t, p + 1, true);
    if k < t.len() && t[k] == '}' {
        Some((p, k))
    } else {
        None
    }
}

fn sub_string(t: &Vec<char>, a: usize, b: usize) -> (r: String)
    requires
        a <= b <= t@.len(),
    ensures
        r@ == t@.subrange(a as int, b as int),
{
    let mut s = String::new();
    let mut k: usize = a;
    while k < b
        invariant
            a <= k <= b <= t@.len(),
            s@ == t@.subrange(a as int, k as int),
        decreases b - k,
    {
        crate::text::push_char(&mut s, t[k]);
        k = k + 1;
        assert(s@ =~= t@.subrange(a as int, k as int));
    }
    s
}

fn os_value_of(os: &[(String, String)], name: &String) -> (r: String)
    ensures
        r@ == os_value(os@, name@),
{
    match find_key(os, name) {
        Some(i) => os[i].1.clone(),
        None => String::new(),
    }
}

fn env_value_of(
    name: &String,
    resolved: &[(String, String)],
    pending: &[(String, String)],
    os: &[(String, String)],
    mode: u8,
) -> (r: Option<String>)
    ensures
        opt_view(r) == (env_mode(mode, resolved@, pending@, os@))(name@),
{
    if mode == 1 {
        assert(pairs_view(resolved@).map_values(|p: (Seq<char>, Seq<char>)| p.0) =~= keys_of(resolved@));
        assert(pairs_view(pending@).map_values(|p: (Seq<char>, Seq<char>)| p.0) =~= keys_of(pending@));
        match find_key(resolved, name) {
            Some(i) => {
                return Some(resolved[i].1.clone());
            },
            None => {},
        }
        if find_key(pending, name).is_some() {
            return None;
        }
    }
    Some(os_value_of(os, name))
}

/// Substitutes the input references of `t`, keeping environment references
/// as written.
fn render_inputs(t: &Vec<char>, inputs: &[(String, CommandSchemaInput)], matches: &CliMatches) -> (r: String)
    ensures
        r@ == render_from(t@, 0, input_lookup(inputs@, matches.supplied@), keep_env()),
{
    let ghost fin = input_lookup(inputs@, matches.supplied@);
    let ghost fenv = keep_env();
    let mut out = String::new();
    let mut i: usize = 0;
    while i < t.len()
        invariant
            i <= t@.len(),
            fin == input_lookup(inputs@, matches.supplied@),
            fenv == keep_env(),
            out@ + render_from(t@, i as int, fin, fenv) == render_from(t@, 0, fin, fenv),
        decreases t@.len() - i,
    {
        let ghost before = out@;
        match input_ref_exec(t, i) {
            Some((p, k)) => {
                let name = sub_string(t, p, k);
                let v = input_value_of(inputs, matches, &name);
                out.append(v.as_str());
                assert(render_from(t@, i as int, fin, fenv) == v@ + render_from(t@, k + 1, fin, fenv));
                assert(out@ + render_from(t@, k + 1, fin, fenv) =~= before + render_from(t@, i as int, fin, fenv));
                i = k + 1;
            },
            None => match env_ref_exec(t, i) {
                Some((p, k)) => {
                    let raw = sub_string(t, i, k + 1);
                    out.append(raw.as_str());
                    assert(render_from(t@, i as int, fin, fenv) == env_piece(t@, i as int, k + 1, fenv(t@.subrange(p as int, k as int)))
                        + render_from(t@, k + 1, fin, fenv));
                    assert(out@ + render_from(t@, k + 1, fin, fenv) =~= before + render_from(t@, i as int, fin, fenv));
                    i = k + 1;
                },
                None => {
                    crate::text::push_char(&mut out, t[i]);
                    assert(render_from(t@, i as int, fin, fenv) == seq![t@[i as int]] + render_from(t@, i + 1, fin, fenv));
                    assert(out@ + render_from(t@, i + 1, fin, fenv) =~= before + render_from(t@, i as int, fin, fenv));
                    i = i + 1;
                },
            },
        }
    }
    out
}

/// Substitutes the environment references of `t`, and tells whether one was
/// left in place.
fn render_env(
    t: &Vec<char>,
    resolved: &[(String, String)],
    pending: &[(String, String)],
    os: &[(String, String)],
    mode: u8,
) -> (r: (String, bool))
    ensures
        r.0@ == subst_env_from(t@, 0, env_mode(mode, resolved@, pending@, os@)),
        r.1 == kept_env_from(t@, 0, env_mode(mode, resolved@, pending@, os@)),
{
    let ghost fenv = env_mode(mode, resolved@, pending@, os@);
    let mut out = String::new();
    let mut kept = false;
    let mut i: usize = 0;
    while i < t.len()
        invariant
            i <= t@.len(),
            fenv == env_mode(mode, resolved@, pending@, os@),
            out@ + subst_env_from(t@, i as int, fenv) == subst_env_from(t@, 0, fenv),
            (kept || kept_env_from(t@, i as int, fenv)) == kept_env_from(t@, 0, fenv),
        decreases t@.len() - i,
    {
        let ghost before = out@;
        match env_ref_exec(t, i) {
            Some((p, k)) => {
                let name = sub_string(t, p, k);
                match env_value_of(&name, resolved, pending, os, mode) {
                    Some(v) => {
                        out.append(v.as_str());
                    },
                    None => {
                        let raw = sub_string(t, i, k + 1);
                        out.append(raw.as_str());
                        kept = true;
                    },
                }
                assert(subst_env_from(t@, i as int, fenv) == env_piece(t@, i as int, k + 1, fenv(name@))
                    + subst_env_from(t@, k + 1, fenv));
                assert(out@ + subst_env_from(t@, k + 1, fenv) =~= before + subst_env_from(t@, i as int, fenv));
                i = k + 1;
            },
            None => {
                crate::text::push_char(&mut out, t[i]);
                assert(subst_env_from(t@, i as int, fenv) == seq![t@[i as int]] + subst_env_from(t@, i + 1, fenv));
                assert(out@ + subst_env_from(t@, i + 1, fenv) =~= before + subst_env_from(t@, i as int, fenv));
                i = i + 1;
            },
        }
    }
    (out, kept)
}

/// Replaces every `@{inputs.<name>}` of `text` by the value of that input for
/// this command line (see `input_value`); everything else, `${NAME}` included,
/// stays as written. A name that no input declares becomes empty.
pub fn resolve_input_variables(text: &str, inputs: &[(String, CommandSchemaInput)], matches: &CliMatches) -> (r: String)
    ensures
        r@ == resolve_text(text@, inputs@, matches.supplied@),
{
    let t = chars_of(text);
    render_inputs(&t, inputs, matches)
}

// ---------------------------------------------------------------------------
// Environment blocks
/// The text holds `${` or `@{`.
pub open spec fn has_marker(s: Seq<char>) -> bool {
    exists|i: int| 0 <= i < s.len() - 1 && #[trigger] marker_at(s, i)
}

/// `${` or `@{` starts at `i`.
pub open spec fn marker_at(s: Seq<char>, i: int) -> bool {
    (s[i] == '$' || s[i] == '@') && s[i + 1] == '{'
}

pub type Pairs = Seq<(Seq<char>, Seq<char>)>;

/// The first `n` entries with a value, split into those with nothing to
/// substitute (resolved) and the rest (pending, held with their input
/// references already substituted), each in block order.
pub open spec fn split_upto(
    env: Seq<(String, Option<String>)>,
    inputs: Seq<(String, CommandSchemaInput)>,
    cli: Seq<(String, Option<String>)>,
    n: int,
) -> (Pairs, Pairs)
    decreases n,
{
    if n <= 0 {
        (seq![], seq![])
    } else {
        let (r, p) = split_upto(env, inputs, cli, n - 1);
        match env[n - 1].1 {
            None => (r, p),
            Some(v) => if has_marker(v@) {
                (r, p.push((env[n - 1].0@, resolve_text(v@, inputs, cli))))
            } else {
                (r.push((env[n - 1].0@, v@)), p)
            },
        }
    }
}

/// One pass over the first `m` pending entries: an entry whose environment
/// references all resolve (to entries resolved so far, this pass included, or
/// to the OS environment for names the block does not hold) is resolved; one
/// that still waits on a pending name stays pending.
pub open spec fn pass_upto(r0: Pairs, pending: Pairs, os: Seq<(String, String)>, m: int) -> (Pairs, Pairs)
    decreases m,
{
    if m <= 0 {
        (r0, seq![])
    } else {
        let (r, p) = pass_upto(r0, pending, os, m - 1);
        let (k, v) = pending[m - 1];
        let fenv = pass_env(r, pending, os);
        if kept_env_from(v, 0, fenv) {
            (r, p.push((k, v)))
        } else {
            (r.push((k, subst_env_from(v, 0, fenv))), p)
        }
    }
}

/// Resolves the first `m` pending entries against the OS environment alone.
pub open spec fn force_upto(r: Pairs, pending: Pairs, os: Seq<(String, String)>, m: int) -> Pairs
    decreases m,
{
    if m <= 0 {
        r
    } else {
        force_upto(r, pending, os, m - 1).push(
            (pending[m - 1].0, subst_env_from(pending[m - 1].1, 0, os_env(os))),
        )
    }
}

/// Passes until nothing is pending, at most `fuel` of them; when a pass
/// resolves nothing, or the passes run out, what is left is resolved against
/// the OS environment.
pub open spec fn run_passes(r: Pairs, p: Pairs, os: Seq<(String, String)>, fuel: nat) -> Pairs
    decreases fuel,
{
    if p.len() == 0 {
        r
    } else if fuel == 0 {
        force_upto(r, p, os, p.len() as int)
    } else {
        let (r2, p2) = pass_upto(r, p, os, p.len() as int);
        if p2.len() == p.len() {
            force_upto(r, p, os, p.len() as int)
        } else {
            run_passes(r2, p2, os, (fuel - 1) as nat)
        }
    }
}

/// The first `n` entries with a value, in block order, each with its final value.
pub open spec fn output_upto(env: Seq<(String, Option<String>)>, fin_r: Pairs, n: int) -> Pairs
    decreases n,
{
    if n <= 0 {
        seq![]
    } else {
        let prev = output_upto(env, fin_r, n - 1);
        match env[n - 1].1 {
            None => prev,
            Some(_) => match index_of(fin_r.map_values(|q: (Seq<char>, Seq<char>)| q.0), env[n - 1].0@, 0) {
                Some(i) => prev.push((env[n - 1].0@, fin_r[i].1)),
                None => prev,
            },
        }
    }
}

/// The resolved assignments of an environment block: input references are
/// substituted first, then environment references in the result.
pub open spec fn resolve_environment(
    env: Seq<(String, Option<String>)>,
    inputs: Seq<(String, CommandSchemaInput)>,
    cli: Seq<(String, Option<String>)>,
    os: Seq<(String, String)>,
) -> Pairs {
    let (r, p) = split_upto(env, inputs, cli, env.len() as int);
    output_upto(env, run_passes(r, p, os, MAX_ITERATIONS as nat), env.len() as int)
}

fn has_marker_str(s: &str) -> (r: bool)
    ensures
        r == has_marker(s@),
{
    let v = chars_of(s);
    if v.len() < 2 {
        return false;
    }
    let mut i: usize = 0;
    while i < v.len() - 1
        invariant
            v@ == s@,
            v@.len() >= 2,
            i <= v@.len() - 1,
            forall|k: int| 0 <= k < i ==> !#[trigger] marker_at(v@, k),
        decreases v@.len() - i,
    {
        if (v[i] == '$' || v[i] == '@') && v[i + 1] == '{' {
            assert(marker_at(v@, i as int));
            return true;
        }
        i = i + 1;
    }
    false
}

proof fn lemma_pairs_push(v: Seq<(String, String)>, k: String, x: String)
    ensures
        pairs_view(v.push((k, x))) == pairs_view(v).push((k@, x@)),
{
    assert(pairs_view(v.push((k, x))) =~= pairs_view(v).push((k@, x@)));
}

fn pair(k: &String, v: &String) -> (r: (String, String))
    ensures
        r.0 == *k,
        r.1 == *v,
{
    (k.clone(), v.clone())
}

fn run_pass(resolved: &mut Vec<(String, String)>, pending: &Vec<(String, String)>, os: &[(String, String)]) -> (p2:
    Vec<(String, String)>)
    ensures
        (pairs_view(final(resolved)@), pairs_view(p2@)) == pass_upto(
            pairs_view(old(resolved)@),
            pairs_view(pending@),
            os@,
            pending@.len() as int,
        ),
        final(resolved)@.len() + p2@.len() == old(resolved)@.len() + pending@.len(),
        final(resolved)@.subrange(0, old(resolved)@.len() as int) == old(resolved)@,
{
    let ghost r0 = resolved@;
    let mut p2: Vec<(String, String)> = Vec::new();
    let mut m: usize = 0;
    while m < pending.len()
        invariant
            m <= pending@.len(),
            (pairs_view(resolved@), pairs_view(p2@)) == pass_upto(pairs_view(r0), pairs_view(pending@), os@, m as int),
            resolved@.len() + p2@.len() == r0.len() + m,
            r0.len() <= resolved@.len(),
            resolved@.subrange(0, r0.len() as int) == r0,
        decreases pending@.len() - m,
    {
        let t = chars_of(pending[m].1.as_str());
        let ghost rv = resolved@;
        let (text, kept) = render_env(&t, resolved.as_slice(), pending.as_slice(), os, 1);
        if kept {
            proof {
                lemma_pairs_push(p2@, pending@[m as int].0, pending@[m as int].1);
            }
            p2.push(pair(&pending[m].0, &pending[m].1));
        } else {
            let key = pending[m].0.clone();
            proof {
                lemma_pairs_push(resolved@, key, text);
            }
            resolved.push((key, text));
            assert(resolved@.subrange(0, r0.len() as int) =~= rv.subrange(0, r0.len() as int));
        }
        m = m + 1;
    }
    p2
}

fn force_pending(resolved: &mut Vec<(String, String)>, pending: &Vec<(String, String)>, os: &[(String, String)])
    ensures
        pairs_view(final(resolved)@) == force_upto(
            pairs_view(old(resolved)@),
            pairs_view(pending@),
            os@,
            pending@.len() as int,
        ),
{
    let ghost r0 = resolved@;
    let empty: Vec<(String, String)> = Vec::new();
    let mut m: usize = 0;
    while m < pending.len()
        invariant
            m <= pending@.len(),
            pairs_view(resolved@) == force_upto(pairs_view(r0), pairs_view(pending@), os@, m as int),
        decreases pending@.len() - m,
    {
        let t = chars_of(pending[m].1.as_str());
        let (text, _) = render_env(&t, empty.as_slice(), empty.as_slice(), os, 2);
        let key = pending[m].0.clone();
        proof {
            lemma_pairs_push(resolved@, key, text);
        }
        resolved.push((key, text));
        m = m + 1;
    }
}

/// Resolves an environment block: `@{inputs.X}` from the inputs and command
/// line, first; then `${NAME}` in the result, from another entry of the block (in either direction) or
/// else from the OS environment snapshot `os`. Passes repeat while they
/// resolve something, at most `MAX_ITERATIONS` times; whatever is then left
/// (a cycle, or a chain longer than the bound) is resolved against `os`
/// alone. Entries without a value are dropped; the others come out in block
/// order.
pub fn resolve_environment_variables(
    environment: &[(String, Option<String>)],
    inputs: &[(String, CommandSchemaInput)],
    matches: &CliMatches,
    os: &[(String, String)],
) -> (r: Vec<(String, String)>)
    ensures
        pairs_view(r@) == resolve_environment(environment@, inputs@, matches.supplied@, os@),
{
    let mut resolved: Vec<(String, String)> = Vec::new();
    let mut pending: Vec<(String, String)> = Vec::new();
    let mut n: usize = 0;
    assert(pairs_view(resolved@) =~= seq![]);
    assert(pairs_view(pending@) =~= seq![]);
    while n < environment.len()
        invariant
            n <= environment@.len(),
            (pairs_view(resolved@), pairs_view(pending@)) == split_upto(
                environment@,
                inputs@,
                matches.supplied@,
                n as int,
            ),
        decreases environment@.len() - n,
    {
        match &environment[n].1 {
            Some(v) => {
                let key = environment[n].0.clone();
                if has_marker_str(v.as_str()) {
                    let val = resolve_input_variables(v.as_str(), inputs, matches);
                    proof {
                        lemma_pairs_push(pending@, key, val);
                    }
                    pending.push((key, val));
                } else {
                    let val = v.clone();
                    proof {
                        lemma_pairs_push(resolved@, key, val);
                    }
                    resolved.push((key, val));
                }
            },
            None => {},
        }
        n = n + 1;
    }
    let ghost start = split_upto(environment@, inputs@, matches.supplied@, environment@.len() as int);
    let ghost goal = run_passes(start.0, start.1, os@, MAX_ITERATIONS as nat);
    let mut iterations: usize = 0;
    while pending.len() > 0 && iterations < MAX_ITERATIONS
        invariant
            iterations <= MAX_ITERATIONS,
            goal == run_passes(pairs_view(resolved@), pairs_view(pending@), os@, (MAX_ITERATIONS - iterations) as nat),
        decreases MAX_ITERATIONS - iterations,
    {
        let ghost r = resolved@;
        let next = run_pass(&mut resolved, &pending, os);
        if next.len() == pending.len() {
            assert(resolved@ =~= r);
            force_pending(&mut resolved, &pending, os);
            pending = Vec::new();
            assert(pairs_view(pending@) =~= seq![]);
        } else {
            pending = next;
        }
        iterations = iterations + 1;
    }
    if pending.len() > 0 {
        force_pending(&mut resolved, &pending, os);
    }
    assert(pairs_view(resolved@) == goal);
    // Output, in block order.
    let ghost keys = pairs_view(resolved@).map_values(|q: (Seq<char>, Seq<char>)| q.0);
    assert(keys =~= keys_of(resolved@));
    let mut out: Vec<(String, String)> = Vec::new();
    let mut n: usize = 0;
    assert(pairs_view(out@) =~= seq![]);
    while n < environment.len()
        invariant
            n <= environment@.len(),
            keys == keys_of(resolved@),
            keys == pairs_view(resolved@).map_values(|q: (Seq<char>, Seq<char>)| q.0),
            pairs_view(resolved@) == goal,
            pairs_view(out@) == output_upto(environment@, goal, n as int),
        decreases environment@.len() - n,
    {
        if environment[n].1.is_some() {
            match find_key(resolved.as_slice(), &environment[n].0) {
                Some(i) => {
                    let entry = pair(&environment[n].0, &resolved[i].1);
                    proof {
                        lemma_pairs_push(out@, entry.0, entry.1);
                    }
                    out.push(entry);
                },
                None => {},
            }
        }
        n = n + 1;
    }
    out
}

// ---------------------------------------------------------------------------
// Laws
proof fn lemma_render_no_inputs(t: Seq<char>, i: int, fin: spec_fn(Seq<char>) -> Seq<char>)
    requires
        0 <= i <= t.len(),
        forall|k: int| 0 <= k < t.len() ==> #[trigger] input_ref_at(t, k) is None,
    ensures
        render_from(t, i, fin, keep_env()) == t.subrange(i, t.len() as int),
    decreases t.len() - i,
{
    if i < t.len() {
        assert(input_ref_at(t, i) is None);
        match env_ref_at(t, i) {
            Some((n, e)) => {
                lemma_name_end(t, i + 3, true);
                lemma_render_no_inputs(t, e, fin);
                assert(t.subrange(i, e) + t.subrange(e, t.len() as int) =~= t.subrange(i, t.len() as int));
            },
            None => {
                lemma_render_no_inputs(t, i + 1, fin);
                assert(seq![t[i]] + t.subrange(i + 1, t.len() as int) =~= t.subrange(i, t.len() as int));
            },
        }
    } else {
        assert(t.subrange(i, t.len() as int) =~= Seq::<char>::empty());
    }
}

/// Text without input references comes back unchanged (environment
/// references included), so resolving it again changes nothing either.
pub proof fn lemma_resolve_text_idempotent(
    t: Seq<char>,
    inputs: Seq<(String, CommandSchemaInput)>,
    cli: Seq<(String, Option<String>)>,
)
    requires
        forall|k: int| 0 <= k < t.len() ==> #[trigger] input_ref_at(t, k) is None,
    ensures
        resolve_text(t, inputs, cli) == t,
        resolve_text(resolve_text(t, inputs, cli), inputs, cli) == resolve_text(t, inputs, cli),
{
    lemma_render_no_inputs(t, 0, input_lookup(inputs, cli));
    assert(t.subrange(0, t.len() as int) =~= t);
}

/// A reference to an input that is not declared renders as nothing.
pub proof fn lemma_unknown_input_is_empty(
    t: Seq<char>,
    i: int,
    inputs: Seq<(String, CommandSchemaInput)>,
    cli: Seq<(String, Option<String>)>,
    fenv: spec_fn(Seq<char>) -> Option<Seq<char>>,
)
    requires
        0 <= i < t.len(),
        input_ref_at(t, i) is Some,
        index_of(keys_of(inputs), (input_ref_at(t, i)->0).0, 0) is None,
    ensures
        input_value(inputs, cli, (input_ref_at(t, i)->0).0) == Seq::<char>::empty(),
        render_from(t, i, input_lookup(inputs, cli), fenv) == render_from(
            t,
            (input_ref_at(t, i)->0).1,
            input_lookup(inputs, cli),
            fenv,
        ),
{
    let (n, e) = input_ref_at(t, i)->0;
    assert(input_value(inputs, cli, n) =~= Seq::<char>::empty());
    assert(seq![] + render_from(t, e, input_lookup(inputs, cli), fenv) =~= render_from(
        t,
        e,
        input_lookup(inputs, cli),
        fenv,
    ));
}


proof fn lemma_name_end_run(t: Seq<char>, m: int, end: int, env: bool)
    requires
        0 <= m <= end < t.len(),
        forall|q: int| m <= q < end ==> is_name_char(#[trigger] t[q], env),
        !is_name_char(t[end], env),
    ensures
        name_end(t, m, env) == end,
    decreases end - m,
{
    if m < end {
        lemma_name_end_run(t, m + 1, end, env);
    }
}

/// `a@{inputs.<name>}b` resolves to `ab` when no input is called `<name>`: an
/// unknown input is empty, and resolving it does not fail.
pub proof fn lemma_unknown_reference_in_text(
    name: Seq<char>,
    inputs: Seq<(String, CommandSchemaInput)>,
    cli: Seq<(String, Option<String>)>,
)
    requires
        name.len() > 0,
        is_input_start(name[0]),
        forall|k: int| 0 <= k < name.len() ==> is_name_char(#[trigger] name[k], false),
        index_of(keys_of(inputs), name, 0) is None,
    ensures
        resolve_text(seq!['a'] + input_prefix() + name + seq!['}', 'b'], inputs, cli) == seq!['a', 'b'],
{
    let t = seq!['a'] + input_prefix() + name + seq!['}', 'b'];
    let fin = input_lookup(inputs, cli);
    let fenv = keep_env();
    let end: int = 10 + name.len() as int;
    assert(t.len() == end + 2);
    assert(t[0] == 'a');
    assert(t.subrange(0, 9)[0] == 'a');
    assert(input_ref_at(t, 0) is None);
    assert(env_ref_at(t, 0) is None);
    assert(t.subrange(1, 10) =~= input_prefix());
    assert(t[10] == name[0]);
    assert forall|q: int| 11 <= q < end implies is_name_char(#[trigger] t[q], false) by {
        assert(t[q] == name[q - 10]);
    }
    assert(t[end] == '}');
    lemma_name_end_run(t, 11, end, false);
    assert(t.subrange(10, end) =~= name);
    assert(input_ref_at(t, 1) == Some((name, end + 1)));
    assert(input_value(inputs, cli, name) =~= Seq::<char>::empty());
    assert(t[end + 1] == 'b');
    assert(input_ref_at(t, end + 1) is None);
    assert(env_ref_at(t, end + 1) is None);
    assert(render_from(t, end + 2, fin, fenv) == Seq::<char>::empty());
    assert(render_from(t, end + 1, fin, fenv) =~= seq!['b']);
    assert(render_from(t, 1, fin, fenv) =~= seq!['b']);
    assert(render_from(t, 0, fin, fenv) =~= seq!['a', 'b']);
}


/// The text `${<n>}`.
pub open spec fn env_ref_text(n: Seq<char>) -> Seq<char> {
    seq!['$', '{'] + n + seq!['}']
}

/// `n` has the form of an environment variable name.
pub open spec fn is_env_name(n: Seq<char>) -> bool {
    n.len() > 0 && is_env_start(n[0]) && forall|k: int| 0 <= k < n.len() ==> is_name_char(#[trigger] n[k], true)
}

proof fn lemma_env_ref_text(n: Seq<char>)
    requires
        is_env_name(n),
    ensures
        env_ref_at(env_ref_text(n), 0) == Some((n, env_ref_text(n).len() as int)),
        forall|k: int| 0 <= k < env_ref_text(n).len() ==> #[trigger] input_ref_at(env_ref_text(n), k) is None,
        has_marker(env_ref_text(n)),
{
    let t = env_ref_text(n);
    let q: int = 2 + n.len() as int;
    assert(t.len() == q + 1);
    assert forall|m: int| 3 <= m < q implies is_name_char(#[trigger] t[m], true) by {
        assert(t[m] == n[m - 2]);
    }
    assert(t[q] == '}');
    lemma_name_end_run(t, 3, q, true);
    assert(t[2] == n[0]);
    assert(t.subrange(2, q) =~= n);
    assert forall|k: int| 0 <= k < t.len() implies #[trigger] input_ref_at(t, k) is None by {
        if k >= 2 && k < q {
            assert(t[k] == n[k - 2]);
        }
        if input_ref_at(t, k) is Some {
            assert(t.subrange(k, k + 9)[0] == t[k]);
        }
    }
    assert(marker_at(t, 0));
}

proof fn lemma_env_ref_subst(n: Seq<char>, f: spec_fn(Seq<char>) -> Option<Seq<char>>)
    requires
        is_env_name(n),
    ensures
        subst_env_from(env_ref_text(n), 0, f) == env_piece(env_ref_text(n), 0, env_ref_text(n).len() as int, f(n)),
        kept_env_from(env_ref_text(n), 0, f) == (f(n) is None),
{
    let t = env_ref_text(n);
    lemma_env_ref_text(n);
    assert(subst_env_from(t, t.len() as int, f) == Seq::<char>::empty());
    assert(!kept_env_from(t, t.len() as int, f));
    assert(env_piece(t, 0, t.len() as int, f(n)) + Seq::<char>::empty() =~= env_piece(t, 0, t.len() as int, f(n)));
}

/// Two entries that refer to each other (`A: ${B}`, `B: ${A}`) make no progress;
/// both fall back to the OS environment: `A` takes the OS value of `B` and
/// `B` that of `A` (empty where unset).
pub proof fn lemma_two_cycle_falls_back_to_os(
    env: Seq<(String, Option<String>)>,
    inputs: Seq<(String, CommandSchemaInput)>,
    cli: Seq<(String, Option<String>)>,
    os: Seq<(String, String)>,
)
    requires
        env.len() == 2,
        is_env_name(env[0].0@),
        is_env_name(env[1].0@),
        env[0].0@ != env[1].0@,
        env[0].1 matches Some(v) && v@ == env_ref_text(env[1].0@),
        env[1].1 matches Some(v) && v@ == env_ref_text(env[0].0@),
    ensures
        resolve_environment(env, inputs, cli, os) == seq![
            (env[0].0@, os_value(os, env[1].0@)),
            (env[1].0@, os_value(os, env[0].0@)),
        ],
{
    let a = env[0].0@;
    let b = env[1].0@;
    let ta = env_ref_text(b);
    let tb = env_ref_text(a);
    let fin = input_lookup(inputs, cli);
    lemma_env_ref_text(a);
    lemma_env_ref_text(b);
    lemma_render_no_inputs(ta, 0, fin);
    lemma_render_no_inputs(tb, 0, fin);
    assert(ta.subrange(0, ta.len() as int) =~= ta);
    assert(tb.subrange(0, tb.len() as int) =~= tb);
    assert(resolve_text(ta, inputs, cli) == ta);
    assert(resolve_text(tb, inputs, cli) == tb);
    let p: Pairs = seq![(a, ta), (b, tb)];
    let r: Pairs = seq![];
    let va = env[0].1->0;
    let vb = env[1].1->0;
    assert(va@ == ta && vb@ == tb);
    assert(has_marker(va@) && has_marker(vb@));
    assert(split_upto(env, inputs, cli, 0) == (r, r));
    assert(r.push((a, ta)) =~= seq![(a, ta)]);
    assert(split_upto(env, inputs, cli, 1) == (r, seq![(a, ta)]));
    assert(seq![(a, ta)].push((b, tb)) =~= p);
    assert(split_upto(env, inputs, cli, 2) == (r, p));
    let pkeys = p.map_values(|q: (Seq<char>, Seq<char>)| q.0);
    assert(pkeys[0] == a && pkeys[1] == b);
    assert(r.map_values(|q: (Seq<char>, Seq<char>)| q.0) =~= Seq::<Seq<char>>::empty());
    // First pass: each waits on the other.
    let fenv = pass_env(r, p, os);
    assert(index_of(pkeys, b, 1) == Some(1int));
    assert(index_of(pkeys, b, 0) == Some(1int));
    assert(index_of(pkeys, a, 0) == Some(0int));
    assert(fenv(b) is None);
    assert(fenv(a) is None);
    lemma_env_ref_subst(b, fenv);
    lemma_env_ref_subst(a, fenv);
    assert(p[0] == (a, ta) && p[1] == (b, tb));
    assert(kept_env_from(ta, 0, fenv) && kept_env_from(tb, 0, fenv));
    assert(pass_upto(r, p, os, 0) == (r, r));
    assert(pass_upto(r, p, os, 1) == (r, seq![(a, ta)]));
    assert(pass_upto(r, p, os, 2) == (r, p));
    // No progress: both come from the OS environment.
    let fo = os_env(os);
    lemma_env_ref_subst(b, fo);
    lemma_env_ref_subst(a, fo);
    let fin_r = force_upto(r, p, os, 2);
    assert(subst_env_from(ta, 0, fo) == os_value(os, b));
    assert(subst_env_from(tb, 0, fo) == os_value(os, a));
    assert(force_upto(r, p, os, 0) == r);
    assert(force_upto(r, p, os, 1) =~= seq![(a, os_value(os, b))]);
    assert(fin_r =~= seq![(a, os_value(os, b)), (b, os_value(os, a))]);
    assert(run_passes(r, p, os, MAX_ITERATIONS as nat) == fin_r);
    let fkeys = fin_r.map_values(|q: (Seq<char>, Seq<char>)| q.0);
    assert(fkeys[0] == a && fkeys[1] == b);
    assert(index_of(fkeys, a, 0) == Some(0int));
    assert(index_of(fkeys, b, 1) == Some(1int));
    assert(index_of(fkeys, b, 0) == Some(1int));
    assert(env[0].1 is Some && env[1].1 is Some);
    assert(fin_r[0].1 == os_value(os, b) && fin_r[1].1 == os_value(os, a));
    assert(output_upto(env, fin_r, 0) == Seq::<(Seq<char>, Seq<char>)>::empty());
    assert(output_upto(env, fin_r, 1) == Seq::<(Seq<char>, Seq<char>)>::empty().push((a, fin_r[0].1)));
    assert(output_upto(env, fin_r, 1) =~= seq![(a, os_value(os, b))]);
    assert(output_upto(env, fin_r, 2) =~= seq![(a, os_value(os, b)), (b, os_value(os, a))]);
}

/// No `$`, `@` or `{` in the text.
pub open spec fn clean(s: Seq<char>) -> bool {
    forall|k: int| 0 <= k < s.len() ==> s[k] != '$' && s[k] != '@' && #[trigger] s[k] != '{'
}

/// Every `$`, `@` and `{` of `t`, from `i` on, belongs to a reference.
pub open spec fn plain_from(t: Seq<char>, i: int) -> bool
    decreases t.len() - i,
    via plain_from_decreases
{
    if i < 0 || i >= t.len() {
        true
    } else {
        match input_ref_at(t, i) {
            Some((n, e)) => plain_from(t, e),
            None => match env_ref_at(t, i) {
                Some((n, e)) => plain_from(t, e),
                None => t[i] != '$' && t[i] != '@' && t[i] != '{' && plain_from(t, i + 1),
            },
        }
    }
}

#[via_fn]
proof fn plain_from_decreases(t: Seq<char>, i: int) {
    lemma_name_end(t, i + 10, false);
    lemma_name_end(t, i + 3, true);
}

/// Every `$`, `@` and `{` of `t`, from `i` on, belongs to an environment reference.
pub open spec fn plain_env_from(t: Seq<char>, i: int) -> bool
    decreases t.len() - i,
    via plain_env_from_decreases
{
    if i < 0 || i >= t.len() {
        true
    } else {
        match env_ref_at(t, i) {
            Some((n, e)) => plain_env_from(t, e),
            None => t[i] != '$' && t[i] != '@' && t[i] != '{' && plain_env_from(t, i + 1),
        }
    }
}

#[via_fn]
proof fn plain_env_from_decreases(t: Seq<char>, i: int) {
    lemma_name_end(t, i + 3, true);
}

proof fn lemma_clean_concat(a: Seq<char>, b: Seq<char>)
    requires
        clean(a),
        clean(b),
    ensures
        clean(a + b),
{
    assert forall|k: int| 0 <= k < (a + b).len() implies (a + b)[k] != '$' && (a + b)[k] != '@'
        && #[trigger] (a + b)[k] != '{' by {
        if k < a.len() {
            assert((a + b)[k] == a[k]);
        } else {
            assert((a + b)[k] == b[k - a.len()]);
        }
    }
}

proof fn lemma_name_end_shift(a: Seq<char>, b: Seq<char>, m: int, env: bool)
    requires
        0 <= m,
    ensures
        name_end(a + b, a.len() + m, env) == a.len() + name_end(b, m, env),
    decreases b.len() - m,
{
    if m < b.len() {
        assert((a + b)[a.len() + m] == b[m]);
        if is_name_char(b[m], env) {
            lemma_name_end_shift(a, b, m + 1, env);
        }
    }
}

proof fn lemma_env_ref_shift(a: Seq<char>, b: Seq<char>, k: int)
    requires
        0 <= k,
    ensures
        env_ref_at(a + b, a.len() + k) == match env_ref_at(b, k) {
            Some((n, e)) => Some((n, e + a.len())),
            None => None,
        },
{
    let t = a + b;
    let i = a.len() + k;
    if k + 2 < b.len() {
        assert(t[i] == b[k] && t[i + 1] == b[k + 1] && t[i + 2] == b[k + 2]);
        lemma_name_end_shift(a, b, k + 3, true);
        lemma_name_end(b, k + 3, true);
        let q = name_end(b, k + 3, true);
        if q < b.len() {
            assert(t[a.len() + q] == b[q]);
            assert(t.subrange(i + 2, a.len() + q) =~= b.subrange(k + 2, q));
        }
    }
}

proof fn lemma_plain_env_shift(a: Seq<char>, b: Seq<char>, k: int)
    requires
        0 <= k,
    ensures
        plain_env_from(a + b, a.len() + k) == plain_env_from(b, k),
    decreases b.len() - k,
{
    if k < b.len() {
        lemma_env_ref_shift(a, b, k);
        assert((a + b)[a.len() + k] == b[k]);
        match env_ref_at(b, k) {
            Some((n, e)) => {
                lemma_name_end(b, k + 3, true);
                lemma_plain_env_shift(a, b, e);
            },
            None => lemma_plain_env_shift(a, b, k + 1),
        }
    }
}

proof fn lemma_plain_env_clean_prefix(a: Seq<char>, b: Seq<char>, k: int)
    requires
        0 <= k <= a.len(),
        clean(a),
        plain_env_from(b, 0),
    ensures
        plain_env_from(a + b, k),
    decreases a.len() - k,
{
    if k < a.len() {
        assert((a + b)[k] == a[k]);
        assert(env_ref_at(a + b, k) is None);
        lemma_plain_env_clean_prefix(a, b, k + 1);
    } else {
        lemma_plain_env_shift(a, b, 0);
    }
}

proof fn lemma_plain_env_ref_prefix(v: Seq<char>, i: int, r: Seq<char>)
    requires
        0 <= i,
        env_ref_at(v, i) is Some,
        plain_env_from(r, 0),
    ensures
        plain_env_from(v.subrange(i, (env_ref_at(v, i)->0).1) + r, 0),
{
    let (n, e) = env_ref_at(v, i)->0;
    let piece = v.subrange(i, e);
    let t = piece + r;
    lemma_name_end(v, i + 3, true);
    let q = e - 1 - i;
    assert(piece.len() == q + 1);
    assert forall|m: int| 3 <= m < q implies is_name_char(#[trigger] t[m], true) by {
        assert(t[m] == v[i + m]);
    }
    assert(t[q] == '}');
    lemma_name_end_run(t, 3, q, true);
    assert(t[0] == '$' && t[1] == '{' && t[2] == v[i + 2]);
    assert(t.subrange(2, q) =~= v.subrange(i + 2, e - 1));
    assert(env_ref_at(t, 0) == Some((n, q + 1)));
    lemma_plain_env_shift(piece, r, 0);
}

/// Substituting the inputs of a text whose `$`, `@` and `{` all belong to
/// references, with values free of them, leaves a text whose `$`, `@` and `{`
/// all belong to environment references.
proof fn lemma_inputs_leave_env_refs(v: Seq<char>, i: int, fin: spec_fn(Seq<char>) -> Seq<char>)
    requires
        0 <= i,
        plain_from(v, i),
        forall|n: Seq<char>| clean(#[trigger] fin(n)),
    ensures
        plain_env_from(render_from(v, i, fin, keep_env()), 0),
    decreases v.len() - i,
{
    if i < v.len() {
        lemma_name_end(v, i + 10, false);
        lemma_name_end(v, i + 3, true);
        let rest_at = |e: int| render_from(v, e, fin, keep_env());
        match input_ref_at(v, i) {
            Some((n, e)) => {
                lemma_inputs_leave_env_refs(v, e, fin);
                lemma_plain_env_clean_prefix(fin(n), rest_at(e), 0);
            },
            None => match env_ref_at(v, i) {
                Some((n, e)) => {
                    lemma_inputs_leave_env_refs(v, e, fin);
                    lemma_plain_env_ref_prefix(v, i, rest_at(e));
                },
                None => {
                    lemma_inputs_leave_env_refs(v, i + 1, fin);
                    lemma_plain_env_clean_prefix(seq![v[i]], rest_at(i + 1), 0);
                },
            },
        }
    }
}

proof fn lemma_subst_env_clean(t: Seq<char>, i: int, fenv: spec_fn(Seq<char>) -> Option<Seq<char>>)
    requires
        0 <= i,
        plain_env_from(t, i),
        !kept_env_from(t, i, fenv),
        forall|n: Seq<char>| clean_found(#[trigger] fenv(n)),
    ensures
        clean(subst_env_from(t, i, fenv)),
    decreases t.len() - i,
{
    if i < t.len() {
        lemma_name_end(t, i + 3, true);
        match env_ref_at(t, i) {
            Some((n, e)) => {
                lemma_subst_env_clean(t, e, fenv);
                lemma_clean_concat(fenv(n)->0, subst_env_from(t, e, fenv));
            },
            None => {
                lemma_subst_env_clean(t, i + 1, fenv);
                lemma_clean_concat(seq![t[i]], subst_env_from(t, i + 1, fenv));
            },
        }
    }
}

proof fn lemma_os_never_kept(t: Seq<char>, i: int, os: Seq<(String, String)>)
    requires
        0 <= i,
    ensures
        !kept_env_from(t, i, os_env(os)),
    decreases t.len() - i,
{
    if i < t.len() {
        lemma_name_end(t, i + 3, true);
        match env_ref_at(t, i) {
            Some((n, e)) => lemma_os_never_kept(t, e, os),
            None => lemma_os_never_kept(t, i + 1, os),
        }
    }
}

proof fn lemma_plain_unmarked_clean(t: Seq<char>, i: int)
    requires
        0 <= i,
        plain_from(t, i),
        !has_marker(t),
    ensures
        forall|k: int| i <= k < t.len() ==> t[k] != '$' && t[k] != '@' && #[trigger] t[k] != '{',
    decreases t.len() - i,
{
    if i < t.len() {
        if input_ref_at(t, i) is Some {
            assert(t.subrange(i, i + 9)[0] == t[i] && t.subrange(i, i + 9)[1] == t[i + 1]);
            assert(marker_at(t, i));
        } else if env_ref_at(t, i) is Some {
            assert(marker_at(t, i));
        } else {
            lemma_plain_unmarked_clean(t, i + 1);
        }
    }
}

pub open spec fn clean_found(o: Option<Seq<char>>) -> bool {
    match o {
        Some(v) => clean(v),
        None => true,
    }
}

pub open spec fn opt_clean(o: Option<String>) -> bool {
    match o {
        Some(v) => clean(v@),
        None => true,
    }
}

pub open spec fn opt_plain(o: Option<String>) -> bool {
    match o {
        Some(v) => plain_from(v@, 0),
        None => true,
    }
}

pub open spec fn all_clean(r: Pairs) -> bool {
    forall|k: int| 0 <= k < r.len() ==> clean(#[trigger] r[k].1)
}

pub open spec fn all_plain_env(p: Pairs) -> bool {
    forall|k: int| 0 <= k < p.len() ==> plain_env_from(#[trigger] p[k].1, 0)
}

proof fn lemma_input_values_clean(inputs: Seq<(String, CommandSchemaInput)>, cli: Seq<(String, Option<String>)>)
    requires
        forall|k: int| 0 <= k < inputs.len() ==> opt_clean(#[trigger] inputs[k].1.default),
        forall|k: int| 0 <= k < cli.len() ==> opt_clean(#[trigger] cli[k].1),
    ensures
        forall|n: Seq<char>| clean(#[trigger] input_lookup(inputs, cli)(n)),
{
    assert forall|n: Seq<char>| clean(#[trigger] input_lookup(inputs, cli)(n)) by {
        reveal_strlit("true");
        reveal_strlit("false");
        lemma_index_of(keys_of(inputs), n, 0);
        lemma_index_of(keys_of(cli), n, 0);
        match index_of(keys_of(inputs), n, 0) {
            Some(i) => {
                assert(opt_clean(inputs[i].1.default));
                match index_of(keys_of(cli), n, 0) {
                    Some(g) => assert(opt_clean(cli[g].1)),
                    None => {},
                }
            },
            None => {},
        }
    }
}

proof fn lemma_split_ok(
    env: Seq<(String, Option<String>)>,
    inputs: Seq<(String, CommandSchemaInput)>,
    cli: Seq<(String, Option<String>)>,
    n: int,
)
    requires
        forall|k: int| 0 <= k < env.len() ==> opt_plain(#[trigger] env[k].1),
        forall|n: Seq<char>| clean(#[trigger] input_lookup(inputs, cli)(n)),
        n <= env.len(),
    ensures
        all_clean(split_upto(env, inputs, cli, n).0),
        all_plain_env(split_upto(env, inputs, cli, n).1),
    decreases n,
{
    if n > 0 {
        lemma_split_ok(env, inputs, cli, n - 1);
        match env[n - 1].1 {
            Some(v) => {
                assert(opt_plain(env[n - 1].1));
                if !has_marker(v@) {
                    lemma_plain_unmarked_clean(v@, 0);
                } else {
                    lemma_inputs_leave_env_refs(v@, 0, input_lookup(inputs, cli));
                }
            },
            None => {},
        }
    }
}

proof fn lemma_pass_env_clean(r: Pairs, p: Pairs, os: Seq<(String, String)>)
    requires
        all_clean(r),
        forall|k: int| 0 <= k < os.len() ==> clean((#[trigger] os[k]).1@),
    ensures
        forall|n: Seq<char>| clean_found(#[trigger] pass_env(r, p, os)(n)),
{
    assert forall|n: Seq<char>| clean_found(#[trigger] pass_env(r, p, os)(n)) by {
        let keys = r.map_values(|q: (Seq<char>, Seq<char>)| q.0);
        lemma_index_of(keys, n, 0);
        lemma_index_of(keys_of(os), n, 0);
        match index_of(keys, n, 0) {
            Some(i) => {
                assert(clean(r[i].1));
            },
            None => {
                match index_of(keys_of(os), n, 0) {
                    Some(i) => assert(clean(os[i].1@)),
                    None => {},
                }
            },
        }
    }
}

proof fn lemma_os_env_clean(os: Seq<(String, String)>)
    requires
        forall|k: int| 0 <= k < os.len() ==> clean((#[trigger] os[k]).1@),
    ensures
        forall|n: Seq<char>| clean_found(#[trigger] os_env(os)(n)),
{
    assert forall|n: Seq<char>| clean_found(#[trigger] os_env(os)(n)) by {
        lemma_index_of(keys_of(os), n, 0);
        match index_of(keys_of(os), n, 0) {
            Some(i) => assert(clean(os[i].1@)),
            None => {},
        }
    }
}

proof fn lemma_pass_ok(r0: Pairs, pending: Pairs, os: Seq<(String, String)>, m: int)
    requires
        0 <= m <= pending.len(),
        all_clean(r0),
        all_plain_env(pending),
        forall|k: int| 0 <= k < os.len() ==> clean((#[trigger] os[k]).1@),
    ensures
        all_clean(pass_upto(r0, pending, os, m).0),
        all_plain_env(pass_upto(r0, pending, os, m).1),
    decreases m,
{
    if m > 0 {
        lemma_pass_ok(r0, pending, os, m - 1);
        let (r, p) = pass_upto(r0, pending, os, m - 1);
        let (k, v) = pending[m - 1];
        assert(plain_env_from(v, 0));
        let fenv = pass_env(r, pending, os);
        if !kept_env_from(v, 0, fenv) {
            lemma_pass_env_clean(r, pending, os);
            lemma_subst_env_clean(v, 0, fenv);
        }
    }
}

proof fn lemma_force_ok(r: Pairs, pending: Pairs, os: Seq<(String, String)>, m: int)
    requires
        0 <= m <= pending.len(),
        all_clean(r),
        all_plain_env(pending),
        forall|k: int| 0 <= k < os.len() ==> clean((#[trigger] os[k]).1@),
    ensures
        all_clean(force_upto(r, pending, os, m)),
    decreases m,
{
    if m > 0 {
        lemma_force_ok(r, pending, os, m - 1);
        assert(plain_env_from(pending[m - 1].1, 0));
        lemma_os_never_kept(pending[m - 1].1, 0, os);
        lemma_os_env_clean(os);
        lemma_subst_env_clean(pending[m - 1].1, 0, os_env(os));
    }
}

proof fn lemma_run_ok(r: Pairs, p: Pairs, os: Seq<(String, String)>, fuel: nat)
    requires
        all_clean(r),
        all_plain_env(p),
        forall|k: int| 0 <= k < os.len() ==> clean((#[trigger] os[k]).1@),
    ensures
        all_clean(run_passes(r, p, os, fuel)),
    decreases fuel,
{
    if p.len() > 0 {
        lemma_force_ok(r, p, os, p.len() as int);
        if fuel > 0 {
            lemma_pass_ok(r, p, os, p.len() as int);
            let (r2, p2) = pass_upto(r, p, os, p.len() as int);
            lemma_run_ok(r2, p2, os, (fuel - 1) as nat);
        }
    }
}

proof fn lemma_output_ok(env: Seq<(String, Option<String>)>, fin_r: Pairs, n: int)
    requires
        all_clean(fin_r),
    ensures
        all_clean(output_upto(env, fin_r, n)),
    decreases n,
{
    if n > 0 {
        lemma_output_ok(env, fin_r, n - 1);
        lemma_index_of(fin_r.map_values(|q: (Seq<char>, Seq<char>)| q.0), env[n - 1].0@, 0);
    }
}

/// Every value that comes out of an environment block is fully substituted:
/// no `${` or `@{` (indeed no `$`, `@` or `{`) is left, whatever the
/// references between entries, cycles and chains longer than the bound
/// included. This holds for blocks whose `$`, `@` and `{` all belong to
/// references, resolved against inputs, command-line values and OS variables
/// free of those characters.
pub proof fn lemma_environment_fully_substituted(
    env: Seq<(String, Option<String>)>,
    inputs: Seq<(String, CommandSchemaInput)>,
    cli: Seq<(String, Option<String>)>,
    os: Seq<(String, String)>,
)
    requires
        forall|k: int| 0 <= k < env.len() ==> opt_plain(#[trigger] env[k].1),
        forall|k: int| 0 <= k < inputs.len() ==> opt_clean(#[trigger] inputs[k].1.default),
        forall|k: int| 0 <= k < cli.len() ==> opt_clean(#[trigger] cli[k].1),
        forall|k: int| 0 <= k < os.len() ==> clean((#[trigger] os[k]).1@),
    ensures
        forall|k: int| 0 <= k < resolve_environment(env, inputs, cli, os).len() ==> {
            let v = (#[trigger] resolve_environment(env, inputs, cli, os)[k]).1;
            clean(v) && !has_marker(v)
        },
{
    lemma_input_values_clean(inputs, cli);
    let (r, p) = split_upto(env, inputs, cli, env.len() as int);
    lemma_split_ok(env, inputs, cli, env.len() as int);
    lemma_run_ok(r, p, os, MAX_ITERATIONS as nat);
    let fin_r = run_passes(r, p, os, MAX_ITERATIONS as nat);
    lemma_output_ok(env, fin_r, env.len() as int);
    let out = resolve_environment(env, inputs, cli, os);
    assert forall|k: int| 0 <= k < out.len() implies {
        let v = (#[trigger] out[k]).1;
        clean(v) && !has_marker(v)
    } by {
        let v = out[k].1;
        assert(clean(v));
        if has_marker(v) {
            let j = choose|j: int| 0 <= j < v.len() - 1 && #[trigger] marker_at(v, j);
            assert(v[j] != '$' && v[j] != '@');
        }
    }
}

// ---------------------------------------------------------------------------
// Command-line flags of the inputs
/// `s` without its leading dashes.
pub open spec fn strip_dashes(s: Seq<char>) -> Seq<char>
    decreases s.len(),
{
    if s.len() > 0 && s[0] == '-' {
        strip_dashes(s.drop_first())
    } else {
        s
    }
}

fn strip_dashes_of(s: &str) -> (r: String)
    ensures
        r@ == strip_dashes(s@),
{
    let v = chars_of(s);
    let mut i: usize = 0;
    assert(v@.subrange(0, v@.len() as int) =~= v@);
    while i < v.len() && v[i] == '-'
        invariant
            i <= v@.len(),
            v@ == s@,
            strip_dashes(s@) == strip_dashes(v@.subrange(i as int, v@.len() as int)),
        decreases v@.len() - i,
    {
        assert(v@.subrange(i as int, v@.len() as int).drop_first() =~= v@.subrange(i + 1, v@.len() as int));
        i = i + 1;
    }
    assert(strip_dashes(v@.subrange(i as int, v@.len() as int)) == v@.subrange(i as int, v@.len() as int));
    let mut out = String::new();
    let mut k: usize = i;
    while k < v.len()
        invariant
            i <= k <= v@.len(),
            out@ == v@.subrange(i as int, k as int),
        decreases v@.len() - k,
    {
        crate::text::push_char(&mut out, v[k]);
        k = k + 1;
        assert(out@ =~= v@.subrange(i as int, k as int));
    }
    out
}

/// The long flag of an input: its `long`, without dashes, else its name.
pub fn long_flag(name: &String, input: &CommandSchemaInput) -> (r: String)
    ensures
        r@ == match input.long {
            Some(l) => strip_dashes(l@),
            None => name@,
        },
{
    match &input.long {
        Some(l) => strip_dashes_of(l.as_str()),
        None => name.clone(),
    }
}

/// The short flag of an input, without dashes; empty when it has none.
pub fn short_flag(input: &CommandSchemaInput) -> (r: String)
    ensures
        r@ == match input.short {
            Some(s) => strip_dashes(s@),
            None => Seq::<char>::empty(),
        },
{
    match &input.short {
        Some(s) => strip_dashes_of(s.as_str()),
        None => String::new(),
    }
}

/// A boolean input is a bare flag; any other takes a value.
pub fn takes_value(input: &CommandSchemaInput) -> (r: bool)
    ensures
        r == !is_bool_type(input.input_type@),
{
    let ty = input.input_type.as_str();
    !(str_eq(ty, "bool") || str_eq(ty, "boolean"))
}

} // verus!
