//! Turning a read and parsed command file into a checked schema, or into a
//! located error.
use vstd::prelude::*;
use vstd::string::*;
use vstd::utf8::encode_utf8;
use crate::errors::{CommandError, Span};
use crate::scan::{line_end, line_end_at, lemma_line_end};
use crate::schema::CommandSchema;
use crate::validation::{SchemaValidator, schema_findings};

verus! {

/// Why reading a command file failed.
#[derive(Debug, Clone, Copy, PartialEq, Eq)]
pub enum ReadFailure {
    NotFound,
    PermissionDenied,
    Other,
}

/// The error for a command file that could not be read.
pub fn read_error(path: String, failure: ReadFailure) -> (r: CommandError)
    ensures
        r == match failure {
            ReadFailure::NotFound => CommandError::FileNotFound { path },
            ReadFailure::PermissionDenied => CommandError::FilePermissionDenied { path },
            ReadFailure::Other => CommandError::FileReadError { path },
        },
{
    match failure {
        ReadFailure::NotFound => CommandError::FileNotFound { path },
        ReadFailure::PermissionDenied => CommandError::FilePermissionDenied { path },
        ReadFailure::Other => CommandError::FileReadError { path },
    }
}

/// Byte offset where line `k` (counted from 0) starts.
pub open spec fn line_start(t: Seq<u8>, k: nat) -> int
    decreases k,
{
    if k == 0 {
        0
    } else {
        let p = line_start(t, (k - 1) as nat);
        if p >= t.len() {
            p
        } else {
            line_end(t, p) + 1
        }
    }
}

/// What the line starting at `p` counts: its length as `str::lines` gives it
/// (without the `\r` of a `\r\n` ending) plus one; nothing past the text.
pub open spec fn line_weight(t: Seq<u8>, p: int) -> int {
    if p < 0 || p >= t.len() {
        0
    } else {
        let e = line_end(t, p);
        (if e < t.len() && e > p && t[e - 1] == 13u8 {
            e - 1 - p
        } else {
            e - p
        }) + 1
    }
}

/// The weights of the first `k` lines, summed.
pub open spec fn summed_lines(t: Seq<u8>, k: nat) -> int
    decreases k,
{
    if k == 0 {
        0
    } else {
        summed_lines(t, (k - 1) as nat) + line_weight(t, line_start(t, (k - 1) as nat))
    }
}

proof fn lemma_line_start(t: Seq<u8>, k: nat)
    ensures
        0 <= line_start(t, k) <= t.len() + 1,
        0 <= line_weight(t, line_start(t, k)),
        line_start(t, k) >= t.len() ==> line_start(t, k + 1) >= t.len(),
    decreases k,
{
    if k > 0 {
        lemma_line_start(t, (k - 1) as nat);
        let q = line_start(t, (k - 1) as nat);
        if q < t.len() {
            lemma_line_end(t, q);
        }
    }
    let p = line_start(t, k);
    if 0 <= p < t.len() {
        lemma_line_end(t, p);
    }
}

/// The offset a parser's 1-based line and 0-based column point at: the lines
/// before it summed (each its length plus one) and the column, capped at the
/// largest `usize`.
pub open spec fn location_offset(t: Seq<u8>, line: nat, column: nat) -> int {
    let k = if line == 0 {
        0nat
    } else {
        (line - 1) as nat
    };
    let o = summed_lines(t, k) + column;
    if o > usize::MAX {
        usize::MAX as int
    } else {
        o
    }
}

/// Where a parser's 1-based line and 0-based column point in `text`.
pub fn location_to_offset(text: &str, line: usize, column: usize) -> (r: usize)
    ensures
        r == location_offset(text.spec_bytes(), line as nat, column as nat),
{
    let t = text.as_bytes();
    let k: usize = if line == 0 {
        0
    } else {
        line - 1
    };
    let mut p: usize = 0;
    let mut past = t.len() == 0;
    let mut sum: usize = 0;
    let mut saturated = false;
    let mut i: usize = 0;
    while i < k
        invariant
            i <= k,
            past ==> line_start(t@, i as nat) >= t@.len(),
            !past ==> p == line_start(t@, i as nat) && p < t@.len(),
            saturated ==> summed_lines(t@, i as nat) > usize::MAX,
            !saturated ==> sum == summed_lines(t@, i as nat),
        decreases k - i,
    {
        proof {
            lemma_line_start(t@, i as nat);
        }
        if !past {
            let e = line_end_at(t, p);
            let len = if e < t.len() && e > p && t[e - 1] == 13u8 {
                e - 1 - p
            } else {
                e - p
            };
            assert(line_weight(t@, p as int) == len + 1);
            if !saturated {
                if len >= usize::MAX - sum {
                    saturated = true;
                } else {
                    sum = sum + len + 1;
                }
            }
            if e >= t.len() - 1 {
                past = true;
            } else {
                p = e + 1;
            }
        } else {
            assert(line_weight(t@, line_start(t@, i as nat)) == 0);
        }
        i = i + 1;
    }
    if saturated || column > usize::MAX - sum {
        usize::MAX
    } else {
        sum + column
    }
}

/// The error for text that does not parse as a command file: `location` is the
/// parser's 1-based line and 0-based column, when it gives one.
pub fn yaml_syntax_error(path: String, text: String, location: Option<(usize, usize)>, message: String) -> (r:
    CommandError)
    ensures
        r == (CommandError::YamlSyntaxError {
            path,
            source: text,
            span: Span {
                offset: match location {
                    Some((l, c)) => location_offset(encode_utf8(text@), l as nat, c as nat) as usize,
                    None => 0,
                },
                length: 1,
            },
            message,
        }),
{
    let offset = match location {
        Some((l, c)) => location_to_offset(text.as_str(), l, c),
        None => 0,
    };
    CommandError::YamlSyntaxError { path, source: text, span: Span { offset, length: 1 }, message }
}

/// Validates a parsed command file against its raw text: the schema comes
/// back when there is no finding, else every finding does.
pub fn check_command_file(path: String, text: String, schema: CommandSchema) -> (r: Result<CommandSchema, CommandError>)
    ensures
        ({
            let all = schema_findings(encode_utf8(text@), schema);
            match r {
                Ok(s) => all.len() == 0 && s == schema,
                Err(CommandError::ValidationErrors { path: p, errors, error_count }) => {
                    &&& all.len() > 0
                    &&& errors@ == all
                    &&& error_count == all.len()
                    &&& p == path
                },
                Err(_) => false,
            }
        }),
{
    let mut validator = SchemaValidator::new(text, path);
    match validator.validate(&schema) {
        Ok(()) => Ok(schema),
        Err(e) => Err(e),
    }
}

} // verus!
