//! Errors and diagnostics of the command-file pipeline.
use vstd::prelude::*;

verus! {

/// A one-byte range of the raw text that a diagnostic points at.
#[derive(Debug, Clone, Copy, PartialEq, Eq)]
pub struct Span {
    pub offset: usize,
    pub length: usize,
}

/// A structural finding of the schema validator.
#[derive(Debug, Clone, PartialEq, Eq)]
pub enum ValidationError {
    VersionInvalid { found: String, span: Span },
    NameEmpty { span: Span },
    InputTypeEmpty { input_name: String, found: String, span: Span },
    InputTypeInvalid { input_name: String, found: String, span: Span },
    SecretRequiresString {
        input_name: String,
        input_type: String,
        secret_span: Span,
        type_span: Span,
    },
    ChoiceRequiresOptions { input_name: String, span: Span },
    OptionsOnlyForChoice { input_name: String, input_type: String, span: Span },
    StepsEmpty { span: Span },
    StepIdEmpty { index: usize, span: Span },
    StepIdWhitespace { step_id: String, span: Span },
    StepIdDuplicate {
        step_id: String,
        first_span: Span,
        second_span: Span,
        first_index: usize,
        second_index: usize,
    },
    StepRunMissing { step_id: String, span: Span },
    StepRunMutuallyExclusive { step_id: String, command_span: Span, script_span: Span },
}

/// Why a command file could not be loaded.
#[derive(Debug, Clone, PartialEq, Eq)]
pub enum CommandError {
    /// The text `source` is not a command file; `span` points where the parser
    /// stopped.
    YamlSyntaxError { path: String, source: String, span: Span, message: String },
    /// Every structural finding of the file, in one batch.
    ValidationErrors { path: String, errors: Vec<ValidationError>, error_count: usize },
    FileNotFound { path: String },
    FilePermissionDenied { path: String },
    FileReadError { path: String },
}

} // verus!
