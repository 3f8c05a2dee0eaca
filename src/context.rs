//! The read-only snapshot that resolution and execution work from.
use vstd::prelude::*;
use crate::resolver::CliMatches;
use crate::schema::CommandSchema;

verus! {

/// Everything a run reads, captured once: the OS environment, the current
/// directory, the command and its raw text, and what the command line supplied.
#[derive(Debug, Clone)]
pub struct ExecutionContext {
    pub os_environment: Vec<(String, String)>,
    pub current_directory: String,
    pub matches: CliMatches,
    pub command: CommandSchema,
    /// Path of the command file.
    pub source_path: String,
    /// Raw text of the command file, which diagnostics point into.
    pub source_text: String,
    /// Where `script:` steps are looked up.
    pub scripts_directory: String,
    /// The platform's default shell is `powershell` rather than `bash`.
    pub windows: bool,
}

impl ExecutionContext {
    pub fn new(
        command: CommandSchema,
        matches: CliMatches,
        os_environment: Vec<(String, String)>,
        current_directory: String,
        source_path: String,
        source_text: String,
        scripts_directory: String,
        windows: bool,
    ) -> (r: Self)
        requires
            command.wf(),
        ensures
            r.command == command,
            r.matches == matches,
            r.os_environment == os_environment,
            r.current_directory == current_directory,
            r.source_path == source_path,
            r.source_text == source_text,
            r.scripts_directory == scripts_directory,
            r.windows == windows,
    {
        ExecutionContext {
            os_environment,
            current_directory,
            matches,
            command,
            source_path,
            source_text,
            scripts_directory,
            windows,
        }
    }
}

} // verus!
