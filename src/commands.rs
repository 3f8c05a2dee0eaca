//! Help metadata of the command-line subcommands.
use vstd::prelude::*;

verus! {

/// What the help screen shows of a subcommand.
#[derive(Debug, Clone, Copy, PartialEq, Eq)]
pub struct BaseCommand {
    pub name: &'static str,
    pub description: &'static str,
    pub synopsis: &'static str,
    pub options: &'static str,
    pub usage: &'static str,
}

impl BaseCommand {
    /// All five texts are the given ones.
    pub open spec fn shows(&self, name: &str, description: &str, synopsis: &str, options: &str, usage: &str) -> bool {
        &&& self.name@ == name@
        &&& self.description@ == description@
        &&& self.synopsis@ == synopsis@
        &&& self.options@ == options@
        &&& self.usage@ == usage@
    }
}

pub const CONFIG_NAME: &'static str = "minici config";

pub const CONFIG_DESCRIPTION: &'static str = "Opens the configuration file in the default editor.";

pub const CONFIG_SYNOPSIS: &'static str = "minici config";

pub const CONFIG_OPTIONS: &'static str = "None";

pub const CONFIG_USAGE: &'static str = "
    minici config
                ";

pub struct ConfigCommand {
    pub base: BaseCommand,
}

impl ConfigCommand {
    pub fn new() -> (r: Self)
        ensures
            r.base.shows(CONFIG_NAME, CONFIG_DESCRIPTION, CONFIG_SYNOPSIS, CONFIG_OPTIONS, CONFIG_USAGE),
    {
        ConfigCommand {
            base: BaseCommand {
                name: CONFIG_NAME,
                description: CONFIG_DESCRIPTION,
                synopsis: CONFIG_SYNOPSIS,
                options: CONFIG_OPTIONS,
                usage: CONFIG_USAGE,
            },
        }
    }
}

pub const EDIT_NAME: &'static str = "mci edit";

pub const EDIT_DESCRIPTION: &'static str = "Edit given command with the default editor.";

pub const EDIT_SYNOPSIS: &'static str = "mci edit <command>...";

pub const EDIT_OPTIONS: &'static str = "
    <command>...        (argument)
    Path to a command to edit in the default editor (e.g., 'project deploy').
                ";

pub const EDIT_USAGE: &'static str = "
    mci edit project deploy     # Opens `.../project/deploy.yml` command
                                # in the default editor
                ";

pub struct EditCommand {
    pub base: BaseCommand,
}

impl EditCommand {
    pub fn new() -> (r: Self)
        ensures
            r.base.shows(EDIT_NAME, EDIT_DESCRIPTION, EDIT_SYNOPSIS, EDIT_OPTIONS, EDIT_USAGE),
    {
        EditCommand {
            base: BaseCommand {
                name: EDIT_NAME,
                description: EDIT_DESCRIPTION,
                synopsis: EDIT_SYNOPSIS,
                options: EDIT_OPTIONS,
                usage: EDIT_USAGE,
            },
        }
    }
}

pub const FETCH_NAME: &'static str = "mici fetch";

pub const FETCH_DESCRIPTION: &'static str = "
    Synchronizes and updates local commands by cloning from a specified remote
    repository.
                ";

pub const FETCH_SYNOPSIS: &'static str = "mici fetch [options]";

pub const FETCH_OPTIONS: &'static str = "
    -b, --branch <name>     (option)
    Specify the branch to fetch and use for updating local commands.
    Defaults to the repository's default branch if not provided.
                ";

pub const FETCH_USAGE: &'static str = "
    mici fetch           # Fetches default branch from remote
    mici fetch -b dev    # Fetches `dev` branch from remote
                ";

pub struct FetchCommand {
    pub base: BaseCommand,
}

impl FetchCommand {
    pub fn new() -> (r: Self)
        ensures
            r.base.shows(FETCH_NAME, FETCH_DESCRIPTION, FETCH_SYNOPSIS, FETCH_OPTIONS, FETCH_USAGE),
    {
        FetchCommand {
            base: BaseCommand {
                name: FETCH_NAME,
                description: FETCH_DESCRIPTION,
                synopsis: FETCH_SYNOPSIS,
                options: FETCH_OPTIONS,
                usage: FETCH_USAGE,
            },
        }
    }
}

pub const INIT_NAME: &'static str = "mici init";

pub const INIT_DESCRIPTION: &'static str = "Initializes a new mici project or reconfigures an existing setup.";

pub const INIT_SYNOPSIS: &'static str = "mici init [options]";

pub const INIT_OPTIONS: &'static str = "
    --clean     (flag)
    Remove any existing mici configuration and perform a fresh setup.
    Use this to reset your environment.
                ";

pub const INIT_USAGE: &'static str = "
    mici init            # Initialize a new project if it doesn't exist
    mici init --clean    # Initialize a new project from scratch
                ";

pub struct InitCommand {
    pub base: BaseCommand,
}

impl InitCommand {
    pub fn new() -> (r: Self)
        ensures
            r.base.shows(INIT_NAME, INIT_DESCRIPTION, INIT_SYNOPSIS, INIT_OPTIONS, INIT_USAGE),
    {
        InitCommand {
            base: BaseCommand {
                name: INIT_NAME,
                description: INIT_DESCRIPTION,
                synopsis: INIT_SYNOPSIS,
                options: INIT_OPTIONS,
                usage: INIT_USAGE,
            },
        }
    }
}

pub const NEW_NAME: &'static str = "mici new";

pub const NEW_DESCRIPTION: &'static str = "Creates a new command from a template.";

pub const NEW_SYNOPSIS: &'static str = "mici new [<command>...]";

pub const NEW_OPTIONS: &'static str = "
    <command>...        (argument)
    The path for the new command (e.g., 'project deploy').

    If omitted, you will be prompted for the path.
                ";

pub const NEW_USAGE: &'static str = "
    mici new             # Prompts for creating a new command
    mici new deploy      # Creates a command without prompting at given path
                        # (i.e., .../deploy.yml)
                ";

pub struct NewCommand {
    pub base: BaseCommand,
}

impl NewCommand {
    pub fn new() -> (r: Self)
        ensures
            r.base.shows(NEW_NAME, NEW_DESCRIPTION, NEW_SYNOPSIS, NEW_OPTIONS, NEW_USAGE),
    {
        NewCommand {
            base: BaseCommand {
                name: NEW_NAME,
                description: NEW_DESCRIPTION,
                synopsis: NEW_SYNOPSIS,
                options: NEW_OPTIONS,
                usage: NEW_USAGE,
            },
        }
    }
}

pub const VALIDATE_NAME: &'static str = "mici validate";

pub const VALIDATE_DESCRIPTION: &'static str = "Validate the given command's specification.";

pub const VALIDATE_SYNOPSIS: &'static str = "mici validate <command>...";

pub const VALIDATE_OPTIONS: &'static str = "
    <command>...        (argument)
    Path to a command to validate (e.g., 'project deploy').
                ";

pub const VALIDATE_USAGE: &'static str = "
    mici validate project deploy     # Validates `.../project/deploy.yml`
                ";

pub struct ValidateCommand {
    pub base: BaseCommand,
}

impl ValidateCommand {
    pub fn new() -> (r: Self)
        ensures
            r.base.shows(VALIDATE_NAME, VALIDATE_DESCRIPTION, VALIDATE_SYNOPSIS, VALIDATE_OPTIONS, VALIDATE_USAGE),
    {
        ValidateCommand {
            base: BaseCommand {
                name: VALIDATE_NAME,
                description: VALIDATE_DESCRIPTION,
                synopsis: VALIDATE_SYNOPSIS,
                options: VALIDATE_OPTIONS,
                usage: VALIDATE_USAGE,
            },
        }
    }
}

pub const LIST_NAME: &'static str = "minici list";

pub const LIST_DESCRIPTION: &'static str = "Displays all available commands, optionally filtered by directory.";

pub const LIST_SYNOPSIS: &'static str = "minici list [<directory>...]";

pub const LIST_OPTIONS: &'static str = "
    <directory>...      (argument)
    One or more directories to list available commands from.
    If omitted, lists commands from all available directories.
                ";

pub const LIST_USAGE: &'static str = "
    minici list
        [<directory>...]
                ";

pub struct ListCommand {
    pub base: BaseCommand,
}

impl ListCommand {
    pub fn new() -> (r: Self)
        ensures
            r.base.shows(LIST_NAME, LIST_DESCRIPTION, LIST_SYNOPSIS, LIST_OPTIONS, LIST_USAGE),
    {
        ListCommand {
            base: BaseCommand {
                name: LIST_NAME,
                description: LIST_DESCRIPTION,
                synopsis: LIST_SYNOPSIS,
                options: LIST_OPTIONS,
                usage: LIST_USAGE,
            },
        }
    }
}

pub const SEED_NAME: &'static str = "minici seed";

pub const SEED_DESCRIPTION: &'static str = "Used for populating the commands";

pub const SEED_SYNOPSIS: &'static str = "minici seed [options]";

pub const SEED_OPTIONS: &'static str = "
    -b, --branch     (option)
        Will take a string as branch to checkout and
        populate the commands from.
                ";

pub const SEED_USAGE: &'static str = "
    minici seed
        [-b, --branch <value>]
                ";

pub struct SeedCommand {
    pub base: BaseCommand,
}

impl SeedCommand {
    pub fn new() -> (r: Self)
        ensures
            r.base.shows(SEED_NAME, SEED_DESCRIPTION, SEED_SYNOPSIS, SEED_OPTIONS, SEED_USAGE),
    {
        SeedCommand {
            base: BaseCommand {
                name: SEED_NAME,
                description: SEED_DESCRIPTION,
                synopsis: SEED_SYNOPSIS,
                options: SEED_OPTIONS,
                usage: SEED_USAGE,
            },
        }
    }
}

} // verus!
