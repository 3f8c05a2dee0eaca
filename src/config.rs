//! Global settings: the configuration file's model and its rendering.
use vstd::prelude::*;
use vstd::string::*;

verus! {

/// Timer style of log output.
#[derive(Debug, Clone, Copy, PartialEq, Eq, Structural)]
pub enum LogTimer {
    Wallclock,
    Uptime,
    Disabled,
}

/// Minimum level of log output.
#[derive(Debug, Clone, Copy, PartialEq, Eq, Structural)]
pub enum LogLevel {
    Info,
    Debug,
    Warn,
    Error,
    Trace,
    Off,
}

pub open spec fn timer_name(t: LogTimer) -> Seq<char> {
    match t {
        LogTimer::Wallclock => "wallclock"@,
        LogTimer::Uptime => "uptime"@,
        LogTimer::Disabled => "none"@,
    }
}

pub open spec fn level_name(l: LogLevel) -> Seq<char> {
    match l {
        LogLevel::Info => "info"@,
        LogLevel::Debug => "debug"@,
        LogLevel::Warn => "warn"@,
        LogLevel::Error => "error"@,
        LogLevel::Trace => "trace"@,
        LogLevel::Off => "off"@,
    }
}

impl Default for LogTimer {
    fn default() -> (r: Self)
        ensures
            r == LogTimer::Wallclock,
    {
        LogTimer::Wallclock
    }
}

impl Default for LogLevel {
    fn default() -> (r: Self)
        ensures
            r == LogLevel::Info,
    {
        LogLevel::Info
    }
}

impl LogTimer {
    /// The name used in the configuration file.
    pub fn as_str(&self) -> (r: &'static str)
        ensures
            r@ == timer_name(*self),
    {
        match self {
            LogTimer::Wallclock => "wallclock",
            LogTimer::Uptime => "uptime",
            LogTimer::Disabled => "none",
        }
    }
}

impl LogLevel {
    /// The name used in the configuration file.
    pub fn as_str(&self) -> (r: &'static str)
        ensures
            r@ == level_name(*self),
    {
        match self {
            LogLevel::Info => "info",
            LogLevel::Debug => "debug",
            LogLevel::Warn => "warn",
            LogLevel::Error => "error",
            LogLevel::Trace => "trace",
            LogLevel::Off => "off",
        }
    }
}

/// The global configuration file.
#[derive(Debug, Clone, PartialEq, Eq)]
pub struct InitConfiguration {
    pub upstream_url: Option<String>,
    pub upstream_cmd_path: Option<String>,
    pub disable_cli_color: Option<bool>,
    pub disable_pager: Option<bool>,
    pub log_timer: Option<LogTimer>,
    pub log_level: Option<LogLevel>,
}

pub const CONFIG_HEAD: &'static str = "##  ==================================================
##  mici Configuration
##  Global settings for all mici commands
##  ==================================================

##  Upstream Repository
#
#   upstream_url: String
#         [Optional]  default: null
#         Git repository URL where your commands are stored
#         Used by `mici fetch` to pull commands from a remote
#   upstream_cmd_path: String
#         [Optional]  default: null
#         Path to the commands directory within the repository
#
upstream_url: ";

pub const CONFIG_CMD_PATH: &'static str = "
upstream_cmd_path: ";

pub const CONFIG_TERMINAL: &'static str = "

##  Terminal Settings
#
#   disable_cli_color: bool
#         [Optional]  default: false
#         Disable colored output in the terminal
#   disable_pager: bool
#         [Optional]  default: false
#         Disable the pager for long output (e.g., help text)
#
disable_cli_color: ";

pub const CONFIG_PAGER: &'static str = "
disable_pager: ";

pub const CONFIG_LOGGING: &'static str = "

##  Logging
#
#   log_timer: String
#         [Optional]  default: \"wallclock\"
#         Timer style for tracing log output
#         Options:
#           \"wallclock\" - Full timestamps (e.g., 2026-02-23T14:30:00Z)
#           \"uptime\"    - Time since process start (e.g., 0.003s)
#           \"none\"      - No timestamps in log output
#   log_level: String
#         [Optional]  default: \"info\"
#         Minimum log level for tracing output
#         Options:
#           \"trace\" - Most verbose, includes all messages
#           \"debug\" - Detailed diagnostic messages
#           \"info\"  - General informational messages
#           \"warn\"  - Warning messages only
#           \"error\" - Error messages only
#           \"off\"   - Suppress all log output (silent mode)
#
log_timer: ";

pub const CONFIG_LEVEL: &'static str = "
log_level: ";

pub const CONFIG_TAIL: &'static str = "
";

/// A text setting: quoted, or `null` when unset.
pub open spec fn yaml_text(v: Option<String>) -> Seq<char> {
    match v {
        Some(s) => "\""@ + s@ + "\""@,
        None => "null"@,
    }
}

/// A switch: `true` only when set to true.
pub open spec fn yaml_bool(v: Option<bool>) -> Seq<char> {
    if v == Some(true) {
        "true"@
    } else {
        "false"@
    }
}

impl Default for InitConfiguration {
    /// Every setting unset.
    fn default() -> (r: Self)
        ensures
            r.upstream_url is None,
            r.upstream_cmd_path is None,
            r.disable_cli_color is None,
            r.disable_pager is None,
            r.log_timer is None,
            r.log_level is None,
    {
        InitConfiguration {
            upstream_url: None,
            upstream_cmd_path: None,
            disable_cli_color: None,
            disable_pager: None,
            log_timer: None,
            log_level: None,
        }
    }
}

impl InitConfiguration {
    /// The configuration file's text: every setting with its documentation,
    /// unset ones at their defaults (`null`, `false`, `wallclock`, `info`).
    pub open spec fn config_text(&self) -> Seq<char> {
        CONFIG_HEAD@ + yaml_text(self.upstream_url) + CONFIG_CMD_PATH@ + yaml_text(
            self.upstream_cmd_path,
        ) + CONFIG_TERMINAL@ + yaml_bool(self.disable_cli_color) + CONFIG_PAGER@ + yaml_bool(
            self.disable_pager,
        ) + CONFIG_LOGGING@ + match self.log_timer {
            Some(t) => timer_name(t),
            None => "wallclock"@,
        } + CONFIG_LEVEL@ + match self.log_level {
            Some(l) => level_name(l),
            None => "info"@,
        } + CONFIG_TAIL@
    }

    pub fn format_config_yaml(&self) -> (r: String)
        ensures
            r@ == self.config_text(),
    {
        let mut out = String::from_str(CONFIG_HEAD);
        push_text(&mut out, &self.upstream_url);
        out.append(CONFIG_CMD_PATH);
        push_text(&mut out, &self.upstream_cmd_path);
        out.append(CONFIG_TERMINAL);
        push_bool(&mut out, self.disable_cli_color);
        out.append(CONFIG_PAGER);
        push_bool(&mut out, self.disable_pager);
        out.append(CONFIG_LOGGING);
        match &self.log_timer {
            Some(t) => out.append(t.as_str()),
            None => out.append("wallclock"),
        }
        out.append(CONFIG_LEVEL);
        match &self.log_level {
            Some(l) => out.append(l.as_str()),
            None => out.append("info"),
        }
        out.append(CONFIG_TAIL);
        out
    }
}

fn push_text(out: &mut String, v: &Option<String>)
    ensures
        final(out)@ == old(out)@ + yaml_text(*v),
{
    match v {
        Some(s) => {
            out.append("\"");
            out.append(s.as_str());
            out.append("\"");
        },
        None => out.append("null"),
    }
}

fn push_bool(out: &mut String, v: Option<bool>)
    ensures
        final(out)@ == old(out)@ + yaml_bool(v),
{
    match v {
        Some(true) => out.append("true"),
        _ => out.append("false"),
    }
}

} // verus!
