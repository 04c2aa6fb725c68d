//! The settings of the daemon: where the vault is and how much is logged,
//! from the environment and the command line.

use crate::text::{
    chars_of, equal_ignoring_ascii_case, optional_text, same_ignoring_ascii_case, views,
};
use vstd::prelude::*;
use vstd::string::StringExecFns;

verus! {

/// How grave a message of the log is, from the gravest on.
#[derive(Clone, Copy, Debug, PartialEq, Eq, Structural, PartialOrd, Ord)]
pub enum LogLevel {
    Error,
    Warn,
    Info,
    Debug,
}

impl LogLevel {
    /// The place of the level among the levels, from the gravest on.
    pub open spec fn rank(self) -> int {
        match self {
            LogLevel::Error => 0,
            LogLevel::Warn => 1,
            LogLevel::Info => 2,
            LogLevel::Debug => 3,
        }
    }

    /// The level that `text` names, in any case of letters: `error`, `warn`
    /// or `warning`, `info`, `debug`.
    pub open spec fn named(text: Seq<char>) -> Option<LogLevel> {
        if same_ignoring_ascii_case(text, "error"@) {
            Some(LogLevel::Error)
        } else if same_ignoring_ascii_case(text, "warn"@) || same_ignoring_ascii_case(
            text,
            "warning"@,
        ) {
            Some(LogLevel::Warn)
        } else if same_ignoring_ascii_case(text, "info"@) {
            Some(LogLevel::Info)
        } else if same_ignoring_ascii_case(text, "debug"@) {
            Some(LogLevel::Debug)
        } else {
            None
        }
    }

    /// The name of the level in capitals.
    pub open spec fn name(self) -> Seq<char> {
        match self {
            LogLevel::Error => "ERROR"@,
            LogLevel::Warn => "WARN"@,
            LogLevel::Info => "INFO"@,
            LogLevel::Debug => "DEBUG"@,
        }
    }

    /// Reads a level from its name.
    pub fn parse(input: &str) -> (level: Option<LogLevel>)
        ensures
            level == LogLevel::named(input@),
    {
        let text = chars_of(input);
        if equal_ignoring_ascii_case(&text, &chars_of("error")) {
            Some(LogLevel::Error)
        } else if equal_ignoring_ascii_case(&text, &chars_of("warn")) || equal_ignoring_ascii_case(
            &text,
            &chars_of("warning"),
        ) {
            Some(LogLevel::Warn)
        } else if equal_ignoring_ascii_case(&text, &chars_of("info")) {
            Some(LogLevel::Info)
        } else if equal_ignoring_ascii_case(&text, &chars_of("debug")) {
            Some(LogLevel::Debug)
        } else {
            None
        }
    }

    pub fn as_str(self) -> (name: &'static str)
        ensures
            name@ == self.name(),
    {
        match self {
            LogLevel::Error => "ERROR",
            LogLevel::Warn => "WARN",
            LogLevel::Info => "INFO",
            LogLevel::Debug => "DEBUG",
        }
    }

    /// The place of the level among the levels.
    pub fn place(self) -> (n: u8)
        ensures
            n == self.rank(),
    {
        match self {
            LogLevel::Error => 0,
            LogLevel::Warn => 1,
            LogLevel::Info => 2,
            LogLevel::Debug => 3,
        }
    }
}

/// What decides which messages are logged.
#[derive(Clone, Copy, Debug)]
pub struct Logger {
    pub level: LogLevel,
}

impl Logger {
    pub fn new(level: LogLevel) -> (logger: Logger)
        ensures
            logger.level == level,
    {
        Logger { level }
    }

    /// Whether a message of `level` is logged: it is where it is as grave
    /// as the logger's level, or graver.
    pub fn enabled(&self, level: LogLevel) -> (r: bool)
        ensures
            r == (level.rank() <= self.level.rank()),
    {
        level.place() <= self.level.place()
    }
}

/// Why the command line could not be read.
#[derive(Debug)]
pub enum ConfigError {
    /// `--vault` stands last.
    MissingVaultPath,
    /// `--log-level` stands last.
    MissingLogLevel,
    /// The value of `--log-level` names no level.
    InvalidLogLevel(String),
    /// An argument that is no flag of the daemon.
    UnrecognizedArgument(String),
}

pub enum ConfigErrorView {
    MissingVaultPath,
    MissingLogLevel,
    InvalidLogLevel(Seq<char>),
    UnrecognizedArgument(Seq<char>),
}

impl View for ConfigError {
    type V = ConfigErrorView;

    open spec fn view(&self) -> ConfigErrorView {
        match self {
            ConfigError::MissingVaultPath => ConfigErrorView::MissingVaultPath,
            ConfigError::MissingLogLevel => ConfigErrorView::MissingLogLevel,
            ConfigError::InvalidLogLevel(value) => ConfigErrorView::InvalidLogLevel(value@),
            ConfigError::UnrecognizedArgument(arg) => ConfigErrorView::UnrecognizedArgument(arg@),
        }
    }
}

impl ConfigError {
    /// The error in words.
    pub open spec fn text(&self) -> Seq<char> {
        match self {
            ConfigError::MissingVaultPath => "--vault expects a following path"@,
            ConfigError::MissingLogLevel => "--log-level expects a value"@,
            ConfigError::InvalidLogLevel(value) => "invalid log level '"@ + value@ + "'"@,
            ConfigError::UnrecognizedArgument(arg) => "unrecognized argument '"@ + arg@
                + "'. Usage: "@ + DaemonConfig::usage_text(),
        }
    }

    /// The error in words.
    pub fn message(&self) -> (text: String)
        ensures
            text@ == self.text(),
    {
        match self {
            ConfigError::MissingVaultPath => String::from_str("--vault expects a following path"),
            ConfigError::MissingLogLevel => String::from_str("--log-level expects a value"),
            ConfigError::InvalidLogLevel(value) => {
                let mut text = String::from_str("invalid log level '");
                text.append(value.as_str());
                text.append("'");
                text
            },
            ConfigError::UnrecognizedArgument(arg) => {
                let mut text = String::from_str("unrecognized argument '");
                text.append(arg.as_str());
                text.append("'. Usage: ");
                text.append(DaemonConfig::usage());
                text
            },
        }
    }
}

/// The settings of the daemon.
#[derive(Debug)]
pub struct DaemonConfig {
    pub vault_path: String,
    pub log_level: LogLevel,
}

pub struct DaemonConfigView {
    pub vault_path: Seq<char>,
    pub log_level: LogLevel,
}

impl View for DaemonConfig {
    type V = DaemonConfigView;

    open spec fn view(&self) -> DaemonConfigView {
        DaemonConfigView { vault_path: self.vault_path@, log_level: self.log_level }
    }
}

/// `--vault` or `-v`.
pub open spec fn is_vault_flag(arg: Seq<char>) -> bool {
    arg == "--vault"@ || arg == "-v"@
}

/// `--log-level` or `-l`.
pub open spec fn is_level_flag(arg: Seq<char>) -> bool {
    arg == "--log-level"@ || arg == "-l"@
}

/// The settings before the command line is read: the vault of the
/// environment, or the present directory; the level of the environment
/// where it names one, or `Info`.
pub open spec fn settings_of_environment(
    vault_env: Option<Seq<char>>,
    log_env: Option<Seq<char>>,
) -> DaemonConfigView {
    DaemonConfigView {
        vault_path: match vault_env {
            Some(path) => path,
            None => "."@,
        },
        log_level: match log_env {
            Some(name) => match LogLevel::named(name) {
                Some(level) => level,
                None => LogLevel::Info,
            },
            None => LogLevel::Info,
        },
    }
}

/// The settings after the arguments from `i` on are read. A flag takes the
/// argument behind it as its value, and a later flag overrides an earlier
/// one. The first argument that cannot be read ends the reading.
pub open spec fn settings_after(args: Seq<Seq<char>>, i: int, settings: DaemonConfigView) -> Result<
    DaemonConfigView,
    ConfigErrorView,
>
    decreases args.len() - i,
{
    if i < 0 || i >= args.len() {
        Ok(settings)
    } else if is_vault_flag(args[i]) {
        if i + 1 >= args.len() {
            Err(ConfigErrorView::MissingVaultPath)
        } else {
            settings_after(
                args,
                i + 2,
                DaemonConfigView { vault_path: args[i + 1], log_level: settings.log_level },
            )
        }
    } else if is_level_flag(args[i]) {
        if i + 1 >= args.len() {
            Err(ConfigErrorView::MissingLogLevel)
        } else {
            match LogLevel::named(args[i + 1]) {
                Some(level) => settings_after(
                    args,
                    i + 2,
                    DaemonConfigView { vault_path: settings.vault_path, log_level: level },
                ),
                None => Err(ConfigErrorView::InvalidLogLevel(args[i + 1])),
            }
        }
    } else {
        Err(ConfigErrorView::UnrecognizedArgument(args[i]))
    }
}

/// The settings that the environment and the command line give. The first
/// argument is the name of the program and is passed over.
pub open spec fn settings_from(
    vault_env: Option<Seq<char>>,
    log_env: Option<Seq<char>>,
    args: Seq<Seq<char>>,
) -> Result<DaemonConfigView, ConfigErrorView> {
    settings_after(args, 1, settings_of_environment(vault_env, log_env))
}

/// The view of a result.
pub open spec fn result_view<T: View, E: View>(r: Result<T, E>) -> Result<T::V, E::V> {
    match r {
        Ok(value) => Ok(value@),
        Err(error) => Err(error@),
    }
}

impl DaemonConfig {
    pub open spec fn usage_text() -> Seq<char> {
        "note-daemon [--vault PATH] [--log-level error|warn|info|debug]"@
    }

    /// How the daemon is called.
    pub fn usage() -> (text: &'static str)
        ensures
            text@ == DaemonConfig::usage_text(),
    {
        "note-daemon [--vault PATH] [--log-level error|warn|info|debug]"
    }

    /// Reads the settings: those of the environment first, the command line
    /// over them.
    pub fn from_iterator(vault_env: Option<String>, log_env: Option<String>, args: Vec<String>) -> (r:
        Result<DaemonConfig, ConfigError>)
        ensures
            result_view(r) == settings_from(
                optional_text(vault_env),
                optional_text(log_env),
                views(args@),
            ),
    {
        let mut vault_path = match vault_env {
            Some(path) => path,
            None => String::from_str("."),
        };
        let mut log_level = match &log_env {
            Some(name) => match LogLevel::parse(name.as_str()) {
                Some(level) => level,
                None => LogLevel::Info,
            },
            None => LogLevel::Info,
        };
        let long_vault = String::from_str("--vault");
        let short_vault = String::from_str("-v");
        let long_level = String::from_str("--log-level");
        let short_level = String::from_str("-l");
        let ghost all = views(args@);
        let ghost wanted = settings_from(optional_text(vault_env), optional_text(log_env), all);
        let mut i: usize = 1;
        while i < args.len()
            invariant
                1 <= i,
                all == views(args@),
                wanted == settings_from(optional_text(vault_env), optional_text(log_env), all),
                long_vault@ == "--vault"@,
                short_vault@ == "-v"@,
                long_level@ == "--log-level"@,
                short_level@ == "-l"@,
                settings_after(
                    all,
                    i as int,
                    DaemonConfigView { vault_path: vault_path@, log_level },
                ) == wanted,
            decreases args.len() - i,
        {
            let arg = &args[i];
            assert(all[i as int] == arg@);
            if *arg == long_vault || *arg == short_vault {
                if args.len() - i < 2 {
                    return Err(ConfigError::MissingVaultPath);
                }
                vault_path = args[i + 1].clone();
                i = i + 2;
            } else if *arg == long_level || *arg == short_level {
                if args.len() - i < 2 {
                    return Err(ConfigError::MissingLogLevel);
                }
                match LogLevel::parse(args[i + 1].as_str()) {
                    Some(level) => {
                        log_level = level;
                    },
                    None => {
                        return Err(ConfigError::InvalidLogLevel(args[i + 1].clone()));
                    },
                }
                i = i + 2;
            } else {
                return Err(ConfigError::UnrecognizedArgument(arg.clone()));
            }
        }
        Ok(DaemonConfig { vault_path, log_level })
    }
}

} // verus!
