//! The node's configuration, as the command line and the environment give
//! it. The command line takes precedence.

use vstd::prelude::*;
use vstd::string::StringExecFns;
use crate::bootstrap::texts_of;
use crate::text::{list_entries, number_value, parse_number, split_list, str_equal};

verus! {

/// Why a configuration was refused.
#[derive(Debug, PartialEq, Eq)]
pub enum ConfigError {
    InvalidPort(String),
    InvalidBlockTime(String),
    InvalidBootstrap(String),
}

/// A `ConfigError` as a mathematical value.
pub enum ConfigErrorView {
    InvalidPort(Seq<char>),
    InvalidBlockTime(Seq<char>),
    InvalidBootstrap(Seq<char>),
}

impl View for ConfigError {
    type V = ConfigErrorView;

    open spec fn view(&self) -> ConfigErrorView {
        match self {
            ConfigError::InvalidPort(s) => ConfigErrorView::InvalidPort(s@),
            ConfigError::InvalidBlockTime(s) => ConfigErrorView::InvalidBlockTime(s@),
            ConfigError::InvalidBootstrap(s) => ConfigErrorView::InvalidBootstrap(s@),
        }
    }
}

/// The configuration of a node.
#[derive(Debug, Clone, PartialEq, Eq)]
pub struct Config {
    /// Preferred port to listen on; 0 leaves the choice to the system.
    pub port: u16,
    /// Seed endpoints.
    pub bootstrap: Vec<String>,
    /// Where a later stage may keep its data.
    pub data_dir: String,
    /// Seconds between monitoring ticks; never 0.
    pub heartbeat_interval: u64,
    /// One of `error`, `warn`, `info`, `debug`.
    pub log_level: String,
}

/// A `Config` as a mathematical value.
pub struct ConfigView {
    pub port: u16,
    pub bootstrap: Seq<Seq<char>>,
    pub data_dir: Seq<char>,
    pub heartbeat_interval: u64,
    pub log_level: Seq<char>,
}

impl View for Config {
    type V = ConfigView;

    open spec fn view(&self) -> ConfigView {
        ConfigView {
            port: self.port,
            bootstrap: texts_of(self.bootstrap@),
            data_dir: self.data_dir@,
            heartbeat_interval: self.heartbeat_interval,
            log_level: self.log_level@,
        }
    }
}

/// The configuration of a node that is told nothing.
pub open spec fn default_config() -> ConfigView {
    ConfigView {
        port: 0,
        bootstrap: Seq::empty(),
        data_dir: "./data"@,
        heartbeat_interval: 5,
        log_level: "info"@,
    }
}

impl Default for Config {
    fn default() -> (c: Self)
        ensures
            c@ == default_config(),
    {
        let c = Config {
            port: 0,
            bootstrap: Vec::new(),
            data_dir: "./data".to_owned(),
            heartbeat_interval: 5,
            log_level: "info".to_owned(),
        };
        assert(c@.bootstrap =~= Seq::empty());
        c
    }
}

/// The values of the environment variables that a configuration looks at;
/// `None` for a variable that is not set.
#[derive(Debug, Clone, Default)]
pub struct Environment {
    /// `GUILD_PORT`
    pub port: Option<String>,
    /// `GUILD_BOOTSTRAP`
    pub bootstrap: Option<String>,
    /// `GUILD_DATA_DIR`
    pub data_dir: Option<String>,
    /// `GUILD_HEARTBEAT_INTERVAL`
    pub heartbeat_interval: Option<String>,
    /// `GUILD_LOG_LEVEL`
    pub log_level: Option<String>,
}

/// An `Environment` as a mathematical value.
pub struct EnvironmentView {
    pub port: Option<Seq<char>>,
    pub bootstrap: Option<Seq<char>>,
    pub data_dir: Option<Seq<char>>,
    pub heartbeat_interval: Option<Seq<char>>,
    pub log_level: Option<Seq<char>>,
}

/// The text of an optional string.
pub open spec fn text_of(s: Option<String>) -> Option<Seq<char>> {
    match s {
        Some(s) => Some(s@),
        None => None,
    }
}

impl View for Environment {
    type V = EnvironmentView;

    open spec fn view(&self) -> EnvironmentView {
        EnvironmentView {
            port: text_of(self.port),
            bootstrap: text_of(self.bootstrap),
            data_dir: text_of(self.data_dir),
            heartbeat_interval: text_of(self.heartbeat_interval),
            log_level: text_of(self.log_level),
        }
    }
}

/// Which options the command line gave.
#[derive(Debug, Clone, Copy, PartialEq, Eq, Structural)]
pub struct Given {
    pub port: bool,
    pub bootstrap: bool,
    pub data_dir: bool,
    pub interval: bool,
    pub log: bool,
}

/// What a command line asks for.
#[derive(Debug, PartialEq, Eq)]
pub enum ArgsOutcome {
    /// Run with this configuration.
    Run(Config),
    /// Show the help text and stop.
    Help,
}

/// Whether `s` names a log level.
pub open spec fn is_log_level(s: Seq<char>) -> bool {
    s == "error"@ || s == "warn"@ || s == "info"@ || s == "debug"@
}

/// What the arguments from index `i` on make of the configuration `c`, of
/// which the earlier arguments gave the options `g`: the configuration and
/// the options given, `None` where help is asked for, or the first error.
///
/// `--port`, `--bootstrap`, `--data-dir`, `--interval` and `--log` (or `-p`,
/// `-b`, `-d`, `-i`, `-l`) take the argument after them as their value;
/// `--help` (or `-h`) ends the reading; any other argument is passed over.
pub open spec fn read_args(args: Seq<Seq<char>>, i: int, c: ConfigView, g: Given) -> Result<
    Option<(ConfigView, Given)>,
    ConfigErrorView,
>
    decreases args.len() - i,
{
    if i < 0 || i >= args.len() {
        Ok(Some((c, g)))
    } else {
        let a = args[i];
        let has_value = i + 1 < args.len();
        if a == "--port"@ || a == "-p"@ {
            if has_value {
                match number_value(args[i + 1], u16::MAX as nat) {
                    Some(v) => read_args(
                        args,
                        i + 2,
                        ConfigView { port: v as u16, ..c },
                        Given { port: true, ..g },
                    ),
                    None => Err(ConfigErrorView::InvalidPort(args[i + 1])),
                }
            } else {
                Err(ConfigErrorView::InvalidPort("Missing port value"@))
            }
        } else if a == "--bootstrap"@ || a == "-b"@ {
            if has_value {
                if args[i + 1].len() == 0 {
                    Err(ConfigErrorView::InvalidBootstrap("Empty bootstrap list"@))
                } else {
                    read_args(
                        args,
                        i + 2,
                        ConfigView { bootstrap: list_entries(args[i + 1]), ..c },
                        Given { bootstrap: true, ..g },
                    )
                }
            } else {
                Err(ConfigErrorView::InvalidBootstrap("Missing bootstrap value"@))
            }
        } else if a == "--data-dir"@ || a == "-d"@ {
            if has_value {
                read_args(
                    args,
                    i + 2,
                    ConfigView { data_dir: args[i + 1], ..c },
                    Given { data_dir: true, ..g },
                )
            } else {
                read_args(args, i + 1, c, g)
            }
        } else if a == "--interval"@ || a == "-i"@ {
            if has_value {
                match number_value(args[i + 1], u64::MAX as nat) {
                    Some(v) => if v == 0 {
                        Err(
                            ConfigErrorView::InvalidBlockTime(
                                "Heartbeat interval must be greater than 0"@,
                            ),
                        )
                    } else {
                        read_args(
                            args,
                            i + 2,
                            ConfigView { heartbeat_interval: v as u64, ..c },
                            Given { interval: true, ..g },
                        )
                    },
                    None => Err(ConfigErrorView::InvalidBlockTime(args[i + 1])),
                }
            } else {
                Err(ConfigErrorView::InvalidBlockTime("Missing heartbeat interval value"@))
            }
        } else if a == "--log"@ || a == "-l"@ {
            if has_value {
                read_args(
                    args,
                    i + 2,
                    ConfigView {
                        log_level: if is_log_level(args[i + 1]) {
                            args[i + 1]
                        } else {
                            "info"@
                        },
                        ..c
                    },
                    Given { log: true, ..g },
                )
            } else {
                read_args(args, i + 1, c, g)
            }
        } else if a == "--help"@ || a == "-h"@ {
            Ok(None)
        } else {
            read_args(args, i + 1, c, g)
        }
    }
}

/// The configuration `c`, of which the command line gave the options `g`,
/// after the environment `env` filled in what the command line left open,
/// or the first error in the environment's values that are looked at.
pub open spec fn with_env(c: ConfigView, g: Given, env: EnvironmentView) -> Result<
    ConfigView,
    ConfigErrorView,
> {
    let port: Result<u16, ConfigErrorView> = match env.port {
        Some(s) => if g.port {
            Ok(c.port)
        } else {
            match number_value(s, u16::MAX as nat) {
                Some(v) => Ok(v as u16),
                None => Err(ConfigErrorView::InvalidPort("Invalid GUILD_PORT: "@ + s)),
            }
        },
        None => Ok(c.port),
    };
    let interval: Result<u64, ConfigErrorView> = match env.heartbeat_interval {
        Some(s) => if g.interval {
            Ok(c.heartbeat_interval)
        } else {
            match number_value(s, u64::MAX as nat) {
                Some(v) => if v == 0 {
                    Err(
                        ConfigErrorView::InvalidBlockTime(
                            "Heartbeat interval must be greater than 0"@,
                        ),
                    )
                } else {
                    Ok(v as u64)
                },
                None => Err(
                    ConfigErrorView::InvalidBlockTime("Invalid GUILD_HEARTBEAT_INTERVAL: "@ + s),
                ),
            }
        },
        None => Ok(c.heartbeat_interval),
    };
    match port {
        Err(e) => Err(e),
        Ok(port) => match interval {
            Err(e) => Err(e),
            Ok(heartbeat_interval) => Ok(
                ConfigView {
                    port,
                    bootstrap: match env.bootstrap {
                        Some(s) => if !g.bootstrap && s.len() > 0 {
                            list_entries(s)
                        } else {
                            c.bootstrap
                        },
                        None => c.bootstrap,
                    },
                    data_dir: match env.data_dir {
                        Some(s) => if !g.data_dir {
                            s
                        } else {
                            c.data_dir
                        },
                        None => c.data_dir,
                    },
                    heartbeat_interval,
                    log_level: match env.log_level {
                        Some(s) => if !g.log && is_log_level(s) {
                            s
                        } else {
                            c.log_level
                        },
                        None => c.log_level,
                    },
                },
            ),
        },
    }
}

/// What the command line `args`, whose first entry names the program, and
/// the environment `env` ask for.
pub open spec fn configured(args: Seq<Seq<char>>, env: EnvironmentView) -> Result<
    Option<ConfigView>,
    ConfigErrorView,
> {
    match read_args(
        args,
        1,
        default_config(),
        Given { port: false, bootstrap: false, data_dir: false, interval: false, log: false },
    ) {
        Ok(Some((c, g))) => match with_env(c, g, env) {
            Ok(c) => Ok(Some(c)),
            Err(e) => Err(e),
        },
        Ok(None) => Ok(None),
        Err(e) => Err(e),
    }
}

fn is_level(s: &str) -> (r: bool)
    ensures
        r == is_log_level(s@),
{
    str_equal(s, "error") || str_equal(s, "warn") || str_equal(s, "info") || str_equal(s, "debug")
}

fn is_flag(a: &str, long: &str, short: &str) -> (r: bool)
    ensures
        r == (a@ == long@ || a@ == short@),
{
    str_equal(a, long) || str_equal(a, short)
}

impl Config {
    /// Reads the configuration from the command line `args`, whose first
    /// entry names the program, and fills in from `env` what the command
    /// line leaves open.
    pub fn from_args(args: &Vec<String>, env: &Environment) -> (r: Result<ArgsOutcome, ConfigError>)
        ensures
            match r {
                Ok(ArgsOutcome::Run(c)) => configured(texts_of(args@), env@) == Ok::<
                    Option<ConfigView>,
                    ConfigErrorView,
                >(Some(c@)),
                Ok(ArgsOutcome::Help) => configured(texts_of(args@), env@) == Ok::<
                    Option<ConfigView>,
                    ConfigErrorView,
                >(None),
                Err(e) => configured(texts_of(args@), env@) == Err::<
                    Option<ConfigView>,
                    ConfigErrorView,
                >(e@),
            },
    {
        let mut config = Config::default();
        let mut given = Given {
            port: false,
            bootstrap: false,
            data_dir: false,
            interval: false,
            log: false,
        };
        let ghost texts = texts_of(args@);
        let ghost goal = read_args(texts, 1, default_config(), given);
        let n = args.len();
        let mut i: usize = 1;
        while i < n
            invariant
                n == args@.len(),
                texts == texts_of(args@),
                1 <= i <= n + 1,
                goal == read_args(
                    texts,
                    1,
                    default_config(),
                    Given {
                        port: false,
                        bootstrap: false,
                        data_dir: false,
                        interval: false,
                        log: false,
                    },
                ),
                goal == read_args(texts, i as int, config@, given),
            decreases n + 1 - i,
        {
            let a = args[i].as_str();
            assert(texts[i as int] == a@);
            let has_value = i + 1 < n;
            if has_value {
                assert(texts[i + 1] == args@[i + 1]@);
            }
            if is_flag(a, "--port", "-p") {
                if has_value {
                    match parse_number(args[i + 1].as_str(), u16::MAX as u64) {
                        Some(v) => {
                            config.port = v as u16;
                            given.port = true;
                            i += 2;
                        },
                        None => {
                            return Err(ConfigError::InvalidPort(args[i + 1].clone()));
                        },
                    }
                } else {
                    return Err(ConfigError::InvalidPort("Missing port value".to_owned()));
                }
            } else if is_flag(a, "--bootstrap", "-b") {
                if has_value {
                    let value = args[i + 1].as_str();
                    if value.unicode_len() == 0 {
                        return Err(
                            ConfigError::InvalidBootstrap("Empty bootstrap list".to_owned()),
                        );
                    }
                    config.bootstrap = split_list(value);
                    assert(config@.bootstrap =~= list_entries(value@));
                    given.bootstrap = true;
                    i += 2;
                } else {
                    return Err(ConfigError::InvalidBootstrap("Missing bootstrap value".to_owned()));
                }
            } else if is_flag(a, "--data-dir", "-d") {
                if has_value {
                    config.data_dir = args[i + 1].clone();
                    given.data_dir = true;
                    i += 2;
                } else {
                    i += 1;
                }
            } else if is_flag(a, "--interval", "-i") {
                if has_value {
                    match parse_number(args[i + 1].as_str(), u64::MAX) {
                        Some(v) => {
                            if v == 0 {
                                return Err(
                                    ConfigError::InvalidBlockTime(
                                        "Heartbeat interval must be greater than 0".to_owned(),
                                    ),
                                );
                            }
                            config.heartbeat_interval = v;
                            given.interval = true;
                            i += 2;
                        },
                        None => {
                            return Err(ConfigError::InvalidBlockTime(args[i + 1].clone()));
                        },
                    }
                } else {
                    return Err(
                        ConfigError::InvalidBlockTime(
                            "Missing heartbeat interval value".to_owned(),
                        ),
                    );
                }
            } else if is_flag(a, "--log", "-l") {
                if has_value {
                    if is_level(args[i + 1].as_str()) {
                        config.log_level = args[i + 1].clone();
                    } else {
                        config.log_level = "info".to_owned();
                    }
                    given.log = true;
                    i += 2;
                } else {
                    i += 1;
                }
            } else if is_flag(a, "--help", "-h") {
                return Ok(ArgsOutcome::Help);
            } else {
                i += 1;
            }
        }
        match config.load_from_env(env, given) {
            Ok(()) => Ok(ArgsOutcome::Run(config)),
            Err(e) => Err(e),
        }
    }

    /// Fills in from `env` the options that `given` does not name.
    pub fn load_from_env(&mut self, env: &Environment, given: Given) -> (r: Result<
        (),
        ConfigError,
    >)
        ensures
            match r {
                Ok(()) => with_env(old(self)@, given, env@) == Ok::<ConfigView, ConfigErrorView>(
                    final(self)@,
                ),
                Err(e) => with_env(old(self)@, given, env@) == Err::<ConfigView, ConfigErrorView>(
                    e@,
                ),
            },
    {
        let mut port = self.port;
        match &env.port {
            Some(s) => {
                if !given.port {
                    match parse_number(s.as_str(), u16::MAX as u64) {
                        Some(v) => {
                            port = v as u16;
                        },
                        None => {
                            let text = "Invalid GUILD_PORT: ".to_owned().concat(s.as_str());
                            return Err(ConfigError::InvalidPort(text));
                        },
                    }
                }
            },
            None => {},
        }
        let mut interval = self.heartbeat_interval;
        match &env.heartbeat_interval {
            Some(s) => {
                if !given.interval {
                    match parse_number(s.as_str(), u64::MAX) {
                        Some(v) => {
                            if v == 0 {
                                return Err(
                                    ConfigError::InvalidBlockTime(
                                        "Heartbeat interval must be greater than 0".to_owned(),
                                    ),
                                );
                            }
                            interval = v;
                        },
                        None => {
                            let text = "Invalid GUILD_HEARTBEAT_INTERVAL: ".to_owned().concat(
                                s.as_str(),
                            );
                            return Err(ConfigError::InvalidBlockTime(text));
                        },
                    }
                }
            },
            None => {},
        }
        self.port = port;
        self.heartbeat_interval = interval;
        match &env.bootstrap {
            Some(s) => {
                if !given.bootstrap && s.as_str().unicode_len() > 0 {
                    self.bootstrap = split_list(s.as_str());
                    assert(self@.bootstrap =~= list_entries(s@));
                }
            },
            None => {},
        }
        match &env.data_dir {
            Some(s) => {
                if !given.data_dir {
                    self.data_dir = s.clone();
                }
            },
            None => {},
        }
        match &env.log_level {
            Some(s) => {
                if !given.log && is_level(s.as_str()) {
                    self.log_level = s.clone();
                }
            },
            None => {},
        }
        Ok(())
    }

    /// The configuration that the environment `env` alone gives.
    pub fn from_env(env: &Environment) -> (r: Result<Config, ConfigError>)
        ensures
            match r {
                Ok(c) => with_env(
                    default_config(),
                    Given {
                        port: false,
                        bootstrap: false,
                        data_dir: false,
                        interval: false,
                        log: false,
                    },
                    env@,
                ) == Ok::<ConfigView, ConfigErrorView>(c@),
                Err(e) => with_env(
                    default_config(),
                    Given {
                        port: false,
                        bootstrap: false,
                        data_dir: false,
                        interval: false,
                        log: false,
                    },
                    env@,
                ) == Err::<ConfigView, ConfigErrorView>(e@),
            },
    {
        let mut config = Config::default();
        let given = Given {
            port: false,
            bootstrap: false,
            data_dir: false,
            interval: false,
            log: false,
        };
        match config.load_from_env(env, given) {
            Ok(()) => Ok(config),
            Err(e) => Err(e),
        }
    }
}

} // verus!
