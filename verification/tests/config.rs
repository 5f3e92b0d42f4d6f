use guild_node::config::{ArgsOutcome, Config, ConfigError, Environment, Given};

fn args(list: &[&str]) -> Vec<String> {
    let mut v = vec!["guild-home".to_string()];
    v.extend(list.iter().map(|s| s.to_string()));
    v
}

fn no_env() -> Environment {
    Environment::default()
}

fn run(list: &[&str], env: &Environment) -> Config {
    match Config::from_args(&args(list), env) {
        Ok(ArgsOutcome::Run(c)) => c,
        other => panic!("{:?}", other),
    }
}

fn err(list: &[&str], env: &Environment) -> ConfigError {
    match Config::from_args(&args(list), env) {
        Err(e) => e,
        other => panic!("{:?}", other),
    }
}

fn some(s: &str) -> Option<String> {
    Some(s.to_string())
}

#[test]
fn default_config_values() {
    let c = Config::default();
    assert_eq!(c.port, 0);
    assert!(c.bootstrap.is_empty());
    assert_eq!(c.data_dir, "./data");
    assert_eq!(c.heartbeat_interval, 5);
    assert_eq!(c.log_level, "info");
    assert_eq!(run(&[], &no_env()), c);
    assert_eq!(Config::from_env(&no_env()), Ok(c));
}

#[test]
fn options_set_their_fields() {
    let c = run(
        &[
            "--port", "8080", "--bootstrap", "192.168.1.10:8000, 192.168.1.11:8000", "--data-dir",
            "/var/guild", "--interval", "10", "--log", "debug",
        ],
        &no_env(),
    );
    assert_eq!(
        c,
        Config {
            port: 8080,
            bootstrap: vec!["192.168.1.10:8000".to_string(), "192.168.1.11:8000".to_string()],
            data_dir: "/var/guild".to_string(),
            heartbeat_interval: 10,
            log_level: "debug".to_string(),
        }
    );
    let short = run(
        &["-p", "+8080", "-b", "192.168.1.10:8000,192.168.1.11:8000", "-d", "/var/guild", "-i",
            "10", "-l", "debug"],
        &no_env(),
    );
    assert_eq!(short, c);
}

#[test]
fn later_options_override_earlier_ones_and_unknown_arguments_are_passed_over() {
    let c = run(&["--tui", "--port", "1", "whatever", "--port", "2", "--log"], &no_env());
    assert_eq!(c.port, 2);
    assert_eq!(c.log_level, "info");
    let c = run(&["--data-dir"], &no_env());
    assert_eq!(c.data_dir, "./data");
    let c = run(&["--data-dir", "--port"], &no_env());
    assert_eq!(c.data_dir, "--port");
}

#[test]
fn bootstrap_list_is_split_and_trimmed() {
    let c = run(&["--bootstrap", " a:1 ,, b:2,\t,c:3 ,"], &no_env());
    assert_eq!(c.bootstrap, vec!["a:1", "b:2", "c:3"]);
    let c = run(&["--bootstrap", ","], &no_env());
    assert!(c.bootstrap.is_empty());
    let c = run(&["--bootstrap", "\u{a0}x\u{3000}"], &no_env());
    assert_eq!(c.bootstrap, vec!["x"]);
}

#[test]
fn unknown_log_level_becomes_info() {
    assert_eq!(run(&["--log", "verbose"], &no_env()).log_level, "info");
    assert_eq!(run(&["--log", "warn"], &no_env()).log_level, "warn");
    assert_eq!(run(&["--log", "error"], &no_env()).log_level, "error");
    assert_eq!(run(&["--log", "ERROR"], &no_env()).log_level, "info");
}

#[test]
fn bad_port_is_refused() {
    assert_eq!(err(&["--port", "abc"], &no_env()), ConfigError::InvalidPort("abc".to_string()));
    assert_eq!(err(&["--port", "65536"], &no_env()), ConfigError::InvalidPort("65536".to_string()));
    assert_eq!(err(&["--port", "-1"], &no_env()), ConfigError::InvalidPort("-1".to_string()));
    assert_eq!(err(&["--port", ""], &no_env()), ConfigError::InvalidPort("".to_string()));
    assert_eq!(err(&["--port", "+"], &no_env()), ConfigError::InvalidPort("+".to_string()));
    assert_eq!(err(&["--port", " 80"], &no_env()), ConfigError::InvalidPort(" 80".to_string()));
    assert_eq!(
        err(&["--port"], &no_env()),
        ConfigError::InvalidPort("Missing port value".to_string())
    );
    assert_eq!(run(&["--port", "65535"], &no_env()).port, 65535);
    assert_eq!(run(&["--port", "0007"], &no_env()).port, 7);
}

#[test]
fn bad_bootstrap_is_refused() {
    assert_eq!(
        err(&["--bootstrap", ""], &no_env()),
        ConfigError::InvalidBootstrap("Empty bootstrap list".to_string())
    );
    assert_eq!(
        err(&["-b"], &no_env()),
        ConfigError::InvalidBootstrap("Missing bootstrap value".to_string())
    );
}

#[test]
fn bad_interval_is_refused() {
    assert_eq!(
        err(&["--interval", "0"], &no_env()),
        ConfigError::InvalidBlockTime("Heartbeat interval must be greater than 0".to_string())
    );
    assert_eq!(
        err(&["--interval", "soon"], &no_env()),
        ConfigError::InvalidBlockTime("soon".to_string())
    );
    assert_eq!(
        err(&["--interval", "18446744073709551616"], &no_env()),
        ConfigError::InvalidBlockTime("18446744073709551616".to_string())
    );
    assert_eq!(
        err(&["--interval"], &no_env()),
        ConfigError::InvalidBlockTime("Missing heartbeat interval value".to_string())
    );
    assert_eq!(
        run(&["--interval", "18446744073709551615"], &no_env()).heartbeat_interval,
        u64::MAX
    );
}

#[test]
fn first_error_wins() {
    assert_eq!(
        err(&["--port", "x", "--interval", "0"], &no_env()),
        ConfigError::InvalidPort("x".to_string())
    );
    assert_eq!(
        err(&["--interval", "0", "--port", "x"], &no_env()),
        ConfigError::InvalidBlockTime("Heartbeat interval must be greater than 0".to_string())
    );
}

#[test]
fn help_ends_the_reading() {
    assert_eq!(Config::from_args(&args(&["--help"]), &no_env()), Ok(ArgsOutcome::Help));
    assert_eq!(Config::from_args(&args(&["-h", "--port", "x"]), &no_env()), Ok(ArgsOutcome::Help));
    assert_eq!(
        Config::from_args(&args(&["--port", "x", "-h"]), &no_env()),
        Err(ConfigError::InvalidPort("x".to_string()))
    );
    let first_is_program = vec!["--help".to_string()];
    assert_eq!(
        Config::from_args(&first_is_program, &no_env()),
        Ok(ArgsOutcome::Run(Config::default()))
    );
    assert_eq!(Config::from_args(&vec![], &no_env()), Ok(ArgsOutcome::Run(Config::default())));
}

#[test]
fn environment_fills_in_what_the_command_line_leaves_open() {
    let env = Environment {
        port: some("9001"),
        bootstrap: some("10.0.0.1:1, 10.0.0.2:2"),
        data_dir: some("/env/data"),
        heartbeat_interval: some("30"),
        log_level: some("warn"),
    };
    let c = run(&[], &env);
    assert_eq!(
        c,
        Config {
            port: 9001,
            bootstrap: vec!["10.0.0.1:1".to_string(), "10.0.0.2:2".to_string()],
            data_dir: "/env/data".to_string(),
            heartbeat_interval: 30,
            log_level: "warn".to_string(),
        }
    );
    assert_eq!(Config::from_env(&env), Ok(c));
}

#[test]
fn command_line_takes_precedence_over_the_environment() {
    let env = Environment {
        port: some("9001"),
        bootstrap: some("10.0.0.1:1"),
        data_dir: some("/env/data"),
        heartbeat_interval: some("30"),
        log_level: some("warn"),
    };
    let c = run(
        &["--port", "0", "--bootstrap", "1.1.1.1:1", "--data-dir", "./data", "--interval", "7",
            "--log", "debug"],
        &env,
    );
    assert_eq!(
        c,
        Config {
            port: 0,
            bootstrap: vec!["1.1.1.1:1".to_string()],
            data_dir: "./data".to_string(),
            heartbeat_interval: 7,
            log_level: "debug".to_string(),
        }
    );
    let mixed = run(&["--interval", "7"], &env);
    assert_eq!(mixed.heartbeat_interval, 7);
    assert_eq!(mixed.port, 9001);
    assert_eq!(mixed.log_level, "warn");
}

#[test]
fn bad_environment_values() {
    let bad_port = Environment { port: some("http"), ..no_env() };
    assert_eq!(
        Config::from_env(&bad_port),
        Err(ConfigError::InvalidPort("Invalid GUILD_PORT: http".to_string()))
    );
    assert_eq!(run(&["--port", "80"], &bad_port).port, 80);
    let bad_interval = Environment { heartbeat_interval: some("1s"), ..no_env() };
    assert_eq!(
        Config::from_env(&bad_interval),
        Err(ConfigError::InvalidBlockTime("Invalid GUILD_HEARTBEAT_INTERVAL: 1s".to_string()))
    );
    let zero = Environment { heartbeat_interval: some("0"), ..no_env() };
    assert_eq!(
        Config::from_env(&zero),
        Err(ConfigError::InvalidBlockTime("Heartbeat interval must be greater than 0".to_string()))
    );
    let both = Environment { port: some("x"), heartbeat_interval: some("0"), ..no_env() };
    assert_eq!(
        Config::from_env(&both),
        Err(ConfigError::InvalidPort("Invalid GUILD_PORT: x".to_string()))
    );
    let quiet = Environment { bootstrap: some(""), log_level: some("loud"), ..no_env() };
    assert_eq!(Config::from_env(&quiet), Ok(Config::default()));
}

#[test]
fn load_from_env_skips_the_given_options() {
    let env = Environment { port: some("1"), heartbeat_interval: some("2"), ..no_env() };
    let mut c = Config::default();
    let given = Given { port: true, bootstrap: false, data_dir: false, interval: false, log: false };
    assert_eq!(c.load_from_env(&env, given), Ok(()));
    assert_eq!(c.port, 0);
    assert_eq!(c.heartbeat_interval, 2);
}
