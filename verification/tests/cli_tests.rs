use llm_relay::cli::{
    apply_key_file_override, contains_help_flag, parse_command_args, parse_paths, paths_from,
    resolve_key_path, service_command_without_arguments, split_force_flag, CliPaths, Command,
};
use llm_relay::config::Config;

fn args(values: &[&str]) -> Vec<String> {
    values.iter().map(|value| (*value).to_owned()).collect()
}

fn defaults() -> CliPaths {
    CliPaths {
        config_path: "/etc/llm-relay/config.yaml".to_string(),
        api_key_file: None,
    }
}

fn paths(config: &str, key: Option<&str>) -> CliPaths {
    CliPaths {
        config_path: config.to_string(),
        api_key_file: key.map(str::to_string),
    }
}

#[test]
fn parses_paths_for_direct_run_options() {
    let command = parse_command_args(
        &args(&[
            "--config=/tmp/relay/config.yaml",
            "--api-key-file=keys/relay.key",
        ]),
        &defaults(),
    )
    .unwrap();

    assert_eq!(
        command,
        Command::Run {
            paths: CliPaths {
                config_path: "/tmp/relay/config.yaml".to_string(),
                api_key_file: Some("keys/relay.key".to_string()),
            },
        }
    );
}

#[test]
fn parses_generate_key_with_custom_paths() {
    let command = parse_command_args(
        &args(&[
            "generate-key",
            "--force",
            "--config",
            "/tmp/relay/config.yaml",
            "--api-key-file",
            "/var/lib/llm-relay/api_key",
        ]),
        &defaults(),
    )
    .unwrap();

    assert_eq!(
        command,
        Command::GenerateKey {
            paths: CliPaths {
                config_path: "/tmp/relay/config.yaml".to_string(),
                api_key_file: Some("/var/lib/llm-relay/api_key".to_string()),
            },
            force: true,
        }
    );
}

#[test]
fn resolves_relative_key_paths_beside_the_config() {
    assert_eq!(
        resolve_key_path("/etc/llm-relay/config.yaml", "custom-api-key"),
        "/etc/llm-relay/custom-api-key"
    );
    assert_eq!(
        resolve_key_path("/etc/llm-relay/config.yaml", "/var/lib/llm-relay/api_key"),
        "/var/lib/llm-relay/api_key"
    );
}

#[test]
fn relative_key_path_without_a_config_directory() {
    assert_eq!(resolve_key_path("config.yaml", "key"), "key");
    assert_eq!(resolve_key_path("/", "key"), "./key");
}

#[test]
fn joining_puts_one_separator_between_directory_and_key() {
    assert_eq!(resolve_key_path("/config.yaml", "key"), "/key");
    assert_eq!(resolve_key_path("a/b/config.yaml", "keys/k"), "a/b/keys/k");
    assert_eq!(resolve_key_path("/etc/llm-relay/", "k"), "/etc/k");
}

#[test]
fn no_arguments_runs_with_the_defaults() {
    assert_eq!(
        parse_command_args(&args(&[]), &defaults()).unwrap(),
        Command::Run { paths: defaults() }
    );
}

#[test]
fn service_commands_take_no_arguments() {
    assert_eq!(parse_command_args(&args(&["start"]), &defaults()).unwrap(), Command::Start);
    assert_eq!(parse_command_args(&args(&["stop"]), &defaults()).unwrap(), Command::Stop);
    assert_eq!(
        parse_command_args(&args(&["restart"]), &defaults()).unwrap(),
        Command::Restart
    );
    assert_eq!(parse_command_args(&args(&["status"]), &defaults()).unwrap(), Command::Status);
    assert_eq!(parse_command_args(&args(&["logs"]), &defaults()).unwrap(), Command::Logs);
    assert_eq!(
        parse_command_args(&args(&["start", "now", "please"]), &defaults()).unwrap_err(),
        "unexpected arguments: now please"
    );
    assert_eq!(
        service_command_without_arguments(Command::Stop, &args(&["x"])).unwrap_err(),
        "unexpected arguments: x"
    );
}

#[test]
fn help_wins_anywhere_it_is_allowed() {
    for line in [
        vec!["--help"],
        vec!["-h"],
        vec!["run", "--config", "x", "-h"],
        vec!["generate-key", "--help"],
        vec!["show-key", "-h"],
        vec!["-c", "x", "--help"],
        vec!["help"],
        vec!["help", "run"],
    ] {
        assert_eq!(
            parse_command_args(&args(&line), &defaults()).unwrap(),
            Command::Help,
            "{line:?}"
        );
    }
    assert!(contains_help_flag(&args(&["a", "-h"])));
    assert!(!contains_help_flag(&args(&["a", "--helpful"])));
}

#[test]
fn show_key_and_run_read_paths() {
    assert_eq!(
        parse_command_args(&args(&["show-key", "-c", "/c.yaml"]), &defaults()).unwrap(),
        Command::ShowKey {
            paths: paths("/c.yaml", None)
        }
    );
    assert_eq!(
        parse_command_args(&args(&["run", "--api-key-file", "k"]), &defaults()).unwrap(),
        Command::Run {
            paths: paths("/etc/llm-relay/config.yaml", Some("k"))
        }
    );
    assert_eq!(
        parse_command_args(&args(&["generate-key"]), &defaults()).unwrap(),
        Command::GenerateKey {
            paths: defaults(),
            force: false
        }
    );
}

#[test]
fn unknown_commands_and_options() {
    assert_eq!(
        parse_command_args(&args(&["serve"]), &defaults()).unwrap_err(),
        "unknown command: serve"
    );
    assert_eq!(
        parse_command_args(&args(&["--verbose"]), &defaults()).unwrap_err(),
        "unknown option: --verbose"
    );
    assert_eq!(
        parse_command_args(&args(&["run", "--port", "1"]), &defaults()).unwrap_err(),
        "unknown option: --port"
    );
}

#[test]
fn option_values_must_be_present() {
    let d = defaults();
    assert_eq!(
        parse_paths(&args(&["--config"]), &d).unwrap_err(),
        "missing value after --config"
    );
    assert_eq!(
        parse_paths(&args(&["--config="]), &d).unwrap_err(),
        "missing value after --config="
    );
    assert_eq!(
        parse_paths(&args(&["--api-key-file"]), &d).unwrap_err(),
        "missing value after --api-key-file"
    );
    assert_eq!(
        parse_paths(&args(&["--api-key-file="]), &d).unwrap_err(),
        "missing value after --api-key-file="
    );
    assert_eq!(
        parse_paths(&args(&["--config=--config=x"]), &d).unwrap(),
        paths("x", None)
    );
    assert_eq!(
        parse_paths(&args(&["-c", "a", "--help", "--bogus"]), &d).unwrap(),
        paths("a", None)
    );
}

#[test]
fn force_flag_is_taken_out() {
    let (rest, force) = split_force_flag(&args(&["--force", "-c", "x", "--force"])).unwrap();
    assert!(force);
    assert_eq!(rest, args(&["-c", "x"]));
    let (rest, force) = split_force_flag(&args(&["-c", "x"])).unwrap();
    assert!(!force);
    assert_eq!(rest, args(&["-c", "x"]));
}

#[test]
fn key_file_override_applies_beside_the_config() {
    let mut config = Config::default();
    apply_key_file_override(&mut config, &paths("/etc/r/config.yaml", Some("k")));
    assert_eq!(config.security.api_key_file, "/etc/r/k");
    let mut config = Config::default();
    apply_key_file_override(&mut config, &paths("/etc/r/config.yaml", None));
    assert_eq!(config.security.api_key_file, "api_key");
}

#[test]
fn both_option_forms_agree() {
    let d = defaults();
    assert_eq!(
        parse_paths(&args(&["--config", "/a.yaml", "--api-key-file", "k"]), &d).unwrap(),
        parse_paths(&args(&["--config=/a.yaml", "--api-key-file=k"]), &d).unwrap()
    );
    assert_eq!(
        parse_paths(&args(&["--api-key-file", "k", "-c", "/b.yaml"]), &d).unwrap(),
        paths("/b.yaml", Some("k"))
    );
}

#[test]
fn the_run_word_is_optional() {
    for rest in [
        vec![],
        vec!["-c", "/c.yaml"],
        vec!["--config=/c.yaml", "--api-key-file", "k"],
        vec!["--api-key-file=k", "-h"],
        vec!["--config"],
    ] {
        let mut with_run = vec!["run"];
        with_run.extend(rest.iter().copied());
        assert_eq!(
            parse_command_args(&args(&with_run), &defaults()),
            parse_command_args(&args(&rest), &defaults()),
            "{rest:?}"
        );
    }
}

#[test]
fn default_paths_come_from_outside_or_the_fixed_default() {
    let p = paths_from(None, None);
    assert_eq!(p.config_path, "/etc/llm-relay/config.yaml");
    assert_eq!(p.api_key_file, None);
    let p = paths_from(Some("/c.yaml".to_string()), Some("k".to_string()));
    assert_eq!(p.config_path, "/c.yaml");
    assert_eq!(p.api_key_file, Some("k".to_string()));
}
