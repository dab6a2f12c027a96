use llm_relay::config::{is_private_target, parse_byte_size, ByteSize, Config, ProviderConfig, ProxyConfig};
use llm_relay::error::ConfigError;

fn config_with(name: &str, base_url: &str, allow_private: bool) -> Config {
    let mut config = Config::default();
    config.providers.insert(
        name.to_string(),
        ProviderConfig {
            base_url: base_url.to_string(),
            allow_private,
        },
    );
    config
}

fn validation_message(config: &Config) -> String {
    match config.validate() {
        Err(ConfigError::Validation(message)) => message,
        other => panic!("expected a validation error, got {:?}", other),
    }
}

#[test]
fn parses_byte_sizes() {
    assert_eq!(parse_byte_size("8MB").unwrap(), 8 * 1024 * 1024);
    assert_eq!(parse_byte_size("1024").unwrap(), 1024);
    assert_eq!(parse_byte_size("2 gib").unwrap(), 2 * 1024 * 1024 * 1024);
}

#[test]
fn byte_sizes_ignore_outer_whitespace_and_case() {
    assert_eq!(parse_byte_size(" \t8MB\n"), parse_byte_size("8MB"));
    assert_eq!(parse_byte_size("  "), parse_byte_size(""));
    assert_eq!(parse_byte_size("2 GiB").unwrap(), parse_byte_size("2 gib").unwrap());
    assert_eq!(parse_byte_size("8mb").ok(), parse_byte_size("8MB").ok());
    assert!(parse_byte_size("8XB").is_err() && parse_byte_size("8xb").is_err());
}

#[test]
fn byte_size_units_and_spacing() {
    assert_eq!(parse_byte_size("  7  ").unwrap(), 7);
    assert_eq!(parse_byte_size("3b").unwrap(), 3);
    assert_eq!(parse_byte_size("3 KiB").unwrap(), 3 * 1024);
    assert_eq!(parse_byte_size("5k").unwrap(), 5 * 1024);
    assert_eq!(parse_byte_size("4M").unwrap(), 4 * 1024 * 1024);
    assert_eq!(parse_byte_size("1G").unwrap(), 1024 * 1024 * 1024);
    assert_eq!(parse_byte_size("0").unwrap(), 0);
}

#[test]
fn byte_size_errors() {
    assert_eq!(parse_byte_size("   ").unwrap_err(), "byte size cannot be empty");
    assert_eq!(
        parse_byte_size("MB").unwrap_err(),
        "byte size \"MB\" is missing a number"
    );
    assert_eq!(
        parse_byte_size("10 tb").unwrap_err(),
        "byte size unit \"tb\" is not supported"
    );
    assert_eq!(
        parse_byte_size("99999999999999999999999999999999999999999").unwrap_err(),
        "byte size \"99999999999999999999999999999999999999999\" has an invalid number"
    );
    assert_eq!(
        parse_byte_size("99999999999999999999g").unwrap_err(),
        "byte size \"99999999999999999999g\" is too large"
    );
}

#[test]
fn loads_example_style_config_with_defaults() {
    let config = config_with("openai", "https://api.openai.com", false);

    config.validate().unwrap();
    assert_eq!(config.server.port, 5017);
    assert_eq!(config.server.max_body_size.0, 8 * 1024 * 1024);
    assert_eq!(config.runtime.worker_threads, 2);
    assert_eq!(config.security.api_key_file, "api_key");
}

#[test]
fn defaults_match_the_documented_values() {
    let config = Config::default();
    assert_eq!(config.server.host, "0.0.0.0");
    assert_eq!(config.server.max_concurrent_requests, 800);
    assert_eq!(config.server.retry_after_seconds, 1);
    assert_eq!(config.timeout.connect, 10);
    assert_eq!(config.timeout.request, 300);
    assert_eq!(config.pool.max_idle_per_host, 8);
    assert_eq!(config.pool.idle_timeout, 30);
    assert!(config.proxy.is_none());
    assert!(config.providers.is_empty());
    assert_eq!(ByteSize::default(), ByteSize(8 * 1024 * 1024));
}

#[test]
fn rejects_cloudflare_gateway_base_url_with_embedded_path() {
    let config = config_with(
        "cloudflare",
        "https://gateway.ai.cloudflare.com/v1/account/gateway/compat",
        false,
    );

    let error = config.validate().unwrap_err().to_string();
    assert!(error
        .contains("providers.cloudflare.base_url must be https://gateway.ai.cloudflare.com"));
}

#[test]
fn accepts_cloudflare_gateway_without_path() {
    let config = config_with("cloudflare", "https://gateway.ai.cloudflare.com/", false);
    config.validate().unwrap();
}

#[test]
fn rejects_private_provider_targets_by_default() {
    let config = config_with("local", "http://127.0.0.1:11434", false);

    assert!(config.validate().is_err());
}

#[test]
fn allows_private_provider_targets_when_explicit() {
    let config = config_with("local", "http://127.0.0.1:11434", true);

    config.validate().unwrap();
}

#[test]
fn private_targets_of_every_kind_are_rejected() {
    for base in [
        "http://localhost:8080",
        "http://LOCALHOST./",
        "http://localhost.localdomain",
        "http://10.1.2.3",
        "http://172.20.0.1",
        "http://192.168.1.1",
        "http://169.254.169.254",
        "http://255.255.255.255",
        "http://192.0.2.7",
        "http://198.51.100.7",
        "http://203.0.113.7",
        "http://0.0.0.0",
        "http://[::1]:11434",
        "http://[::]/",
        "http://[fd00::1]/",
        "http://[fe80::1]/",
    ] {
        let message = validation_message(&config_with("p", base, false));
        assert_eq!(
            message,
            "providers.p.base_url points to a private or local target; set allow_private: true only for intentional private upstreams",
            "{base}"
        );
    }
    for base in [
        "https://api.openai.com",
        "http://8.8.8.8",
        "http://172.32.0.1",
        "http://[2001:4860:4860::8888]/",
    ] {
        config_with("p", base, false).validate().unwrap();
    }
}

#[test]
fn provider_url_rules() {
    assert_eq!(
        validation_message(&config_with("p", "ftp://example.com", false)),
        "providers.p.base_url scheme \"ftp\" is not supported"
    );
    assert_eq!(
        validation_message(&config_with("p", "https://user:pw@example.com", false)),
        "providers.p.base_url must not include credentials"
    );
    assert_eq!(
        validation_message(&config_with("p", "https://example.com/?a=1", false)),
        "providers.p.base_url must not include query or fragment components"
    );
    assert_eq!(
        validation_message(&config_with("p", "https://example.com/#top", false)),
        "providers.p.base_url must not include query or fragment components"
    );
    assert!(validation_message(&config_with("p", "not a url", false))
        .starts_with("providers.p.base_url is invalid: "));
}

#[test]
fn provider_name_rules() {
    assert_eq!(
        validation_message(&config_with("", "https://example.com", false)),
        "provider names cannot be empty"
    );
    assert_eq!(
        validation_message(&config_with("bad name", "https://example.com", false)),
        "provider name \"bad name\" may only contain ASCII letters, numbers, '-' and '_'"
    );
    config_with("Open-AI_2", "https://example.com", false)
        .validate()
        .unwrap();
}

#[test]
fn first_broken_rule_is_reported() {
    let mut config = config_with("openai", "https://api.openai.com", false);
    config.server.port = 0;
    assert_eq!(validation_message(&config), "server.port must be greater than 0");

    let mut config = config_with("openai", "https://api.openai.com", false);
    config.server.max_body_size = ByteSize(0);
    assert_eq!(
        validation_message(&config),
        "server.max_body_size must be greater than 0"
    );

    let mut config = config_with("openai", "https://api.openai.com", false);
    config.server.max_concurrent_requests = 0;
    assert_eq!(
        validation_message(&config),
        "server.max_concurrent_requests must be greater than 0"
    );

    let mut config = config_with("openai", "https://api.openai.com", false);
    config.runtime.worker_threads = 0;
    assert_eq!(
        validation_message(&config),
        "runtime.worker_threads must be greater than 0"
    );

    let mut config = config_with("openai", "https://api.openai.com", false);
    config.timeout.request = 0;
    assert_eq!(
        validation_message(&config),
        "timeout.connect and timeout.request must be greater than 0"
    );

    let mut config = config_with("openai", "https://api.openai.com", false);
    config.pool.idle_timeout = 0;
    assert_eq!(
        validation_message(&config),
        "pool.max_idle_per_host and pool.idle_timeout must be greater than 0"
    );

    let mut config = config_with("openai", "https://api.openai.com", false);
    config.security.api_key_file = String::new();
    assert_eq!(
        validation_message(&config),
        "security.api_key_file must not be empty"
    );

    assert_eq!(
        validation_message(&Config::default()),
        "at least one provider must be configured"
    );
}

#[test]
fn providers_are_checked_in_name_order() {
    let mut config = Config::default();
    config.providers.insert(
        "zeta".to_string(),
        ProviderConfig {
            base_url: "ftp://z.example".to_string(),
            allow_private: false,
        },
    );
    config.providers.insert(
        "alpha".to_string(),
        ProviderConfig {
            base_url: "ftp://a.example".to_string(),
            allow_private: false,
        },
    );
    assert_eq!(
        validation_message(&config),
        "providers.alpha.base_url scheme \"ftp\" is not supported"
    );
}

#[test]
fn proxy_url_rules() {
    let mut config = config_with("openai", "https://api.openai.com", false);
    config.proxy = Some(ProxyConfig {
        url: "socks5h://127.0.0.1:1080".to_string(),
    });
    config.validate().unwrap();

    config.proxy = Some(ProxyConfig {
        url: "ftp://proxy.example".to_string(),
    });
    assert_eq!(
        validation_message(&config),
        "proxy.url scheme \"ftp\" is not supported"
    );

    config.proxy = Some(ProxyConfig {
        url: "::".to_string(),
    });
    assert!(validation_message(&config).starts_with("proxy.url is invalid: "));
}

#[test]
fn config_error_texts() {
    let e = ConfigError::Validation("x".to_string());
    assert_eq!(e.to_string(), "invalid configuration: x");
    let e = ConfigError::Io {
        path: "/c.yaml".to_string(),
        message: "gone".to_string(),
    };
    assert_eq!(e.to_string(), "failed to read config file /c.yaml: gone");
    let e = ConfigError::Parse {
        path: "/c.yaml".to_string(),
        message: "bad".to_string(),
    };
    assert_eq!(e.to_string(), "failed to parse config file /c.yaml: bad");
    let e = ConfigError::HttpClient("no".to_string());
    assert_eq!(e.to_string(), "failed to build HTTP client: no");
}

#[test]
fn finishing_a_load_resolves_the_key_file_beside_the_config() {
    let mut config = config_with("openai", "https://api.openai.com", false);
    config.finish_loading("/etc/llm-relay/config.yaml").unwrap();
    assert_eq!(config.security.api_key_file, "/etc/llm-relay/api_key");

    let mut config = config_with("openai", "https://api.openai.com", false);
    config.security.api_key_file = "/var/lib/key".to_string();
    config.finish_loading("/etc/llm-relay/config.yaml").unwrap();
    assert_eq!(config.security.api_key_file, "/var/lib/key");

    let mut config = config_with("openai", "https://api.openai.com", false);
    config.finish_loading("config.yaml").unwrap();
    assert_eq!(config.security.api_key_file, "api_key");
}

#[test]
fn provider_map_replaces_and_orders() {
    let mut config = Config::default();
    let first = config.providers.insert(
        "b".to_string(),
        ProviderConfig {
            base_url: "https://one.example".to_string(),
            allow_private: false,
        },
    );
    assert!(first.is_none());
    config.providers.insert(
        "a".to_string(),
        ProviderConfig {
            base_url: "https://two.example".to_string(),
            allow_private: false,
        },
    );
    let previous = config.providers.insert(
        "b".to_string(),
        ProviderConfig {
            base_url: "https://three.example".to_string(),
            allow_private: true,
        },
    );
    assert_eq!(previous.unwrap().base_url, "https://one.example");
    assert_eq!(config.providers.len(), 2);
    assert_eq!(config.providers.entry(0).0, "a");
    assert_eq!(config.providers.entry(1).0, "b");
    assert_eq!(config.providers.get("b").unwrap().base_url, "https://three.example");
    assert!(config.providers.get("c").is_none());
}

#[test]
fn bracketed_ipv6_hosts_are_read_as_addresses() {
    assert!(is_private_target(&Some("[::1]".to_string())));
    assert!(is_private_target(&Some("[FE80::1]".to_string())));
    assert!(!is_private_target(&Some("[2001:db9::1]".to_string())));
    assert!(!is_private_target(&Some("[::1".to_string())));
    assert!(is_private_target(&None));
}
