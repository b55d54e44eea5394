use std::collections::HashMap;

use mcproxy::config::{
    apply_env_overrides, load_config, EnvOverrides, HttpServerConfig, LoadFailure, McpConfig,
    MiddlewareConfig, ServerConfig,
};
use mcproxy::error::ProxyError;

fn stdio() -> ServerConfig {
    let mut env = HashMap::new();
    env.insert("VAR1".to_string(), "VALUE1".to_string());
    ServerConfig::Stdio {
        server_type: None,
        command: "my-command".to_string(),
        args: vec!["arg1".to_string(), "arg2".to_string()],
        env,
    }
}

fn http() -> ServerConfig {
    ServerConfig::Http {
        server_type: Some("http".to_string()),
        url: "http://localhost:8080".to_string(),
        authorization_token: "bearer-token".to_string(),
    }
}

fn overridden(overrides: EnvOverrides) -> HttpServerConfig {
    let mut config = McpConfig::default();
    apply_env_overrides(&mut config, &overrides);
    config.http_server.unwrap()
}

fn some(text: &str) -> Option<String> {
    Some(text.to_string())
}

#[test]
fn a_server_has_one_transport() {
    let config = stdio().as_stdio().unwrap();
    assert_eq!(config.command, "my-command");
    assert_eq!(config.args, vec!["arg1", "arg2"]);
    assert_eq!(config.env.get("VAR1"), Some(&"VALUE1".to_string()));
    assert!(stdio().as_http().is_none());

    let config = http().as_http().unwrap();
    assert_eq!(config.url, "http://localhost:8080");
    assert_eq!(config.authorization_token, "bearer-token");
    assert!(http().as_stdio().is_none());
}

#[test]
fn the_defaults_are_those_of_development() {
    let config = McpConfig::default();
    assert!(config.mcp_servers.is_empty());
    let http = config.http_server.unwrap();
    assert_eq!(http.host, "localhost");
    assert_eq!(http.port, 8080);
    assert!(http.cors_enabled);
    assert_eq!(http.cors_origins, vec!["*"]);
    assert_eq!(http.shutdown_timeout, 5);
    assert!(http.unix_socket.is_none());
    assert!(http.unix_socket_mode.is_none());
    let middleware: MiddlewareConfig = http.middleware;
    assert!(middleware.proxy.is_empty());
    assert!(middleware.client.default.is_empty());
    assert!(middleware.client.servers.is_empty());
}

#[test]
fn a_loaded_configuration_has_an_http_server() {
    let mut mcp_servers = HashMap::new();
    mcp_servers.insert("test-server".to_string(), stdio());
    let read = Ok(McpConfig { mcp_servers, http_server: None });
    let config = load_config("test_config.json", read).unwrap();
    assert_eq!(config.mcp_servers.len(), 1);
    assert!(config.mcp_servers.contains_key("test-server"));
    let http = config.http_server.as_ref().expect("HTTP server config should be present");
    assert_eq!(http.host, "localhost");
    assert_eq!(http.port, 8080);

    let given = HttpServerConfig { port: 9000, ..HttpServerConfig::default() };
    let read = Ok(McpConfig { mcp_servers: HashMap::new(), http_server: Some(given) });
    assert_eq!(load_config("test_config.json", read).unwrap().http_server.unwrap().port, 9000);
}

#[test]
fn test_load_config_file_not_found() {
    let missing = Err(LoadFailure::Unreadable("No such file or directory".to_string()));
    let result = load_config("non_existent_file.json", missing);
    assert!(result.is_err());
}

#[test]
fn a_configuration_that_cannot_be_loaded_is_an_error_that_says_why() {
    let missing = Err(LoadFailure::Unreadable("gone".to_string()));
    assert_eq!(
        load_config("x.json", missing).err(),
        Some(ProxyError::Config("Failed to read config file 'x.json': gone".to_string()))
    );
    let malformed = Err(LoadFailure::Malformed("expected value at line 1".to_string()));
    assert_eq!(
        load_config("x.json", malformed).err(),
        Some(ProxyError::Json("expected value at line 1".to_string()))
    );
}

#[test]
fn the_environment_overrides_the_configuration() {
    let http = overridden(EnvOverrides {
        host: some("0.0.0.0"),
        port: some("9000"),
        cors_enabled: some("OFF"),
        cors_origins: some("https://a.example, https://b.example,"),
        shutdown_timeout: some("30"),
        unix_socket: some("/tmp/mcproxy.sock"),
        unix_socket_mode: some("0660"),
    });
    assert_eq!(http.host, "0.0.0.0");
    assert_eq!(http.port, 9000);
    assert!(!http.cors_enabled);
    assert_eq!(http.cors_origins, vec!["https://a.example", "https://b.example"]);
    assert_eq!(http.shutdown_timeout, 30);
    assert_eq!(http.unix_socket.as_deref(), Some("/tmp/mcproxy.sock"));
    assert_eq!(http.unix_socket_mode.as_deref(), Some("0660"));
}

#[test]
fn settings_that_cannot_be_read_change_nothing() {
    let http = overridden(EnvOverrides {
        port: some("65536"),
        cors_enabled: some("perhaps"),
        cors_origins: some(" , "),
        shutdown_timeout: some("-1"),
        ..EnvOverrides::default()
    });
    assert_eq!(http.host, "localhost");
    assert_eq!(http.port, 8080);
    assert!(http.cors_enabled);
    assert_eq!(http.cors_origins, vec!["*"]);
    assert_eq!(http.shutdown_timeout, 5);
    assert!(http.unix_socket.is_none());
}

#[test]
fn cors_is_switched_by_words() {
    for (word, before, after) in [
        ("true", false, true),
        ("1", false, true),
        ("Yes", false, true),
        ("ON", false, true),
        ("False", true, false),
        ("0", true, false),
        ("no", true, false),
        ("oFF", true, false),
        ("", true, true),
        ("", false, false),
        (" true", false, false),
    ] {
        let http = HttpServerConfig { cors_enabled: before, ..HttpServerConfig::default() };
        let mut config = McpConfig { mcp_servers: HashMap::new(), http_server: Some(http) };
        let overrides = EnvOverrides { cors_enabled: some(word), ..EnvOverrides::default() };
        apply_env_overrides(&mut config, &overrides);
        assert_eq!(config.http_server.unwrap().cors_enabled, after, "{}", word);
    }
}

#[test]
fn overriding_twice_is_overriding_once() {
    let overrides = EnvOverrides {
        port: some("+7"),
        cors_origins: some("a"),
        shutdown_timeout: some("18446744073709551615"),
        ..EnvOverrides::default()
    };
    let mut config = McpConfig { mcp_servers: HashMap::new(), http_server: None };
    apply_env_overrides(&mut config, &overrides);
    apply_env_overrides(&mut config, &overrides);
    let http = config.http_server.unwrap();
    assert_eq!(http.port, 7);
    assert_eq!(http.cors_origins, vec!["a"]);
    assert_eq!(http.shutdown_timeout, u64::MAX);
    assert_eq!(http.host, "localhost");
}
