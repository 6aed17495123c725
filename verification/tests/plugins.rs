use axum_health::address::{IpAddr, SocketAddr};
use axum_health::config::{
    Config, HealthCacheConfig, HealthConfig, PluginConfig, PluginPermissions, PluginsConfig,
    ServerConfig, TcpPermission, TlsConfig,
};
use axum_health::health::{ComponentDetails, ComponentHealth};
use axum_health::loader::{
    directory_or_current, load_plugins, load_plugins_from, resolve_plugin_path, PluginLoad,
    PluginLoading,
};
use axum_health::plugin::{
    address_allowed, down, execute_plugin, health_of_report, Plugin, PluginOutput, PluginReport,
    SocketUse,
};
use axum_health::status::Status;

fn table(entries: &[(&str, toml::Value)]) -> toml::Value {
    let mut map = toml::map::Map::new();
    for (key, value) in entries {
        map.insert(key.to_string(), value.clone());
    }
    toml::Value::Table(map)
}

fn item(name: &str, path: &str) -> PluginConfig {
    PluginConfig {
        name: name.to_string(),
        path: path.to_string(),
        config: table(&[]),
        timeout_seconds: None,
        permissions: PluginPermissions::default(),
    }
}

fn plugins(items: Vec<PluginConfig>) -> PluginsConfig {
    PluginsConfig {
        timeout_seconds: 5,
        items,
    }
}

fn config(plugins: Option<PluginsConfig>) -> Config {
    Config {
        server: ServerConfig {
            port: 3000,
            tls: TlsConfig {
                cert_path: "certs/localhost.crt.pem".to_string(),
                key_path: "certs/localhost.key.pem".to_string(),
            },
        },
        health: HealthConfig {
            cache: HealthCacheConfig { ttl_seconds: 5 },
            http: None,
            dns: None,
            disk: None,
            plugins,
        },
    }
}

fn loaded() -> PluginLoad {
    PluginLoad {
        component: Ok(()),
        lookups: vec![],
    }
}

fn done(loading: Result<PluginLoading, String>) -> Vec<Plugin> {
    match loading {
        Ok(PluginLoading::Done(plugins)) => plugins,
        other => panic!("not done: {other:?}"),
    }
}

fn path_to_load(loading: Result<PluginLoading, String>) -> String {
    match loading {
        Ok(PluginLoading::Load { path }) => path,
        other => panic!("nothing to load: {other:?}"),
    }
}

fn returned(status: Status, details_json: &str) -> PluginOutput {
    PluginOutput::Returned(Ok(PluginReport {
        status,
        details_json: details_json.to_string(),
    }))
}

fn ready() -> Plugin {
    done(load_plugins_from(
        &plugins(vec![item("cache", "cache.wasm")]),
        ".",
        &[loaded()],
    ))
    .remove(0)
}

fn error_of(health: &ComponentHealth) -> &str {
    assert_eq!(health.status.as_str(), "DOWN");
    match &health.details {
        ComponentDetails::Error(reason) => reason,
        other => panic!("no error: {other:?}"),
    }
}

#[test]
fn without_plugins_nothing_is_loaded() {
    assert!(done(load_plugins(&config(None), "config.toml", &[])).is_empty());
    let none = config(Some(plugins(vec![])));
    assert!(done(load_plugins(&none, "config.toml", &[])).is_empty());
}

#[test]
fn a_plugin_is_loaded_as_configured() {
    let mut postgres = item("postgres", "plugins/postgres-health.wasm");
    postgres.config = table(&[("database", toml::Value::String("application".to_string()))]);
    postgres.timeout_seconds = Some(3);
    postgres.permissions = PluginPermissions {
        tcp: vec![TcpPermission {
            host: None,
            cidr: Some("10.0.0.0/8".to_string()),
            ports: vec![5432],
        }],
    };
    let config = config(Some(plugins(vec![postgres])));
    assert_eq!(
        path_to_load(load_plugins(&config, "etc/health/config.toml", &[])),
        "etc/health/plugins/postgres-health.wasm"
    );
    let plugins = done(load_plugins(&config, "etc/health/config.toml", &[loaded()]));
    assert_eq!(plugins.len(), 1);
    assert_eq!(plugins[0].name(), "postgres");
    assert_eq!(plugins[0].path, "etc/health/plugins/postgres-health.wasm");
    assert_eq!(plugins[0].config_json, r#"{"database":"application"}"#);
    assert_eq!(plugins[0].timeout_seconds, 3);
    let inside = SocketAddr::new(IpAddr::V4(0x0a14_1e28), 5432);
    let other_port = SocketAddr::new(IpAddr::V4(0x0a14_1e28), 5433);
    let outside = SocketAddr::new(IpAddr::V4(0xc0a8_010a), 5432);
    let rules = &plugins[0].tcp_permissions;
    assert!(address_allowed(rules, SocketUse::TcpConnect, inside));
    assert!(!address_allowed(rules, SocketUse::TcpConnect, other_port));
    assert!(!address_allowed(rules, SocketUse::TcpConnect, outside));
    assert!(!address_allowed(rules, SocketUse::TcpBind, inside));
}

#[test]
fn configuration_is_handed_over_as_json() {
    let mut plugin = item("p", "p.wasm");
    plugin.config = table(&[
        ("flag", toml::Value::Boolean(true)),
        ("list", toml::Value::Array(vec![toml::Value::Integer(1), toml::Value::Integer(-2)])),
        ("nested", table(&[("text", toml::Value::String("a \"b\"".to_string()))])),
    ]);
    let loaded = done(load_plugins_from(&plugins(vec![plugin]), "", &[loaded()]));
    assert_eq!(
        loaded[0].config_json,
        r#"{"flag":true,"list":[1,-2],"nested":{"text":"a \"b\""}}"#
    );
    assert_eq!(ready().config_json, "{}");
}

#[test]
fn a_copy_of_the_configuration_loads_the_same_plugins() {
    let mut plugin = item("p", "p.wasm");
    plugin.config = table(&[("key", toml::Value::Integer(1))]);
    plugin.timeout_seconds = Some(9);
    plugin.permissions = PluginPermissions {
        tcp: vec![TcpPermission {
            host: None,
            cidr: Some("10.0.0.0/8".to_string()),
            ports: vec![1, 2],
        }],
    };
    let copy = config(Some(plugins(vec![plugin]))).clone();
    let loaded = done(load_plugins(&copy, "config.toml", &[loaded()]));
    assert_eq!(loaded[0].name(), "p");
    assert_eq!(loaded[0].path, "p.wasm");
    assert_eq!(loaded[0].config_json, r#"{"key":1}"#);
    assert_eq!(loaded[0].timeout_seconds, 9);
    assert_eq!(loaded[0].tcp_permissions[0].ports, vec![1, 2]);
}

#[test]
fn plugins_are_loaded_one_after_the_other() {
    let both = plugins(vec![item("a", "a.wasm"), item("b", "/opt/b.wasm")]);
    assert_eq!(path_to_load(load_plugins_from(&both, "/etc", &[])), "/etc/a.wasm");
    assert_eq!(
        path_to_load(load_plugins_from(&both, "/etc", &[loaded()])),
        "/opt/b.wasm"
    );
    let plugins = done(load_plugins_from(&both, "/etc", &[loaded(), loaded()]));
    assert_eq!(plugins.len(), 2);
    assert_eq!(plugins[0].name(), "a");
    assert_eq!(plugins[1].name(), "b");
    assert_eq!(plugins[1].timeout_seconds, 5);
}

#[test]
fn hosts_of_permissions_are_looked_up_while_loading() {
    let mut plugin = item("db", "db.wasm");
    plugin.permissions = PluginPermissions {
        tcp: vec![TcpPermission {
            host: Some("db.example.com".to_string()),
            cidr: None,
            ports: vec![5432],
        }],
    };
    let plugins = plugins(vec![plugin]);
    match load_plugins_from(&plugins, "", &[loaded()]) {
        Ok(PluginLoading::Lookup { host }) => assert_eq!(host, "db.example.com"),
        other => panic!("no lookup: {other:?}"),
    }
    let load = PluginLoad {
        component: Ok(()),
        lookups: vec![Ok(vec![IpAddr::V4(7)])],
    };
    let plugins = done(load_plugins_from(&plugins, "", &[load]));
    let rules = &plugins[0].tcp_permissions;
    let found = SocketAddr::new(IpAddr::V4(7), 5432);
    let other = SocketAddr::new(IpAddr::V4(8), 5432);
    assert!(address_allowed(rules, SocketUse::TcpConnect, found));
    assert!(!address_allowed(rules, SocketUse::TcpConnect, other));
}

#[test]
fn plugin_names_are_not_empty_and_unique() {
    let reason = load_plugins_from(&plugins(vec![item("", "p.wasm")]), "", &[]).unwrap_err();
    assert_eq!(reason, "plugin names must be non-empty and unique: ");
    let twice = plugins(vec![item("a", "a.wasm"), item("a", "b.wasm")]);
    assert_eq!(path_to_load(load_plugins_from(&twice, "", &[])), "a.wasm");
    assert_eq!(
        load_plugins_from(&twice, "", &[loaded()]).unwrap_err(),
        "plugin names must be non-empty and unique: a"
    );
}

#[test]
fn plugin_names_are_not_those_of_built_in_checks() {
    for name in ["http", "dns", "disk"] {
        assert_eq!(
            load_plugins_from(&plugins(vec![item(name, "p.wasm")]), "", &[]).unwrap_err(),
            format!("plugin name collides with built-in health check: {name}")
        );
    }
    assert_eq!(
        path_to_load(load_plugins_from(&plugins(vec![item("HTTP", "p.wasm")]), "", &[])),
        "p.wasm"
    );
}

#[test]
fn a_component_that_cannot_be_loaded_is_reported() {
    let load = PluginLoad {
        component: Err("no such file".to_string()),
        lookups: vec![],
    };
    assert_eq!(
        load_plugins_from(&plugins(vec![item("p", "p.wasm")]), "dir", &[load]).unwrap_err(),
        "failed to load health plugin p from dir/p.wasm: no such file"
    );
}

#[test]
fn invalid_permissions_of_a_plugin_are_reported() {
    let mut plugin = item("p", "p.wasm");
    plugin.permissions = PluginPermissions {
        tcp: vec![TcpPermission {
            host: None,
            cidr: Some("10.0.0.0/8".to_string()),
            ports: vec![],
        }],
    };
    assert_eq!(
        load_plugins_from(&plugins(vec![plugin]), "", &[loaded()]).unwrap_err(),
        "invalid permissions for plugin p: TCP permission must declare at least one port"
    );
}

#[test]
fn plugin_paths_are_relative_to_the_configuration() {
    let one = |path: &str| config(Some(plugins(vec![item("p", path)])));
    for (config_path, path, expected) in [
        ("config.toml", "p.wasm", "p.wasm"),
        ("conf/config.toml", "p.wasm", "conf/p.wasm"),
        ("/config.toml", "p.wasm", "/p.wasm"),
        ("/etc/config.toml", "sub/p.wasm", "/etc/sub/p.wasm"),
        ("/etc/config.toml", "/p.wasm", "/p.wasm"),
        ("./config.toml", "p.wasm", "./p.wasm"),
        ("../config.toml", "p.wasm", "../p.wasm"),
        ("a/../config.toml", "p.wasm", "a/../p.wasm"),
        ("a//b/config.toml", "p.wasm", "a//b/p.wasm"),
        (".hidden/config.toml", "p.wasm", ".hidden/p.wasm"),
        ("", "p.wasm", "./p.wasm"),
        ("/", "p.wasm", "./p.wasm"),
    ] {
        assert_eq!(
            path_to_load(load_plugins(&one(path), config_path, &[])),
            expected,
            "{config_path}"
        );
    }
}

#[test]
fn paths_are_joined_as_the_standard_library_joins_them() {
    for directory in ["", ".", "/", "a", "a/", "/a/b", "a//", "é"] {
        for path in ["", "p", "/p", "../p", "p/q", "./p"] {
            assert_eq!(
                resolve_plugin_path(directory, path),
                std::path::Path::new(directory).join(path).to_str().unwrap(),
                "{directory:?} {path:?}"
            );
        }
    }
    assert_eq!(directory_or_current(None), ".");
    assert_eq!(directory_or_current(Some("x".to_string())), "x");
}

#[test]
fn reports_of_plugins_are_shown() {
    let plugin = ready();
    let health = plugin.check(Some(returned(Status::Up, r#" { "b": [1, 2], "a": null } "#)));
    assert_eq!(health.status.as_str(), "UP");
    match &health.details {
        ComponentDetails::Json(document) => assert_eq!(document, r#"{"a":null,"b":[1,2]}"#),
        other => panic!("no document: {other:?}"),
    }
    let health = plugin.check(Some(returned(Status::Down, "{}")));
    assert_eq!(health.status.as_str(), "DOWN");
    assert!(matches!(&health.details, ComponentDetails::Json(document) if document == "{}"));
}

#[test]
fn failures_of_plugins_are_shown() {
    let plugin = ready();
    assert_eq!(error_of(&plugin.check(None)), "plugin health check timed out");
    assert_eq!(
        error_of(&plugin.check(Some(PluginOutput::Failed("trapped".to_string())))),
        "trapped"
    );
    assert_eq!(
        error_of(&plugin.check(Some(PluginOutput::Returned(Err("no route".to_string()))))),
        "plugin returned an error: no route"
    );
    let message = serde_json::from_str::<serde_json::Value>("{").unwrap_err();
    assert_eq!(
        error_of(&plugin.check(Some(returned(Status::Up, "{")))),
        format!("plugin returned invalid details JSON: {message}")
    );
}

#[test]
fn plugin_output_is_turned_into_a_report() {
    assert_eq!(
        execute_plugin(PluginOutput::Failed("x".to_string())).unwrap_err(),
        "x"
    );
    assert!(execute_plugin(returned(Status::Up, "[]")).is_ok());
    let health = health_of_report(Status::Down, Ok("{}".to_string())).unwrap();
    assert_eq!(health.status.as_str(), "DOWN");
    assert_eq!(
        health_of_report(Status::Up, Err("bad".to_string())).unwrap_err(),
        "plugin returned invalid details JSON: bad"
    );
    assert_eq!(down(ComponentDetails::Empty).status.as_str(), "DOWN");
}
