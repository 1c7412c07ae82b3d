use ssht::config::{Config, ConfigError, Forward, Namespace};

fn office() -> Namespace {
    Namespace {
        ssh_user: "root".to_string(),
        ssh_host: "10.0.0.151".to_string(),
        ssh_port: 22,
        target_ip: "10.0.0.151".to_string(),
        forwards: vec![Forward { local: 6443, remote: 6443 }, Forward { local: 80, remote: 80 }],
    }
}

fn qa() -> Namespace {
    Namespace {
        ssh_user: "deploy".to_string(),
        ssh_host: "qa.example".to_string(),
        ssh_port: 2222,
        target_ip: "127.0.0.1".to_string(),
        forwards: vec![Forward { local: 5432, remote: 5432 }],
    }
}

fn config() -> Config {
    let mut c = Config::new();
    c.insert("office".to_string(), office());
    c.insert("qa".to_string(), qa());
    c
}

fn same(a: &Namespace, b: &Namespace) -> bool {
    a.ssh_user == b.ssh_user
        && a.ssh_host == b.ssh_host
        && a.ssh_port == b.ssh_port
        && a.target_ip == b.target_ip
        && a.forwards == b.forwards
}

#[test]
fn clone_keeps_every_field() {
    let ns = office();
    assert!(same(&ns.clone(), &ns));
}

#[test]
fn empty_config_has_nothing() {
    let c = Config::new();
    assert!(c.get(&"office".to_string()).is_none());
}

#[test]
fn get_returns_what_was_inserted() {
    let c = config();
    assert!(same(&c.get(&"office".to_string()).unwrap(), &office()));
    assert!(same(&c.get(&"qa".to_string()).unwrap(), &qa()));
    assert!(c.get(&"prod".to_string()).is_none());
}

#[test]
fn insert_replaces_under_the_same_name() {
    let mut c = config();
    c.insert("office".to_string(), qa());
    assert!(same(&c.get(&"office".to_string()).unwrap(), &qa()));
    assert!(same(&c.get(&"qa".to_string()).unwrap(), &qa()));
}

#[test]
fn select_keeps_request_order() {
    let c = config();
    let picked = c.select_namespaces(&["qa".to_string(), "office".to_string()]).unwrap();
    assert_eq!(picked.len(), 2);
    assert_eq!(picked[0].0, "qa");
    assert!(same(&picked[0].1, &qa()));
    assert_eq!(picked[1].0, "office");
    assert!(same(&picked[1].1, &office()));
}

#[test]
fn select_keeps_repeated_names() {
    let c = config();
    let picked = c.select_namespaces(&["office".to_string(), "office".to_string()]).unwrap();
    assert_eq!(picked.len(), 2);
    assert_eq!(picked[1].0, "office");
}

#[test]
fn select_nothing_is_refused() {
    let c = config();
    let err = c.select_namespaces(&[]).unwrap_err();
    assert_eq!(err, ConfigError::NoNamespaceRequested);
    assert_eq!(err.message(), "at least one namespace is required");
}

#[test]
fn select_reports_first_missing_name() {
    let c = config();
    let err = c
        .select_namespaces(&["office".to_string(), "prod".to_string(), "dev".to_string()])
        .unwrap_err();
    assert_eq!(err, ConfigError::NamespaceNotFound("prod".to_string()));
    assert_eq!(err.message(), "namespace prod not found");
}
