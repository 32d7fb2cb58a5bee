use sweeprun::schedule::{
    concurrency, node_worker_count, parse_capacity, parse_port_or_default, pool_ready,
    resolve_target, HostOverrides, NodeCommon,
};

#[test]
fn concurrency_divides_capacity() {
    assert_eq!(concurrency(8, 3), 2);
}

#[test]
fn concurrency_never_below_one() {
    assert_eq!(concurrency(2, 3), 1);
    assert_eq!(concurrency(0, 4), 1);
}

#[test]
fn concurrency_ignores_capacity_when_threads_per_task_is_zero() {
    assert_eq!(concurrency(64, 0), 1);
    assert_eq!(concurrency(0, 0), 1);
}

#[test]
fn concurrency_exact_division() {
    assert_eq!(concurrency(8, 2), 4);
    assert_eq!(concurrency(7, 2), 3);
}

#[test]
fn failed_staging_contributes_no_workers() {
    assert_eq!(node_worker_count(false, 8, 2), 0);
    assert_eq!(node_worker_count(true, 8, 2), 4);
}

#[test]
fn pool_proceeds_only_when_every_host_connected() {
    assert!(pool_ready(&vec![true, true]));
    assert!(!pool_ready(&vec![true, false]));
    assert!(!pool_ready(&vec![false, true]));
    assert!(pool_ready(&vec![]));
}

#[test]
fn capacity_report_with_newline() {
    assert_eq!(parse_capacity("8\n"), Some(8));
    assert_eq!(parse_capacity(" 16 \n"), Some(16));
    assert_eq!(parse_capacity("128"), Some(128));
}

#[test]
fn malformed_capacity_report_is_rejected() {
    assert_eq!(parse_capacity(""), None);
    assert_eq!(parse_capacity("  \n"), None);
    assert_eq!(parse_capacity("eight"), None);
    assert_eq!(parse_capacity("8 cores"), None);
    assert_eq!(parse_capacity("-4"), None);
}

#[test]
fn port_override_parses_or_defaults() {
    assert_eq!(parse_port_or_default("2222"), 2222);
    assert_eq!(parse_port_or_default("+2222"), 2222);
    assert_eq!(parse_port_or_default("65535"), 65535);
    assert_eq!(parse_port_or_default("65536"), 22);
    assert_eq!(parse_port_or_default("abc"), 22);
    assert_eq!(parse_port_or_default(""), 22);
    assert_eq!(parse_port_or_default("+"), 22);
}

#[test]
fn username_defaults_to_root() {
    let c = NodeCommon::new(None);
    assert_eq!(c.username, "root");
    let c = NodeCommon::new(Some(String::from("alice")));
    assert_eq!(c.username, "alice");
}

#[test]
fn target_without_overrides_uses_defaults() {
    let common = NodeCommon::new(Some(String::from("alice")));
    let t = resolve_target(&common, &String::from("worker1"), &None);
    assert_eq!(t.host, "worker1");
    assert_eq!(t.port, 22);
    assert_eq!(t.user, "alice");
}

#[test]
fn target_applies_each_present_override() {
    let common = NodeCommon::new(Some(String::from("alice")));
    let overrides = Some(HostOverrides {
        host_name: Some(String::from("10.0.0.5")),
        port: Some(String::from("2200")),
        user: Some(String::from("bob")),
    });
    let t = resolve_target(&common, &String::from("worker1"), &overrides);
    assert_eq!(t.host, "10.0.0.5");
    assert_eq!(t.port, 2200);
    assert_eq!(t.user, "bob");
}

#[test]
fn target_falls_back_per_missing_override() {
    let common = NodeCommon::new(Some(String::from("alice")));
    let overrides = Some(HostOverrides {
        host_name: None,
        port: Some(String::from("nonsense")),
        user: None,
    });
    let t = resolve_target(&common, &String::from("worker1"), &overrides);
    assert_eq!(t.host, "worker1");
    assert_eq!(t.port, 22);
    assert_eq!(t.user, "alice");
}
