use arca::handler::{serve, Desk, Tables};
use arca::rpc::{Request, Response};
use arca::server::{
    check_operator, forbidden, operator_gate, require_loopback, route, unveil_plan, write_refusal,
    Octets, Resolved, Route, SandboxPaths, SocketRole,
};

fn v4(text: &str, ip: [u8; 4]) -> Resolved {
    Resolved { text: text.to_string(), ip: Octets::V4(ip) }
}

/// An IPv6 address whose last octet is the only one that may not be zero.
fn v6(text: &str, last: u8) -> Resolved {
    let mut ip = [0u8; 16];
    ip[15] = last;
    Resolved { text: text.to_string(), ip: Octets::V6(ip) }
}

#[test]
fn require_loopback_rejects_non_loopback() {
    for (bind, addr) in [
        ("0.0.0.0:7732", v4("0.0.0.0:7732", [0, 0, 0, 0])),
        ("192.168.1.1:7732", v4("192.168.1.1:7732", [192, 168, 1, 1])),
        ("100.64.0.5:7732", v4("100.64.0.5:7732", [100, 64, 0, 5])),
        ("[::]:7732", v6("[::]:7732", 0)),
    ] {
        assert!(require_loopback(bind, &Ok(vec![addr])).is_err());
    }
    // A name that resolves to nothing, or not at all, is no loopback either.
    assert!(require_loopback("nowhere:1", &Ok(Vec::new())).is_err());
    assert!(require_loopback("nowhere:1", &Err("no such host".to_string())).is_err());
}

#[test]
fn require_loopback_accepts_loopback() {
    for (bind, addr) in [
        ("127.0.0.1:7732", v4("127.0.0.1:7732", [127, 0, 0, 1])),
        ("127.0.0.1:0", v4("127.0.0.1:0", [127, 0, 0, 1])),
        ("[::1]:7732", v6("[::1]:7732", 1)),
    ] {
        assert!(require_loopback(bind, &Ok(vec![addr])).is_ok());
    }
}

#[test]
fn loopback_is_the_whole_of_127_and_one_address_of_ipv6() {
    assert!(v4("127.255.0.9:1", [127, 255, 0, 9]).is_local());
    assert!(!v4("126.0.0.1:1", [126, 0, 0, 1]).is_local());
    assert!(v6("[::1]:1", 1).is_local());
    assert!(!v6("[::2]:1", 2).is_local());
    // An IPv4 address inside an IPv6 one is not the loopback.
    let mapped = [0, 0, 0, 0, 0, 0, 0, 0, 0, 0, 255, 255, 127, 0, 0, 1];
    assert!(!Resolved { text: "[::ffff:127.0.0.1]:1".to_string(), ip: Octets::V6(mapped) }.is_local());
}

#[test]
fn one_address_outside_is_enough_to_refuse() {
    let mixed: Result<Vec<Resolved>, String> =
        Ok(vec![v4("127.0.0.1:1", [127, 0, 0, 1]), v4("10.0.0.1:1", [10, 0, 0, 1])]);
    assert_eq!(
        require_loopback("both:1", &mixed).unwrap_err(),
        "tcp_bind \"both:1\" resolves to non-loopback 10.0.0.1:1: the TCP listener has no \
         peer-UID auth and must bind loopback only (remote access is mesh SSH; never expose 7732)"
    );
}

#[test]
fn operator_gate_accepts_only_matching_uid_and_fails_closed() {
    assert!(operator_gate(1000, Some(1000)).is_ok());
    assert!(operator_gate(1001, Some(1000)).is_err()); // wrong uid
    assert!(operator_gate(0, Some(1000)).is_err()); // root is not the operator
    assert!(operator_gate(1000, None).is_err()); // unset: closed
    assert!(operator_gate(0, None).is_err());
}

#[test]
fn an_unknown_peer_is_no_operator() {
    assert!(check_operator(Ok(1000), Some(1000)).is_ok());
    assert!(check_operator(Err("no credentials".to_string()), Some(1000)).is_err());
    match forbidden("why".to_string()) {
        Response::Error(e) => assert_eq!(e.code, "forbidden"),
        _ => panic!("expected an error"),
    }
}

fn business() -> Request {
    Request::ManualUpsertBusiness { tag: "acme".into(), display_name: None, active: None }
}

fn empty() -> Tables {
    Tables {
        accounts: Vec::new(),
        snapshots: Vec::new(),
        transactions: Vec::new(),
        businesses: Vec::new(),
        providers: Vec::new(),
        subscriptions: Vec::new(),
        planned: Vec::new(),
        rules: Vec::new(),
        history: Vec::new(),
        labels: Vec::new(),
    }
}

fn desk() -> Desk {
    Desk { now: 1_780_000_000, uptime_secs: 5, version: "test".to_string(), fresh: 1 }
}

#[test]
fn read_socket_rejects_write_verb() {
    assert!(matches!(route(SocketRole::Read, &business()), Route::Refuse));
    match write_refusal() {
        Response::Error(e) => assert_eq!(e.code, "forbidden"),
        other => panic!("expected forbidden, got {other:?}"),
    }
}

#[test]
fn read_socket_allows_read_verb() {
    assert!(matches!(route(SocketRole::Read, &Request::Health), Route::Answer));
    let mut t = empty();
    assert!(matches!(
        serve(&mut t, Request::Health, &desk(), &Vec::new()),
        Some(Response::Health(_))
    ));
}

#[test]
fn write_socket_takes_both() {
    assert!(matches!(route(SocketRole::Write, &business()), Route::Answer));
    assert!(matches!(route(SocketRole::Write, &Request::Health), Route::Answer));
    assert!(matches!(
        route(SocketRole::Write, &Request::ProviderRefresh { kind_filter: None }),
        Route::Refresh
    ));
    assert!(matches!(
        route(SocketRole::Read, &Request::ProviderRefresh { kind_filter: None }),
        Route::Refuse
    ));
}

#[test]
fn the_sandbox_opens_what_the_daemon_writes() {
    let p = SandboxPaths {
        db_path: "/var/arca/arca.db".to_string(),
        db_parent: Some("/var/arca".to_string()),
        log_parent: Some("/var/log".to_string()),
        read_socket_parent: None,
        write_socket_parent: Some("/run/arca".to_string()),
        reports_dir: "/var/arca/reports".to_string(),
        ics_dir: "/var/arca/ics".to_string(),
    };
    let plan = unveil_plan(&p);
    assert!(plan.iter().any(|u| u.path == "/var/arca" && u.writable));
    assert!(plan.iter().any(|u| u.path == "/var/arca/reports" && u.writable));
    assert!(plan.iter().any(|u| u.path == "/run/arca"));
}
