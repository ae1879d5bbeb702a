use hostscan::address::Address;
use hostscan::scan::{
    completed_outcome, select_hosts, spawn_failure_outcome, AddressRecord, HostRecord,
    ScanDocument,
};
use hostscan::session::ScanSession;

fn address(addr: &str, addrtype: &str) -> AddressRecord {
    AddressRecord { addr: addr.to_string(), addrtype: addrtype.to_string() }
}

fn record(state: &str, addresses: Vec<AddressRecord>, names: Option<Vec<&str>>) -> HostRecord {
    HostRecord {
        state: state.to_string(),
        addresses,
        hostnames: names.map(|v| v.into_iter().map(|n| n.to_string()).collect()),
    }
}

#[test]
fn up_host_with_name_is_selected() {
    let doc = ScanDocument {
        hosts: vec![record("up", vec![address("10.0.0.5", "ipv4")], Some(vec!["printer.local"]))],
    };
    let hosts = select_hosts(&doc);
    assert_eq!(hosts.len(), 1);
    assert_eq!(hosts[0].address, Address { a: 10, b: 0, c: 0, d: 5 });
    assert_eq!(hosts[0].hostname.as_deref(), Some("printer.local"));
}

#[test]
fn down_host_is_filtered() {
    let doc = ScanDocument { hosts: vec![record("down", vec![address("10.0.0.5", "ipv4")], None)] };
    assert!(select_hosts(&doc).is_empty());
}

#[test]
fn host_without_ipv4_is_dropped() {
    let doc = ScanDocument {
        hosts: vec![
            record("up", vec![address("fe80::1", "ipv6"), address("aa:bb:cc:dd:ee:ff", "mac")], Some(vec!["a"])),
            record("up", vec![], None),
            record("up", vec![address("10.0.0.7", "ipv4")], None),
        ],
    };
    let hosts = select_hosts(&doc);
    assert_eq!(hosts.len(), 1);
    assert_eq!(hosts[0].address, Address { a: 10, b: 0, c: 0, d: 7 });
    assert_eq!(hosts[0].hostname, None);
}

#[test]
fn first_ipv4_address_is_used() {
    let doc = ScanDocument {
        hosts: vec![record(
            "up",
            vec![address("aa:bb:cc:dd:ee:ff", "mac"), address("192.168.1.20", "ipv4"), address("192.168.1.21", "ipv4")],
            None,
        )],
    };
    let hosts = select_hosts(&doc);
    assert_eq!(hosts.len(), 1);
    assert_eq!(hosts[0].address, Address { a: 192, b: 168, c: 1, d: 20 });
}

#[test]
fn unparsable_address_drops_record() {
    let doc = ScanDocument {
        hosts: vec![
            record("up", vec![address("10.0.0.300", "ipv4")], None),
            record("up", vec![address("not an address", "ipv4"), address("10.0.0.9", "ipv4")], None),
        ],
    };
    assert!(select_hosts(&doc).is_empty());
}

#[test]
fn empty_hostnames_container_gives_no_name() {
    let doc = ScanDocument {
        hosts: vec![record("up", vec![address("10.0.0.1", "ipv4")], Some(vec![]))],
    };
    let hosts = select_hosts(&doc);
    assert_eq!(hosts.len(), 1);
    assert_eq!(hosts[0].hostname, None);
}

#[test]
fn first_hostname_is_taken_and_order_is_kept() {
    let doc = ScanDocument {
        hosts: vec![
            record("up", vec![address("10.0.0.3", "ipv4")], Some(vec!["c.lan", "other.lan"])),
            record("Up", vec![address("10.0.0.4", "ipv4")], None),
            record("up", vec![address("10.0.0.1", "ipv4")], None),
        ],
    };
    let hosts = select_hosts(&doc);
    assert_eq!(hosts.len(), 2);
    assert_eq!(hosts[0].address, Address { a: 10, b: 0, c: 0, d: 3 });
    assert_eq!(hosts[0].hostname.as_deref(), Some("c.lan"));
    assert_eq!(hosts[1].address, Address { a: 10, b: 0, c: 0, d: 1 });
}

#[test]
fn selecting_twice_gives_same_hosts() {
    let doc = ScanDocument {
        hosts: vec![
            record("up", vec![address("10.0.0.5", "ipv4")], Some(vec!["printer.local"])),
            record("up", vec![address("10.0.0.6", "ipv4")], None),
        ],
    };
    let first = select_hosts(&doc);
    let second = select_hosts(&doc);
    assert_eq!(first.len(), second.len());
    for (x, y) in first.iter().zip(second.iter()) {
        assert_eq!(x.address, y.address);
        assert_eq!(x.hostname, y.hostname);
    }
}

#[test]
fn completed_outcome_joins_streams() {
    let doc = ScanDocument { hosts: vec![record("up", vec![address("10.0.0.5", "ipv4")], None)] };
    let outcome = completed_outcome("<nmaprun/>", "warn", Some(doc));
    assert_eq!(outcome.raw_text, "STDOUT:\n<nmaprun/>\n\nSTDERR:\nwarn");
    assert_eq!(outcome.hosts.len(), 1);
}

#[test]
fn undecodable_output_gives_no_hosts() {
    let outcome = completed_outcome("garbage", "", None);
    assert_eq!(outcome.raw_text, "STDOUT:\ngarbage\n\nSTDERR:\n");
    assert!(outcome.hosts.is_empty());
}

#[test]
fn spawn_failure_returns_session_to_idle() {
    let mut session = ScanSession::new(Some(Address { a: 192, b: 168, c: 1, d: 1 }));
    assert_eq!(session.start_scan().as_deref(), Some("192.168.1.0/24"));
    assert!(session.running);
    let outcome = spawn_failure_outcome("No such file or directory (os error 2)");
    assert!(outcome.hosts.is_empty());
    assert_eq!(outcome.raw_text, "Failed to start nmap: No such file or directory (os error 2)");
    assert!(session.poll(Some(outcome)));
    assert!(!session.running);
    assert!(session.hosts.is_empty());
    assert!(session.raw_output.contains("Failed to start nmap"));
    assert!(session.can_scan());
}

#[test]
fn poll_before_completion_changes_nothing() {
    let mut session = ScanSession::new(Some(Address { a: 10, b: 0, c: 0, d: 1 }));
    assert!(session.start_scan().is_some());
    assert!(!session.poll(None));
    assert!(session.running);
    assert!(session.hosts.is_empty());
    assert!(session.raw_output.is_empty());
}

#[test]
fn only_one_scan_runs_at_a_time() {
    let mut session = ScanSession::new(Some(Address { a: 10, b: 0, c: 0, d: 1 }));
    assert!(session.can_scan());
    assert_eq!(session.start_scan().as_deref(), Some("10.0.0.0/24"));
    assert!(!session.can_scan());
    assert_eq!(session.start_scan(), None);
    assert!(session.running);
}

#[test]
fn no_gateway_disables_scanning() {
    let mut session = ScanSession::new(None);
    assert!(!session.can_scan());
    assert_eq!(session.start_scan(), None);
    assert!(!session.running);
}

#[test]
fn delivered_outcome_replaces_previous_results() {
    let mut session = ScanSession::new(Some(Address { a: 10, b: 0, c: 0, d: 1 }));
    session.start_scan();
    let doc = ScanDocument {
        hosts: vec![record("up", vec![address("10.0.0.5", "ipv4")], Some(vec!["printer.local"]))],
    };
    assert!(session.poll(Some(completed_outcome("x", "y", Some(doc)))));
    assert_eq!(session.hosts.len(), 1);
    assert_eq!(session.raw_output, "STDOUT:\nx\n\nSTDERR:\ny");
    session.start_scan();
    assert!(session.hosts.is_empty());
    assert!(session.raw_output.is_empty());
}

#[test]
fn poll_while_idle_ignores_delivery() {
    let mut session = ScanSession::new(Some(Address { a: 10, b: 0, c: 0, d: 1 }));
    assert!(!session.poll(Some(spawn_failure_outcome("x"))));
    assert!(session.raw_output.is_empty());
}

#[test]
fn empty_first_hostname_gives_no_name() {
    let doc = ScanDocument {
        hosts: vec![
            record("up", vec![address("10.0.0.8", "ipv4")], Some(vec!["", "later.lan"])),
            record("up", vec![address("10.0.0.9", "ipv4")], Some(vec![""])),
        ],
    };
    let hosts = select_hosts(&doc);
    assert_eq!(hosts.len(), 2);
    assert_eq!(hosts[0].address, Address { a: 10, b: 0, c: 0, d: 8 });
    assert_eq!(hosts[0].hostname, None);
    assert_eq!(hosts[1].hostname, None);
}
