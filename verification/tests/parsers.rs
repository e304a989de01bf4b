use port_manager::parse::{
    parse_linux_listing, parse_macos_listing, parse_tasklist_process_name, parse_windows_listing,
};

fn macos_fixture() -> String {
    [
        "COMMAND   PID USER   FD   TYPE  DEVICE SIZE/OFF NODE NAME",
        "node      123 dev   23u  IPv4  0x1         0t0  TCP *:3000 (LISTEN)",
        "sshd      321 root   7u  IPv4  0x2         0t0  TCP 127.0.0.1:22 (LISTEN)",
        "broken    abc dev   11u  IPv4  0x3         0t0  TCP *:4000 (LISTEN)",
        "huge      654 dev   12u  IPv4  0x4         0t0  TCP *:99999 (LISTEN)",
        "chrome    777 dev    9u  IPv4  0x5         0t0  TCP 127.0.0.1:80 ESTABLISHED",
    ]
    .join("\n")
}

#[test]
fn macos_listing_records() {
    let recs = parse_macos_listing(&macos_fixture());
    // One record per LISTEN line with a valid pid and port; malformed
    // lines are dropped, never an error.
    assert_eq!(recs.len(), 2);
    // Sorted ascending by port.
    assert_eq!(recs[0].port, 22);
    assert_eq!(recs[1].port, 3000);
    assert_eq!(recs[0].pid, Some(321));
    assert_eq!(recs[0].process_name.as_deref(), Some("sshd"));
    assert_eq!(recs[0].protocol, "TCP");
    assert_eq!(recs[0].state, "LISTEN");
    assert_eq!(recs[0].local_address, "127.0.0.1:22");
    assert_eq!(recs[0].foreign_address, None);
    assert!(!recs[0].is_development);
    assert_eq!(recs[1].pid, Some(123));
    assert_eq!(recs[1].process_name.as_deref(), Some("node"));
    assert_eq!(recs[1].local_address, "*:3000");
    assert!(recs[1].is_development);
}

#[test]
fn macos_listing_empty_and_headers_only() {
    assert_eq!(parse_macos_listing("").len(), 0);
    // The first line is a header and is skipped even if it matches.
    let only_header = "COMMAND PID USER FD TYPE DEVICE SIZE/OFF NODE LISTEN";
    assert_eq!(parse_macos_listing(only_header).len(), 0);
}

fn windows_fixture() -> String {
    [
        "",
        "Active Connections",
        "",
        "  Proto  Local Address          Foreign Address        State           PID",
        "  TCP    0.0.0.0:135            0.0.0.0:0              LISTENING       948",
        "  TCP    0.0.0.0:5173           0.0.0.0:0              LISTENING       1234",
        "  TCP    127.0.0.1:49677        127.0.0.1:49678        ESTABLISHED     4252",
        "  TCP    0.0.0.0:8080           0.0.0.0:0              LISTENING       nope",
    ]
    .join("\r\n")
}

#[test]
fn windows_listing_records() {
    let recs = parse_windows_listing(&windows_fixture());
    assert_eq!(recs.len(), 2);
    assert_eq!(recs[0].port, 135);
    assert_eq!(recs[0].pid, Some(948));
    // The listing itself carries no process name; that comes from a
    // separate per-process lookup.
    assert_eq!(recs[0].process_name, None);
    assert_eq!(recs[0].protocol, "TCP");
    assert_eq!(recs[0].state, "LISTENING");
    assert_eq!(recs[0].local_address, "0.0.0.0:135");
    assert!(!recs[0].is_development);
    assert_eq!(recs[1].port, 5173);
    assert_eq!(recs[1].pid, Some(1234));
    assert!(recs[1].is_development);
}

fn linux_fixture() -> String {
    [
        "State  Recv-Q Send-Q  Local Address:Port  Peer Address:Port Process",
        "LISTEN 0      128     0.0.0.0:22          0.0.0.0:*         users:((\"sshd\",pid=800,fd=3))",
        "LISTEN 0      511     *:8080              *:*               users:((\"java\",pid=900,fd=5))",
        "LISTEN 0      128     [::1]:631           [::]:*",
        "ESTAB  0      0       10.0.0.5:22         10.0.0.9:50000    users:((\"sshd\",pid=801,fd=4))",
    ]
    .join("\n")
}

#[test]
fn linux_listing_records() {
    let recs = parse_linux_listing(&linux_fixture());
    assert_eq!(recs.len(), 3);
    assert_eq!(recs[0].port, 22);
    assert_eq!(recs[0].pid, Some(800));
    assert_eq!(recs[0].process_name.as_deref(), Some("sshd"));
    assert_eq!(recs[0].state, "LISTEN");
    assert_eq!(recs[0].protocol, "TCP");
    assert_eq!(recs[0].local_address, "0.0.0.0:22");
    assert!(!recs[0].is_development);
    // No metadata column: pid and name stay absent, the record stays.
    assert_eq!(recs[1].port, 631);
    assert_eq!(recs[1].pid, None);
    assert_eq!(recs[1].process_name, None);
    assert_eq!(recs[1].local_address, "[::1]:631");
    assert_eq!(recs[2].port, 8080);
    assert_eq!(recs[2].pid, Some(900));
    assert_eq!(recs[2].process_name.as_deref(), Some("java"));
    assert!(recs[2].is_development);
}

#[test]
fn linux_metadata_without_markers() {
    // A metadata column without pid= or quotes leaves both absent.
    let text = [
        "State  Recv-Q Send-Q  Local Address:Port  Peer Address:Port Process",
        "LISTEN 0      128     0.0.0.0:7070        0.0.0.0:*         users:nothing-here",
    ]
    .join("\n");
    let recs = parse_linux_listing(&text);
    assert_eq!(recs.len(), 1);
    assert_eq!(recs[0].port, 7070);
    assert_eq!(recs[0].pid, None);
    assert_eq!(recs[0].process_name, None);
}

#[test]
fn duplicate_ports_are_kept() {
    // The same port bound on two addresses yields two records; nothing
    // is deduplicated.
    let text = [
        "State  Recv-Q Send-Q  Local Address:Port  Peer Address:Port Process",
        "LISTEN 0      128     127.0.0.1:5000      0.0.0.0:*         users:((\"a\",pid=1,fd=3))",
        "LISTEN 0      128     10.0.0.5:5000       0.0.0.0:*         users:((\"b\",pid=2,fd=3))",
    ]
    .join("\n");
    let recs = parse_linux_listing(&text);
    assert_eq!(recs.len(), 2);
    assert_eq!(recs[0].port, 5000);
    assert_eq!(recs[1].port, 5000);
    // Stable sort: equal ports keep their input order.
    assert_eq!(recs[0].pid, Some(1));
    assert_eq!(recs[1].pid, Some(2));
}

#[test]
fn port_bounds() {
    let text = [
        "State  Recv-Q Send-Q  Local Address:Port  Peer Address:Port Process",
        "LISTEN 0      128     0.0.0.0:65535       0.0.0.0:*",
        "LISTEN 0      128     0.0.0.0:65536       0.0.0.0:*",
        "LISTEN 0      128     0.0.0.0:0           0.0.0.0:*",
    ]
    .join("\n");
    let recs = parse_linux_listing(&text);
    // 65536 does not fit a 16-bit port and its line is dropped.
    assert_eq!(recs.len(), 2);
    assert_eq!(recs[0].port, 0);
    assert_eq!(recs[1].port, 65535);
}

#[test]
fn resolved_name_is_attached_in_place() {
    let recs = parse_windows_listing(&windows_fixture());
    let mut rec = recs[0].clone();
    rec.set_process_name(Some("svchost.exe".to_string()));
    assert_eq!(rec.process_name.as_deref(), Some("svchost.exe"));
    assert_eq!(rec.port, recs[0].port);
    assert_eq!(rec.pid, recs[0].pid);
    assert_eq!(rec.local_address, recs[0].local_address);
}

#[test]
fn tasklist_name_extraction() {
    assert_eq!(
        parse_tasklist_process_name("\"chrome.exe\",\"1234\",\"Console\",\"1\",\"120,000 K\""),
        "chrome.exe"
    );
    assert_eq!(parse_tasklist_process_name("bare-name,rest"), "bare-name");
    assert_eq!(parse_tasklist_process_name(""), "");
}
