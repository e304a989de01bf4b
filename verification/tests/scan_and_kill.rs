use port_manager::kill::{unix_kill_target, windows_kill_pid};
use port_manager::scan::{Platform, scan_result_from_output};

fn linux_fixture() -> String {
    [
        "State  Recv-Q Send-Q  Local Address:Port  Peer Address:Port Process",
        "LISTEN 0      511     *:8080              *:*               users:((\"java\",pid=900,fd=5))",
        "LISTEN 0      128     0.0.0.0:22          0.0.0.0:*         users:((\"sshd\",pid=800,fd=3))",
        "LISTEN 0      128     127.0.0.1:5173      0.0.0.0:*         users:((\"vite\",pid=901,fd=6))",
    ]
    .join("\n")
}

#[test]
fn scan_counts_are_consistent() {
    let r = scan_result_from_output(Platform::Linux, &linux_fixture());
    assert_eq!(r.total_count, r.ports.len());
    assert_eq!(r.total_count, 3);
    let dev = r.ports.iter().filter(|p| p.is_development).count();
    assert_eq!(r.development_count, dev);
    assert_eq!(r.development_count, 2);
    // Sorted ascending by port.
    let ports: Vec<u16> = r.ports.iter().map(|p| p.port).collect();
    assert_eq!(ports, vec![22, 5173, 8080]);
}

#[test]
fn scan_twice_yields_identical_snapshots() {
    // With no change in the captured tool output, a second scan gives
    // the same records, order and values included.
    let text = linux_fixture();
    let first = scan_result_from_output(Platform::Linux, &text);
    let second = scan_result_from_output(Platform::Linux, &text);
    assert_eq!(first, second);
}

#[test]
fn scan_dispatches_per_platform() {
    let windows_text = [
        "",
        "Active Connections",
        "",
        "  Proto  Local Address          Foreign Address        State           PID",
        "  TCP    0.0.0.0:135            0.0.0.0:0              LISTENING       948",
    ]
    .join("\r\n");
    let r = scan_result_from_output(Platform::Windows, &windows_text);
    assert_eq!(r.total_count, 1);
    assert_eq!(r.ports[0].port, 135);
    // The same text through the Linux strategy finds no LISTEN marker.
    let r2 = scan_result_from_output(Platform::Linux, &windows_text);
    assert_eq!(r2.total_count, 0);
}

#[test]
fn unix_kill_no_bound_process_is_false_not_error() {
    // Empty lookup output: no process bound, a plain negative answer.
    assert_eq!(unix_kill_target(""), Ok(None));
}

#[test]
fn unix_kill_resolves_pid() {
    assert_eq!(unix_kill_target("123\n"), Ok(Some(123)));
    assert_eq!(unix_kill_target("  4567  "), Ok(Some(4567)));
}

#[test]
fn unix_kill_malformed_pid_is_error() {
    // Non-empty output that does not parse is a hard error carrying
    // the parse detail, unlike the scan path, which drops malformed
    // lines silently.
    assert_eq!(
        unix_kill_target("abc"),
        Err("Failed to parse PID: invalid digit found in string".to_string())
    );
    // Two identifiers on two lines do not parse as one.
    assert_eq!(
        unix_kill_target("123\n456\n"),
        Err("Failed to parse PID: invalid digit found in string".to_string())
    );
    // Whitespace-only output trims to nothing.
    assert_eq!(
        unix_kill_target("\n"),
        Err("Failed to parse PID: cannot parse integer from empty string".to_string())
    );
    // An identifier beyond the 32-bit range.
    assert_eq!(
        unix_kill_target("4294967296"),
        Err("Failed to parse PID: number too large to fit in target type".to_string())
    );
}

fn netstat_fixture() -> String {
    [
        "",
        "Active Connections",
        "",
        "  Proto  Local Address          Foreign Address        State           PID",
        "  TCP    0.0.0.0:135            0.0.0.0:0              LISTENING       948",
        "  TCP    0.0.0.0:5173           0.0.0.0:0              LISTENING       1234",
        "  TCP    127.0.0.1:8080         127.0.0.1:49678        ESTABLISHED     4252",
    ]
    .join("\r\n")
}

#[test]
fn windows_kill_resolves_pid() {
    assert_eq!(windows_kill_pid(&netstat_fixture(), 5173), Some(1234));
    assert_eq!(windows_kill_pid(&netstat_fixture(), 135), Some(948));
}

#[test]
fn windows_kill_no_bound_process_is_none() {
    // No LISTENING line mentions the port: nothing to kill, no error.
    assert_eq!(windows_kill_pid(&netstat_fixture(), 9999), None);
    // A connected (non-listening) socket on the port does not count.
    assert_eq!(windows_kill_pid(&netstat_fixture(), 8080), None);
    assert_eq!(windows_kill_pid("", 80), None);
}

#[test]
fn windows_kill_requires_exact_port() {
    // The lookup resolves the process bound to exactly the requested
    // port: a port that is merely a digit prefix of a bound one (13
    // against 135, 517 against 5173) resolves nothing.
    assert_eq!(windows_kill_pid(&netstat_fixture(), 13), None);
    assert_eq!(windows_kill_pid(&netstat_fixture(), 517), None);
    assert_eq!(windows_kill_pid(&netstat_fixture(), 35), None);
}

#[test]
fn windows_kill_skips_unparsable_pid() {
    let text = [
        "  TCP    0.0.0.0:7000           0.0.0.0:0              LISTENING       bad",
        "  TCP    0.0.0.0:7000           0.0.0.0:0              LISTENING       42",
    ]
    .join("\r\n");
    // A matching line whose identifier does not parse is skipped, and
    // the search continues.
    assert_eq!(windows_kill_pid(&text, 7000), Some(42));
}
