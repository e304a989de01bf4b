use port_manager::classify::{dev_port_list_contains, is_development_port};

#[test]
fn classifier_range_and_list_values() {
    assert!(is_development_port(3000));
    assert!(is_development_port(5173));
    assert!(!is_development_port(2999));
    assert!(!is_development_port(10000));
    assert!(is_development_port(1420));
}

#[test]
fn classifier_range_boundaries() {
    assert!(is_development_port(9999));
    assert!(!is_development_port(0));
    assert!(!is_development_port(80));
    assert!(!is_development_port(65535));
}

#[test]
fn allow_list_blocks() {
    // The Tauri block is the only allow-list block below the broad range.
    assert!(dev_port_list_contains(1420));
    assert!(dev_port_list_contains(1425));
    assert!(!dev_port_list_contains(1426));
    assert!(!dev_port_list_contains(1419));
    // Allow-list entries inside the broad range agree with the range check.
    assert!(dev_port_list_contains(5173));
    assert!(dev_port_list_contains(8085));
    assert!(!dev_port_list_contains(8086));
    assert!(is_development_port(8086));
    // Whole-list members classify as development.
    for p in [3000u16, 4004, 5005, 5178, 8000, 8080, 9005, 1421, 6006, 7000] {
        assert!(dev_port_list_contains(p));
        assert!(is_development_port(p));
    }
}
