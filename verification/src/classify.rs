//! Classification of ports as development-related.
//!
//! A port counts as development traffic when it appears in a fixed
//! allow-list of well-known development-tool ports, or when it falls in
//! the broad numeric window 3000..=9999. The allow-list is a static
//! heuristic with no configuration surface.

use vstd::prelude::*;

verus! {

/// The fixed allow-list of well-known development-tool ports, written as
/// the contiguous blocks it consists of.
pub open spec fn in_dev_port_list(port: u16) -> bool {
    (3000 <= port && port <= 3005)  // React, Next.js
    || (4000 <= port && port <= 4005)  // Express, Node.js
    || (5000 <= port && port <= 5005)  // Flask, Python
    || (5173 <= port && port <= 5178)  // Vite
    || (8000 <= port && port <= 8005)  // Django, Python
    || (8080 <= port && port <= 8085)  // Tomcat, Java
    || (9000 <= port && port <= 9005)  // Various
    || (1420 <= port && port <= 1425)  // Tauri
    || (6006 <= port && port <= 6011)  // Storybook
    || (7000 <= port && port <= 7005)  // Various
}

/// A port is development-related when it is on the allow-list or inside
/// the inclusive range [3000, 9999].
pub open spec fn spec_is_development_port(port: u16) -> bool {
    in_dev_port_list(port) || (3000 <= port && port <= 9999)
}

/// Membership in the allow-list of well-known development ports.
pub fn dev_port_list_contains(port: u16) -> (listed: bool)
    ensures
        listed == in_dev_port_list(port),
{
    (3000 <= port && port <= 3005)  // React, Next.js
    || (4000 <= port && port <= 4005)  // Express, Node.js
    || (5000 <= port && port <= 5005)  // Flask, Python
    || (5173 <= port && port <= 5178)  // Vite
    || (8000 <= port && port <= 8005)  // Django, Python
    || (8080 <= port && port <= 8085)  // Tomcat, Java
    || (9000 <= port && port <= 9005)  // Various
    || (1420 <= port && port <= 1425)  // Tauri
    || (6006 <= port && port <= 6011)  // Storybook
    || (7000 <= port && port <= 7005)  // Various
}

/// The classification heuristic: allow-list membership or the broad
/// numeric range. Both checks are kept even though they overlap.
pub fn is_development_port(port: u16) -> (dev: bool)
    ensures
        dev == spec_is_development_port(port),
{
    dev_port_list_contains(port) || (port >= 3000 && port <= 9999)
}

/// Every allow-list entry is classified as development, and the only
/// allow-list entries lying outside the broad numeric range [3000, 9999]
/// are the block 1420..=1425: for every other entry the list is redundant
/// with the range check.
pub proof fn lemma_dev_list_agrees_with_range()
    ensures
        forall|p: u16| in_dev_port_list(p) ==> spec_is_development_port(p),
        forall|p: u16|
            in_dev_port_list(p) && !(3000 <= p && p <= 9999) ==> 1420 <= p && p <= 1425,
{
}

} // verus!
