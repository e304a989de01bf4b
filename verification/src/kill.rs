//! The decision logic of the kill path: resolving the process bound to
//! a port from the output of an independent platform query.
//!
//! Resolution never reuses a prior scan. On the Unix-like platforms
//! the lookup tool prints the process identifier alone, and a
//! malformed identifier is a hard error; on Windows the identifier is
//! taken from the first connection-table line bound to exactly the
//! requested port, and lines whose identifier does not parse are
//! skipped. That asymmetry is deliberate and mirrors the two tools'
//! behaviour. Spawning the lookup and issuing the signal stay outside
//! this crate.

use vstd::prelude::*;

use crate::text::{
    after_last_colon, after_last_colon_str, contains_sub, describe_u32_parse_failure, line_at,
    line_break, lemma_line_break_bounds, next_line, parse_u16, parse_u32,
    parse_u32_failure_detail, spec_contains, spec_parse_u16, spec_parse_u32, spec_split_ws_from,
    split_ws, trim_ws, trim_ws_spec,
};

verus! {

/// What the kill path decides from the Unix lookup output: no bound
/// process, a process to signal, or a malformed identifier.
///
/// Empty lookup output means no process is bound to the port: that is
/// a plain negative answer, never an error. Non-empty output is
/// trimmed and must parse as a process identifier; otherwise the
/// operation fails, carrying the reason the identifier did not parse,
/// and nothing is signalled.
pub fn unix_kill_target(lookup_output: &str) -> (r: Result<Option<u32>, String>)
    ensures
        lookup_output@.len() == 0 ==> r == Ok::<Option<u32>, String>(None),
        lookup_output@.len() > 0 ==> match spec_parse_u32(trim_ws_spec(lookup_output@)) {
            Some(pid) => r == Ok::<Option<u32>, String>(Some(pid)),
            None => (r matches Err(e) && e@ == "Failed to parse PID: "@ + parse_u32_failure_detail(
                trim_ws_spec(lookup_output@),
            )),
        },
{
    if lookup_output.unicode_len() == 0 {
        return Ok(None);
    }
    let trimmed = trim_ws(lookup_output);
    match parse_u32(trimmed.as_str()) {
        Some(pid) => Ok(Some(pid)),
        None => {
            let detail = describe_u32_parse_failure(trimmed.as_str());
            Err("Failed to parse PID: ".to_owned().concat(detail))
        },
    }
}

/// The process identifier the Windows kill path resolves from the
/// connection-table output, scanning every line: the last
/// whitespace-split column of the first line that carries the
/// "LISTENING" marker and whose local-address column (the second)
/// ends, after its final colon, in exactly the requested port, and
/// whose last column parses as an identifier. Lines failing the
/// identifier parse are skipped, not errors.
pub open spec fn windows_kill_pid_from(s: Seq<char>, port: u16, i: int) -> Option<u32>
    decreases s.len() - i + 1,
    via windows_kill_pid_from_dec
{
    if i < 0 || i >= s.len() {
        None
    } else {
        let j = line_break(s, i);
        let line = line_at(s, i);
        let rest = windows_kill_pid_from(s, port, j + 1);
        if spec_contains(line, "LISTENING"@) {
            let parts = spec_split_ws_from(line, 0);
            if parts.len() >= 2 && spec_parse_u16(after_last_colon(parts[1])) == Some(port) {
                match spec_parse_u32(parts.last()) {
                    Some(pid) => Some(pid),
                    None => rest,
                }
            } else {
                rest
            }
        } else {
            rest
        }
    }
}

#[via_fn]
proof fn windows_kill_pid_from_dec(s: Seq<char>, port: u16, i: int) {
    if 0 <= i < s.len() {
        lemma_line_break_bounds(s, i);
    }
}

/// Resolves the process bound to exactly `port` from Windows
/// connection-table output, as [`windows_kill_pid_from`]. Nothing
/// resolved means no process is bound: a plain negative answer, never
/// an error.
pub fn windows_kill_pid(netstat_text: &str, port: u16) -> (r: Option<u32>)
    ensures
        r == windows_kill_pid_from(netstat_text@, port, 0),
{
    let n = netstat_text.unicode_len();
    let mut i: usize = 0;
    while i < n
        invariant
            0 <= i <= n,
            n == netstat_text@.len(),
            windows_kill_pid_from(netstat_text@, port, 0) == windows_kill_pid_from(
                netstat_text@,
                port,
                i as int,
            ),
        decreases n - i,
    {
        let (line, j) = next_line(netstat_text, i);
        let next_i: usize = if j == n {
            n
        } else {
            j + 1
        };
        proof {
            assert(windows_kill_pid_from(netstat_text@, port, next_i as int)
                == windows_kill_pid_from(netstat_text@, port, j + 1));
        }
        if contains_sub(line.as_str(), "LISTENING") {
            let parts = split_ws(line.as_str());
            if parts.len() >= 2 {
                proof {
                    assert(parts.deep_view()[1] == parts@[1]@);
                    assert(parts.deep_view()[parts@.len() - 1] == parts@[parts@.len() - 1]@);
                }
                let addr_port = after_last_colon_str(parts[1].as_str());
                let bound_here = match parse_u16(addr_port.as_str()) {
                    Some(p) => p == port,
                    None => false,
                };
                if bound_here {
                    match parse_u32(parts[parts.len() - 1].as_str()) {
                        Some(pid) => {
                            return Some(pid);
                        },
                        None => {
                        },
                    }
                }
            }
        }
        i = next_i;
    }
    None
}

} // verus!
