//! The three tool-output parsers, one per platform.
//!
//! Each parser walks the captured text line by line, skips the tool's
//! header lines, keeps only lines carrying the platform's listening
//! marker, and converts each such line into one record. A line that
//! does not parse cleanly into a valid port (or, where required, a
//! valid process identifier) is dropped silently: a scan never fails
//! because of one malformed line.

use vstd::prelude::*;

use crate::classify::{is_development_port, spec_is_development_port};
use crate::records::{PortInfo, PortRec, all_wf, sorted_by_port};
use crate::sort::{sort_records_by_port, spec_sort_by_port};
use crate::text::{
    after_last_colon, after_last_colon_str, contains_sub, find_sub_from, line_at, line_break,
    lemma_line_break_bounds, next_line, parse_u16, parse_u32, spec_contains, spec_find_from,
    spec_parse_u16, spec_parse_u32, spec_split_ws_from, split_ws, trim_quotes, trim_quotes_spec,
};

verus! {

/// A match of `needle` in `hay` lies between `from` and the end.
pub proof fn lemma_find_from_range(hay: Seq<char>, needle: Seq<char>, from: int)
    requires
        from >= 0,
    ensures
        match spec_find_from(hay, needle, from) {
            Some(k) => from <= k && k + needle.len() <= hay.len() && hay.subrange(
                k,
                k + needle.len(),
            ) == needle,
            None => true,
        },
    decreases hay.len() - from + 1,
{
    if from + needle.len() > hay.len() {
    } else if hay.subrange(from, from + needle.len()) == needle {
    } else {
        lemma_find_from_range(hay, needle, from + 1);
    }
}

/// One line of process-and-file-table style output (macOS): the line
/// must carry the "LISTEN" marker and at least nine whitespace-split
/// columns; the process name is the first column, the process
/// identifier the second, and the address the ninth, whose text after
/// the final colon must parse as a port. Lines failing any of these
/// yield no record.
pub open spec fn macos_line_record(l: Seq<char>) -> Option<PortRec> {
    if !spec_contains(l, "LISTEN"@) {
        None
    } else {
        let parts = spec_split_ws_from(l, 0);
        if parts.len() < 9 {
            None
        } else {
            match spec_parse_u32(parts[1]) {
                Some(pid) => match spec_parse_u16(after_last_colon(parts[8])) {
                    Some(port) => Some(
                        PortRec {
                            port,
                            pid: Some(pid),
                            process_name: Some(parts[0]),
                            protocol: "TCP"@,
                            state: "LISTEN"@,
                            local_address: parts[8],
                            foreign_address: None,
                            is_development: spec_is_development_port(port),
                        },
                    ),
                    None => None,
                },
                None => None,
            }
        }
    }
}

/// Parses one line of the macOS listing, as [`macos_line_record`].
pub fn macos_line_info(line: &str) -> (r: Option<PortInfo>)
    ensures
        match r {
            Some(info) => macos_line_record(line@) == Some(info.deep_view()),
            None => macos_line_record(line@) is None,
        },
{
    if !contains_sub(line, "LISTEN") {
        return None;
    }
    let parts = split_ws(line);
    if parts.len() < 9 {
        return None;
    }
    proof {
        assert(parts.deep_view()[0] == parts@[0]@);
        assert(parts.deep_view()[1] == parts@[1]@);
        assert(parts.deep_view()[8] == parts@[8]@);
    }
    let pid = match parse_u32(parts[1].as_str()) {
        Some(p) => p,
        None => {
            return None;
        },
    };
    let addr_port = after_last_colon_str(parts[8].as_str());
    let port = match parse_u16(addr_port.as_str()) {
        Some(p) => p,
        None => {
            return None;
        },
    };
    let info = PortInfo {
        port,
        pid: Some(pid),
        process_name: Some(parts[0].clone()),
        protocol: "TCP".to_owned(),
        state: "LISTEN".to_owned(),
        local_address: parts[8].clone(),
        foreign_address: None,
        is_development: is_development_port(port),
    };
    Some(info)
}

/// One line of connection-table style output (Windows): the line must
/// carry the "LISTENING" marker and at least five whitespace-split
/// columns; the protocol is the first column, the local address the
/// second, and the process identifier the last column. The process
/// name is not on the line; it is resolved by a separate per-process
/// lookup afterwards, so the record leaves it absent.
pub open spec fn windows_line_record(l: Seq<char>) -> Option<PortRec> {
    if !spec_contains(l, "LISTENING"@) {
        None
    } else {
        let parts = spec_split_ws_from(l, 0);
        if parts.len() < 5 {
            None
        } else {
            match spec_parse_u32(parts.last()) {
                Some(pid) => match spec_parse_u16(after_last_colon(parts[1])) {
                    Some(port) => Some(
                        PortRec {
                            port,
                            pid: Some(pid),
                            process_name: None,
                            protocol: parts[0],
                            state: "LISTENING"@,
                            local_address: parts[1],
                            foreign_address: None,
                            is_development: spec_is_development_port(port),
                        },
                    ),
                    None => None,
                },
                None => None,
            }
        }
    }
}

/// Parses one line of the Windows listing, as [`windows_line_record`].
pub fn windows_line_info(line: &str) -> (r: Option<PortInfo>)
    ensures
        match r {
            Some(info) => windows_line_record(line@) == Some(info.deep_view()),
            None => windows_line_record(line@) is None,
        },
{
    if !contains_sub(line, "LISTENING") {
        return None;
    }
    let parts = split_ws(line);
    if parts.len() < 5 {
        return None;
    }
    proof {
        assert(parts.deep_view()[0] == parts@[0]@);
        assert(parts.deep_view()[1] == parts@[1]@);
        assert(parts.deep_view()[parts@.len() - 1] == parts@[parts@.len() - 1]@);
    }
    let pid = match parse_u32(parts[parts.len() - 1].as_str()) {
        Some(p) => p,
        None => {
            return None;
        },
    };
    let addr_port = after_last_colon_str(parts[1].as_str());
    let port = match parse_u16(addr_port.as_str()) {
        Some(p) => p,
        None => {
            return None;
        },
    };
    let info = PortInfo {
        port,
        pid: Some(pid),
        process_name: None,
        protocol: parts[0].clone(),
        state: "LISTENING".to_owned(),
        local_address: parts[1].clone(),
        foreign_address: None,
        is_development: is_development_port(port),
    };
    Some(info)
}

/// The process identifier taken from a socket-statistics metadata
/// column: the digits between a "pid=" marker and the following comma
/// (or the end of the column), when they parse.
pub open spec fn ss_meta_pid(meta: Seq<char>) -> Option<u32> {
    match spec_find_from(meta, "pid="@, 0) {
        None => None,
        Some(idx) => {
            let pid_start = idx + "pid="@.len();
            let pid_end = match spec_find_from(meta, ","@, pid_start) {
                Some(e) => e,
                None => meta.len() as int,
            };
            spec_parse_u32(meta.subrange(pid_start, pid_end))
        },
    }
}

/// Extracts the "pid=" value of a metadata column, as [`ss_meta_pid`].
pub fn extract_ss_pid(meta: &str) -> (r: Option<u32>)
    ensures
        r == ss_meta_pid(meta@),
{
    let n = meta.unicode_len();
    proof {
        reveal_strlit("pid=");
        lemma_find_from_range(meta@, "pid="@, 0);
    }
    let idx = match find_sub_from(meta, "pid=", 0) {
        Some(k) => k,
        None => {
            return None;
        },
    };
    let pid_start = idx + 4;
    proof {
        reveal_strlit(",");
        lemma_find_from_range(meta@, ","@, pid_start as int);
    }
    let pid_end = match find_sub_from(meta, ",", pid_start) {
        Some(e) => e,
        None => meta.unicode_len(),
    };
    let digits = meta.substring_char(pid_start, pid_end).to_owned();
    parse_u32(digits.as_str())
}

/// The process name taken from a socket-statistics metadata column:
/// the text between the first two double quotes, when both exist.
pub open spec fn ss_meta_name(meta: Seq<char>) -> Option<Seq<char>> {
    match spec_find_from(meta, "\""@, 0) {
        None => None,
        Some(ns) => match spec_find_from(meta, "\""@, ns + 1) {
            None => None,
            Some(ne) => Some(meta.subrange(ns + 1, ne)),
        },
    }
}

/// Extracts the quoted name of a metadata column, as [`ss_meta_name`].
pub fn extract_ss_name(meta: &str) -> (r: Option<String>)
    ensures
        match r {
            Some(name) => ss_meta_name(meta@) == Some(name@),
            None => ss_meta_name(meta@) is None,
        },
{
    let n = meta.unicode_len();
    proof {
        reveal_strlit("\"");
        lemma_find_from_range(meta@, "\""@, 0);
    }
    let ns = match find_sub_from(meta, "\"", 0) {
        Some(k) => k,
        None => {
            return None;
        },
    };
    proof {
        lemma_find_from_range(meta@, "\""@, ns + 1);
    }
    let ne = match find_sub_from(meta, "\"", ns + 1) {
        Some(k) => k,
        None => {
            return None;
        },
    };
    Some(meta.substring_char(ns + 1, ne).to_owned())
}

/// One line of socket-statistics style output (Linux): the line must
/// carry the "LISTEN" marker and at least four whitespace-split
/// columns; the local address is the fourth column, whose text after
/// the final colon must parse as a port. Process identifier and name
/// come best-effort from a sixth metadata column, and are absent when
/// that column or its markers are missing.
pub open spec fn linux_line_record(l: Seq<char>) -> Option<PortRec> {
    if !spec_contains(l, "LISTEN"@) {
        None
    } else {
        let parts = spec_split_ws_from(l, 0);
        if parts.len() < 4 {
            None
        } else {
            match spec_parse_u16(after_last_colon(parts[3])) {
                Some(port) => Some(
                    PortRec {
                        port,
                        pid: if parts.len() >= 6 {
                            ss_meta_pid(parts[5])
                        } else {
                            None
                        },
                        process_name: if parts.len() >= 6 {
                            ss_meta_name(parts[5])
                        } else {
                            None
                        },
                        protocol: "TCP"@,
                        state: "LISTEN"@,
                        local_address: parts[3],
                        foreign_address: None,
                        is_development: spec_is_development_port(port),
                    },
                ),
                None => None,
            }
        }
    }
}

/// Parses one line of the Linux listing, as [`linux_line_record`].
pub fn linux_line_info(line: &str) -> (r: Option<PortInfo>)
    ensures
        match r {
            Some(info) => linux_line_record(line@) == Some(info.deep_view()),
            None => linux_line_record(line@) is None,
        },
{
    if !contains_sub(line, "LISTEN") {
        return None;
    }
    let parts = split_ws(line);
    if parts.len() < 4 {
        return None;
    }
    proof {
        assert(parts.deep_view()[3] == parts@[3]@);
    }
    let addr_port = after_last_colon_str(parts[3].as_str());
    let port = match parse_u16(addr_port.as_str()) {
        Some(p) => p,
        None => {
            return None;
        },
    };
    let mut pid: Option<u32> = None;
    let mut process_name: Option<String> = None;
    if parts.len() >= 6 {
        proof {
            assert(parts.deep_view()[5] == parts@[5]@);
        }
        pid = extract_ss_pid(parts[5].as_str());
        process_name = extract_ss_name(parts[5].as_str());
    }
    let info = PortInfo {
        port,
        pid,
        process_name,
        protocol: "TCP".to_owned(),
        state: "LISTEN".to_owned(),
        local_address: parts[3].clone(),
        foreign_address: None,
        is_development: is_development_port(port),
    };
    Some(info)
}

/// The records of macOS-style output from position `i` on, with the
/// first `skip` lines ignored: exactly one record per remaining line
/// that [`macos_line_record`] accepts, in line order.
pub open spec fn macos_records_from(s: Seq<char>, i: int, skip: nat) -> Seq<PortRec>
    decreases s.len() - i + 1,
    via macos_records_from_dec
{
    if i < 0 || i >= s.len() {
        Seq::empty()
    } else {
        let j = line_break(s, i);
        let rest = macos_records_from(
            s,
            j + 1,
            if skip > 0 {
                (skip - 1) as nat
            } else {
                0
            },
        );
        if skip > 0 {
            rest
        } else {
            match macos_line_record(line_at(s, i)) {
                Some(r) => seq![r] + rest,
                None => rest,
            }
        }
    }
}

#[via_fn]
proof fn macos_records_from_dec(s: Seq<char>, i: int, skip: nat) {
    if 0 <= i < s.len() {
        lemma_line_break_bounds(s, i);
    }
}

/// The records of Windows-style output, as [`macos_records_from`] with
/// [`windows_line_record`] deciding each line.
pub open spec fn windows_records_from(s: Seq<char>, i: int, skip: nat) -> Seq<PortRec>
    decreases s.len() - i + 1,
    via windows_records_from_dec
{
    if i < 0 || i >= s.len() {
        Seq::empty()
    } else {
        let j = line_break(s, i);
        let rest = windows_records_from(
            s,
            j + 1,
            if skip > 0 {
                (skip - 1) as nat
            } else {
                0
            },
        );
        if skip > 0 {
            rest
        } else {
            match windows_line_record(line_at(s, i)) {
                Some(r) => seq![r] + rest,
                None => rest,
            }
        }
    }
}

#[via_fn]
proof fn windows_records_from_dec(s: Seq<char>, i: int, skip: nat) {
    if 0 <= i < s.len() {
        lemma_line_break_bounds(s, i);
    }
}

/// The records of Linux-style output, as [`macos_records_from`] with
/// [`linux_line_record`] deciding each line.
pub open spec fn linux_records_from(s: Seq<char>, i: int, skip: nat) -> Seq<PortRec>
    decreases s.len() - i + 1,
    via linux_records_from_dec
{
    if i < 0 || i >= s.len() {
        Seq::empty()
    } else {
        let j = line_break(s, i);
        let rest = linux_records_from(
            s,
            j + 1,
            if skip > 0 {
                (skip - 1) as nat
            } else {
                0
            },
        );
        if skip > 0 {
            rest
        } else {
            match linux_line_record(line_at(s, i)) {
                Some(r) => seq![r] + rest,
                None => rest,
            }
        }
    }
}

#[via_fn]
proof fn linux_records_from_dec(s: Seq<char>, i: int, skip: nat) {
    if 0 <= i < s.len() {
        lemma_line_break_bounds(s, i);
    }
}

/// Parses the captured output of the macOS listing tool: skips the
/// header line, keeps one record per surviving line, and returns the
/// records sorted ascending by port.
pub fn parse_macos_listing(out_text: &str) -> (recs: Vec<PortInfo>)
    ensures
        recs.deep_view() == spec_sort_by_port(macos_records_from(out_text@, 0, 1)),
        sorted_by_port(recs.deep_view()),
{
    let n = out_text.unicode_len();
    let mut acc: Vec<PortInfo> = Vec::new();
    let mut i: usize = 0;
    let mut skip: usize = 1;
    proof {
        assert(Seq::<PortRec>::empty() + macos_records_from(out_text@, 0, 1) =~= macos_records_from(
            out_text@,
            0,
            1,
        ));
        assert(acc.deep_view() =~= Seq::<PortRec>::empty());
    }
    while i < n
        invariant
            0 <= i <= n,
            n == out_text@.len(),
            macos_records_from(out_text@, 0, 1) == acc.deep_view() + macos_records_from(
                out_text@,
                i as int,
                skip as nat,
            ),
        decreases n - i,
    {
        let (line, j) = next_line(out_text, i);
        let next_i: usize = if j == n {
            n
        } else {
            j + 1
        };
        proof {
            assert(macos_records_from(out_text@, next_i as int, (skip as nat - 1) as nat)
                == macos_records_from(out_text@, j + 1, (skip as nat - 1) as nat));
            assert(macos_records_from(out_text@, next_i as int, 0nat) == macos_records_from(
                out_text@,
                j + 1,
                0nat,
            ));
        }
        if skip > 0 {
            skip = skip - 1;
        } else {
            match macos_line_info(line.as_str()) {
                Some(info) => {
                    let ghost pre = acc.deep_view();
                    acc.push(info);
                    proof {
                        assert(acc.deep_view() =~= pre.push(info.deep_view()));
                        assert(pre.push(info.deep_view()) + macos_records_from(
                            out_text@,
                            next_i as int,
                            0nat,
                        ) =~= pre + (seq![info.deep_view()] + macos_records_from(
                            out_text@,
                            next_i as int,
                            0nat,
                        )));
                    }
                },
                None => {
                },
            }
        }
        i = next_i;
    }
    proof {
        assert(acc.deep_view() + macos_records_from(out_text@, i as int, skip as nat)
            =~= acc.deep_view());
    }
    sort_records_by_port(acc)
}

/// Parses the captured output of the Windows listing tool: skips four
/// header lines, keeps one record per surviving line, and returns the
/// records sorted ascending by port. Process names are left absent;
/// they come from a separate per-process lookup.
pub fn parse_windows_listing(out_text: &str) -> (recs: Vec<PortInfo>)
    ensures
        recs.deep_view() == spec_sort_by_port(windows_records_from(out_text@, 0, 4)),
        sorted_by_port(recs.deep_view()),
{
    let n = out_text.unicode_len();
    let mut acc: Vec<PortInfo> = Vec::new();
    let mut i: usize = 0;
    let mut skip: usize = 4;
    proof {
        assert(Seq::<PortRec>::empty() + windows_records_from(out_text@, 0, 4)
            =~= windows_records_from(out_text@, 0, 4));
        assert(acc.deep_view() =~= Seq::<PortRec>::empty());
    }
    while i < n
        invariant
            0 <= i <= n,
            n == out_text@.len(),
            windows_records_from(out_text@, 0, 4) == acc.deep_view() + windows_records_from(
                out_text@,
                i as int,
                skip as nat,
            ),
        decreases n - i,
    {
        let (line, j) = next_line(out_text, i);
        let next_i: usize = if j == n {
            n
        } else {
            j + 1
        };
        proof {
            assert(windows_records_from(out_text@, next_i as int, (skip as nat - 1) as nat)
                == windows_records_from(out_text@, j + 1, (skip as nat - 1) as nat));
            assert(windows_records_from(out_text@, next_i as int, 0nat) == windows_records_from(
                out_text@,
                j + 1,
                0nat,
            ));
        }
        if skip > 0 {
            skip = skip - 1;
        } else {
            match windows_line_info(line.as_str()) {
                Some(info) => {
                    let ghost pre = acc.deep_view();
                    acc.push(info);
                    proof {
                        assert(acc.deep_view() =~= pre.push(info.deep_view()));
                        assert(pre.push(info.deep_view()) + windows_records_from(
                            out_text@,
                            next_i as int,
                            0nat,
                        ) =~= pre + (seq![info.deep_view()] + windows_records_from(
                            out_text@,
                            next_i as int,
                            0nat,
                        )));
                    }
                },
                None => {
                },
            }
        }
        i = next_i;
    }
    proof {
        assert(acc.deep_view() + windows_records_from(out_text@, i as int, skip as nat)
            =~= acc.deep_view());
    }
    sort_records_by_port(acc)
}

/// Parses the captured output of the Linux listing tool: skips the
/// header line, keeps one record per surviving line, and returns the
/// records sorted ascending by port.
pub fn parse_linux_listing(out_text: &str) -> (recs: Vec<PortInfo>)
    ensures
        recs.deep_view() == spec_sort_by_port(linux_records_from(out_text@, 0, 1)),
        sorted_by_port(recs.deep_view()),
{
    let n = out_text.unicode_len();
    let mut acc: Vec<PortInfo> = Vec::new();
    let mut i: usize = 0;
    let mut skip: usize = 1;
    proof {
        assert(Seq::<PortRec>::empty() + linux_records_from(out_text@, 0, 1) =~= linux_records_from(
            out_text@,
            0,
            1,
        ));
        assert(acc.deep_view() =~= Seq::<PortRec>::empty());
    }
    while i < n
        invariant
            0 <= i <= n,
            n == out_text@.len(),
            linux_records_from(out_text@, 0, 1) == acc.deep_view() + linux_records_from(
                out_text@,
                i as int,
                skip as nat,
            ),
        decreases n - i,
    {
        let (line, j) = next_line(out_text, i);
        let next_i: usize = if j == n {
            n
        } else {
            j + 1
        };
        proof {
            assert(linux_records_from(out_text@, next_i as int, (skip as nat - 1) as nat)
                == linux_records_from(out_text@, j + 1, (skip as nat - 1) as nat));
            assert(linux_records_from(out_text@, next_i as int, 0nat) == linux_records_from(
                out_text@,
                j + 1,
                0nat,
            ));
        }
        if skip > 0 {
            skip = skip - 1;
        } else {
            match linux_line_info(line.as_str()) {
                Some(info) => {
                    let ghost pre = acc.deep_view();
                    acc.push(info);
                    proof {
                        assert(acc.deep_view() =~= pre.push(info.deep_view()));
                        assert(pre.push(info.deep_view()) + linux_records_from(
                            out_text@,
                            next_i as int,
                            0nat,
                        ) =~= pre + (seq![info.deep_view()] + linux_records_from(
                            out_text@,
                            next_i as int,
                            0nat,
                        )));
                    }
                },
                None => {
                },
            }
        }
        i = next_i;
    }
    proof {
        assert(acc.deep_view() + linux_records_from(out_text@, i as int, skip as nat)
            =~= acc.deep_view());
    }
    sort_records_by_port(acc)
}

/// Every record a macOS listing yields is well formed: its
/// development flag agrees with the classifier and it carries no
/// foreign address.
pub proof fn lemma_macos_records_wf(s: Seq<char>, i: int, skip: nat)
    ensures
        all_wf(macos_records_from(s, i, skip)),
    decreases s.len() - i + 1,
{
    if 0 <= i < s.len() {
        lemma_line_break_bounds(s, i);
        let j = line_break(s, i);
        lemma_macos_records_wf(
            s,
            j + 1,
            if skip > 0 {
                (skip - 1) as nat
            } else {
                0
            },
        );
    }
}

/// Every record a Windows listing yields is well formed.
pub proof fn lemma_windows_records_wf(s: Seq<char>, i: int, skip: nat)
    ensures
        all_wf(windows_records_from(s, i, skip)),
    decreases s.len() - i + 1,
{
    if 0 <= i < s.len() {
        lemma_line_break_bounds(s, i);
        let j = line_break(s, i);
        lemma_windows_records_wf(
            s,
            j + 1,
            if skip > 0 {
                (skip - 1) as nat
            } else {
                0
            },
        );
    }
}

/// Every record a Linux listing yields is well formed.
pub proof fn lemma_linux_records_wf(s: Seq<char>, i: int, skip: nat)
    ensures
        all_wf(linux_records_from(s, i, skip)),
    decreases s.len() - i + 1,
{
    if 0 <= i < s.len() {
        lemma_line_break_bounds(s, i);
        let j = line_break(s, i);
        lemma_linux_records_wf(
            s,
            j + 1,
            if skip > 0 {
                (skip - 1) as nat
            } else {
                0
            },
        );
    }
}

/// The first comma-separated field of a process-table lookup line.
pub open spec fn tasklist_first_field(s: Seq<char>) -> Seq<char> {
    match spec_find_from(s, ","@, 0) {
        Some(k) => s.subrange(0, k),
        None => s,
    }
}

/// The process name carried by a per-process table lookup in CSV form:
/// the first comma-separated field with surrounding double quotes
/// removed.
pub open spec fn spec_tasklist_name(s: Seq<char>) -> Seq<char> {
    trim_quotes_spec(tasklist_first_field(s))
}

/// Extracts the process name from the output of the per-process table
/// lookup, as [`spec_tasklist_name`].
pub fn parse_tasklist_process_name(out_text: &str) -> (r: String)
    ensures
        r@ == spec_tasklist_name(out_text@),
{
    proof {
        reveal_strlit(",");
        lemma_find_from_range(out_text@, ","@, 0);
    }
    let first = match find_sub_from(out_text, ",", 0) {
        Some(k) => out_text.substring_char(0, k).to_owned(),
        None => out_text.to_owned(),
    };
    trim_quotes(first.as_str())
}

} // verus!
