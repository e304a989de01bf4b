//! Assembling a scan snapshot from parsed records, and the platform
//! dispatcher that picks one of the three parsers.

use vstd::prelude::*;

use crate::parse::{
    lemma_linux_records_wf, lemma_macos_records_wf, lemma_windows_records_wf, linux_records_from,
    macos_records_from, parse_linux_listing, parse_macos_listing, parse_windows_listing,
    windows_records_from,
};
use crate::records::{PortInfo, PortRec, PortScanResult, dev_count, scan_result_wf, sorted_by_port};
use crate::sort::{lemma_sort_by_port_all_wf, spec_sort_by_port};

verus! {

/// The supported host platforms. Exactly one strategy is active per
/// process; there is no fallback for an unlisted operating system.
#[derive(Clone, Copy, Debug, PartialEq, Eq, Structural)]
pub enum Platform {
    MacOs,
    Windows,
    Linux,
}

/// The records that the active platform's parser extracts from the
/// captured tool output, before sorting: each platform skips its own
/// header lines and applies its own line format.
pub open spec fn spec_listing_records(p: Platform, s: Seq<char>) -> Seq<PortRec> {
    match p {
        Platform::MacOs => macos_records_from(s, 0, 1),
        Platform::Windows => windows_records_from(s, 0, 4),
        Platform::Linux => linux_records_from(s, 0, 1),
    }
}

/// Dispatches the captured listing-tool output to the platform's
/// parser and returns the records sorted ascending by port.
pub fn parse_listing(p: Platform, out_text: &str) -> (recs: Vec<PortInfo>)
    ensures
        recs.deep_view() == spec_sort_by_port(spec_listing_records(p, out_text@)),
        sorted_by_port(recs.deep_view()),
{
    match p {
        Platform::MacOs => parse_macos_listing(out_text),
        Platform::Windows => parse_windows_listing(out_text),
        Platform::Linux => parse_linux_listing(out_text),
    }
}

/// Wraps parsed records into a snapshot: the records unchanged, the
/// total count, and the count of development-flagged records.
pub fn build_scan_result(ports: Vec<PortInfo>) -> (r: PortScanResult)
    ensures
        r.ports == ports,
        r.total_count == ports.deep_view().len(),
        r.development_count == dev_count(ports.deep_view()),
{
    let ghost model = ports.deep_view();
    let total_count = ports.len();
    let mut development_count: usize = 0;
    let mut i: usize = 0;
    proof {
        assert(model.take(0) =~= Seq::<PortRec>::empty());
    }
    while i < ports.len()
        invariant
            0 <= i <= ports@.len(),
            model == ports.deep_view(),
            model.len() == ports@.len(),
            development_count == dev_count(model.take(i as int)),
            development_count <= i,
        decreases ports@.len() - i,
    {
        proof {
            assert(model.take(i + 1).drop_last() =~= model.take(i as int));
            assert(model.take(i + 1).last() == model[i as int]);
            assert(model[i as int] == ports@[i as int].deep_view());
        }
        if ports[i].is_development {
            development_count = development_count + 1;
        }
        i = i + 1;
    }
    proof {
        assert(model.take(ports@.len() as int) =~= model);
    }
    PortScanResult { ports, total_count, development_count }
}

/// One full scan over captured tool output: parse, classify, sort and
/// count. The snapshot holds exactly the records the platform's parser
/// extracts, sorted ascending by port, with consistent counts.
pub fn scan_result_from_output(p: Platform, out_text: &str) -> (r: PortScanResult)
    ensures
        r.ports.deep_view() == spec_sort_by_port(spec_listing_records(p, out_text@)),
        scan_result_wf(r),
        r.total_count == r.ports.deep_view().len(),
        r.development_count == dev_count(r.ports.deep_view()),
{
    proof {
        match p {
            Platform::MacOs => lemma_macos_records_wf(out_text@, 0, 1),
            Platform::Windows => lemma_windows_records_wf(out_text@, 0, 4),
            Platform::Linux => lemma_linux_records_wf(out_text@, 0, 1),
        }
        lemma_sort_by_port_all_wf(spec_listing_records(p, out_text@));
    }
    let recs = parse_listing(p, out_text);
    build_scan_result(recs)
}

/// A scan is a function of the captured tool output alone: two scans
/// over identical text on the same platform yield identical record
/// sequences, order and values included.
pub proof fn lemma_scan_deterministic(
    p: Platform,
    s: Seq<char>,
    r1: Seq<PortRec>,
    r2: Seq<PortRec>,
)
    requires
        r1 == spec_sort_by_port(spec_listing_records(p, s)),
        r2 == spec_sort_by_port(spec_listing_records(p, s)),
    ensures
        r1 == r2,
{
}

} // verus!
