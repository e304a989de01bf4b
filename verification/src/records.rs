//! The normalized model of observed listening sockets.

use vstd::prelude::*;

use crate::classify::spec_is_development_port;

verus! {

/// Mathematical model of one observed listening socket: the string
/// fields of [`PortInfo`] seen as character sequences.
pub ghost struct PortRec {
    pub port: u16,
    pub pid: Option<u32>,
    pub process_name: Option<Seq<char>>,
    pub protocol: Seq<char>,
    pub state: Seq<char>,
    pub local_address: Seq<char>,
    pub foreign_address: Option<Seq<char>>,
    pub is_development: bool,
}

/// One observed listening socket.
///
/// `pid` and `process_name` are absent when the platform tool could not
/// associate them. `local_address` keeps the raw address:port text as
/// the tool reported it. `foreign_address` is always absent: only
/// listening sockets are modeled, never connected ones.
#[derive(Debug, Clone, PartialEq, Eq)]
pub struct PortInfo {
    pub port: u16,
    pub pid: Option<u32>,
    pub process_name: Option<String>,
    pub protocol: String,
    pub state: String,
    pub local_address: String,
    pub foreign_address: Option<String>,
    pub is_development: bool,
}

impl View for PortInfo {
    type V = PortRec;

    open spec fn view(&self) -> PortRec {
        PortRec {
            port: self.port,
            pid: self.pid,
            process_name: match self.process_name {
                Some(n) => Some(n@),
                None => None,
            },
            protocol: self.protocol@,
            state: self.state@,
            local_address: self.local_address@,
            foreign_address: match self.foreign_address {
                Some(a) => Some(a@),
                None => None,
            },
            is_development: self.is_development,
        }
    }
}

impl DeepView for PortInfo {
    type V = PortRec;

    open spec fn deep_view(&self) -> PortRec {
        self.view()
    }
}

impl PortInfo {
    /// Replaces the process name, leaving every other field as it was.
    /// The Windows scan resolves names through a separate per-process
    /// lookup after parsing, and attaches them with this.
    pub fn set_process_name(&mut self, name: Option<String>)
        ensures
            final(self)@ == (PortRec {
                process_name: match name {
                    Some(n) => Some(n@),
                    None => None,
                },
                ..old(self)@
            }),
    {
        self.process_name = name;
    }
}

/// A record is well formed when its development flag agrees with the
/// classifier and no foreign address is recorded.
pub open spec fn rec_wf(r: PortRec) -> bool {
    &&& r.is_development == spec_is_development_port(r.port)
    &&& r.foreign_address is None
}

/// Every record of the sequence is well formed.
pub open spec fn all_wf(s: Seq<PortRec>) -> bool {
    forall|k: int| 0 <= k < s.len() ==> rec_wf(#[trigger] s[k])
}

/// The records are ordered by ascending port number. Ports need not be
/// unique, so equal neighbours are allowed.
pub open spec fn sorted_by_port(s: Seq<PortRec>) -> bool {
    forall|i: int, j: int| 0 <= i < j < s.len() ==> s[i].port <= s[j].port
}

/// How many records are flagged as development.
pub open spec fn dev_count(s: Seq<PortRec>) -> int
    decreases s.len(),
{
    if s.len() == 0 {
        0
    } else {
        dev_count(s.drop_last()) + if s.last().is_development {
            1int
        } else {
            0int
        }
    }
}

/// An immutable snapshot of one scan: the records in ascending port
/// order, the total number of records, and how many of them are flagged
/// as development.
#[derive(Debug, Clone, PartialEq, Eq)]
pub struct PortScanResult {
    pub ports: Vec<PortInfo>,
    pub total_count: usize,
    pub development_count: usize,
}

/// The snapshot invariant: records sorted ascending by port, counts
/// consistent with the record sequence, every record well formed.
pub open spec fn scan_result_wf(r: PortScanResult) -> bool {
    &&& sorted_by_port(r.ports.deep_view())
    &&& r.total_count == r.ports.deep_view().len()
    &&& r.development_count == dev_count(r.ports.deep_view())
    &&& forall|i: int| 0 <= i < r.ports.deep_view().len() ==> rec_wf(#[trigger] r.ports.deep_view()[i])
}

} // verus!
