//! Whether a port is free, judged from what the machine answered.

use crate::text::{decimal, push_decimal};
use vstd::prelude::*;
use vstd::string::*;

verus! {

/// Why a port counts as busy.
#[derive(Clone, Copy, Debug, PartialEq, Eq, Structural)]
pub enum BusyReason {
    /// The socket table lists a holder of the port.
    Held,
    /// The socket table could not be asked.
    LookupFailed,
    /// No listener could be opened on the port.
    BindFailed,
}

/// What a probe found.
#[derive(Clone, Copy, Debug, PartialEq, Eq, Structural)]
pub enum ProbeStatus {
    Free,
    Busy(BusyReason),
}

/// One probe: where, which port, and what was found. A probe of this
/// machine's socket table has no address.
#[derive(Clone, Debug, PartialEq, Eq)]
pub struct ProbeResult {
    pub address: Option<String>,
    pub port: u64,
    pub status: ProbeStatus,
}

/// A probe as plain values.
pub struct ProbeResultView {
    pub address: Option<Seq<char>>,
    pub port: u64,
    pub status: ProbeStatus,
}

impl View for ProbeResult {
    type V = ProbeResultView;

    open spec fn view(&self) -> ProbeResultView {
        ProbeResultView {
            address: match self.address {
                Some(a) => Some(a@),
                None => None,
            },
            port: self.port,
            status: self.status,
        }
    }
}

/// The bytes of a listing, if there is one.
pub open spec fn bytes_of(listing: Option<Vec<u8>>) -> Option<Seq<u8>> {
    match listing {
        Some(l) => Some(l@),
        None => None,
    }
}

/// What the socket table's answer says of a port: `None` stands for a
/// query that could not be run, and any output at all for a holder.
pub open spec fn holders_verdict(listing: Option<Seq<u8>>) -> ProbeStatus {
    match listing {
        None => ProbeStatus::Busy(BusyReason::LookupFailed),
        Some(l) => if l.len() > 0 {
            ProbeStatus::Busy(BusyReason::Held)
        } else {
            ProbeStatus::Free
        },
    }
}

/// What an attempt to listen says of a port.
pub open spec fn bind_verdict(bound: bool) -> ProbeStatus {
    if bound {
        ProbeStatus::Free
    } else {
        ProbeStatus::Busy(BusyReason::BindFailed)
    }
}

/// The shell command that lists the processes holding `port`.
pub open spec fn lookup_command(port: u64) -> Seq<char> {
    "lsof -t -i:"@ + decimal(port as nat)
}

/// The socket address of `port` at `address`. An empty address stands for
/// every address of this machine, 0.0.0.0.
pub open spec fn endpoint(address: Seq<char>, port: u64) -> Seq<char> {
    if address.len() == 0 {
        "0.0.0.0:"@ + decimal(port as nat)
    } else {
        address + ":"@ + decimal(port as nat)
    }
}

/// Judges a port by the output of the command that lists its holders;
/// `None` where the command could not be run.
pub fn judge_listing(listing: &Option<Vec<u8>>) -> (r: ProbeStatus)
    ensures
        r == holders_verdict(bytes_of(*listing)),
{
    match listing {
        None => ProbeStatus::Busy(BusyReason::LookupFailed),
        Some(l) => if l.len() > 0 {
            ProbeStatus::Busy(BusyReason::Held)
        } else {
            ProbeStatus::Free
        },
    }
}

/// Judges a port by whether a listener could be opened on it.
pub fn judge_bind(bound: bool) -> (r: ProbeStatus)
    ensures
        r == bind_verdict(bound),
{
    if bound {
        ProbeStatus::Free
    } else {
        ProbeStatus::Busy(BusyReason::BindFailed)
    }
}

/// Writes the command that lists the processes holding `port`.
pub fn holders_command(port: u64) -> (r: String)
    ensures
        r@ == lookup_command(port),
{
    let mut out = String::from_str("lsof -t -i:");
    push_decimal(&mut out, port);
    out
}

/// Writes the socket address of `port` at `address`.
pub fn endpoint_text(address: &str, port: u64) -> (r: String)
    ensures
        r@ == endpoint(address@, port),
{
    let mut out = if address.is_empty() {
        String::from_str("0.0.0.0")
    } else {
        String::from_str(address)
    };
    out.append(":");
    push_decimal(&mut out, port);
    proof {
        reveal_strlit("0.0.0.0");
        reveal_strlit(":");
        reveal_strlit("0.0.0.0:");
        assert("0.0.0.0"@ + ":"@ =~= "0.0.0.0:"@);
        assert(out@ =~= endpoint(address@, port));
    }
    out
}

} // verus!
