//! The lines that a run prints.

use crate::probe::{BusyReason, ProbeResult, ProbeResultView, ProbeStatus};
use crate::reclaim::{KillFailure, ReclaimResult, ReclaimStatus};
use crate::request::UsageError;
use crate::text::{decimal, push_decimal};
use vstd::prelude::*;
use vstd::string::*;

verus! {

/// What became of one address and port.
#[derive(Clone, Debug, PartialEq, Eq)]
pub enum Report {
    Probe(ProbeResult),
    Reclaim(ReclaimResult),
}

/// A report as plain values.
pub enum ReportView {
    Probe(ProbeResultView),
    Reclaim(ReclaimResult),
}

impl View for Report {
    type V = ReportView;

    open spec fn view(&self) -> ReportView {
        match self {
            Report::Probe(p) => ReportView::Probe(p@),
            Report::Reclaim(r) => ReportView::Reclaim(*r),
        }
    }
}

impl ReportView {
    /// The port that the report speaks of.
    pub open spec fn port(self) -> u64 {
        match self {
            ReportView::Probe(p) => p.port,
            ReportView::Reclaim(r) => r.port,
        }
    }
}

/// How a line names a port: with its address where that is not empty.
pub open spec fn place(address: Option<Seq<char>>, port: u64) -> Seq<char> {
    match address {
        Some(a) => if a.len() > 0 {
            "Port "@ + decimal(port as nat) + " on "@ + a
        } else {
            "Port "@ + decimal(port as nat)
        },
        None => "Port "@ + decimal(port as nat),
    }
}

/// Why a port is busy, in words.
pub open spec fn busy_text(reason: BusyReason, port: u64) -> Seq<char> {
    match reason {
        BusyReason::Held => "Port "@ + decimal(port as nat) + " is in use"@,
        BusyReason::LookupFailed => "Failed to execute lsof command"@,
        BusyReason::BindFailed => "Failed to open a listener"@,
    }
}

/// The line for a probe.
pub open spec fn probe_line(p: ProbeResultView) -> Seq<char> {
    match p.status {
        ProbeStatus::Free => place(p.address, p.port) + " is available."@,
        ProbeStatus::Busy(reason) => place(p.address, p.port) + " is not available: "@ + busy_text(
            reason,
            p.port,
        ),
    }
}

/// Why a port could not be freed, in words.
pub open spec fn failure_text(failure: KillFailure) -> Seq<char> {
    match failure {
        KillFailure::LookupFailed => "Failed to execute PID command"@,
        KillFailure::Unreadable => "Failed to parse PID output"@,
        KillFailure::SignalFailed => "Failed to execute kill command"@,
    }
}

/// The line for an attempt to free a port.
pub open spec fn reclaim_line(r: ReclaimResult) -> Seq<char> {
    match r.status {
        ReclaimStatus::Freed => "Successfully freed port "@ + decimal(r.port as nat) + "."@,
        ReclaimStatus::NotFound => "Failed to free port "@ + decimal(r.port as nat)
            + ": No process found on the port"@,
        ReclaimStatus::FailedToKill(failure) => "Failed to free port "@ + decimal(r.port as nat)
            + ": "@ + failure_text(failure),
    }
}

/// The line for a report.
pub open spec fn line(r: ReportView) -> Seq<char> {
    match r {
        ReportView::Probe(p) => probe_line(p),
        ReportView::Reclaim(r) => reclaim_line(r),
    }
}

/// How to call `program`.
pub open spec fn usage(program: Seq<char>) -> Seq<char> {
    "Usage:\n"@ + program + " -p <port>             (Check if a port is available)\n"@ + program
        + " -p <start> <end>      (Check if a range of ports is available)\n"@ + program
        + " -n <port>             (Check if a port is available, free it if not)\n"@ + program
        + " -n <start> <end>      (Check if a range of ports is available, free them if not)\n"@
        + program + " -ip <address> -p <start> <end>   (Check a range of ports at an address)\n"@
        + program + " -l -p <start> <end>              (Check a range of ports at 127.0.0.1)\n"@
        + program
        + " -p <start> <end> -cidr <network/prefix>   (Check a range of ports at every address of a network)"@
}

/// What is wrong with a command line, in words.
pub open spec fn complaint(error: UsageError) -> Seq<char> {
    match error {
        UsageError::MissingArguments => "Missing arguments."@,
        UsageError::BadNumber => "Invalid or missing port range."@,
        UsageError::InvalidRange => "Invalid or missing port range."@,
        UsageError::UnknownCommand => "Invalid command. Use -p or -n."@,
        UsageError::NotLocal => "Ports can be freed on this machine only."@,
        UsageError::Conflict => "Give an address or a network, not both."@,
    }
}

/// What a run prints in place of a scan: how to call the program, and
/// before that what is wrong, unless arguments are missing.
pub open spec fn rejection(error: UsageError, program: Seq<char>) -> Seq<char> {
    if error == UsageError::MissingArguments {
        usage(program)
    } else {
        complaint(error) + "\n"@ + usage(program)
    }
}

/// What a run reports where the network of its request cannot be read.
pub open spec fn network_complaint() -> Seq<char> {
    "Invalid network: expected an IPv4 address, a slash and a prefix length of at most 32."@
}

fn push_place(out: &mut String, address: &Option<String>, port: u64)
    ensures
        final(out)@ == old(out)@ + place(
            match *address {
                Some(a) => Some(a@),
                None => None,
            },
            port,
        ),
{
    out.append("Port ");
    push_decimal(out, port);
    match address {
        Some(a) => {
            if !a.as_str().is_empty() {
                out.append(" on ");
                out.append(a.as_str());
            }
        },
        None => {},
    }
    assert(out@ =~= old(out)@ + place(
        match *address {
            Some(a) => Some(a@),
            None => None,
        },
        port,
    ));
}

/// Writes the line for a probe.
pub fn render_probe(p: &ProbeResult) -> (r: String)
    ensures
        r@ == probe_line(p@),
{
    let mut out = String::new();
    push_place(&mut out, &p.address, p.port);
    match p.status {
        ProbeStatus::Free => {
            out.append(" is available.");
        },
        ProbeStatus::Busy(reason) => {
            out.append(" is not available: ");
            match reason {
                BusyReason::Held => {
                    out.append("Port ");
                    push_decimal(&mut out, p.port);
                    out.append(" is in use");
                },
                BusyReason::LookupFailed => {
                    out.append("Failed to execute lsof command");
                },
                BusyReason::BindFailed => {
                    out.append("Failed to open a listener");
                },
            }
        },
    }
    assert(out@ =~= probe_line(p@));
    out
}

/// Writes the line for an attempt to free a port.
pub fn render_reclaim(r: &ReclaimResult) -> (t: String)
    ensures
        t@ == reclaim_line(*r),
{
    let mut out = String::new();
    match r.status {
        ReclaimStatus::Freed => {
            out.append("Successfully freed port ");
            push_decimal(&mut out, r.port);
            out.append(".");
        },
        ReclaimStatus::NotFound => {
            out.append("Failed to free port ");
            push_decimal(&mut out, r.port);
            out.append(": No process found on the port");
        },
        ReclaimStatus::FailedToKill(failure) => {
            out.append("Failed to free port ");
            push_decimal(&mut out, r.port);
            out.append(": ");
            match failure {
                KillFailure::LookupFailed => {
                    out.append("Failed to execute PID command");
                },
                KillFailure::Unreadable => {
                    out.append("Failed to parse PID output");
                },
                KillFailure::SignalFailed => {
                    out.append("Failed to execute kill command");
                },
            }
        },
    }
    assert(out@ =~= reclaim_line(*r));
    out
}

impl Report {
    /// Writes the line for the report.
    pub fn line(&self) -> (r: String)
        ensures
            r@ == line(self@),
    {
        match self {
            Report::Probe(p) => render_probe(p),
            Report::Reclaim(r) => render_reclaim(r),
        }
    }
}

/// Writes how to call `program`.
pub fn usage_text(program: &str) -> (r: String)
    ensures
        r@ == usage(program@),
{
    let mut out = String::from_str("Usage:\n");
    out.append(program);
    out.append(" -p <port>             (Check if a port is available)\n");
    out.append(program);
    out.append(" -p <start> <end>      (Check if a range of ports is available)\n");
    out.append(program);
    out.append(" -n <port>             (Check if a port is available, free it if not)\n");
    out.append(program);
    out.append(" -n <start> <end>      (Check if a range of ports is available, free them if not)\n");
    out.append(program);
    out.append(" -ip <address> -p <start> <end>   (Check a range of ports at an address)\n");
    out.append(program);
    out.append(" -l -p <start> <end>              (Check a range of ports at 127.0.0.1)\n");
    out.append(program);
    out.append(
        " -p <start> <end> -cidr <network/prefix>   (Check a range of ports at every address of a network)",
    );
    assert(out@ =~= usage(program@));
    out
}

/// Writes what is wrong with a command line.
pub fn complaint_text(error: UsageError) -> (r: String)
    ensures
        r@ == complaint(error),
{
    match error {
        UsageError::MissingArguments => String::from_str("Missing arguments."),
        UsageError::BadNumber => String::from_str("Invalid or missing port range."),
        UsageError::InvalidRange => String::from_str("Invalid or missing port range."),
        UsageError::UnknownCommand => String::from_str("Invalid command. Use -p or -n."),
        UsageError::NotLocal => String::from_str("Ports can be freed on this machine only."),
        UsageError::Conflict => String::from_str("Give an address or a network, not both."),
    }
}

/// Writes what a run prints in place of a scan.
pub fn rejection_text(error: UsageError, program: &str) -> (r: String)
    ensures
        r@ == rejection(error, program@),
{
    let usage = usage_text(program);
    match error {
        UsageError::MissingArguments => usage,
        _ => {
            let mut out = complaint_text(error);
            out.append("\n");
            out.append(usage.as_str());
            out
        },
    }
}

/// Writes what a run reports where the network of its request cannot be
/// read.
pub fn network_complaint_text() -> (r: String)
    ensures
        r@ == network_complaint(),
{
    String::from_str(
        "Invalid network: expected an IPv4 address, a slash and a prefix length of at most 32.",
    )
}

} // verus!
