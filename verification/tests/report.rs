use portcheck::probe::{BusyReason, ProbeResult, ProbeStatus};
use portcheck::reclaim::{KillFailure, ReclaimResult, ReclaimStatus};
use portcheck::report::{
    complaint_text, network_complaint_text, rejection_text, render_probe, render_reclaim,
    usage_text, Report,
};
use portcheck::request::UsageError;

fn local(port: u64, status: ProbeStatus) -> ProbeResult {
    ProbeResult { address: None, port, status }
}

fn remote(address: &str, port: u64, status: ProbeStatus) -> ProbeResult {
    ProbeResult { address: Some(address.to_string()), port, status }
}

#[test]
fn line_for_a_free_port() {
    assert_eq!(render_probe(&local(80, ProbeStatus::Free)), "Port 80 is available.");
    assert_eq!(
        render_probe(&remote("10.0.0.1", 443, ProbeStatus::Free)),
        "Port 443 on 10.0.0.1 is available."
    );
    assert_eq!(render_probe(&remote("", 443, ProbeStatus::Free)), "Port 443 is available.");
}

#[test]
fn line_for_a_busy_port() {
    assert_eq!(
        render_probe(&local(80, ProbeStatus::Busy(BusyReason::Held))),
        "Port 80 is not available: Port 80 is in use"
    );
    assert_eq!(
        render_probe(&local(80, ProbeStatus::Busy(BusyReason::LookupFailed))),
        "Port 80 is not available: Failed to execute lsof command"
    );
    assert_eq!(
        render_probe(&remote("10.0.0.1", 22, ProbeStatus::Busy(BusyReason::BindFailed))),
        "Port 22 on 10.0.0.1 is not available: Failed to open a listener"
    );
}

#[test]
fn line_for_a_freed_port() {
    let r = ReclaimResult { port: 3000, status: ReclaimStatus::Freed };
    assert_eq!(render_reclaim(&r), "Successfully freed port 3000.");
}

#[test]
fn line_for_a_port_that_was_not_freed() {
    let none = ReclaimResult { port: 3000, status: ReclaimStatus::NotFound };
    assert_eq!(render_reclaim(&none), "Failed to free port 3000: No process found on the port");
    let lookup = ReclaimResult {
        port: 3000,
        status: ReclaimStatus::FailedToKill(KillFailure::LookupFailed),
    };
    assert_eq!(render_reclaim(&lookup), "Failed to free port 3000: Failed to execute PID command");
    let unreadable = ReclaimResult {
        port: 3000,
        status: ReclaimStatus::FailedToKill(KillFailure::Unreadable),
    };
    assert_eq!(render_reclaim(&unreadable), "Failed to free port 3000: Failed to parse PID output");
    let signal = ReclaimResult {
        port: 3000,
        status: ReclaimStatus::FailedToKill(KillFailure::SignalFailed),
    };
    assert_eq!(render_reclaim(&signal), "Failed to free port 3000: Failed to execute kill command");
}

#[test]
fn line_of_a_report_is_that_of_its_result() {
    let probe = Report::Probe(local(8080, ProbeStatus::Free));
    assert_eq!(probe.line(), "Port 8080 is available.");
    let reclaim = Report::Reclaim(ReclaimResult { port: 8080, status: ReclaimStatus::Freed });
    assert_eq!(reclaim.line(), "Successfully freed port 8080.");
}

#[test]
fn usage_names_the_program_on_each_line() {
    let text = usage_text("tool");
    let lines: Vec<&str> = text.split('\n').collect();
    assert_eq!(lines.len(), 8);
    assert_eq!(lines[0], "Usage:");
    assert_eq!(lines[1], "tool -p <port>             (Check if a port is available)");
    assert_eq!(lines[2], "tool -p <start> <end>      (Check if a range of ports is available)");
    assert_eq!(lines[3], "tool -n <port>             (Check if a port is available, free it if not)");
    assert_eq!(
        lines[4],
        "tool -n <start> <end>      (Check if a range of ports is available, free them if not)"
    );
    for l in &lines[1..] {
        assert!(l.starts_with("tool -"));
    }
    assert!(lines[7].contains("-cidr <network/prefix>"));
}

#[test]
fn complaint_for_each_error() {
    assert_eq!(complaint_text(UsageError::MissingArguments), "Missing arguments.");
    assert_eq!(complaint_text(UsageError::BadNumber), "Invalid or missing port range.");
    assert_eq!(complaint_text(UsageError::InvalidRange), "Invalid or missing port range.");
    assert_eq!(complaint_text(UsageError::UnknownCommand), "Invalid command. Use -p or -n.");
    assert_eq!(complaint_text(UsageError::NotLocal), "Ports can be freed on this machine only.");
    assert_eq!(complaint_text(UsageError::Conflict), "Give an address or a network, not both.");
}

#[test]
fn rejection_ends_with_the_usage() {
    assert_eq!(rejection_text(UsageError::MissingArguments, "tool"), usage_text("tool"));
    assert_eq!(
        rejection_text(UsageError::InvalidRange, "tool"),
        format!("Invalid or missing port range.\n{}", usage_text("tool"))
    );
    assert_eq!(
        rejection_text(UsageError::Conflict, "x"),
        format!("Give an address or a network, not both.\n{}", usage_text("x"))
    );
}

#[test]
fn network_complaint_says_what_was_expected() {
    assert_eq!(
        network_complaint_text(),
        "Invalid network: expected an IPv4 address, a slash and a prefix length of at most 32."
    );
}
