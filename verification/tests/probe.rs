use portcheck::probe::{
    endpoint_text, holders_command, judge_bind, judge_listing, BusyReason, ProbeStatus,
};
use portcheck::reclaim::{
    decide_lookup, decide_signal, kill_command, read_owner, KillFailure, Lookup, Owner,
    ReclaimStatus,
};

#[test]
fn listing_without_output_means_free() {
    assert_eq!(judge_listing(&Some(Vec::new())), ProbeStatus::Free);
}

#[test]
fn listing_with_output_means_busy() {
    assert_eq!(judge_listing(&Some(b"1234\n".to_vec())), ProbeStatus::Busy(BusyReason::Held));
    assert_eq!(judge_listing(&Some(b"\n".to_vec())), ProbeStatus::Busy(BusyReason::Held));
    assert_eq!(judge_listing(&Some(vec![0])), ProbeStatus::Busy(BusyReason::Held));
}

#[test]
fn listing_that_could_not_run_means_busy() {
    assert_eq!(judge_listing(&None), ProbeStatus::Busy(BusyReason::LookupFailed));
}

#[test]
fn bind_decides_free_or_busy() {
    assert_eq!(judge_bind(true), ProbeStatus::Free);
    assert_eq!(judge_bind(false), ProbeStatus::Busy(BusyReason::BindFailed));
}

#[test]
fn port_is_free_then_busy_then_free_again() {
    let before = judge_bind(true);
    let held = judge_bind(false);
    let after = judge_bind(true);
    assert_eq!(before, ProbeStatus::Free);
    assert!(matches!(held, ProbeStatus::Busy(_)));
    assert_eq!(after, ProbeStatus::Free);
    let free = judge_listing(&Some(Vec::new()));
    let busy = judge_listing(&Some(b"4242\n".to_vec()));
    let again = judge_listing(&Some(Vec::new()));
    assert_eq!((free, again), (ProbeStatus::Free, ProbeStatus::Free));
    assert!(matches!(busy, ProbeStatus::Busy(_)));
}

#[test]
fn holders_command_names_the_port() {
    assert_eq!(holders_command(8080), "lsof -t -i:8080");
    assert_eq!(holders_command(1), "lsof -t -i:1");
    assert_eq!(holders_command(u64::MAX), "lsof -t -i:18446744073709551615");
}

#[test]
fn endpoint_joins_address_and_port() {
    assert_eq!(endpoint_text("127.0.0.1", 80), "127.0.0.1:80");
    assert_eq!(endpoint_text("", 8080), "0.0.0.0:8080");
    assert_eq!(endpoint_text("host.example", 65535), "host.example:65535");
}

#[test]
fn owner_of_an_empty_listing_is_nobody() {
    assert_eq!(read_owner(b""), Owner::Nobody);
    assert_eq!(read_owner(b"\n"), Owner::Nobody);
    assert_eq!(read_owner(b" \t\r\n\x0b\x0c "), Owner::Nobody);
}

#[test]
fn owner_is_the_first_process_listed() {
    assert_eq!(read_owner(b"1234\n"), Owner::Pid(1234));
    assert_eq!(read_owner(b"1234"), Owner::Pid(1234));
    assert_eq!(read_owner(b"  12\n34\n"), Owner::Pid(12));
    assert_eq!(read_owner(b"\n\n7 oops"), Owner::Pid(7));
    assert_eq!(read_owner(b"007\n"), Owner::Pid(7));
    assert_eq!(read_owner(b"18446744073709551615\n"), Owner::Pid(u64::MAX));
}

#[test]
fn owner_that_is_no_process_id_is_unreadable() {
    assert_eq!(read_owner(b"abc\n"), Owner::Unreadable);
    assert_eq!(read_owner(b"12a\n"), Owner::Unreadable);
    assert_eq!(read_owner(b"-12\n"), Owner::Unreadable);
    assert_eq!(read_owner(b"+12\n"), Owner::Unreadable);
    assert_eq!(read_owner(b"0\n"), Owner::Unreadable);
    assert_eq!(read_owner(b"000\n"), Owner::Unreadable);
    assert_eq!(read_owner(b"18446744073709551616\n"), Owner::Unreadable);
    assert_eq!(read_owner(b"12;rm\n"), Owner::Unreadable);
    assert_eq!(read_owner(&[0xff, 0xfe]), Owner::Unreadable);
    assert_eq!(read_owner(&[b'1', 0xa0, b'2']), Owner::Unreadable);
    assert_eq!(read_owner(&[0]), Owner::Unreadable);
}

#[test]
fn lookup_without_a_process_signals_nobody() {
    assert_eq!(decide_lookup(&Some(Vec::new())), Lookup::Done(ReclaimStatus::NotFound));
    assert_eq!(decide_lookup(&Some(b"\n".to_vec())), Lookup::Done(ReclaimStatus::NotFound));
}

#[test]
fn lookup_with_a_process_asks_for_the_signal() {
    assert_eq!(decide_lookup(&Some(b"4321\n".to_vec())), Lookup::Kill(4321));
    assert_eq!(decide_lookup(&Some(b"4321\n99\n".to_vec())), Lookup::Kill(4321));
}

#[test]
fn lookup_that_failed_gives_up() {
    assert_eq!(
        decide_lookup(&None),
        Lookup::Done(ReclaimStatus::FailedToKill(KillFailure::LookupFailed))
    );
    assert_eq!(
        decide_lookup(&Some(b"what?\n".to_vec())),
        Lookup::Done(ReclaimStatus::FailedToKill(KillFailure::Unreadable))
    );
    assert_eq!(
        decide_lookup(&Some(b"0\n".to_vec())),
        Lookup::Done(ReclaimStatus::FailedToKill(KillFailure::Unreadable))
    );
}

#[test]
fn signal_decides_freed_or_failed() {
    assert_eq!(decide_signal(true), ReclaimStatus::Freed);
    assert_eq!(decide_signal(false), ReclaimStatus::FailedToKill(KillFailure::SignalFailed));
}

#[test]
fn kill_command_names_the_process() {
    assert_eq!(kill_command(1234), "kill -9 1234");
    assert_eq!(kill_command(1), "kill -9 1");
}
