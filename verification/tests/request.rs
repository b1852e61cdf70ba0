use portcheck::request::{parse_args, Mode, PortRange, ScanRequest, UsageError};

fn line(words: &[&str]) -> Vec<String> {
    words.iter().map(|w| w.to_string()).collect()
}

fn accepted(words: &[&str]) -> ScanRequest {
    match parse_args(&line(words)) {
        Ok(request) => request,
        Err(e) => panic!("refused: {:?}", e),
    }
}

fn refused(words: &[&str]) -> UsageError {
    match parse_args(&line(words)) {
        Ok(request) => panic!("accepted: {:?}", request),
        Err(e) => e,
    }
}

fn text(s: &Option<String>) -> Option<&str> {
    s.as_deref()
}

#[test]
fn range_holds_both_ends() {
    let range = PortRange::new(80, 90).unwrap();
    assert_eq!(range.start(), 80);
    assert_eq!(range.end(), 90);
    let one = PortRange::new(1, 1).unwrap();
    assert_eq!((one.start(), one.end()), (1, 1));
    let top = PortRange::new(u64::MAX, u64::MAX).unwrap();
    assert_eq!((top.start(), top.end()), (u64::MAX, u64::MAX));
}

#[test]
fn range_of_one_port() {
    let range = PortRange::single(443).unwrap();
    assert_eq!((range.start(), range.end()), (443, 443));
    assert_eq!(PortRange::single(0), Err(UsageError::InvalidRange));
}

#[test]
fn range_refuses_zero_and_inverted() {
    assert_eq!(PortRange::new(0, 0), Err(UsageError::InvalidRange));
    assert_eq!(PortRange::new(0, 5), Err(UsageError::InvalidRange));
    assert_eq!(PortRange::new(5, 3), Err(UsageError::InvalidRange));
    assert_eq!(PortRange::new(2, 1), Err(UsageError::InvalidRange));
}

#[test]
fn request_refuses_address_with_network() {
    let range = PortRange::new(1, 2).unwrap();
    let both = ScanRequest::new(
        Mode::RemoteCheck,
        Some("10.0.0.1".to_string()),
        Some("10.0.0.0/30".to_string()),
        range,
    );
    assert_eq!(both, Err(UsageError::Conflict));
}

#[test]
fn request_takes_an_empty_address_with_a_network() {
    let range = PortRange::new(1, 2).unwrap();
    let request = ScanRequest::new(
        Mode::RemoteCheck,
        Some(String::new()),
        Some("10.0.0.0/30".to_string()),
        range,
    )
    .unwrap();
    assert_eq!(request.mode(), Mode::RemoteCheck);
    assert_eq!(text(request.address()), Some(""));
    assert_eq!(text(request.cidr()), Some("10.0.0.0/30"));
    assert_eq!(request.range(), range);
    let other = ScanRequest::new(Mode::RemoteCheck, Some("h".to_string()), Some(String::new()), range);
    assert!(other.is_ok());
}

#[test]
fn request_clone_is_equal() {
    let request = accepted(&["tool", "-ip", "10.0.0.1", "-p", "80", "81"]);
    assert_eq!(request.clone(), request);
}

#[test]
fn args_check_one_port() {
    let request = accepted(&["tool", "-p", "80"]);
    assert_eq!(request.mode(), Mode::Check);
    assert_eq!(text(request.address()), None);
    assert_eq!(text(request.cidr()), None);
    assert_eq!((request.range().start(), request.range().end()), (80, 80));
}

#[test]
fn args_check_a_range() {
    let request = accepted(&["tool", "-p", "80", "90"]);
    assert_eq!(request.mode(), Mode::Check);
    assert_eq!((request.range().start(), request.range().end()), (80, 90));
    let same = accepted(&["tool", "-p", "80", "80"]);
    assert_eq!((same.range().start(), same.range().end()), (80, 80));
}

#[test]
fn args_check_and_free() {
    let one = accepted(&["tool", "-n", "3000"]);
    assert_eq!(one.mode(), Mode::CheckAndFree);
    assert_eq!((one.range().start(), one.range().end()), (3000, 3000));
    let many = accepted(&["tool", "-n", "3000", "3005"]);
    assert_eq!(many.mode(), Mode::CheckAndFree);
    assert_eq!((many.range().start(), many.range().end()), (3000, 3005));
    assert_eq!(text(many.address()), None);
}

#[test]
fn args_address_and_range() {
    let request = accepted(&["tool", "-ip", "10.0.0.1", "-p", "80", "81"]);
    assert_eq!(request.mode(), Mode::RemoteCheck);
    assert_eq!(text(request.address()), Some("10.0.0.1"));
    assert_eq!(text(request.cidr()), None);
    assert_eq!((request.range().start(), request.range().end()), (80, 81));
    let one = accepted(&["tool", "-ip", "host.example", "-p", "22"]);
    assert_eq!(text(one.address()), Some("host.example"));
    assert_eq!((one.range().start(), one.range().end()), (22, 22));
}

#[test]
fn args_loopback() {
    let request = accepted(&["tool", "-l", "-p", "80", "81"]);
    assert_eq!(request.mode(), Mode::RemoteCheck);
    assert_eq!(text(request.address()), Some("127.0.0.1"));
    assert_eq!((request.range().start(), request.range().end()), (80, 81));
}

#[test]
fn args_network() {
    let request = accepted(&["tool", "-p", "80", "81", "-cidr", "192.168.1.0/30"]);
    assert_eq!(request.mode(), Mode::RemoteCheck);
    assert_eq!(text(request.address()), None);
    assert_eq!(text(request.cidr()), Some("192.168.1.0/30"));
    assert_eq!((request.range().start(), request.range().end()), (80, 81));
    let one = accepted(&["tool", "-p", "80", "-cidr", "192.168.1.0/30"]);
    assert_eq!(text(one.cidr()), Some("192.168.1.0/30"));
    assert_eq!((one.range().start(), one.range().end()), (80, 80));
}

#[test]
fn args_network_with_an_empty_address() {
    let request = accepted(&["tool", "-ip", "", "-p", "80", "81", "-cidr", "192.168.1.0/30"]);
    assert_eq!(request.mode(), Mode::RemoteCheck);
    assert_eq!(text(request.address()), Some(""));
    assert_eq!(text(request.cidr()), Some("192.168.1.0/30"));
}

#[test]
fn args_address_with_network_is_refused() {
    assert_eq!(
        refused(&["tool", "-ip", "10.0.0.1", "-p", "80", "81", "-cidr", "192.168.1.0/30"]),
        UsageError::Conflict
    );
    assert_eq!(
        refused(&["tool", "-l", "-p", "80", "81", "-cidr", "192.168.1.0/30"]),
        UsageError::Conflict
    );
    assert_eq!(refused(&["tool", "-l", "-p", "80", "-cidr", "x"]), UsageError::Conflict);
}

#[test]
fn args_address_with_an_empty_network_is_taken() {
    let request = accepted(&["tool", "-l", "-p", "80", "81", "-cidr", ""]);
    assert_eq!(text(request.address()), Some("127.0.0.1"));
    assert_eq!(text(request.cidr()), Some(""));
}

#[test]
fn args_missing() {
    assert_eq!(refused(&[]), UsageError::MissingArguments);
    assert_eq!(refused(&["tool"]), UsageError::MissingArguments);
    assert_eq!(refused(&["tool", "-p"]), UsageError::MissingArguments);
    assert_eq!(refused(&["tool", "-l", "-p"]), UsageError::MissingArguments);
    assert_eq!(refused(&["tool", "-ip", "10.0.0.1"]), UsageError::MissingArguments);
    assert_eq!(refused(&["tool", "-ip", "10.0.0.1", "-p"]), UsageError::MissingArguments);
    assert_eq!(refused(&["tool", "-p", "80", "-cidr"]), UsageError::MissingArguments);
    assert_eq!(refused(&["tool", "-p", "80", "81", "-cidr"]), UsageError::MissingArguments);
}

#[test]
fn args_bad_number() {
    assert_eq!(refused(&["tool", "-p", "abc"]), UsageError::BadNumber);
    assert_eq!(refused(&["tool", "-p", "80", "abc"]), UsageError::BadNumber);
    assert_eq!(refused(&["tool", "-p", "-5"]), UsageError::BadNumber);
    assert_eq!(refused(&["tool", "-p", "80", ""]), UsageError::BadNumber);
    assert_eq!(refused(&["tool", "-p", "18446744073709551616"]), UsageError::BadNumber);
    assert_eq!(refused(&["tool", "-x", "abc"]), UsageError::BadNumber);
}

#[test]
fn args_zero_port() {
    assert_eq!(refused(&["tool", "-p", "0"]), UsageError::InvalidRange);
    assert_eq!(refused(&["tool", "-n", "0", "5"]), UsageError::InvalidRange);
}

#[test]
fn args_inverted_range() {
    assert_eq!(refused(&["tool", "-p", "90", "80"]), UsageError::InvalidRange);
    assert_eq!(refused(&["tool", "-n", "2", "1"]), UsageError::InvalidRange);
    assert_eq!(refused(&["tool", "-l", "-p", "90", "80"]), UsageError::InvalidRange);
}

#[test]
fn args_inverted_range_comes_before_all_else() {
    assert_eq!(refused(&["tool", "-x", "90", "80"]), UsageError::InvalidRange);
    assert_eq!(
        refused(&["tool", "-ip", "10.0.0.1", "-p", "90", "80", "-cidr", "10.0.0.0/30"]),
        UsageError::InvalidRange
    );
    assert_eq!(refused(&["tool", "-l", "-n", "90", "80"]), UsageError::InvalidRange);
}

#[test]
fn args_unknown_command() {
    assert_eq!(refused(&["tool", "-x", "80"]), UsageError::UnknownCommand);
    assert_eq!(refused(&["tool", "p", "80", "90"]), UsageError::UnknownCommand);
    assert_eq!(refused(&["tool", "-P", "80"]), UsageError::UnknownCommand);
    assert_eq!(refused(&["tool", "-p\u{e9}", "80"]), UsageError::UnknownCommand);
    assert_eq!(refused(&["tool", "-cidr", "80"]), UsageError::UnknownCommand);
}

#[test]
fn args_free_is_local_only() {
    assert_eq!(refused(&["tool", "-l", "-n", "80"]), UsageError::NotLocal);
    assert_eq!(refused(&["tool", "-ip", "10.0.0.1", "-n", "80", "81"]), UsageError::NotLocal);
    assert_eq!(refused(&["tool", "-n", "80", "81", "-cidr", "10.0.0.0/30"]), UsageError::NotLocal);
    assert_eq!(refused(&["tool", "-ip", "", "-n", "80"]), UsageError::NotLocal);
}

#[test]
fn args_after_the_range_are_passed_over() {
    let request = accepted(&["tool", "-p", "1", "2", "junk"]);
    assert_eq!(request.mode(), Mode::Check);
    assert_eq!((request.range().start(), request.range().end()), (1, 2));
    let more = accepted(&["tool", "-n", "1", "2", "3", "4"]);
    assert_eq!((more.range().start(), more.range().end()), (1, 2));
    let after = accepted(&["tool", "-p", "1", "2", "-cidr", "10.0.0.0/30", "junk"]);
    assert_eq!(text(after.cidr()), Some("10.0.0.0/30"));
    let late = accepted(&["tool", "-p", "1", "2", "junk", "-cidr", "10.0.0.0/30"]);
    assert_eq!(text(late.cidr()), None);
    assert_eq!(late.mode(), Mode::Check);
}

#[test]
fn args_plus_sign_and_zeros() {
    let request = accepted(&["tool", "-p", "+80", "0090"]);
    assert_eq!((request.range().start(), request.range().end()), (80, 90));
}
