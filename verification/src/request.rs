//! What a run was asked to do, and how the command line says it.

use crate::text::{number, parse_number, text_is};
use vstd::prelude::*;
use vstd::string::*;
use vstd::utf8::is_ascii_chars;

verus! {

/// Why a command line was turned down.
#[derive(Clone, Copy, Debug, PartialEq, Eq, Structural)]
pub enum UsageError {
    /// A word that the command line needs is not there.
    MissingArguments,
    /// A port is not written as a number.
    BadNumber,
    /// The first port is zero, or the last port lies before the first.
    InvalidRange,
    /// The command is neither `-p` nor `-n`.
    UnknownCommand,
    /// `-n` came with an address or a network: ports are freed on this
    /// machine only.
    NotLocal,
    /// Both an address and a network were given.
    Conflict,
}

/// How the ports of a request are examined.
#[derive(Clone, Copy, Debug, PartialEq, Eq, Structural)]
pub enum Mode {
    /// Ask the socket table of this machine.
    Check,
    /// Ask the socket table, and end the process that holds a busy port.
    CheckAndFree,
    /// Try to listen on the port at an address.
    RemoteCheck,
}

/// The ports `first..=last`, none of them zero.
#[derive(Clone, Copy, Debug, PartialEq, Eq)]
pub struct PortRange {
    start: u64,
    end: u64,
}

impl PortRange {
    #[verifier::type_invariant]
    closed spec fn valid(self) -> bool {
        0 < self.start <= self.end
    }

    /// The lowest port of the range.
    pub closed spec fn first(self) -> u64 {
        self.start
    }

    /// The highest port of the range.
    pub closed spec fn last(self) -> u64 {
        self.end
    }

    /// The range `start..=end`; `InvalidRange` where `start` is zero or
    /// `end` lies before `start`.
    pub fn new(start: u64, end: u64) -> (r: Result<PortRange, UsageError>)
        ensures
            r is Ok <==> 0 < start <= end,
            r matches Ok(range) ==> range.first() == start && range.last() == end,
            r matches Err(e) ==> e == UsageError::InvalidRange,
    {
        if start == 0 || end < start {
            Err(UsageError::InvalidRange)
        } else {
            Ok(PortRange { start, end })
        }
    }

    /// The range that holds `port` alone.
    pub fn single(port: u64) -> (r: Result<PortRange, UsageError>)
        ensures
            r is Ok <==> 0 < port,
            r matches Ok(range) ==> range.first() == port && range.last() == port,
            r matches Err(e) ==> e == UsageError::InvalidRange,
    {
        PortRange::new(port, port)
    }

    /// The lowest port.
    pub fn start(&self) -> (p: u64)
        ensures
            p == self.first(),
            0 < p <= self.last(),
    {
        proof {
            use_type_invariant(self);
        }
        self.start
    }

    /// The highest port.
    pub fn end(&self) -> (p: u64)
        ensures
            p == self.last(),
            self.first() <= p,
    {
        proof {
            use_type_invariant(self);
        }
        self.end
    }
}

/// Whether a text is there and not empty.
pub open spec fn filled(text: Option<Seq<char>>) -> bool {
    text matches Some(t) && t.len() > 0
}

/// A request as plain values.
pub struct ScanRequestView {
    pub mode: Mode,
    pub address: Option<Seq<char>>,
    pub cidr: Option<Seq<char>>,
    pub first: u64,
    pub last: u64,
}

impl ScanRequestView {
    /// A request names ports from 1 on, in order, and never both an
    /// address and a network.
    pub open spec fn wf(self) -> bool {
        &&& 0 < self.first <= self.last
        &&& !(filled(self.address) && filled(self.cidr))
    }
}

/// One run: a mode, a range of ports, and where to look for them.
#[derive(Debug, PartialEq, Eq)]
pub struct ScanRequest {
    mode: Mode,
    address: Option<String>,
    cidr: Option<String>,
    range: PortRange,
}

/// The text of `s`, if there is one.
pub open spec fn text_of(s: Option<String>) -> Option<Seq<char>> {
    match s {
        Some(t) => Some(t@),
        None => None,
    }
}

impl View for ScanRequest {
    type V = ScanRequestView;

    closed spec fn view(&self) -> ScanRequestView {
        ScanRequestView {
            mode: self.mode,
            address: text_of(self.address),
            cidr: text_of(self.cidr),
            first: self.range.first(),
            last: self.range.last(),
        }
    }
}

fn is_filled(text: &Option<String>) -> (r: bool)
    ensures
        r == filled(text_of(*text)),
{
    match text {
        Some(t) => !t.as_str().is_empty(),
        None => false,
    }
}

fn copy_text(text: &Option<String>) -> (r: Option<String>)
    ensures
        text_of(r) == text_of(*text),
{
    match text {
        Some(t) => Some(t.clone()),
        None => None,
    }
}

impl Clone for ScanRequest {
    fn clone(&self) -> (r: Self)
        ensures
            r@ == self@,
    {
        proof {
            use_type_invariant(self);
        }
        ScanRequest {
            mode: self.mode,
            address: copy_text(&self.address),
            cidr: copy_text(&self.cidr),
            range: self.range,
        }
    }
}

impl ScanRequest {
    #[verifier::type_invariant]
    closed spec fn valid(self) -> bool {
        !(filled(text_of(self.address)) && filled(text_of(self.cidr)))
    }

    /// A request for `range` in `mode`; `Conflict` where both `address`
    /// and `cidr` hold a text that is not empty.
    pub fn new(mode: Mode, address: Option<String>, cidr: Option<String>, range: PortRange) -> (r:
        Result<ScanRequest, UsageError>)
        ensures
            r is Ok <==> !(filled(text_of(address)) && filled(text_of(cidr))),
            r matches Ok(q) ==> q@ == (ScanRequestView {
                mode,
                address: text_of(address),
                cidr: text_of(cidr),
                first: range.first(),
                last: range.last(),
            }) && q@.wf(),
            r matches Err(e) ==> e == UsageError::Conflict,
    {
        if is_filled(&address) && is_filled(&cidr) {
            Err(UsageError::Conflict)
        } else {
            proof {
                use_type_invariant(&range);
            }
            Ok(ScanRequest { mode, address, cidr, range })
        }
    }

    /// The mode.
    pub fn mode(&self) -> (m: Mode)
        ensures
            m == self@.mode,
    {
        self.mode
    }

    /// The address, if one was given.
    pub fn address(&self) -> (a: &Option<String>)
        ensures
            text_of(*a) == self@.address,
    {
        &self.address
    }

    /// The network, if one was given.
    pub fn cidr(&self) -> (c: &Option<String>)
        ensures
            text_of(*c) == self@.cidr,
    {
        &self.cidr
    }

    /// The ports.
    pub fn range(&self) -> (r: PortRange)
        ensures
            r.first() == self@.first,
            r.last() == self@.last,
            self@.wf(),
    {
        proof {
            use_type_invariant(self);
            use_type_invariant(&self.range);
        }
        self.range
    }
}

/// The words of a command line that matter, by the place they stand in.
pub struct Tokens {
    pub address: Option<Seq<char>>,
    pub command: Seq<char>,
    pub start: Seq<char>,
    pub end: Option<Seq<char>>,
    pub cidr: Option<Seq<char>>,
}

/// The texts of the arguments.
pub open spec fn words(args: Seq<String>) -> Seq<Seq<char>> {
    args.map_values(|s: String| s@)
}

/// The address that a command line of three words or more begins with, and
/// the place of the command behind it: `-ip` and an address, `-l` for
/// 127.0.0.1, or neither.
pub open spec fn target(args: Seq<Seq<char>>) -> (Option<Seq<char>>, int) {
    if args[1] == "-ip"@ {
        (Some(args[2]), 3)
    } else if args[1] == "-l"@ {
        (Some("127.0.0.1"@), 2)
    } else {
        (None, 1)
    }
}

/// Splits a command line, the program's name first, into its words: an
/// address or none, the command and the first port, then a last port unless
/// the next word is `-cidr`, then `-cidr` and a network or nothing.
/// Whatever follows is passed over.
pub open spec fn tokens(args: Seq<Seq<char>>) -> Result<Tokens, UsageError> {
    if args.len() < 3 {
        Err(UsageError::MissingArguments)
    } else {
        let (address, k) = target(args);
        if args.len() < k + 2 {
            Err(UsageError::MissingArguments)
        } else {
            let e = k + 2;
            let (end, c) = if e < args.len() && args[e] != "-cidr"@ {
                (Some(args[e]), e + 1)
            } else {
                (None, e)
            };
            if c < args.len() && args[c] == "-cidr"@ {
                if c + 1 < args.len() {
                    Ok(
                        Tokens {
                            address,
                            command: args[k],
                            start: args[k + 1],
                            end,
                            cidr: Some(args[c + 1]),
                        },
                    )
                } else {
                    Err(UsageError::MissingArguments)
                }
            } else {
                Ok(Tokens { address, command: args[k], start: args[k + 1], end, cidr: None })
            }
        }
    }
}

/// The request that the words ask for. The ports are read first, so a bad
/// range is reported whatever else is wrong.
pub open spec fn request_of(t: Tokens) -> Result<ScanRequestView, UsageError> {
    let first = number(t.start);
    let last = match t.end {
        Some(e) => number(e),
        None => first,
    };
    if first is None || last is None {
        Err(UsageError::BadNumber)
    } else if first->0 == 0 || last->0 < first->0 {
        Err(UsageError::InvalidRange)
    } else if t.command == "-n"@ {
        if t.address is Some || t.cidr is Some {
            Err(UsageError::NotLocal)
        } else {
            Ok(
                ScanRequestView {
                    mode: Mode::CheckAndFree,
                    address: None,
                    cidr: None,
                    first: first->0,
                    last: last->0,
                },
            )
        }
    } else if t.command == "-p"@ {
        if filled(t.address) && filled(t.cidr) {
            Err(UsageError::Conflict)
        } else {
            Ok(
                ScanRequestView {
                    mode: if t.address is Some || t.cidr is Some {
                        Mode::RemoteCheck
                    } else {
                        Mode::Check
                    },
                    address: t.address,
                    cidr: t.cidr,
                    first: first->0,
                    last: last->0,
                },
            )
        }
    } else {
        Err(UsageError::UnknownCommand)
    }
}

/// The request that a command line asks for.
pub open spec fn parse(args: Seq<Seq<char>>) -> Result<ScanRequestView, UsageError> {
    match tokens(args) {
        Ok(t) => request_of(t),
        Err(e) => Err(e),
    }
}

proof fn lemma_flags_are_ascii()
    ensures
        is_ascii_chars("-ip"@),
        is_ascii_chars("-l"@),
        is_ascii_chars("-cidr"@),
        is_ascii_chars("-p"@),
        is_ascii_chars("-n"@),
        "-p"@ != "-n"@,
{
    reveal_strlit("-ip");
    reveal_strlit("-l");
    reveal_strlit("-cidr");
    reveal_strlit("-p");
    reveal_strlit("-n");
    assert("-p"@[1] != "-n"@[1]);
}

/// Reads a command line, the program's name first.
pub fn parse_args(args: &Vec<String>) -> (r: Result<ScanRequest, UsageError>)
    ensures
        r matches Ok(q) ==> parse(words(args@)) == Ok::<ScanRequestView, UsageError>(q@) && q@.wf(),
        r matches Err(e) ==> parse(words(args@)) == Err::<ScanRequestView, UsageError>(e),
{
    proof {
        lemma_flags_are_ascii();
    }
    let ghost w = words(args@);
    let n: usize = args.len();
    if n < 3 {
        return Err(UsageError::MissingArguments);
    }
    assert(w[1] == args@[1]@ && w[2] == args@[2]@);
    let mut address: Option<String> = None;
    let mut k: usize = 1;
    if text_is(args[1].as_str(), "-ip") {
        address = Some(args[2].clone());
        k = 3;
    } else if text_is(args[1].as_str(), "-l") {
        address = Some(String::from_str("127.0.0.1"));
        k = 2;
    }
    assert(target(w) == (text_of(address), k as int));
    if n < k + 2 {
        return Err(UsageError::MissingArguments);
    }
    assert(w[k as int] == args@[k as int]@ && w[k + 1] == args@[k + 1]@);
    let e: usize = k + 2;
    let mut end_at: Option<usize> = None;
    let mut c: usize = e;
    if e < n {
        assert(w[e as int] == args@[e as int]@);
        if !text_is(args[e].as_str(), "-cidr") {
            end_at = Some(e);
            c = e + 1;
        }
    }
    let mut cidr: Option<String> = None;
    if c < n {
        assert(w[c as int] == args@[c as int]@);
        if text_is(args[c].as_str(), "-cidr") {
            if c + 1 < n {
                assert(w[c + 1] == args@[c + 1]@);
                cidr = Some(args[c + 1].clone());
            } else {
                return Err(UsageError::MissingArguments);
            }
        }
    }
    let ghost t = Tokens {
        address: text_of(address),
        command: w[k as int],
        start: w[k + 1],
        end: match end_at {
            Some(i) => Some(w[i as int]),
            None => None,
        },
        cidr: text_of(cidr),
    };
    assert(tokens(w) == Ok::<Tokens, UsageError>(t));
    let first = parse_number(args[k + 1].as_str());
    let last = match end_at {
        Some(i) => parse_number(args[i].as_str()),
        None => first,
    };
    let (a, b) = match (first, last) {
        (Some(a), Some(b)) => (a, b),
        _ => {
            return Err(UsageError::BadNumber);
        },
    };
    let range = match PortRange::new(a, b) {
        Ok(range) => range,
        Err(e) => {
            return Err(e);
        },
    };
    if text_is(args[k].as_str(), "-n") {
        if address.is_some() || cidr.is_some() {
            Err(UsageError::NotLocal)
        } else {
            ScanRequest::new(Mode::CheckAndFree, None, None, range)
        }
    } else if text_is(args[k].as_str(), "-p") {
        let mode = if address.is_some() || cidr.is_some() {
            Mode::RemoteCheck
        } else {
            Mode::Check
        };
        ScanRequest::new(mode, address, cidr, range)
    } else {
        Err(UsageError::UnknownCommand)
    }
}

/// Every request that a command line gives is well formed.
pub proof fn lemma_parsed_request_is_wf(args: Seq<Seq<char>>)
    requires
        parse(args) is Ok,
    ensures
        parse(args)->Ok_0.wf(),
{
}

} // verus!
