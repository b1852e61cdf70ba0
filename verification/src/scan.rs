//! A scan: every address of a request, and at each address every port, one
//! after the other.
//!
//! A scan never acts. It names the next action, takes what came of it, and
//! hands out one report for each address and port.

use crate::network::{
    block_size, block_start, cidr, dotted, lemma_block_holds_its_address, lemma_block_size,
    lemma_cidr_prefix, parse_cidr, render_address, InvalidCidr, Ipv4Block,
};
use crate::probe::{
    bind_verdict, bytes_of, holders_verdict, judge_bind, judge_listing, ProbeResult,
    ProbeResultView, ProbeStatus,
};
use crate::reclaim::{
    after_lookup, after_signal, decide_lookup, decide_signal, owner, KillFailure, Lookup, Owner,
    ReclaimResult, ReclaimStatus,
};
use crate::report::{Report, ReportView};
use crate::request::{
    filled, lemma_parsed_request_is_wf, parse, parse_args, text_of, tokens, words, Mode,
    ScanRequest, ScanRequestView, UsageError,
};
use crate::text::{as_text, number};
use vstd::arithmetic::div_mod::{
    lemma_fundamental_div_mod, lemma_fundamental_div_mod_converse, lemma_mod_bound,
};
use vstd::prelude::*;
use vstd::string::*;

verus! {

/// What a scan waits for.
#[derive(Clone, Copy, Debug, PartialEq, Eq, Structural)]
pub enum Phase {
    /// The probe of the current port.
    Probing,
    /// The lookup of the process that holds the current port.
    Locating,
    /// The signal to this process.
    Killing(u64),
    /// Nothing: every port has its report.
    Finished,
}

/// Where a scan looks for its ports.
pub enum HostsView {
    /// In the socket table of this machine.
    Local,
    /// At one address.
    Named(Seq<char>),
    /// At the `size` addresses from `start` on.
    Block { start: u32, size: nat },
}

impl HostsView {
    /// How many addresses there are.
    pub open spec fn count(self) -> nat {
        match self {
            HostsView::Block { size, .. } => size,
            _ => 1,
        }
    }

    /// The address at place `i`, as text; none for this machine.
    pub open spec fn address(self, i: nat) -> Option<Seq<char>> {
        match self {
            HostsView::Local => None,
            HostsView::Named(a) => Some(a),
            HostsView::Block { start, .. } => Some(dotted((start + i) as u32)),
        }
    }

    /// A block holds an address at least and ends within 32 bits.
    pub open spec fn wf(self) -> bool {
        self matches HostsView::Block { start, size } ==> 1 <= size && start + size
            <= 0x1_0000_0000
    }
}

/// What the caller of a scan is to do next.
#[derive(Clone, Debug, PartialEq, Eq)]
pub enum Action {
    /// List the processes that hold `port` on this machine.
    Lookup { port: u64 },
    /// Try to listen on `port` at `address`, and stop listening at once.
    Bind { address: String, port: u64 },
    /// End the process `pid` by force.
    Kill { pid: u64 },
    /// Nothing is left to do.
    Done,
}

/// An action as plain values.
pub enum ActionView {
    Lookup { port: u64 },
    Bind { address: Seq<char>, port: u64 },
    Kill { pid: u64 },
    Done,
}

impl View for Action {
    type V = ActionView;

    open spec fn view(&self) -> ActionView {
        match self {
            Action::Lookup { port } => ActionView::Lookup { port: *port },
            Action::Bind { address, port } => ActionView::Bind { address: address@, port: *port },
            Action::Kill { pid } => ActionView::Kill { pid: *pid },
            Action::Done => ActionView::Done,
        }
    }
}

/// What came of an action.
#[derive(Clone, Debug, PartialEq, Eq)]
pub enum Event {
    /// The output of the listing, or `None` where it could not be run.
    Listing(Option<Vec<u8>>),
    /// Whether the listener could be opened.
    Bound(bool),
    /// Whether the signal was delivered.
    Signalled(bool),
}

/// An event as plain values.
pub enum EventView {
    Listing(Option<Seq<u8>>),
    Bound(bool),
    Signalled(bool),
}

impl View for Event {
    type V = EventView;

    open spec fn view(&self) -> EventView {
        match self {
            Event::Listing(l) => EventView::Listing(bytes_of(*l)),
            Event::Bound(b) => EventView::Bound(*b),
            Event::Signalled(d) => EventView::Signalled(*d),
        }
    }
}

/// What an event does to a scan.
pub enum Move {
    /// Nothing: the scan did not wait for this event.
    Stay,
    /// The port is busy and is to be freed: look for its holder.
    Locate,
    /// The holder is known: signal it.
    Signal(u64),
    /// The current port is done, with this report.
    Emit(ReportView),
}

/// A scan as plain values: the request, the place of the current address,
/// the current port, and what the scan waits for.
pub struct ScanView {
    pub mode: Mode,
    pub hosts: HostsView,
    pub first: u64,
    pub last: u64,
    pub host: nat,
    pub port: u64,
    pub phase: Phase,
}

impl ScanView {
    /// What holds of every scan.
    pub open spec fn wf(self) -> bool {
        &&& 0 < self.first <= self.port <= self.last
        &&& self.host < self.hosts.count()
        &&& self.hosts.wf()
        &&& (self.hosts is Local) == (self.mode != Mode::RemoteCheck)
        &&& (self.phase is Locating || self.phase is Killing) ==> self.mode == Mode::CheckAndFree
        &&& self.phase matches Phase::Killing(pid) ==> pid > 0
    }

    /// How many ports each address has.
    pub open spec fn width(self) -> nat {
        (self.last - self.first + 1) as nat
    }

    /// How many reports the scan gives in all: one for each address and
    /// port.
    pub open spec fn total(self) -> nat {
        self.hosts.count() * self.width()
    }

    /// How many reports the scan has given.
    pub open spec fn done(self) -> nat {
        if self.phase is Finished {
            self.total()
        } else {
            (self.host * self.width() + (self.port - self.first)) as nat
        }
    }

    /// The address that the scan is at, as text; none on this machine.
    pub open spec fn address(self) -> Option<Seq<char>> {
        self.hosts.address(self.host)
    }

    /// The action that the scan waits for.
    pub open spec fn action(self) -> ActionView {
        match self.phase {
            Phase::Finished => ActionView::Done,
            Phase::Probing => match self.address() {
                None => ActionView::Lookup { port: self.port },
                Some(a) => ActionView::Bind { address: a, port: self.port },
            },
            Phase::Locating => ActionView::Lookup { port: self.port },
            Phase::Killing(pid) => ActionView::Kill { pid },
        }
    }

    /// The report of a probe of the current port.
    pub open spec fn probed(self, status: ProbeStatus) -> ReportView {
        ReportView::Probe(ProbeResultView { address: self.address(), port: self.port, status })
    }

    /// What `event` does to the scan. A busy port is freed in
    /// `CheckAndFree` only; an event that the scan does not wait for
    /// changes nothing.
    pub open spec fn respond(self, event: EventView) -> Move {
        match (self.phase, event) {
            (Phase::Probing, EventView::Listing(l)) => if self.hosts is Local {
                let status = holders_verdict(l);
                if status is Busy && self.mode == Mode::CheckAndFree {
                    Move::Locate
                } else {
                    Move::Emit(self.probed(status))
                }
            } else {
                Move::Stay
            },
            (Phase::Probing, EventView::Bound(b)) => if self.hosts is Local {
                Move::Stay
            } else {
                Move::Emit(self.probed(bind_verdict(b)))
            },
            (Phase::Locating, EventView::Listing(l)) => match after_lookup(l) {
                Lookup::Kill(pid) => Move::Signal(pid),
                Lookup::Done(status) => Move::Emit(
                    ReportView::Reclaim(ReclaimResult { port: self.port, status }),
                ),
            },
            (Phase::Killing(_), EventView::Signalled(d)) => Move::Emit(
                ReportView::Reclaim(ReclaimResult { port: self.port, status: after_signal(d) }),
            ),
            _ => Move::Stay,
        }
    }

    /// The scan at the next port: the next port of the same address, else
    /// the first port of the next address, else the end.
    pub open spec fn next(self) -> ScanView {
        if self.port < self.last {
            ScanView { port: (self.port + 1) as u64, phase: Phase::Probing, ..self }
        } else if self.host + 1 < self.hosts.count() {
            ScanView { host: self.host + 1, port: self.first, phase: Phase::Probing, ..self }
        } else {
            ScanView { phase: Phase::Finished, ..self }
        }
    }

    /// The scan after `event`.
    pub open spec fn after(self, event: EventView) -> ScanView {
        match self.respond(event) {
            Move::Stay => self,
            Move::Locate => ScanView { phase: Phase::Locating, ..self },
            Move::Signal(pid) => ScanView { phase: Phase::Killing(pid), ..self },
            Move::Emit(_) => self.next(),
        }
    }

    /// The report that `event` brings, if it brings one.
    pub open spec fn report(self, event: EventView) -> Option<ReportView> {
        match self.respond(event) {
            Move::Emit(r) => Some(r),
            _ => None,
        }
    }
}

/// The scan that a request asks for, at its first address and port; none
/// where the network of the request cannot be read. Only `RemoteCheck`
/// looks at addresses: at those of the network if one is given, else at the
/// address, which may be empty.
pub open spec fn plan(q: ScanRequestView) -> Option<ScanView> {
    let begin = |hosts: HostsView|
        ScanView {
            mode: q.mode,
            hosts,
            first: q.first,
            last: q.last,
            host: 0,
            port: q.first,
            phase: Phase::Probing,
        };
    if q.mode != Mode::RemoteCheck {
        Some(begin(HostsView::Local))
    } else if filled(q.cidr) {
        match cidr(q.cidr->0) {
            Some((a, p)) => Some(
                begin(HostsView::Block { start: block_start(a, p), size: block_size(p) }),
            ),
            None => None,
        }
    } else {
        Some(
            begin(
                HostsView::Named(
                    match q.address {
                        Some(a) => a,
                        None => Seq::empty(),
                    },
                ),
            ),
        )
    }
}

#[derive(Debug)]
enum Hosts {
    Local,
    Named(String),
    Block(Ipv4Block),
}

impl View for Hosts {
    type V = HostsView;

    closed spec fn view(&self) -> HostsView {
        match self {
            Hosts::Local => HostsView::Local,
            Hosts::Named(a) => HostsView::Named(a@),
            Hosts::Block(b) => HostsView::Block { start: b.start(), size: b.size() },
        }
    }
}

/// A scan under way.
#[derive(Debug)]
pub struct Scan {
    mode: Mode,
    hosts: Hosts,
    first: u64,
    last: u64,
    host: u64,
    port: u64,
    phase: Phase,
}

impl View for Scan {
    type V = ScanView;

    closed spec fn view(&self) -> ScanView {
        ScanView {
            mode: self.mode,
            hosts: self.hosts@,
            first: self.first,
            last: self.last,
            host: self.host as nat,
            port: self.port,
            phase: self.phase,
        }
    }
}

impl Scan {
    #[verifier::type_invariant]
    closed spec fn valid(self) -> bool {
        self@.wf()
    }

    /// Begins the scan that `request` asks for; fails where its network
    /// cannot be read.
    pub fn new(request: &ScanRequest) -> (r: Result<Scan, InvalidCidr>)
        ensures
            r is Ok <==> plan(request@) is Some,
            r matches Ok(s) ==> Some(s@) == plan(request@) && s@.wf(),
    {
        let range = request.range();
        let first = range.start();
        let last = range.end();
        let mode = request.mode();
        let hosts = match mode {
            Mode::RemoteCheck => {
                let network = request.cidr();
                let given = match network {
                    Some(c) => !c.as_str().is_empty(),
                    None => false,
                };
                assert(given == filled(request@.cidr));
                match network {
                    Some(c) if given => match parse_cidr(c.as_str()) {
                        Ok(b) => {
                            proof {
                                lemma_block_size(b.bits());
                            }
                            Hosts::Block(b)
                        },
                        Err(e) => {
                            return Err(e);
                        },
                    },
                    _ => match request.address() {
                        Some(a) => Hosts::Named(a.clone()),
                        None => Hosts::Named(String::new()),
                    },
                }
            },
            _ => Hosts::Local,
        };
        Ok(Scan { mode, hosts, first, last, host: 0, port: first, phase: Phase::Probing })
    }

    fn count(&self) -> (n: u64)
        ensures
            n == self@.hosts.count(),
    {
        match &self.hosts {
            Hosts::Block(b) => b.len(),
            _ => 1,
        }
    }

    fn address(&self) -> (a: Option<String>)
        ensures
            text_of(a) == self@.address(),
    {
        proof {
            use_type_invariant(self);
        }
        match &self.hosts {
            Hosts::Local => None,
            Hosts::Named(a) => Some(a.clone()),
            Hosts::Block(b) => match b.nth(self.host) {
                Some(a) => Some(render_address(a)),
                None => Some(String::new()),
            },
        }
    }

    /// Whether every port has its report.
    pub fn is_finished(&self) -> (r: bool)
        ensures
            r == (self@.phase is Finished),
            r == (self@.action() is Done),
    {
        match self.phase {
            Phase::Finished => true,
            _ => false,
        }
    }

    /// The port that the scan is at.
    pub fn port(&self) -> (p: u64)
        ensures
            p == self@.port,
    {
        self.port
    }

    /// What the scan waits for.
    pub fn phase(&self) -> (p: Phase)
        ensures
            p == self@.phase,
    {
        self.phase
    }

    /// The action that the scan waits for: the caller performs it and hands
    /// what came of it to `advance`.
    pub fn action(&self) -> (a: Action)
        ensures
            a@ == self@.action(),
    {
        match self.phase {
            Phase::Finished => Action::Done,
            Phase::Probing => match self.address() {
                None => Action::Lookup { port: self.port },
                Some(address) => Action::Bind { address, port: self.port },
            },
            Phase::Locating => Action::Lookup { port: self.port },
            Phase::Killing(pid) => Action::Kill { pid },
        }
    }

    /// How many reports the scan gives in all.
    pub fn total(&self) -> (n: u128)
        ensures
            n == self@.total(),
    {
        proof {
            use_type_invariant(self);
        }
        let count: u128 = self.count() as u128;
        let width: u128 = (self.last - self.first) as u128 + 1;
        assert(count * width <= 0x1_0000_0000 * 0x1_0000_0000_0000_0000) by (nonlinear_arith)
            requires
                count <= 0x1_0000_0000,
                width <= 0x1_0000_0000_0000_0000,
        ;
        count * width
    }

    /// How many reports the scan has given.
    pub fn completed(&self) -> (n: u128)
        ensures
            n == self@.done(),
    {
        proof {
            use_type_invariant(self);
        }
        match self.phase {
            Phase::Finished => self.total(),
            _ => {
                let host: u128 = self.host as u128;
                let width: u128 = (self.last - self.first) as u128 + 1;
                assert(host * width <= 0x1_0000_0000 * 0x1_0000_0000_0000_0000)
                    by (nonlinear_arith)
                    requires
                        host <= 0x1_0000_0000,
                        width <= 0x1_0000_0000_0000_0000,
                ;
                host * width + (self.port - self.first) as u128
            },
        }
    }

    fn move_on(&mut self)
        ensures
            final(self)@ == old(self)@.next(),
    {
        proof {
            use_type_invariant(&*self);
        }
        if self.port < self.last {
            self.port = self.port + 1;
            self.phase = Phase::Probing;
        } else if self.host + 1 < self.count() {
            self.host = self.host + 1;
            self.port = self.first;
            self.phase = Phase::Probing;
        } else {
            self.phase = Phase::Finished;
        }
    }

    fn probed(&self, status: ProbeStatus) -> (r: Report)
        ensures
            r@ == self@.probed(status),
    {
        Report::Probe(ProbeResult { address: self.address(), port: self.port, status })
    }

    /// Takes what came of the action that the scan waited for. Hands out
    /// the report of the current port once it is known, and goes on to the
    /// next port. An event that the scan did not wait for changes nothing.
    pub fn advance(&mut self, event: &Event) -> (r: Option<Report>)
        ensures
            final(self)@ == old(self)@.after(event@),
            match r {
                Some(report) => old(self)@.report(event@) == Some(report@),
                None => old(self)@.report(event@) is None,
            },
            final(self)@.wf(),
    {
        proof {
            use_type_invariant(&*self);
        }
        let local = match &self.hosts {
            Hosts::Local => true,
            _ => false,
        };
        let report = match (self.phase, event) {
            (Phase::Probing, Event::Listing(l)) => {
                if !local {
                    return None;
                }
                let status = judge_listing(l);
                let busy = match status {
                    ProbeStatus::Busy(_) => true,
                    ProbeStatus::Free => false,
                };
                if busy && self.mode == Mode::CheckAndFree {
                    self.phase = Phase::Locating;
                    return None;
                }
                self.probed(status)
            },
            (Phase::Probing, Event::Bound(b)) => {
                if local {
                    return None;
                }
                self.probed(judge_bind(*b))
            },
            (Phase::Locating, Event::Listing(l)) => match decide_lookup(l) {
                Lookup::Kill(pid) => {
                    self.phase = Phase::Killing(pid);
                    return None;
                },
                Lookup::Done(status) => Report::Reclaim(ReclaimResult { port: self.port, status }),
            },
            (Phase::Killing(_), Event::Signalled(d)) => Report::Reclaim(
                ReclaimResult { port: self.port, status: decide_signal(*d) },
            ),
            _ => {
                return None;
            },
        };
        self.move_on();
        proof {
            use_type_invariant(&*self);
        }
        Some(report)
    }
}

/// Why a run begins no scan.
#[derive(Clone, Copy, Debug, PartialEq, Eq, Structural)]
pub enum Rejection {
    /// The command line was turned down.
    Usage(UsageError),
    /// The network of the request cannot be read.
    Network(InvalidCidr),
}

/// The scan that a command line begins, or why it begins none.
pub open spec fn launch(args: Seq<Seq<char>>) -> Result<ScanView, Rejection> {
    match parse(args) {
        Err(e) => Err(Rejection::Usage(e)),
        Ok(q) => match plan(q) {
            Some(s) => Ok(s),
            None => Err(Rejection::Network(InvalidCidr)),
        },
    }
}

/// Reads a command line, the program's name first, and begins its scan.
pub fn begin(args: &Vec<String>) -> (r: Result<Scan, Rejection>)
    ensures
        r matches Ok(s) ==> launch(words(args@)) == Ok::<ScanView, Rejection>(s@) && s@.wf(),
        r matches Err(e) ==> launch(words(args@)) == Err::<ScanView, Rejection>(e),
{
    match parse_args(args) {
        Err(e) => Err(Rejection::Usage(e)),
        Ok(request) => match Scan::new(&request) {
            Ok(scan) => Ok(scan),
            Err(e) => Err(Rejection::Network(e)),
        },
    }
}

/// A range whose last port is written out and lies before the first is
/// turned down as `InvalidRange`, whatever else the command line holds: no
/// scan begins, so nothing is probed.
pub proof fn lemma_inverted_range_begins_no_scan(args: Seq<Seq<char>>)
    requires
        tokens(args) is Ok,
        tokens(args)->Ok_0.end is Some,
        number(tokens(args)->Ok_0.start) is Some,
        number(tokens(args)->Ok_0.end->0) is Some,
        number(tokens(args)->Ok_0.start)->0 > number(tokens(args)->Ok_0.end->0)->0,
    ensures
        parse(args) == Err::<ScanRequestView, UsageError>(UsageError::InvalidRange),
        launch(args) == Err::<ScanView, Rejection>(Rejection::Usage(UsageError::InvalidRange)),
{
}

/// A command line that gives both an address and a network, neither of
/// them empty, is turned down: no scan begins, so nothing is probed.
pub proof fn lemma_address_with_network_begins_no_scan(args: Seq<Seq<char>>)
    requires
        tokens(args) is Ok,
        filled(tokens(args)->Ok_0.address),
        filled(tokens(args)->Ok_0.cidr),
    ensures
        parse(args) is Err,
        launch(args) matches Err(Rejection::Usage(_)),
{
}

/// Every scan that a command line begins is well formed and stands at the
/// first port of its first address, with no report given.
pub proof fn lemma_launch_is_wf(args: Seq<Seq<char>>)
    requires
        launch(args) is Ok,
    ensures
        launch(args)->Ok_0.wf(),
        launch(args)->Ok_0.done() == 0,
        launch(args)->Ok_0.phase is Probing,
{
    let q = parse(args)->Ok_0;
    lemma_parsed_request_is_wf(args);
    if q.mode == Mode::RemoteCheck && filled(q.cidr) {
        let (a, p) = cidr(q.cidr->0)->0;
        lemma_cidr_prefix(q.cidr->0);
        lemma_block_size(p);
        lemma_block_holds_its_address(a, p);
    }
    let s = launch(args)->Ok_0;
    assert(s.host * s.width() == 0) by (nonlinear_arith)
        requires
            s.host == 0,
    ;
}

/// Whether a report speaks of `port` at `address`. An attempt to free a
/// port has no address: it is made on this machine.
pub open spec fn concerns(r: ReportView, address: Option<Seq<char>>, port: u64) -> bool {
    match r {
        ReportView::Probe(p) => p.address == address && p.port == port,
        ReportView::Reclaim(r) => address is None && r.port == port,
    }
}

impl ScanView {
    /// The address of the report at place `k`, counted from 0: the
    /// addresses in order, each with all its ports.
    pub open spec fn address_at(self, k: nat) -> Option<Seq<char>> {
        self.hosts.address(k / self.width())
    }

    /// The port of the report at place `k`, counted from 0: for each
    /// address the ports from the first to the last.
    pub open spec fn port_at(self, k: nat) -> u64 {
        (self.first + k % self.width()) as u64
    }

    /// Whether two scans walk the same addresses and ports.
    pub open spec fn same_route(self, other: ScanView) -> bool {
        &&& self.mode == other.mode
        &&& self.hosts == other.hosts
        &&& self.first == other.first
        &&& self.last == other.last
    }
}

/// A scan that is not finished stands at the address and port of its next
/// report, and has given fewer reports than there are addresses and ports.
pub proof fn lemma_current_place(s: ScanView)
    requires
        s.wf(),
    ensures
        s.done() <= s.total(),
        s.phase is Finished <==> s.done() == s.total(),
        !(s.phase is Finished) ==> s.address_at(s.done()) == s.address() && s.port_at(s.done())
            == s.port,
{
    let w = s.width() as int;
    let h = s.host as int;
    let c = s.hosts.count() as int;
    let off = s.port - s.first;
    assert((h + 1) * w <= c * w) by (nonlinear_arith)
        requires
            h + 1 <= c,
            w >= 1,
    ;
    assert((h + 1) * w == h * w + w) by (nonlinear_arith);
    assert(h * w >= 0) by (nonlinear_arith)
        requires
            h >= 0,
            w >= 1,
    ;
    if !(s.phase is Finished) {
        lemma_fundamental_div_mod_converse(s.done() as int, w, h, off);
    }
}

/// Every port of every address has one place among the reports, and no
/// other place has the same address and port: the ports of an address run
/// from the first to the last, both of them included.
pub proof fn lemma_every_port_has_its_place(s: ScanView, h: nat, p: u64)
    requires
        s.wf(),
        h < s.hosts.count(),
        s.first <= p <= s.last,
    ensures
        ({
            let k = (h * s.width() + (p - s.first)) as nat;
            &&& k < s.total()
            &&& k / s.width() == h
            &&& s.address_at(k) == s.hosts.address(h)
            &&& s.port_at(k) == p
            &&& forall|j: nat| j / s.width() == h && #[trigger] s.port_at(j) == p ==> j == k
        }),
{
    let w = s.width() as int;
    let c = s.hosts.count() as int;
    let off = p - s.first;
    let k = h * w + off;
    assert((h + 1) * w <= c * w) by (nonlinear_arith)
        requires
            h + 1 <= c,
            w >= 1,
    ;
    assert((h + 1) * w == h * w + w) by (nonlinear_arith);
    assert(h * w >= 0) by (nonlinear_arith)
        requires
            h >= 0,
            w >= 1,
    ;
    lemma_fundamental_div_mod_converse(k, w, h as int, off);
    assert forall|j: nat| j / s.width() == h && #[trigger] s.port_at(j) == p implies j == k by {
        lemma_fundamental_div_mod(j as int, w);
        lemma_mod_bound(j as int, w);
        assert(w * (j as int / w) == h * w) by (nonlinear_arith)
            requires
                j as int / w == h,
        ;
    }
}

/// One report for each port: an event either brings the report of the
/// address and port that the scan stands at, and the scan counts one
/// more, or brings none, and the scan stays where it is.
pub proof fn lemma_one_report_per_port(s: ScanView, e: EventView)
    requires
        s.wf(),
    ensures
        s.after(e).wf(),
        s.after(e).same_route(s),
        match s.report(e) {
            Some(r) => !(s.phase is Finished) && concerns(r, s.address(), s.port) && s.after(
                e,
            ).done() == s.done() + 1,
            None => s.after(e).done() == s.done() && s.after(e).host == s.host && s.after(e).port
                == s.port,
        },
{
    let w = s.width() as int;
    let h = s.host as int;
    let c = s.hosts.count() as int;
    assert((h + 1) * w == h * w + w) by (nonlinear_arith);
    if s.report(e) is Some && !(s.port < s.last) && !(s.host + 1 < s.hosts.count()) {
        assert(c == h + 1);
    }
}

/// The scan and the reports after a run of events.
pub open spec fn run(s: ScanView, events: Seq<EventView>) -> (ScanView, Seq<ReportView>)
    decreases events.len(),
{
    if events.len() == 0 {
        (s, Seq::empty())
    } else {
        let (m, reports) = run(s, events.drop_last());
        (
            m.after(events.last()),
            match m.report(events.last()) {
                Some(r) => reports.push(r),
                None => reports,
            },
        )
    }
}

/// Whatever the events, a scan gives its reports in order, one for each
/// address and port and none twice: the reports of a run are those of the
/// places from where the scan stood to where it stands, and a finished scan
/// has given as many reports as there are addresses and ports.
pub proof fn lemma_reports_in_order(s: ScanView, events: Seq<EventView>)
    requires
        s.wf(),
    ensures
        ({
            let (t, reports) = run(s, events);
            &&& t.wf()
            &&& t.same_route(s)
            &&& s.done() + reports.len() == t.done()
            &&& t.done() <= s.total()
            &&& (t.phase is Finished <==> s.done() + reports.len() == s.total())
            &&& forall|i: int|
                0 <= i < reports.len() ==> concerns(
                    #[trigger] reports[i],
                    s.address_at((s.done() + i) as nat),
                    s.port_at((s.done() + i) as nat),
                )
        }),
    decreases events.len(),
{
    if events.len() == 0 {
        lemma_current_place(s);
    } else {
        let (m, before) = run(s, events.drop_last());
        lemma_reports_in_order(s, events.drop_last());
        lemma_one_report_per_port(m, events.last());
        lemma_current_place(m);
        lemma_current_place(m.after(events.last()));
    }
}

/// A signal goes only to a process that the listing of the current port
/// named: a scan comes to wait for a signal to `pid` only from a lookup
/// whose listing begins with `pid`.
pub proof fn lemma_signal_only_to_holder(s: ScanView, e: EventView)
    requires
        s.wf(),
    ensures
        match s.after(e).action() {
            ActionView::Kill { pid } => s.action() == (ActionView::Kill { pid }) || (s.phase
                is Locating && match e {
                EventView::Listing(Some(l)) => owner(as_text(l)) == Owner::Pid(pid),
                _ => false,
            }),
            _ => true,
        },
{
}

/// Freeing a port that no process holds: the report is `NotFound`, and the
/// scan goes on to the next port without asking for a signal.
pub proof fn lemma_no_holder_no_signal(s: ScanView, listing: Seq<u8>)
    requires
        s.wf(),
        s.phase is Locating,
        owner(as_text(listing)) is Nobody,
    ensures
        s.report(EventView::Listing(Some(listing))) == Some(
            ReportView::Reclaim(ReclaimResult { port: s.port, status: ReclaimStatus::NotFound }),
        ),
        !(s.after(EventView::Listing(Some(listing))).action() is Kill),
{
}

/// Freeing a port whose holder cannot be signalled: the report is
/// `FailedToKill`, and a later probe whose listing still shows a holder
/// finds the port busy.
pub proof fn lemma_undelivered_signal_fails(s: ScanView, later: Seq<u8>)
    requires
        s.wf(),
        s.phase is Killing,
    ensures
        s.report(EventView::Signalled(false)) == Some(
            ReportView::Reclaim(
                ReclaimResult {
                    port: s.port,
                    status: ReclaimStatus::FailedToKill(KillFailure::SignalFailed),
                },
            ),
        ),
        later.len() > 0 ==> holders_verdict(Some(later)) is Busy,
{
}

} // verus!
