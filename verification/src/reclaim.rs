//! Freeing a busy port: who holds it, and what became of the signal.

use crate::text::{as_text, bounded_number, decimal, parse_digits, push_decimal};
use vstd::prelude::*;
use vstd::string::*;

verus! {

/// Why a port could not be freed.
#[derive(Clone, Copy, Debug, PartialEq, Eq, Structural)]
pub enum KillFailure {
    /// The socket table could not be asked.
    LookupFailed,
    /// The socket table's answer does not begin with a process id.
    Unreadable,
    /// The signal could not be delivered.
    SignalFailed,
}

/// How an attempt to free a port ended.
#[derive(Clone, Copy, Debug, PartialEq, Eq, Structural)]
pub enum ReclaimStatus {
    Freed,
    NotFound,
    FailedToKill(KillFailure),
}

/// One attempt to free a port.
#[derive(Clone, Copy, Debug, PartialEq, Eq, Structural)]
pub struct ReclaimResult {
    pub port: u64,
    pub status: ReclaimStatus,
}

/// Who holds a port, as far as a listing tells.
#[derive(Clone, Copy, Debug, PartialEq, Eq, Structural)]
pub enum Owner {
    /// The listing holds nothing but white space.
    Nobody,
    /// The listing begins with this process id, which is not zero.
    Pid(u64),
    /// The listing begins with something else.
    Unreadable,
}

/// What follows the lookup of a port's owner.
#[derive(Clone, Copy, Debug, PartialEq, Eq, Structural)]
pub enum Lookup {
    /// Signal this process.
    Kill(u64),
    /// Give up with this result, and signal nobody.
    Done(ReclaimStatus),
}

/// Whether `c` is ASCII white space.
pub open spec fn is_space(c: char) -> bool {
    c == ' ' || '\t' <= c <= '\r'
}

/// How many characters at the start of `s` are white space (`space`) or are
/// not (`!space`).
pub open spec fn span(s: Seq<char>, space: bool) -> int
    decreases s.len(),
{
    if s.len() == 0 || is_space(s[0]) != space {
        0
    } else {
        1 + span(s.drop_first(), space)
    }
}

/// The first word of `s`: what stands between the white space at its start
/// and the next white space.
pub open spec fn first_word(s: Seq<char>) -> Seq<char> {
    let rest = s.skip(span(s, true));
    rest.take(span(rest, false))
}

/// Who holds the port, by the first word of the listing.
pub open spec fn owner(listing: Seq<char>) -> Owner {
    let word = first_word(listing);
    if word.len() == 0 {
        Owner::Nobody
    } else {
        match bounded_number(word, u64::MAX) {
            Some(pid) => if pid > 0 {
                Owner::Pid(pid)
            } else {
                Owner::Unreadable
            },
            None => Owner::Unreadable,
        }
    }
}

/// What to do once the socket table has answered: `None` stands for a
/// query that could not be run.
pub open spec fn after_lookup(listing: Option<Seq<u8>>) -> Lookup {
    match listing {
        None => Lookup::Done(ReclaimStatus::FailedToKill(KillFailure::LookupFailed)),
        Some(l) => match owner(as_text(l)) {
            Owner::Nobody => Lookup::Done(ReclaimStatus::NotFound),
            Owner::Unreadable => Lookup::Done(ReclaimStatus::FailedToKill(KillFailure::Unreadable)),
            Owner::Pid(pid) => Lookup::Kill(pid),
        },
    }
}

/// How the attempt ended, by whether the signal was delivered.
pub open spec fn after_signal(delivered: bool) -> ReclaimStatus {
    if delivered {
        ReclaimStatus::Freed
    } else {
        ReclaimStatus::FailedToKill(KillFailure::SignalFailed)
    }
}

/// The shell command that ends the process `pid` by force.
pub open spec fn signal_command(pid: u64) -> Seq<char> {
    "kill -9 "@ + decimal(pid as nat)
}

/// `span` is the length of the longest run at the start of `s`.
pub proof fn lemma_span(s: Seq<char>, space: bool)
    ensures
        0 <= span(s, space) <= s.len(),
        span(s, space) < s.len() ==> is_space(s[span(s, space)]) != space,
        forall|j: int| 0 <= j < span(s, space) ==> is_space(#[trigger] s[j]) == space,
    decreases s.len(),
{
    if s.len() == 0 || is_space(s[0]) != space {
    } else {
        let t = s.drop_first();
        lemma_span(t, space);
        assert forall|j: int| 0 <= j < span(s, space) implies is_space(#[trigger] s[j])
            == space by {
            if j > 0 {
                assert(s[j] == t[j - 1]);
            }
        }
    }
}

/// A run that ends at `k`, or at the end of `s`, has length `k`.
pub proof fn lemma_span_is(s: Seq<char>, space: bool, k: int)
    requires
        0 <= k <= s.len(),
        k < s.len() ==> is_space(s[k]) != space,
        forall|j: int| 0 <= j < k ==> is_space(#[trigger] s[j]) == space,
    ensures
        span(s, space) == k,
{
    lemma_span(s, space);
    let p = span(s, space);
    if p < k {
        assert(is_space(s[p]) == space);
    } else if p > k {
        assert(is_space(s[k]) == space);
    }
}

fn is_space_byte(b: u8) -> (r: bool)
    ensures
        r == is_space(b as char),
{
    b == 32 || (9 <= b && b <= 13)
}

/// The end of the run of white space, or of anything else, that starts at
/// `from`.
fn skip_run(bytes: &[u8], from: usize, space: bool) -> (r: usize)
    requires
        from <= bytes@.len(),
    ensures
        from <= r <= bytes@.len(),
        r - from == span(as_text(bytes@).skip(from as int), space),
{
    let ghost s = as_text(bytes@).skip(from as int);
    let n: usize = bytes.len();
    let mut i: usize = from;
    while i < n && is_space_byte(bytes[i]) == space
        invariant
            from <= i <= n == bytes@.len(),
            s == as_text(bytes@).skip(from as int),
            forall|j: int| 0 <= j < i - from ==> is_space(#[trigger] s[j]) == space,
        decreases n - i,
    {
        assert(s[i - from] == bytes@[i as int] as char);
        i += 1;
    }
    proof {
        if i < n {
            assert(s[i - from] == bytes@[i as int] as char);
        }
        lemma_span_is(s, space, i - from);
    }
    i
}

/// Reads who holds a port from the output of the command that lists its
/// holders.
pub fn read_owner(listing: &[u8]) -> (r: Owner)
    ensures
        r == owner(as_text(listing@)),
{
    let ghost s = as_text(listing@);
    assert(s.skip(0) =~= s);
    let from = skip_run(listing, 0, true);
    let to = skip_run(listing, from, false);
    assert(first_word(s) =~= s.subrange(from as int, to as int));
    if from == to {
        return Owner::Nobody;
    }
    match parse_digits(listing, from, to, u64::MAX) {
        Some(pid) => if pid > 0 {
            Owner::Pid(pid)
        } else {
            Owner::Unreadable
        },
        None => Owner::Unreadable,
    }
}

/// Decides what follows the lookup of a port's owner. A listing without a
/// process ends the attempt as `NotFound`: nobody is signalled.
pub fn decide_lookup(listing: &Option<Vec<u8>>) -> (r: Lookup)
    ensures
        r == after_lookup(crate::probe::bytes_of(*listing)),
        r matches Lookup::Kill(pid) ==> pid > 0,
{
    match listing {
        None => Lookup::Done(ReclaimStatus::FailedToKill(KillFailure::LookupFailed)),
        Some(l) => match read_owner(l.as_slice()) {
            Owner::Nobody => Lookup::Done(ReclaimStatus::NotFound),
            Owner::Unreadable => Lookup::Done(ReclaimStatus::FailedToKill(KillFailure::Unreadable)),
            Owner::Pid(pid) => Lookup::Kill(pid),
        },
    }
}

/// Decides how the attempt ended once the signal was sent.
pub fn decide_signal(delivered: bool) -> (r: ReclaimStatus)
    ensures
        r == after_signal(delivered),
{
    if delivered {
        ReclaimStatus::Freed
    } else {
        ReclaimStatus::FailedToKill(KillFailure::SignalFailed)
    }
}

/// Writes the command that ends the process `pid` by force.
pub fn kill_command(pid: u64) -> (r: String)
    ensures
        r@ == signal_command(pid),
{
    let mut out = String::from_str("kill -9 ");
    push_decimal(&mut out, pid);
    out
}

} // verus!
