//! Probe outcomes and their classification.
//!
//! A single probe resolves a host/port pair and then tries the resolved
//! addresses one after another. Each connection attempt yields a
//! [`ConnectOutcome`]; the classification rules below fold a sequence of
//! such outcomes into the port's final [`Status`].

use vstd::prelude::*;

verus! {

/// The final classification of one port.
pub enum Status {
    /// A connection attempt succeeded.
    Open,
    /// A connection attempt was actively refused.
    Closed,
    /// Every candidate address was exhausted without a conclusive outcome.
    FilteredOrUnreachable,
    /// Address resolution failed; the message describes the failure.
    Error(String),
}

/// One port's final result: produced exactly once per port by a probe,
/// consumed exactly once by the order-restoring sink.
pub struct ProbeResult {
    pub port: u16,
    pub status: Status,
}

/// What a single bounded connection attempt to one address produced.
pub enum ConnectOutcome {
    /// The connection was established.
    Connected,
    /// The connection was actively refused.
    Refused,
    /// The attempt exceeded its timeout budget.
    TimedOut,
    /// Any other transport-level failure on this address.
    OtherError,
}

/// The decision taken after one connection attempt: a conclusive
/// classification, or `None` to move on to the next candidate address.
pub open spec fn spec_step_decision(o: ConnectOutcome) -> Option<Status> {
    match o {
        ConnectOutcome::Connected => Some(Status::Open),
        ConnectOutcome::Refused => Some(Status::Closed),
        ConnectOutcome::TimedOut => None,
        ConnectOutcome::OtherError => None,
    }
}

/// The classification of a whole sequence of per-address outcomes:
/// the first conclusive outcome decides; if none is conclusive the port
/// is filtered or unreachable.
pub open spec fn spec_classify(outcomes: Seq<ConnectOutcome>) -> Status
    decreases outcomes.len(),
{
    if outcomes.len() == 0 {
        Status::FilteredOrUnreachable
    } else {
        match spec_step_decision(outcomes[0]) {
            Some(s) => s,
            None => spec_classify(outcomes.drop_first()),
        }
    }
}

/// The text a status is printed as: `open`, `closed`,
/// `filtered or unreachable`, or `error: ` followed by the resolver's
/// failure description.
pub open spec fn spec_status_text(s: Status) -> Seq<char> {
    match s {
        Status::Open => "open"@,
        Status::Closed => "closed"@,
        Status::FilteredOrUnreachable => "filtered or unreachable"@,
        Status::Error(m) => "error: "@ + m@,
    }
}

impl Status {
    /// Whether this status is `Open`.
    pub fn is_open(&self) -> (r: bool)
        ensures
            r == (*self is Open),
    {
        match self {
            Status::Open => true,
            _ => false,
        }
    }

    /// The status text, exactly as it appears in an output line.
    pub fn text(&self) -> (r: String)
        ensures
            r@ == spec_status_text(*self),
    {
        match self {
            Status::Open => String::from_str("open"),
            Status::Closed => String::from_str("closed"),
            Status::FilteredOrUnreachable => String::from_str("filtered or unreachable"),
            Status::Error(m) => {
                let mut t = String::from_str("error: ");
                t.append(m.as_str());
                t
            },
        }
    }
}

/// The decision for one connection attempt, to be made between attempts:
/// `Some` classifies the port conclusively, `None` asks for the next
/// candidate address.
pub fn classify_step(o: &ConnectOutcome) -> (r: Option<Status>)
    ensures
        r == spec_step_decision(*o),
{
    match o {
        ConnectOutcome::Connected => Some(Status::Open),
        ConnectOutcome::Refused => Some(Status::Closed),
        ConnectOutcome::TimedOut => None,
        ConnectOutcome::OtherError => None,
    }
}

/// Classifies a full sequence of per-address outcomes, stopping at the
/// first conclusive one.
pub fn classify_outcomes(outcomes: &Vec<ConnectOutcome>) -> (r: Status)
    ensures
        r == spec_classify(outcomes@),
{
    let mut i: usize = 0;
    proof {
        assert(outcomes@.skip(0) =~= outcomes@);
    }
    while i < outcomes.len()
        invariant
            0 <= i <= outcomes@.len(),
            spec_classify(outcomes@) == spec_classify(outcomes@.skip(i as int)),
        decreases outcomes@.len() - i,
    {
        proof {
            assert(outcomes@.skip(i as int)[0] == outcomes@[i as int]);
            assert(outcomes@.skip(i as int).drop_first() =~= outcomes@.skip(i as int + 1));
        }
        match classify_step(&outcomes[i]) {
            Some(s) => {
                return s;
            },
            None => {
                i = i + 1;
            },
        }
    }
    proof {
        assert(outcomes@.skip(i as int).len() == 0);
    }
    Status::FilteredOrUnreachable
}

} // verus!
