//! The wall-clock state machine that every node follows.
use crate::protocol::{State, Timestamp};
use vstd::prelude::*;

verus! {

/// How long before its cue a source, mixer or video generator starts to
/// preroll, in milliseconds.
pub const PREROLL_LEAD_MS: i64 = 10000;

/// Position of a state along the lifecycle.
pub open spec fn rank(s: State) -> int {
    match s {
        State::Initial => 0,
        State::Starting => 1,
        State::Started => 2,
        State::Stopping => 3,
        State::Stopped => 4,
    }
}

/// The transition due at `now`, if any. With `lead`, a node enters `Starting`
/// once `now` reaches `cue` less the preroll lead and `Started` at `cue`;
/// without it (destinations), it enters `Starting` at `cue` and `Started` on
/// the next step.
pub open spec fn transition_spec(s: State, cue: Option<Timestamp>, end: Option<Timestamp>, now: int, lead: bool) -> Option<State> {
    match s {
        State::Initial => {
            if lead {
                match cue {
                    Some(c) => if now >= c - PREROLL_LEAD_MS { Some(State::Starting) } else { None },
                    None => Some(State::Started),
                }
            } else {
                match cue {
                    Some(c) => if now >= c { Some(State::Starting) } else { None },
                    None => Some(State::Starting),
                }
            }
        },
        State::Starting => {
            if lead {
                match cue {
                    Some(c) => if now >= c { Some(State::Started) } else { None },
                    None => Some(State::Started),
                }
            } else {
                Some(State::Started)
            }
        },
        State::Started => match end {
            Some(e) => if now >= e { Some(State::Stopping) } else { None },
            None => None,
        },
        State::Stopping => Some(State::Stopped),
        State::Stopped => None,
    }
}

/// The state reached at `now` once no transition is due.
pub open spec fn settle(s: State, cue: Option<Timestamp>, end: Option<Timestamp>, now: int, lead: bool) -> State
    decreases 4 - rank(s),
{
    match transition_spec(s, cue, end, now, lead) {
        Some(n) => if rank(n) > rank(s) { settle(n, cue, end, now, lead) } else { s },
        None => s,
    }
}

/// The transition due at `now`, if any.
pub fn schedule_transition_due(s: State, cue: Option<Timestamp>, end: Option<Timestamp>, now: Timestamp, lead: bool) -> (r: Option<State>)
    ensures
        r == transition_spec(s, cue, end, now as int, lead),
{
    match s {
        State::Initial => {
            match cue {
                Some(c) => {
                    let at: i128 = if lead { c as i128 - PREROLL_LEAD_MS as i128 } else { c as i128 };
                    if now as i128 >= at {
                        Some(State::Starting)
                    } else {
                        None
                    }
                },
                None => if lead { Some(State::Started) } else { Some(State::Starting) },
            }
        },
        State::Starting => {
            match cue {
                Some(c) => if !lead || now >= c { Some(State::Started) } else { None },
                None => Some(State::Started),
            }
        },
        State::Started => match end {
            Some(e) => if now >= e { Some(State::Stopping) } else { None },
            None => None,
        },
        State::Stopping => Some(State::Stopped),
        State::Stopped => None,
    }
}

/// Takes every transition due at `now`, until none is.
pub fn advance_schedule(s: State, cue: Option<Timestamp>, end: Option<Timestamp>, now: Timestamp, lead: bool) -> (r: State)
    ensures
        r == settle(s, cue, end, now as int, lead),
{
    let mut state = s;
    loop
        invariant
            settle(state, cue, end, now as int, lead) == settle(s, cue, end, now as int, lead),
        decreases 4 - rank(state),
    {
        proof {
            law_transition_advances(state, cue, end, now as int, lead);
        }
        match schedule_transition_due(state, cue, end, now, lead) {
            Some(next) => {
                state = next;
            },
            None => {
                return state;
            },
        }
    }
}

/// Every transition moves one step along the lifecycle, except that a node
/// without a cue and with a preroll lead goes from `Initial` to `Started`.
pub proof fn law_transition_advances(s: State, cue: Option<Timestamp>, end: Option<Timestamp>, now: int, lead: bool)
    ensures
        transition_spec(s, cue, end, now, lead) matches Some(n) ==> (rank(n) == rank(s) + 1 || (s == State::Initial && n == State::Started)),
{
}

/// Settling never moves a node backwards.
pub proof fn law_settle_forward(s: State, cue: Option<Timestamp>, end: Option<Timestamp>, now: int, lead: bool)
    ensures
        rank(settle(s, cue, end, now, lead)) >= rank(s),
        transition_spec(settle(s, cue, end, now, lead), cue, end, now, lead) is None,
    decreases 4 - rank(s),
{
    match transition_spec(s, cue, end, now, lead) {
        Some(n) => law_settle_forward(n, cue, end, now, lead),
        None => {},
    }
}

proof fn lemma_due_stays_due(s: State, cue: Option<Timestamp>, end: Option<Timestamp>, t1: int, t2: int, lead: bool)
    requires
        t1 <= t2,
    ensures
        transition_spec(s, cue, end, t1, lead) matches Some(n) ==> transition_spec(s, cue, end, t2, lead) == Some(n),
{
}

/// Settling at an earlier instant and then at a later one reaches the same
/// state as settling at the later one directly: the states visited under a
/// clock that moves forward do not depend on when the node was refreshed.
pub proof fn law_settle_deterministic(s: State, cue: Option<Timestamp>, end: Option<Timestamp>, t1: int, t2: int, lead: bool)
    requires
        t1 <= t2,
    ensures
        settle(settle(s, cue, end, t1, lead), cue, end, t2, lead) == settle(s, cue, end, t2, lead),
        rank(settle(s, cue, end, t1, lead)) <= rank(settle(s, cue, end, t2, lead)),
    decreases 4 - rank(s),
{
    lemma_due_stays_due(s, cue, end, t1, t2, lead);
    match transition_spec(s, cue, end, t1, lead) {
        Some(n) => {
            law_settle_deterministic(n, cue, end, t1, t2, lead);
        },
        None => {
            law_settle_forward(s, cue, end, t2, lead);
        },
    }
}

/// A node with a preroll lead and a cue, fresh from `Initial`, waits until
/// the lead window opens, prerolls inside it, and plays from the cue on.
pub proof fn law_preroll_lead(cue: Timestamp, end: Option<Timestamp>, now: int)
    requires
        end matches Some(e) ==> now < e,
    ensures
        now < cue - PREROLL_LEAD_MS ==> settle(State::Initial, Some(cue), end, now, true) == State::Initial,
        cue - PREROLL_LEAD_MS <= now < cue ==> settle(State::Initial, Some(cue), end, now, true) == State::Starting,
        cue <= now ==> settle(State::Initial, Some(cue), end, now, true) == State::Started,
{
    let c = Some(cue);
    if cue - PREROLL_LEAD_MS <= now {
        assert(transition_spec(State::Initial, c, end, now, true) == Some(State::Starting));
        if now < cue {
            assert(settle(State::Starting, c, end, now, true) == State::Starting);
        } else {
            assert(settle(State::Started, c, end, now, true) == State::Started);
            assert(settle(State::Starting, c, end, now, true) == State::Started);
        }
    }
}

/// A destination has no lead: from `Initial` it waits for its cue and then
/// plays.
pub proof fn law_destination_no_lead(cue: Timestamp, end: Option<Timestamp>, now: int)
    requires
        end matches Some(e) ==> now < e,
    ensures
        now < cue ==> settle(State::Initial, Some(cue), end, now, false) == State::Initial,
        cue <= now ==> settle(State::Initial, Some(cue), end, now, false) == State::Started,
{
    let c = Some(cue);
    if cue <= now {
        assert(settle(State::Started, c, end, now, false) == State::Started);
        assert(settle(State::Starting, c, end, now, false) == State::Started);
    }
}

} // verus!
