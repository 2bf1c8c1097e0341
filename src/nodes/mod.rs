//! The four kinds of node, and what they share: a schedule and the links
//! that consume their output.
use crate::protocol::{State, Timestamp};
use crate::schedule::{advance_schedule, settle};
use crate::text::{clone_texts, distinct, insert_text, remove_text, texts, without_text};
use vstd::prelude::*;

pub mod destination;
pub mod mixer;
pub mod source;
pub mod video_generator;

verus! {

/// A node's wall-clock schedule, its state and its last error. A node that
/// was never given a schedule stays where it is.
#[derive(Debug, Clone)]
pub struct Timing {
    pub cue_time: Option<Timestamp>,
    pub end_time: Option<Timestamp>,
    pub state: State,
    pub last_error: Option<String>,
    pub scheduled: bool,
}

impl Timing {
    pub open spec fn new_spec() -> Timing {
        Timing { cue_time: None, end_time: None, state: State::Initial, last_error: None, scheduled: false }
    }

    /// The state reached at `now` by a node that was given a schedule.
    #[verifier::opaque]
    pub open spec fn advanced(&self, now: int, lead: bool) -> State {
        if self.scheduled {
            settle(self.state, self.cue_time, self.end_time, now, lead)
        } else {
            self.state
        }
    }

    pub fn new() -> (r: Timing)
        ensures
            r == Timing::new_spec(),
    {
        Timing { cue_time: None, end_time: None, state: State::Initial, last_error: None, scheduled: false }
    }

    /// Sets new times, clears the last error, starts again from `Initial`,
    /// and takes the transitions due at `now`.
    pub fn reschedule(&mut self, cue_time: Option<Timestamp>, end_time: Option<Timestamp>, now: Timestamp, lead: bool)
        ensures
            final(self).cue_time == cue_time,
            final(self).end_time == end_time,
            final(self).last_error is None,
            final(self).scheduled,
            final(self).state == settle(State::Initial, cue_time, end_time, now as int, lead),
    {
        self.scheduled = true;
        self.cue_time = cue_time;
        self.end_time = end_time;
        self.last_error = None;
        self.state = advance_schedule(State::Initial, cue_time, end_time, now, lead);
    }

    /// Takes the transitions due at `now`.
    pub fn refresh(&mut self, now: Timestamp, lead: bool)
        ensures
            final(self).cue_time == old(self).cue_time,
            final(self).end_time == old(self).end_time,
            final(self).last_error == old(self).last_error,
            final(self).scheduled == old(self).scheduled,
            final(self).state == old(self).advanced(now as int, lead),
    {
        if self.scheduled {
            self.state = advance_schedule(self.state, self.cue_time, self.end_time, now, lead);
        }
        proof {
            reveal(Timing::advanced);
        }
    }

    pub fn stop(&mut self)
        ensures
            final(self).cue_time == old(self).cue_time,
            final(self).end_time == old(self).end_time,
            final(self).last_error == old(self).last_error,
            final(self).state == State::Stopped,
    {
        self.state = State::Stopped;
    }

    /// Records an error; the state stays as it is.
    pub fn mark_error(&mut self, message: String)
        ensures
            final(self).cue_time == old(self).cue_time,
            final(self).end_time == old(self).end_time,
            final(self).state == old(self).state,
            final(self).scheduled == old(self).scheduled,
            final(self).last_error == Some(message),
    {
        self.last_error = Some(message);
    }
}

/// The links that consume a producer's audio and video, each list without
/// repeats, in the order they were added.
#[derive(Debug, Clone)]
pub struct Consumers {
    pub audio: Vec<String>,
    pub video: Vec<String>,
}

impl Consumers {
    pub open spec fn wf(&self) -> bool {
        distinct(texts(self.audio@)) && distinct(texts(self.video@))
    }

    pub fn new() -> (r: Consumers)
        ensures
            r.audio@.len() == 0,
            r.video@.len() == 0,
            r.wf(),
    {
        Consumers { audio: Vec::new(), video: Vec::new() }
    }

    /// Records `link_id` as a consumer of each medium it carries.
    pub fn add(&mut self, link_id: &String, audio: bool, video: bool)
        requires
            old(self).wf(),
        ensures
            final(self).wf(),
            texts(final(self).audio@) == if audio && !texts(old(self).audio@).contains(link_id@) {
                texts(old(self).audio@).push(link_id@)
            } else {
                texts(old(self).audio@)
            },
            texts(final(self).video@) == if video && !texts(old(self).video@).contains(link_id@) {
                texts(old(self).video@).push(link_id@)
            } else {
                texts(old(self).video@)
            },
    {
        if audio {
            insert_text(&mut self.audio, link_id);
        }
        if video {
            insert_text(&mut self.video, link_id);
        }
    }

    /// Forgets `link_id` for both media.
    pub fn remove(&mut self, link_id: &String)
        requires
            old(self).wf(),
        ensures
            final(self).wf(),
            texts(final(self).audio@) == without_text(texts(old(self).audio@), link_id@),
            texts(final(self).video@) == without_text(texts(old(self).video@), link_id@),
    {
        remove_text(&mut self.audio, link_id);
        remove_text(&mut self.video, link_id);
    }

    /// Copies of the two lists, video first.
    pub fn snapshot(&self) -> (r: (Vec<String>, Vec<String>))
        ensures
            r.0@ == self.video@,
            r.1@ == self.audio@,
    {
        (clone_texts(&self.video), clone_texts(&self.audio))
    }
}

} // verus!
