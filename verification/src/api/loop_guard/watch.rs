//! One attempt at a stream. The caller hands in what comes, and is told when
//! the attempt is over.
use vstd::prelude::*;

use crate::api::loop_guard::session::{Look, Outcome, StreamSession};
use crate::api::loop_guard::sse::{last_events, take_bytes, EventParser, Gathered};
use crate::config::perf::Timings;
use crate::config::settings::StreamingLoopAction;

verus! {

/// What comes while an answer is watched.
#[derive(Debug)]
pub enum StreamEvent {
    /// A piece of the answer, which was passed on to the client.
    Piece(Vec<u8>),
    /// The answer has ended.
    End,
    /// Nothing came for too long.
    TimedOut,
    /// The answer broke off.
    Failed,
    /// The client takes no more.
    ClientGone,
    /// It is time to look for a loop.
    Tick,
}

/// What follows from what came.
#[derive(Debug)]
pub enum Seen {
    /// The attempt goes on.
    GoOn,
    /// The attempt goes on, and a loop is to be noted.
    Note { choice_index: i64, period: usize },
    /// The attempt is over. The snippet is what a loop repeats.
    Over { outcome: Outcome, snippet: Vec<u8> },
}

/// An attempt that is watched.
pub struct Watch {
    pub parser: EventParser,
    /// Whether a loop was noted in this attempt.
    pub noted: bool,
}

impl Watch {
    /// Begins to watch an answer. Only one that is in order is watched.
    pub fn begin(status: u16) -> (r: Option<Watch>)
        ensures
            r is Some == (status == 200),
            r matches Some(w) ==> {
                &&& w.parser@ == (Gathered { event: Seq::empty(), line: Seq::empty() })
                &&& !w.noted
            },
    {
        if status == 200 {
            Some(Watch { parser: EventParser::new(), noted: false })
        } else {
            None
        }
    }
}

/// Whether an attempt is over, and how.
pub open spec fn over(s: Seen, outcome: Outcome) -> bool {
    s matches Seen::Over { outcome: o, snippet } && o == outcome && snippet@.len() == 0
}

impl StreamSession {
    /// Whether `s` is what a look for a loop leads to.
    pub open spec fn looks(&self, noted: bool, s: Seen) -> bool {
        match s {
            Seen::GoOn => (noted && self.cfg.action == StreamingLoopAction::Log)
                || self.no_loops(),
            Seen::Note { choice_index, period } => {
                &&& !noted
                &&& self.cfg.action == StreamingLoopAction::Log
                &&& self.has_loop(choice_index, period as int)
            },
            Seen::Over { outcome, snippet } => {
                &&& self.cfg.action != StreamingLoopAction::Log
                &&& outcome matches Outcome::LoopDetected { choice_index, period }
                &&& self.has_loop(choice_index, period as int)
                &&& snippet@ == self.snippet_of(choice_index, period as int, 256)
            },
        }
    }

    /// Takes in what came, and says whether the attempt goes on. The throughput
    /// is returned that was reported with it, the first time that one is.
    pub fn watch(&mut self, w: &mut Watch, e: StreamEvent) -> (r: (Option<Timings>, Seen))
        requires
            old(self).wf(),
        ensures
            final(self).wf(),
            match e {
                StreamEvent::Piece(p) => {
                    let (after, events) = take_bytes(old(w).parser@, p@);
                    &&& old(self).hears(final(self), events, r.0)
                    &&& final(w).parser@ == after
                    &&& final(w).noted == old(w).noted
                    &&& r.1 is GoOn
                },
                StreamEvent::End => {
                    &&& old(self).hears(final(self), last_events(old(w).parser@), r.0)
                    &&& over(r.1, Outcome::FinishedNaturally)
                },
                StreamEvent::TimedOut => {
                    &&& *final(self) == *old(self)
                    &&& r.0 is None
                    &&& over(r.1, Outcome::IdleTimeout)
                },
                StreamEvent::Failed => {
                    &&& *final(self) == *old(self)
                    &&& r.0 is None
                    &&& over(r.1, Outcome::UpstreamError)
                },
                StreamEvent::ClientGone => {
                    &&& *final(self) == *old(self)
                    &&& r.0 is None
                    &&& over(r.1, Outcome::ClientDisconnected)
                },
                StreamEvent::Tick => {
                    &&& *final(self) == *old(self)
                    &&& r.0 is None
                    &&& old(self).looks(old(w).noted, r.1)
                    &&& final(w).parser == old(w).parser
                    &&& final(w).noted == (old(w).noted || r.1 is Note)
                },
            },
    {
        match e {
            StreamEvent::Piece(p) => {
                let t = self.take_in(&mut w.parser, p.as_slice());
                (t, Seen::GoOn)
            },
            StreamEvent::End => {
                let events = w.parser.finish();
                let t = self.feed_events(&events);
                (t, Seen::Over { outcome: Outcome::FinishedNaturally, snippet: Vec::new() })
            },
            StreamEvent::TimedOut => (
                None,
                Seen::Over { outcome: Outcome::IdleTimeout, snippet: Vec::new() },
            ),
            StreamEvent::Failed => (
                None,
                Seen::Over { outcome: Outcome::UpstreamError, snippet: Vec::new() },
            ),
            StreamEvent::ClientGone => (
                None,
                Seen::Over { outcome: Outcome::ClientDisconnected, snippet: Vec::new() },
            ),
            StreamEvent::Tick => match self.look(w.noted) {
                Look::Quiet => (None, Seen::GoOn),
                Look::Note { choice_index, period } => {
                    w.noted = true;
                    (None, Seen::Note { choice_index, period })
                },
                Look::Loop { choice_index, period, snippet } => (
                    None,
                    Seen::Over {
                        outcome: Outcome::LoopDetected { choice_index, period },
                        snippet,
                    },
                ),
            },
        }
    }
}

// ----- laws -----

/// Where loops end an attempt, an attempt with a loop does not go on past a
/// look.
pub proof fn law_a_loop_is_not_passed_over(s: &StreamSession, i: i64, p: int, r: Seen)
    requires
        s.cfg.action != StreamingLoopAction::Log,
        s.has_loop(i, p),
        s.looks(false, r) || s.looks(true, r),
    ensures
        r is Over,
{
    if r is GoOn {
        assert(s.no_loops());
    }
}

} // verus!
