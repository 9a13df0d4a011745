//! Keeping a listener up: how often it may be started, and how long to wait
//! before starting it again.
//!
//! Each listener has its own supervisor, so one listener that keeps failing
//! does not touch the others. When its starts are used up it stays down.

use crate::error::ListenerError;
use vstd::prelude::*;

verus! {

/// How often a listener is started when nothing else is configured.
pub const DEFAULT_STARTS: u32 = 5;

/// The seconds to wait before a listener is started again.
pub const DEFAULT_BACKOFF_SECS: u64 = 5;

/// How a listener's run ended.
#[derive(Clone, Copy, Debug, PartialEq, Eq, Structural)]
pub enum ListenerExit {
    /// The listener shut down in good order.
    Graceful,
    /// The listener could not bind, or its accept loop broke.
    Failed(ListenerError),
}

/// What to do about a listener that has stopped.
#[derive(Clone, Copy, Debug, PartialEq, Eq, Structural)]
pub enum SupervisorAction {
    /// Start the listener again after so many seconds.
    Restart { after_secs: u64 },
    /// Leave it: it shut down in good order.
    Finished,
    /// Leave it: it has used up its starts, and stays down.
    GaveUp,
}

/// The restart policy of one listener.
#[derive(Clone, Copy, Debug, PartialEq, Eq, Structural)]
pub struct Supervisor {
    /// The starts that are left, the run in progress counted.
    pub remaining: u32,
    /// The seconds to wait before a restart.
    pub backoff_secs: u64,
}

/// What the supervisor decides when a listener stops, and the starts left then.
pub open spec fn decide(supervisor: Supervisor, exit: ListenerExit) -> (
    Supervisor,
    SupervisorAction,
) {
    match exit {
        ListenerExit::Graceful => (supervisor, SupervisorAction::Finished),
        ListenerExit::Failed(_) => if supervisor.remaining <= 1 {
            (
                Supervisor { remaining: 0, backoff_secs: supervisor.backoff_secs },
                SupervisorAction::GaveUp,
            )
        } else {
            (
                Supervisor {
                    remaining: (supervisor.remaining - 1) as u32,
                    backoff_secs: supervisor.backoff_secs,
                },
                SupervisorAction::Restart { after_secs: supervisor.backoff_secs },
            )
        },
    }
}

/// The number of restarts that a run of exits leads to, up to the first exit
/// after which the listener is left alone.
pub open spec fn restarts(supervisor: Supervisor, exits: Seq<ListenerExit>) -> nat
    decreases exits.len(),
{
    if exits.len() == 0 {
        0
    } else {
        let (next, action) = decide(supervisor, exits[0]);
        if action is Restart {
            1 + restarts(next, exits.skip(1))
        } else {
            0
        }
    }
}

impl Default for Supervisor {
    fn default() -> (supervisor: Self)
        ensures
            supervisor == (Supervisor {
                remaining: DEFAULT_STARTS,
                backoff_secs: DEFAULT_BACKOFF_SECS,
            }),
    {
        Supervisor { remaining: DEFAULT_STARTS, backoff_secs: DEFAULT_BACKOFF_SECS }
    }
}

impl Supervisor {
    /// A supervisor for a listener that may be started `starts` times, with
    /// `backoff_secs` seconds between a failure and the next start.
    pub fn new(starts: u32, backoff_secs: u64) -> (supervisor: Self)
        ensures
            supervisor == (Supervisor { remaining: starts, backoff_secs }),
    {
        Supervisor { remaining: starts, backoff_secs }
    }

    /// Decide what to do about the listener, which has stopped.
    pub fn on_exit(&mut self, exit: ListenerExit) -> (action: SupervisorAction)
        ensures
            (*final(self), action) == decide(*old(self), exit),
    {
        match exit {
            ListenerExit::Graceful => SupervisorAction::Finished,
            ListenerExit::Failed(_) => {
                // don't restart if failed too often
                if self.remaining <= 1 {
                    self.remaining = 0;
                    SupervisorAction::GaveUp
                } else {
                    self.remaining = self.remaining - 1;
                    SupervisorAction::Restart { after_secs: self.backoff_secs }
                }
            },
        }
    }
}

/// A listener is not restarted for ever: whatever way its runs end, it is
/// restarted fewer times than it has starts.
pub proof fn lemma_restarts_bounded(supervisor: Supervisor, exits: Seq<ListenerExit>)
    ensures
        supervisor.remaining >= 1 ==> restarts(supervisor, exits) < supervisor.remaining,
        supervisor.remaining == 0 ==> restarts(supervisor, exits) == 0,
    decreases exits.len(),
{
    if exits.len() > 0 {
        let (next, action) = decide(supervisor, exits[0]);
        lemma_restarts_bounded(next, exits.skip(1));
    }
}

} // verus!
