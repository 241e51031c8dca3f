//! The run plan of the relay: a state machine from configuration and
//! events to the next outside action.
//!
//! The surrounding binary owns the clock, the network and the chain; it
//! performs each [`Action`] the machine hands out and feeds the outcome
//! back as an [`Event`]. Every decision of a run — whether and how long to
//! sleep, whether to claim a task slot, which provider to query, what to
//! submit, when to stop and with what exit status — is made here.

use vstd::prelude::*;

verus! {

use rand::Rng;
use crate::errors::OracleError;
use crate::quotes::{RaceAndCompleteRes, CompleteRes};
use crate::selector::{select, select_spec, Provider};
use crate::submit::{submission_request, contract_address_bytes, TxRequest};

/// What a run was invoked with.
#[derive(Clone, Copy, Debug, PartialEq, Eq, Structural)]
pub struct RunConfig {
    /// Upper bound, in whole seconds, for the uniform-random startup
    /// sleep; absent or zero means no sleep.
    pub delay: Option<u64>,
    /// The slot key for the task-coordination service.
    pub task_id: Option<u64>,
    /// Whether the optional task-coordination hooks are wired in.
    pub coordination: bool,
}

/// Where a run stands.
#[derive(Clone, Copy, Debug, PartialEq, Eq, Structural)]
pub enum Phase {
    /// Nothing has happened yet.
    Boot,
    /// The startup sleep is in progress.
    Sleeping,
    /// The claim call to the coordination service is in flight.
    Claiming,
    /// Waiting for the clock reading.
    AwaitClock,
    /// The selected provider is being fetched.
    Fetching,
    /// The signed call is being submitted.
    Submitting,
    /// The completion report to the coordination service is in flight.
    Notifying,
    /// The run is over; `ok` is its exit status.
    Stopped { ok: bool },
}

/// What the machine asks the outside to do next.
pub enum Action {
    /// Sleep for the given number of seconds.
    Sleep { secs: u64 },
    /// Ask the coordination service to claim the task slot.
    Claim { task_id: u64 },
    /// Read the current epoch milliseconds.
    ReadClock,
    /// Fetch and extract a price from the given provider.
    FetchQuote { provider: Provider },
    /// Sign and submit the given call, waiting for its confirmations.
    SubmitPrice { request: TxRequest },
    /// Report completion to the coordination service.
    NotifyComplete { task_id: u64 },
    /// Exit, successfully or not.
    Stop { exit_ok: bool },
}

/// What the outside reports back.
pub enum Event {
    /// The run begins.
    Started,
    /// The startup sleep finished.
    Slept,
    /// The coordination service answered the claim call.
    ClaimReply { reply: RaceAndCompleteRes },
    /// The clock reading, in epoch milliseconds.
    Clock { now_millis: u128 },
    /// The provider yielded a normalized price.
    QuoteReady { price: u64 },
    /// The fetch or the extraction failed.
    QuoteFailed { error: OracleError },
    /// The submission confirmed.
    Submitted,
    /// The submission failed.
    SubmitFailed { error: OracleError },
    /// The coordination service answered the completion report.
    NotifyReply { outcome: CompleteRes },
}

/// The startup-sleep bound the configuration asks for.
pub open spec fn delay_bound(cfg: RunConfig) -> u64 {
    match cfg.delay {
        Some(d) => d,
        None => 0,
    }
}

/// The task id handed to the coordination service; absent means zero.
pub open spec fn task_id_of(cfg: RunConfig) -> u64 {
    match cfg.task_id {
        Some(t) => t,
        None => 0,
    }
}

/// The first action after the startup sleep: claim the task slot when
/// coordination is wired in, otherwise read the clock.
pub open spec fn start_action(cfg: RunConfig) -> Action {
    if cfg.coordination {
        Action::Claim { task_id: task_id_of(cfg) }
    } else {
        Action::ReadClock
    }
}

/// The phase that goes with [`start_action`].
pub open spec fn start_phase(cfg: RunConfig) -> Phase {
    if cfg.coordination {
        Phase::Claiming
    } else {
        Phase::AwaitClock
    }
}

/// Whether an event is the one the given phase waits for.
pub open spec fn step_expected(phase: Phase, event: Event) -> bool {
    match (phase, event) {
        (Phase::Boot, Event::Started) => true,
        (Phase::Sleeping, Event::Slept) => true,
        (Phase::Claiming, Event::ClaimReply { .. }) => true,
        (Phase::AwaitClock, Event::Clock { .. }) => true,
        (Phase::Fetching, Event::QuoteReady { .. }) => true,
        (Phase::Fetching, Event::QuoteFailed { .. }) => true,
        (Phase::Submitting, Event::Submitted) => true,
        (Phase::Submitting, Event::SubmitFailed { .. }) => true,
        (Phase::Notifying, Event::NotifyReply { .. }) => true,
        _ => false,
    }
}

/// Relies on rand's `thread_rng` and `Rng::gen_range` over `0..bound`:
/// a uniform sample from a non-empty half-open range lies below its upper
/// bound. The range must not be empty, as sampling an empty range panics.
#[verifier::external_body]
fn random_below(bound: u64) -> (r: u64)
    requires
        bound >= 1,
    ensures
        r < bound,
{
    rand::thread_rng().gen_range(0..bound)
}

/// The task id a run reports: the configured one, or zero when none was
/// given.
pub fn effective_task_id(cfg: &RunConfig) -> (r: u64)
    ensures
        r == task_id_of(*cfg),
{
    match cfg.task_id {
        Some(t) => t,
        None => 0,
    }
}

/// One relay run.
pub struct Relay {
    /// What the run was invoked with; never changes.
    pub cfg: RunConfig,
    /// Where the run stands.
    pub phase: Phase,
}

impl Relay {
    /// A fresh run in its boot phase.
    pub fn new(cfg: RunConfig) -> (r: Relay)
        ensures
            r.cfg == cfg,
            r.phase is Boot,
    {
        Relay { cfg, phase: Phase::Boot }
    }

    fn advance_from_sleep(&mut self) -> (action: Action)
        ensures
            final(self).cfg == old(self).cfg,
            action == start_action(old(self).cfg),
            final(self).phase == start_phase(old(self).cfg),
    {
        if self.cfg.coordination {
            self.phase = Phase::Claiming;
            Action::Claim { task_id: effective_task_id(&self.cfg) }
        } else {
            self.phase = Phase::AwaitClock;
            Action::ReadClock
        }
    }

    /// Feeds the machine one event and takes the next action. The
    /// contract is the whole transition table of a run; an event a phase
    /// does not wait for stops the run with a failing status, and a
    /// stopped run only restates its status.
    pub fn step(&mut self, event: Event) -> (action: Action)
        ensures
            final(self).cfg == old(self).cfg,
            old(self).phase is Boot && event is Started ==> {
                &&& delay_bound(old(self).cfg) == 0 ==> action == start_action(old(self).cfg)
                    && final(self).phase == start_phase(old(self).cfg)
                &&& delay_bound(old(self).cfg) > 0 ==> {
                    ||| (action matches Action::Sleep { secs } && 0 < secs < delay_bound(
                        old(self).cfg,
                    ) && final(self).phase is Sleeping)
                    ||| (action == start_action(old(self).cfg) && final(self).phase == start_phase(
                        old(self).cfg,
                    ))
                }
            },
            old(self).phase is Sleeping && event is Slept ==> action == start_action(old(self).cfg)
                && final(self).phase == start_phase(old(self).cfg),
            old(self).phase is Claiming ==> (match event {
                Event::ClaimReply { reply } => {
                    &&& reply.success ==> action is ReadClock && final(self).phase is AwaitClock
                    &&& !reply.success ==> (action matches Action::Stop { exit_ok } && exit_ok)
                        && final(self).phase == (Phase::Stopped { ok: true })
                },
                _ => true,
            }),
            old(self).phase is AwaitClock ==> (match event {
                Event::Clock { now_millis } => (action matches Action::FetchQuote { provider }
                    && provider == select_spec(now_millis as int % 7))
                    && final(self).phase is Fetching,
                _ => true,
            }),
            old(self).phase is Fetching ==> (match event {
                Event::QuoteReady { price } => (action matches Action::SubmitPrice { request }
                    && request.to@ == contract_address_bytes() && request.method@
                    == "setTokenPrice"@ && request.price == price && request.gas == 140850
                    && request.confirmations == 1) && final(self).phase is Submitting,
                Event::QuoteFailed { error } => (action matches Action::Stop { exit_ok }
                    && !exit_ok) && final(self).phase == (Phase::Stopped { ok: false }),
                _ => true,
            }),
            old(self).phase is Submitting && event is Submitted ==> {
                &&& old(self).cfg.coordination ==> (action matches Action::NotifyComplete { task_id }
                    && task_id == task_id_of(old(self).cfg)) && final(self).phase is Notifying
                &&& !old(self).cfg.coordination ==> (action matches Action::Stop { exit_ok }
                    && exit_ok) && final(self).phase == (Phase::Stopped { ok: true })
            },
            old(self).phase is Submitting ==> (match event {
                Event::SubmitFailed { error } => (action matches Action::Stop { exit_ok }
                    && !exit_ok) && final(self).phase == (Phase::Stopped { ok: false }),
                _ => true,
            }),
            old(self).phase is Notifying ==> (match event {
                Event::NotifyReply { outcome } => (action matches Action::Stop { exit_ok }
                    && exit_ok) && final(self).phase == (Phase::Stopped { ok: true }),
                _ => true,
            }),
            old(self).phase matches Phase::Stopped { ok } ==> (action matches Action::Stop {
                exit_ok,
            } && exit_ok == ok) && final(self).phase == old(self).phase,
            !step_expected(old(self).phase, event) && !(old(self).phase is Stopped) ==> (
            action matches Action::Stop { exit_ok } && !exit_ok) && final(self).phase == (
            Phase::Stopped { ok: false }),
    {
        match (self.phase, event) {
            (Phase::Boot, Event::Started) => {
                let bound = match self.cfg.delay {
                    Some(d) => d,
                    None => 0,
                };
                if bound == 0 {
                    self.advance_from_sleep()
                } else {
                    let secs = random_below(bound);
                    if secs == 0 {
                        self.advance_from_sleep()
                    } else {
                        self.phase = Phase::Sleeping;
                        Action::Sleep { secs }
                    }
                }
            },
            (Phase::Sleeping, Event::Slept) => self.advance_from_sleep(),
            (Phase::Claiming, Event::ClaimReply { reply }) => {
                if reply.success {
                    self.phase = Phase::AwaitClock;
                    Action::ReadClock
                } else {
                    self.phase = Phase::Stopped { ok: true };
                    Action::Stop { exit_ok: true }
                }
            },
            (Phase::AwaitClock, Event::Clock { now_millis }) => {
                self.phase = Phase::Fetching;
                Action::FetchQuote { provider: select(now_millis) }
            },
            (Phase::Fetching, Event::QuoteReady { price }) => {
                self.phase = Phase::Submitting;
                Action::SubmitPrice { request: submission_request(price) }
            },
            (Phase::Fetching, Event::QuoteFailed { .. }) => {
                self.phase = Phase::Stopped { ok: false };
                Action::Stop { exit_ok: false }
            },
            (Phase::Submitting, Event::Submitted) => {
                if self.cfg.coordination {
                    self.phase = Phase::Notifying;
                    Action::NotifyComplete { task_id: effective_task_id(&self.cfg) }
                } else {
                    self.phase = Phase::Stopped { ok: true };
                    Action::Stop { exit_ok: true }
                }
            },
            (Phase::Submitting, Event::SubmitFailed { .. }) => {
                self.phase = Phase::Stopped { ok: false };
                Action::Stop { exit_ok: false }
            },
            (Phase::Notifying, Event::NotifyReply { .. }) => {
                self.phase = Phase::Stopped { ok: true };
                Action::Stop { exit_ok: true }
            },
            (Phase::Stopped { ok }, _) => Action::Stop { exit_ok: ok },
            _ => {
                self.phase = Phase::Stopped { ok: false };
                Action::Stop { exit_ok: false }
            },
        }
    }
}

} // verus!
