//! The loop that fetches payloads and pushes them into the slide channel.
//!
//! The loop is a state machine: its state tells the action that is to be done next, and takes in
//! what came of it.

use vstd::arithmetic::power2::{lemma2_to64, lemma_pow2_adds, pow2};
use vstd::prelude::*;

use crate::error::Error;

verus! {

/// How many times a payload is pushed before it is given up.
pub const PUSH_RETRY_LIMIT: u32 = 3;

/// How many seconds are waited before a payload is pushed again.
pub const PUSH_RETRY_SECS: u32 = 1;

/// The most seconds that are slept after a failed fetch.
pub const BACKOFF_CAP_SECS: u32 = 60;

/// What is to be done next.
pub enum PollAction<'a> {
    /// Fetch a payload.
    Fetch,
    /// Push a payload into the channel.
    Push(&'a [u8]),
    /// Sleep for so many seconds.
    Sleep(u32),
}

/// What came of an action.
pub enum PollEvent {
    /// A payload was fetched, or not.
    Fetched(Result<Vec<u8>, Error>),
    /// A payload was pushed, for this status.
    Pushed(i32),
    /// The time to sleep is over.
    Slept,
}

/// What is to be done next, as its view.
pub enum PollActionView {
    /// See [`PollAction::Fetch`].
    Fetch,
    /// See [`PollAction::Push`].
    Push(Seq<u8>),
    /// See [`PollAction::Sleep`].
    Sleep(u32),
}

/// What came of an action, as its view. Why a fetch failed makes no difference.
pub enum PollEventView {
    /// See [`PollEvent::Fetched`].
    Fetched(Option<Seq<u8>>),
    /// See [`PollEvent::Pushed`].
    Pushed(i32),
    /// See [`PollEvent::Slept`].
    Slept,
}

impl<'a> View for PollAction<'a> {
    type V = PollActionView;

    open spec fn view(&self) -> PollActionView {
        match *self {
            PollAction::Fetch => PollActionView::Fetch,
            PollAction::Push(payload) => PollActionView::Push(payload@),
            PollAction::Sleep(secs) => PollActionView::Sleep(secs),
        }
    }
}

impl View for PollEvent {
    type V = PollEventView;

    open spec fn view(&self) -> PollEventView {
        match *self {
            PollEvent::Fetched(Ok(payload)) => PollEventView::Fetched(Some(payload@)),
            PollEvent::Fetched(Err(_)) => PollEventView::Fetched(None),
            PollEvent::Pushed(status) => PollEventView::Pushed(status),
            PollEvent::Slept => PollEventView::Slept,
        }
    }
}

/// Where the loop stands.
enum Phase {
    /// A payload is to be fetched.
    Fetching,
    /// The payload is to be pushed; so many attempts have failed.
    Pushing(Vec<u8>, u32),
    /// The payload could not be pushed so many times.
    Retrying(Vec<u8>, u32),
    /// Nothing is to be done for so many seconds.
    Resting(u32),
}

/// Where the loop stands, as its view.
pub enum PhaseView {
    /// A payload is to be fetched.
    Fetching,
    /// The payload is to be pushed; so many attempts have failed.
    Pushing(Seq<u8>, u32),
    /// The payload could not be pushed so many times.
    Retrying(Seq<u8>, u32),
    /// Nothing is to be done for so many seconds.
    Resting(u32),
}

/// The state of the loop.
pub struct PollState {
    interval_secs: u32,
    backoff: u32,
    phase: Phase,
}

/// The state of the loop, as its view.
pub struct PollView {
    /// How many seconds are slept after a fetch that succeeded.
    pub interval_secs: u32,
    /// How many seconds are to be slept after a fetch that fails.
    pub backoff: u32,
    /// Where the loop stands.
    pub phase: PhaseView,
}

impl View for PollState {
    type V = PollView;

    closed spec fn view(&self) -> PollView {
        PollView {
            interval_secs: self.interval_secs,
            backoff: self.backoff,
            phase: match self.phase {
                Phase::Fetching => PhaseView::Fetching,
                Phase::Pushing(payload, failed) => PhaseView::Pushing(payload@, failed),
                Phase::Retrying(payload, failed) => PhaseView::Retrying(payload@, failed),
                Phase::Resting(secs) => PhaseView::Resting(secs),
            },
        }
    }
}

impl PollView {
    /// No more attempts to push have failed than are made.
    pub open spec fn wf(self) -> bool {
        match self.phase {
            PhaseView::Pushing(_, failed) => failed < PUSH_RETRY_LIMIT,
            PhaseView::Retrying(_, failed) => failed <= PUSH_RETRY_LIMIT,
            _ => true,
        }
    }

    /// What is to be done next.
    pub open spec fn action(self) -> PollActionView {
        match self.phase {
            PhaseView::Fetching => PollActionView::Fetch,
            PhaseView::Pushing(payload, _) => PollActionView::Push(payload),
            PhaseView::Retrying(..) => PollActionView::Sleep(PUSH_RETRY_SECS),
            PhaseView::Resting(secs) => PollActionView::Sleep(secs),
        }
    }

    /// The state in the phase `phase`.
    pub open spec fn at(self, phase: PhaseView) -> PollView {
        PollView { interval_secs: self.interval_secs, backoff: self.backoff, phase }
    }

    /// The state after a payload was dealt with: the interval is slept, and it is what the next
    /// failure starts from.
    pub open spec fn dealt_with(self) -> PollView {
        PollView {
            interval_secs: self.interval_secs,
            backoff: self.interval_secs,
            phase: PhaseView::Resting(self.interval_secs),
        }
    }

    /// The state after a fetch that failed: the backoff is slept, up to the cap, and the next one is
    /// twice as long, up to the cap again.
    pub open spec fn backed_off(self) -> PollView {
        PollView {
            interval_secs: self.interval_secs,
            backoff: next_backoff(wait(self.backoff)),
            phase: PhaseView::Resting(wait(self.backoff)),
        }
    }

    /// The state after `event`. An event that does not answer the action at hand changes nothing.
    pub open spec fn after(self, event: PollEventView) -> PollView {
        match (self.phase, event) {
            (PhaseView::Fetching, PollEventView::Fetched(Some(payload))) => self.at(
                PhaseView::Pushing(payload, 0),
            ),
            (PhaseView::Fetching, PollEventView::Fetched(None)) => self.backed_off(),
            (PhaseView::Pushing(payload, failed), PollEventView::Pushed(status)) => if status
                == 0 {
                self.dealt_with()
            } else {
                self.at(PhaseView::Retrying(payload, (failed + 1) as u32))
            },
            (PhaseView::Retrying(payload, failed), PollEventView::Slept) => if failed
                < PUSH_RETRY_LIMIT {
                self.at(PhaseView::Pushing(payload, failed))
            } else {
                self.dealt_with()
            },
            (PhaseView::Resting(_), PollEventView::Slept) => self.at(PhaseView::Fetching),
            _ => self,
        }
    }
}

/// `secs`, but at least one.
pub open spec fn at_least_one(secs: u32) -> u32 {
    if secs < 1 {
        1
    } else {
        secs
    }
}

/// How many seconds are slept after a failed fetch where the backoff is `backoff`: at least one, and
/// no more than the cap.
pub open spec fn wait(backoff: u32) -> u32 {
    if at_least_one(backoff) < BACKOFF_CAP_SECS {
        at_least_one(backoff)
    } else {
        BACKOFF_CAP_SECS
    }
}

/// The backoff after `secs` seconds were slept for a failure: twice as much, up to the cap.
pub open spec fn next_backoff(secs: u32) -> u32 {
    if 2 * secs < BACKOFF_CAP_SECS {
        (2 * secs) as u32
    } else {
        BACKOFF_CAP_SECS
    }
}

/// The state of a loop that is started with the interval `interval_secs`.
pub open spec fn started(interval_secs: u32) -> PollView {
    PollView {
        interval_secs: at_least_one(interval_secs),
        backoff: at_least_one(interval_secs),
        phase: PhaseView::Fetching,
    }
}

/// The loop that sleeps `interval_secs` seconds, at least one, after a fetch that succeeded.
///
/// Successful fetches sleep for `interval_secs`, while failures back off exponentially up to 60
/// seconds.
pub fn poll_loop(interval_secs: u32) -> (r: PollState)
    ensures
        r@.wf(),
        r@ == started(interval_secs),
{
    let interval_secs: u32 = if interval_secs < 1 {
        1
    } else {
        interval_secs
    };
    PollState::new(interval_secs, interval_secs)
}

impl PollState {
    /// A loop that is about to fetch, with the given interval and backoff in seconds.
    pub fn new(interval_secs: u32, backoff: u32) -> (r: PollState)
        ensures
            r@.wf(),
            r@ == (PollView { interval_secs, backoff, phase: PhaseView::Fetching }),
    {
        PollState { interval_secs, backoff, phase: Phase::Fetching }
    }

    /// How many seconds are to be slept after a fetch that fails.
    pub fn backoff(&self) -> (r: u32)
        ensures
            r == self@.backoff,
    {
        self.backoff
    }

    /// What is to be done next.
    pub fn action(&self) -> (r: PollAction<'_>)
        ensures
            r@ == self@.action(),
    {
        match &self.phase {
            Phase::Fetching => PollAction::Fetch,
            Phase::Pushing(payload, _) => PollAction::Push(payload.as_slice()),
            Phase::Retrying(_, _) => PollAction::Sleep(PUSH_RETRY_SECS),
            Phase::Resting(secs) => PollAction::Sleep(*secs),
        }
    }

    /// A payload was dealt with.
    fn deal_with(&mut self)
        ensures
            final(self)@ == old(self)@.dealt_with(),
    {
        self.backoff = self.interval_secs;
        self.phase = Phase::Resting(self.interval_secs);
    }

    /// A fetch failed.
    fn back_off(&mut self)
        ensures
            final(self)@ == old(self)@.backed_off(),
    {
        let sleep_for: u32 = if self.backoff < 1 {
            1
        } else if self.backoff < BACKOFF_CAP_SECS {
            self.backoff
        } else {
            BACKOFF_CAP_SECS
        };
        self.backoff = if sleep_for < BACKOFF_CAP_SECS / 2 {
            2 * sleep_for
        } else {
            BACKOFF_CAP_SECS
        };
        self.phase = Phase::Resting(sleep_for);
    }

    /// Takes in what came of the action at hand.
    pub fn drive_once(&mut self, event: PollEvent)
        requires
            old(self)@.wf(),
        ensures
            final(self)@.wf(),
            final(self)@ == old(self)@.after(event@),
    {
        let mut phase = Phase::Fetching;
        std::mem::swap(&mut phase, &mut self.phase);
        match (phase, event) {
            (Phase::Fetching, PollEvent::Fetched(Ok(payload))) => {
                self.phase = Phase::Pushing(payload, 0);
            },
            (Phase::Fetching, PollEvent::Fetched(Err(_))) => self.back_off(),
            (Phase::Pushing(payload, failed), PollEvent::Pushed(status)) => {
                if status == 0 {
                    self.deal_with();
                } else {
                    self.phase = Phase::Retrying(payload, failed + 1);
                }
            },
            (Phase::Retrying(payload, failed), PollEvent::Slept) => {
                if failed < PUSH_RETRY_LIMIT {
                    self.phase = Phase::Pushing(payload, failed);
                } else {
                    self.deal_with();
                }
            },
            (Phase::Resting(_), PollEvent::Slept) => {
                self.phase = Phase::Fetching;
            },
            (phase, _) => {
                self.phase = phase;
            },
        }
    }
}

/// The milliseconds that are announced to the host before `secs` seconds are slept.
pub open spec fn announced(secs: u32) -> i64 {
    (secs * 1000) as i64
}

/// Sleeps for `secs` seconds, as `sleep_secs` does it, after an announcement to the host. The host's
/// answer to `announce` can ask for the sleep to be skipped: it is slept only where the answer is
/// zero.
pub fn sleep<A: FnOnce(i64) -> i32, S: FnOnce(u32)>(secs: u32, announce: A, sleep_secs: S)
    requires
        call_requires(announce, (announced(secs),)),
        forall|skip: i32| #[trigger]
            call_ensures(announce, (announced(secs),), skip) && skip == 0 ==> call_requires(
                sleep_secs,
                (secs,),
            ),
    ensures
        exists|skip: i32| #[trigger]
            call_ensures(announce, (announced(secs),), skip) && (skip == 0 ==> call_ensures(
                sleep_secs,
                (secs,),
                (),
            )),
{
    let skip: i32 = announce(secs as i64 * 1000);
    if skip == 0 {
        sleep_secs(secs);
    }
}

/// The state after `events`, one after the other.
pub open spec fn driven(state: PollView, events: Seq<PollEventView>) -> PollView
    decreases events.len(),
{
    if events.len() == 0 {
        state
    } else {
        driven(state.after(events[0]), events.skip(1))
    }
}

/// The actions that follow `events`: after each event, the one that is then to be done.
pub open spec fn actions(state: PollView, events: Seq<PollEventView>) -> Seq<PollActionView>
    decreases events.len(),
{
    if events.len() == 0 {
        seq![]
    } else {
        let next = state.after(events[0]);
        seq![next.action()] + actions(next, events.skip(1))
    }
}

/// What comes of pushing a payload, from the attempt `attempt` on, where the host gives the status
/// `statuses[i]` to the attempt `i`.
pub open spec fn push_events(statuses: Seq<i32>, attempt: nat) -> Seq<PollEventView>
    decreases PUSH_RETRY_LIMIT - attempt,
{
    if attempt >= PUSH_RETRY_LIMIT {
        seq![]
    } else if statuses[attempt as int] == 0 {
        seq![PollEventView::Pushed(0)]
    } else {
        seq![PollEventView::Pushed(statuses[attempt as int]), PollEventView::Slept] + push_events(
            statuses,
            attempt + 1,
        )
    }
}

/// What is done to push a payload, from the attempt `attempt` on: it is pushed until the host takes
/// it, with a second of sleep after each refusal.
pub open spec fn push_actions(payload: Seq<u8>, statuses: Seq<i32>, attempt: nat) -> Seq<
    PollActionView,
>
    decreases PUSH_RETRY_LIMIT - attempt,
{
    if attempt >= PUSH_RETRY_LIMIT {
        seq![]
    } else if statuses[attempt as int] == 0 {
        seq![PollActionView::Push(payload)]
    } else {
        seq![PollActionView::Push(payload), PollActionView::Sleep(PUSH_RETRY_SECS)] + push_actions(
            payload,
            statuses,
            attempt + 1,
        )
    }
}

/// Pushing, from the attempt `attempt` on, ends in the sleep of the interval.
proof fn lemma_pushing(state: PollView, payload: Seq<u8>, statuses: Seq<i32>, attempt: nat)
    requires
        state.phase == PhaseView::Pushing(payload, attempt as u32),
        attempt < PUSH_RETRY_LIMIT,
    ensures
        driven(state, push_events(statuses, attempt) + seq![PollEventView::Slept]) == (PollView {
            interval_secs: state.interval_secs,
            backoff: state.interval_secs,
            phase: PhaseView::Fetching,
        }),
        seq![state.action()] + actions(
            state,
            push_events(statuses, attempt) + seq![PollEventView::Slept],
        ) == push_actions(payload, statuses, attempt) + seq![
            PollActionView::Sleep(state.interval_secs),
            PollActionView::Fetch,
        ],
    decreases PUSH_RETRY_LIMIT - attempt,
{
    let slept = PollEventView::Slept;
    let end = seq![PollActionView::Sleep(state.interval_secs), PollActionView::Fetch];
    let rested = state.dealt_with();
    let events = push_events(statuses, attempt) + seq![slept];
    let status = statuses[attempt as int];
    assert(seq![slept].skip(1) =~= seq![]);
    assert(driven(rested, seq![slept]) == rested.after(slept)) by {
        assert(driven(rested.after(slept), seq![slept].skip(1)) == rested.after(slept));
    }
    assert(actions(rested, seq![slept]) =~= seq![PollActionView::Fetch]) by {
        assert(actions(rested.after(slept), seq![slept].skip(1)) =~= seq![]);
    }
    if status == 0 {
        assert(events.skip(1) =~= seq![slept]);
        assert(seq![state.action()] + actions(state, events) =~= push_actions(
            payload,
            statuses,
            attempt,
        ) + end);
    } else {
        let retrying = state.after(PollEventView::Pushed(status));
        let next = retrying.after(slept);
        let rest = push_events(statuses, attempt + 1) + seq![slept];
        let tail = seq![next.action()] + actions(next, rest);
        let two = seq![PollActionView::Push(payload), PollActionView::Sleep(PUSH_RETRY_SECS)];
        assert(events[0] == PollEventView::Pushed(status));
        assert(events.skip(1) =~= seq![slept] + rest);
        assert((seq![slept] + rest)[0] == slept);
        assert((seq![slept] + rest).skip(1) =~= rest);
        assert(driven(state, events) == driven(retrying, seq![slept] + rest));
        assert(driven(retrying, seq![slept] + rest) == driven(next, rest));
        assert(actions(state, events) == seq![retrying.action()] + actions(
            retrying,
            seq![slept] + rest,
        ));
        assert(actions(retrying, seq![slept] + rest) == tail);
        assert(tail == push_actions(payload, statuses, attempt + 1) + end) by {
            if attempt + 1 < PUSH_RETRY_LIMIT {
                lemma_pushing(next, payload, statuses, attempt + 1);
            } else {
                assert(push_events(statuses, attempt + 1) =~= seq![]);
                assert(push_actions(payload, statuses, attempt + 1) =~= seq![]);
                assert(rest =~= seq![slept]);
                assert(next == rested);
                assert(tail =~= end);
            }
        }
        assert(driven(next, rest) == rested.after(slept)) by {
            if attempt + 1 < PUSH_RETRY_LIMIT {
                lemma_pushing(next, payload, statuses, attempt + 1);
            } else {
                assert(push_events(statuses, attempt + 1) =~= seq![]);
                assert(rest =~= seq![slept]);
            }
        }
        assert(push_actions(payload, statuses, attempt) == two + push_actions(
            payload,
            statuses,
            attempt + 1,
        ));
        assert(seq![state.action()] + (seq![retrying.action()] + tail) =~= two + tail);
        assert(two + (push_actions(payload, statuses, attempt + 1) + end) =~= (two + push_actions(
            payload,
            statuses,
            attempt + 1,
        )) + end);
    }
}

/// A payload that was fetched is pushed until the host takes it, three times at most and with a
/// second of sleep after each refusal. Then the interval is slept, the backoff is the interval again,
/// and the next payload is fetched.
pub proof fn law_fetched_payload_is_pushed(
    state: PollView,
    payload: Seq<u8>,
    statuses: Seq<i32>,
)
    requires
        state.phase == PhaseView::Fetching,
    ensures
        ({
            let events = seq![PollEventView::Fetched(Some(payload))] + push_events(statuses, 0)
                + seq![PollEventView::Slept];
            &&& driven(state, events) == PollView {
                interval_secs: state.interval_secs,
                backoff: state.interval_secs,
                phase: PhaseView::Fetching,
            }
            &&& actions(state, events) == push_actions(payload, statuses, 0) + seq![
                PollActionView::Sleep(state.interval_secs),
                PollActionView::Fetch,
            ]
        }),
{
    let fetched = seq![PollEventView::Fetched(Some(payload))];
    let pushing = state.at(PhaseView::Pushing(payload, 0));
    let rest = push_events(statuses, 0) + seq![PollEventView::Slept];
    let events = fetched + push_events(statuses, 0) + seq![PollEventView::Slept];
    assert(events.skip(1) =~= rest);
    lemma_pushing(pushing, payload, statuses, 0);
}

/// After a fetch that failed nothing is pushed: the backoff is slept, up to the cap, and the next
/// payload is fetched with the backoff doubled, up to the cap.
pub proof fn law_failed_fetch_backs_off(state: PollView)
    requires
        state.phase == PhaseView::Fetching,
    ensures
        ({
            let events = seq![PollEventView::Fetched(None), PollEventView::Slept];
            &&& driven(state, events) == PollView {
                interval_secs: state.interval_secs,
                backoff: next_backoff(wait(state.backoff)),
                phase: PhaseView::Fetching,
            }
            &&& actions(state, events) == seq![
                PollActionView::Sleep(wait(state.backoff)),
                PollActionView::Fetch,
            ]
        }),
{
    let events = seq![PollEventView::Fetched(None), PollEventView::Slept];
    reveal_with_fuel(driven, 3);
    reveal_with_fuel(actions, 3);
    assert(events.skip(1) =~= seq![PollEventView::Slept]);
    assert(seq![PollEventView::Slept].skip(1) =~= seq![]);
    assert(actions(state, events) =~= seq![
        PollActionView::Sleep(wait(state.backoff)),
        PollActionView::Fetch,
    ]);
}

/// How many of `actions` push a payload.
pub open spec fn pushes(actions: Seq<PollActionView>) -> nat
    decreases actions.len(),
{
    if actions.len() == 0 {
        0
    } else {
        pushes(actions.skip(1)) + if actions[0] is Push {
            1nat
        } else {
            0nat
        }
    }
}

/// No more attempts are made to push a payload than the limit allows.
pub proof fn law_pushes_are_limited(payload: Seq<u8>, statuses: Seq<i32>, attempt: nat)
    requires
        attempt <= PUSH_RETRY_LIMIT,
    ensures
        pushes(push_actions(payload, statuses, attempt)) <= PUSH_RETRY_LIMIT - attempt,
    decreases PUSH_RETRY_LIMIT - attempt,
{
    if attempt < PUSH_RETRY_LIMIT {
        let all = push_actions(payload, statuses, attempt);
        reveal_with_fuel(pushes, 3);
        if statuses[attempt as int] == 0 {
            assert(all.skip(1) =~= seq![]);
        } else {
            law_pushes_are_limited(payload, statuses, attempt + 1);
            assert(all.skip(1).skip(1) =~= push_actions(payload, statuses, attempt + 1));
        }
    }
}

/// The backoff after so many failed fetches in a row.
pub open spec fn backoff_after(backoff: u32, failures: nat) -> u32
    decreases failures,
{
    if failures == 0 {
        backoff
    } else {
        next_backoff(wait(backoff_after(backoff, (failures - 1) as nat)))
    }
}

/// So many failed fetches in a row, each with the sleep that follows it.
pub open spec fn failure_events(failures: nat) -> Seq<PollEventView>
    decreases failures,
{
    if failures == 0 {
        seq![]
    } else {
        failure_events((failures - 1) as nat) + seq![
            PollEventView::Fetched(None),
            PollEventView::Slept,
        ]
    }
}

/// Events that follow others start from the state after those.
proof fn lemma_driven_further(
    state: PollView,
    events: Seq<PollEventView>,
    more: Seq<PollEventView>,
)
    ensures
        driven(state, events + more) == driven(driven(state, events), more),
    decreases events.len(),
{
    if events.len() == 0 {
        assert(events + more =~= more);
    } else {
        assert((events + more).skip(1) =~= events.skip(1) + more);
        lemma_driven_further(state.after(events[0]), events.skip(1), more);
    }
}

/// After so many failed fetches in a row the loop is about to fetch again, with the backoff that
/// belongs to them.
pub proof fn law_failures_in_a_row(state: PollView, failures: nat)
    requires
        state.phase == PhaseView::Fetching,
    ensures
        driven(state, failure_events(failures)) == (PollView {
            interval_secs: state.interval_secs,
            backoff: backoff_after(state.backoff, failures),
            phase: PhaseView::Fetching,
        }),
    decreases failures,
{
    if failures > 0 {
        let before = (failures - 1) as nat;
        law_failures_in_a_row(state, before);
        let failed = seq![PollEventView::Fetched(None), PollEventView::Slept];
        lemma_driven_further(state, failure_events(before), failed);
        law_failed_fetch_backs_off(driven(state, failure_events(before)));
    }
}

/// Failures back off exponentially: after so many failed fetches in a row, the next failure is
/// followed by the interval doubled as many times, up to the cap.
pub proof fn law_backoff_doubles(interval_secs: u32, failures: nat)
    requires
        1 <= interval_secs,
    ensures
        wait(backoff_after(interval_secs, failures)) == (if interval_secs * pow2(failures)
            < BACKOFF_CAP_SECS {
            interval_secs * pow2(failures)
        } else {
            BACKOFF_CAP_SECS as int
        }),
    decreases failures,
{
    lemma2_to64();
    if failures > 0 {
        let before = (failures - 1) as nat;
        law_backoff_doubles(interval_secs, before);
        lemma_pow2_adds(before, 1);
        assert(interval_secs * (pow2(before) * 2) == 2 * (interval_secs * pow2(before)))
            by (nonlinear_arith);
    } else {
        assert(interval_secs * pow2(0) == interval_secs) by (nonlinear_arith)
            requires
                pow2(0) == 1,
        ;
    }
}

/// After a failed fetch no more than the cap is slept, whatever the interval and however many fetches
/// failed before.
pub proof fn law_backoff_is_capped(interval_secs: u32, failures: nat)
    ensures
        1 <= wait(backoff_after(interval_secs, failures)) <= BACKOFF_CAP_SECS,
{
}

/// A loop starts with a fetch. Its interval is the number of seconds that it was started with, whatever
/// that is, and one second where that is zero; and so is its first backoff.
pub proof fn law_loop_starts_with_its_interval(n: u32)
    ensures
        started(n).action() == PollActionView::Fetch,
        n >= 1 ==> started(n).interval_secs == n && started(n).backoff == n,
        n == 0 ==> started(n).interval_secs == 1 && started(n).backoff == 1,
{
}

/// The round of a loop in which a payload is fetched and the host takes it at once.
pub open spec fn round_of_success(payload: Seq<u8>) -> Seq<PollEventView> {
    seq![
        PollEventView::Fetched(Some(payload)),
        PollEventView::Pushed(0),
        PollEventView::Slept,
    ]
}

/// The round of a loop in which nothing is fetched.
pub open spec fn round_of_failure() -> Seq<PollEventView> {
    seq![PollEventView::Fetched(None), PollEventView::Slept]
}

/// Whether `events` are rounds of a loop, one after the other, in each of which a payload is fetched and
/// taken, or nothing is fetched.
pub open spec fn rounds(events: Seq<PollEventView>) -> bool
    decreases events.len(),
{
    ||| events.len() == 0
    ||| events.len() >= 3 && events[0] is Fetched && events.take(3) == round_of_success(
        events[0]->Fetched_0->Some_0,
    ) && rounds(events.skip(3))
    ||| events.len() >= 2 && events.take(2) == round_of_failure() && rounds(events.skip(2))
}

/// What a round of success does, from any state in which the loop is about to fetch.
proof fn lemma_round_of_success(state: PollView, payload: Seq<u8>)
    requires
        state.phase == PhaseView::Fetching,
    ensures
        driven(state, round_of_success(payload)) == (PollView {
            interval_secs: state.interval_secs,
            backoff: state.interval_secs,
            phase: PhaseView::Fetching,
        }),
        actions(state, round_of_success(payload)) == seq![
            PollActionView::Push(payload),
            PollActionView::Sleep(state.interval_secs),
            PollActionView::Fetch,
        ],
{
    let events = round_of_success(payload);
    reveal_with_fuel(driven, 4);
    reveal_with_fuel(actions, 4);
    assert(events.skip(1) =~= seq![PollEventView::Pushed(0), PollEventView::Slept]);
    assert(events.skip(1).skip(1) =~= seq![PollEventView::Slept]);
    assert(events.skip(1).skip(1).skip(1) =~= seq![]);
    assert(actions(state, events) =~= seq![
        PollActionView::Push(payload),
        PollActionView::Sleep(state.interval_secs),
        PollActionView::Fetch,
    ]);
}

/// After rounds of any number and outcome the loop is about to fetch, with the interval that it had.
proof fn lemma_rounds_keep_the_interval(state: PollView, events: Seq<PollEventView>)
    requires
        state.phase == PhaseView::Fetching,
        rounds(events),
    ensures
        driven(state, events).phase == PhaseView::Fetching,
        driven(state, events).interval_secs == state.interval_secs,
    decreases events.len(),
{
    if events.len() > 0 {
        if events.len() >= 3 && events[0] is Fetched && events.take(3) == round_of_success(
            events[0]->Fetched_0->Some_0,
        ) && rounds(events.skip(3)) {
            let payload = events[0]->Fetched_0->Some_0;
            lemma_round_of_success(state, payload);
            assert(events =~= events.take(3) + events.skip(3));
            lemma_driven_further(state, events.take(3), events.skip(3));
            lemma_rounds_keep_the_interval(driven(state, events.take(3)), events.skip(3));
        } else {
            law_failed_fetch_backs_off(state);
            assert(events =~= events.take(2) + events.skip(2));
            lemma_driven_further(state, events.take(2), events.skip(2));
            lemma_rounds_keep_the_interval(driven(state, events.take(2)), events.skip(2));
        }
    }
}

/// A loop that was started with an interval of `n` seconds pushes what it fetched, and once the host has
/// taken it sleeps exactly `n` seconds and fetches again: at the start and after rounds of any number
/// and outcome, for every `n`, however large. With an interval of zero it sleeps one second.
pub proof fn law_interval_is_slept(n: u32, before: Seq<PollEventView>, payload: Seq<u8>)
    requires
        rounds(before),
    ensures
        ({
            let state = driven(started(n), before);
            &&& state.action() == PollActionView::Fetch
            &&& actions(state, round_of_success(payload)) == seq![
                PollActionView::Push(payload),
                PollActionView::Sleep(
                    if n == 0 {
                        1u32
                    } else {
                        n
                    },
                ),
                PollActionView::Fetch,
            ]
        }),
{
    lemma_rounds_keep_the_interval(started(n), before);
    lemma_round_of_success(driven(started(n), before), payload);
}

/// What is done in a round in which a payload is fetched and the host refuses it three times: it is
/// pushed three times, with a second of sleep after each, then it is given up and the interval is slept.
pub proof fn law_refused_payload_is_given_up(
    n: u32,
    payload: Seq<u8>,
    first: i32,
    second: i32,
    third: i32,
)
    requires
        n >= 1,
    ensures
        ({
            let push = PollActionView::Push(payload);
            let pause = PollActionView::Sleep(1);
            let rest = PollActionView::Sleep(n);
            let fetched = PollEventView::Fetched(Some(payload));
            let slept = PollEventView::Slept;
            &&& first != 0 && second != 0 && third != 0 ==> actions(
                started(n),
                seq![
                    fetched,
                    PollEventView::Pushed(first),
                    slept,
                    PollEventView::Pushed(second),
                    slept,
                    PollEventView::Pushed(third),
                    slept,
                    slept,
                ],
            ) == seq![push, pause, push, pause, push, pause, rest, PollActionView::Fetch]
            &&& first != 0 && second != 0 && third == 0 ==> actions(
                started(n),
                seq![
                    fetched,
                    PollEventView::Pushed(first),
                    slept,
                    PollEventView::Pushed(second),
                    slept,
                    PollEventView::Pushed(third),
                    slept,
                ],
            ) == seq![push, pause, push, pause, push, rest, PollActionView::Fetch]
            &&& first != 0 && second == 0 ==> actions(
                started(n),
                seq![
                    fetched,
                    PollEventView::Pushed(first),
                    slept,
                    PollEventView::Pushed(second),
                    slept,
                ],
            ) == seq![push, pause, push, rest, PollActionView::Fetch]
        }),
{
    let statuses = seq![first, second, third];
    let fetched = PollEventView::Fetched(Some(payload));
    let slept = PollEventView::Slept;
    law_fetched_payload_is_pushed(started(n), payload, statuses);
    reveal_with_fuel(push_events, 4);
    reveal_with_fuel(push_actions, 4);
    let events = seq![fetched] + push_events(statuses, 0) + seq![slept];
    let done = push_actions(payload, statuses, 0) + seq![
        PollActionView::Sleep(n),
        PollActionView::Fetch,
    ];
    let push = PollActionView::Push(payload);
    let pause = PollActionView::Sleep(1);
    let rest = PollActionView::Sleep(n);
    if first != 0 && second != 0 && third != 0 {
        assert(events =~= seq![
            fetched,
            PollEventView::Pushed(first),
            slept,
            PollEventView::Pushed(second),
            slept,
            PollEventView::Pushed(third),
            slept,
            slept,
        ]);
        assert(done =~= seq![push, pause, push, pause, push, pause, rest, PollActionView::Fetch]);
    } else if first != 0 && second != 0 {
        assert(events =~= seq![
            fetched,
            PollEventView::Pushed(first),
            slept,
            PollEventView::Pushed(second),
            slept,
            PollEventView::Pushed(third),
            slept,
        ]);
        assert(done =~= seq![push, pause, push, pause, push, rest, PollActionView::Fetch]);
    } else if first != 0 {
        assert(events =~= seq![
            fetched,
            PollEventView::Pushed(first),
            slept,
            PollEventView::Pushed(second),
            slept,
        ]);
        assert(done =~= seq![push, pause, push, rest, PollActionView::Fetch]);
    }
}

/// After `failures` failed fetches in a row the next one is followed by a sleep of the interval doubled as
/// many times, but of no more than 60 seconds, and by another fetch: from the start of a loop, and
/// likewise after a payload was dealt with.
pub proof fn law_failures_are_slept_over(n: u32, failures: nat)
    requires
        n >= 1,
    ensures
        ({
            let doubled = n * pow2(failures);
            actions(driven(started(n), failure_events(failures)), round_of_failure()) == seq![
                PollActionView::Sleep(
                    if doubled < 60 {
                        doubled as u32
                    } else {
                        60u32
                    },
                ),
                PollActionView::Fetch,
            ]
        }),
{
    law_failures_in_a_row(started(n), failures);
    law_failed_fetch_backs_off(driven(started(n), failure_events(failures)));
    law_backoff_doubles(n, failures);
}

/// A payload that was dealt with ends a row of failures: the loop is then where it was when it started.
pub proof fn law_success_ends_the_row(n: u32, before: Seq<PollEventView>, payload: Seq<u8>)
    requires
        rounds(before),
    ensures
        driven(driven(started(n), before), round_of_success(payload)) == started(n),
{
    lemma_rounds_keep_the_interval(started(n), before);
    lemma_round_of_success(driven(started(n), before), payload);
}

/// What a sleep is announced with is its length in milliseconds.
pub proof fn law_sleep_is_announced_in_milliseconds(secs: u32)
    ensures
        announced(secs) as int == secs as int * 1000,
{
}

/// What is to be done and what came of it are seen as they are: the payload, the status and the seconds.
pub proof fn law_actions_are_seen_whole(action: PollAction<'_>, event: PollEvent)
    ensures
        match action {
            PollAction::Fetch => action@ == PollActionView::Fetch,
            PollAction::Push(payload) => action@ == PollActionView::Push(payload@),
            PollAction::Sleep(secs) => action@ == PollActionView::Sleep(secs),
        },
        match event {
            PollEvent::Fetched(Ok(payload)) => event@ == PollEventView::Fetched(Some(payload@)),
            PollEvent::Fetched(Err(_)) => event@ == PollEventView::Fetched(None),
            PollEvent::Pushed(status) => event@ == PollEventView::Pushed(status),
            PollEvent::Slept => event@ == PollEventView::Slept,
        },
{
}

/// From any state in which the loop is about to fetch, a failure is followed by a sleep of the backoff,
/// but of at least one and at most 60 seconds, and the backoff is then twice what was slept, but at most
/// 60 seconds. The interval stays.
pub proof fn law_backoff_step(state: PollView)
    requires
        state.phase == PhaseView::Fetching,
    ensures
        ({
            let slept: int = if state.backoff < 1 {
                1
            } else if state.backoff > 60 {
                60
            } else {
                state.backoff as int
            };
            let next = driven(state, round_of_failure());
            &&& actions(state, round_of_failure()) == seq![
                PollActionView::Sleep(slept as u32),
                PollActionView::Fetch,
            ]
            &&& next.backoff == (if 2 * slept > 60 {
                60
            } else {
                2 * slept
            })
            &&& next.interval_secs == state.interval_secs
            &&& next.phase == PhaseView::Fetching
        }),
{
    law_failed_fetch_backs_off(state);
}

/// What does not answer the action at hand changes nothing.
pub proof fn law_events_out_of_turn(state: PollView, event: PollEventView)
    ensures
        state.action() is Fetch && !(event is Fetched) ==> state.after(event) == state,
        state.action() is Push && !(event is Pushed) ==> state.after(event) == state,
        state.action() is Sleep && !(event is Slept) ==> state.after(event) == state,
{
}

} // verus!
