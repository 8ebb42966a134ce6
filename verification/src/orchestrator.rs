//! The decisions of the ingestion loop.
//!
//! The loop itself waits for the next inbound message or the shutdown signal,
//! hands what arrived to `Orchestrator::step`, and carries out the reaction:
//! it publishes the emission without waiting for it, and commits the offset
//! where the reaction says so. The commit never waits for a publication, so
//! an emission that is still under way when the process ends is lost although
//! its message counts as consumed.

use crate::clock::now_ms;
use crate::history::{
    history_of, lemma_recorded_keeps_bound, recorded, HistoryStore, PriceSeries, MAX_HISTORY,
};
use crate::indicator::{compute_rsi_from_prices, lemma_rsi_in_range, rsi, RSI_FULL};
use crate::payload::{parse_price_from_payload, trade_of_payload, utf8_text};
use vstd::prelude::*;
use vstd::utf8::{decode_utf8, valid_utf8};

verus! {

/// Where the loop stands.
#[derive(Clone, Copy, Debug, PartialEq, Eq, Structural)]
pub enum Phase {
    /// Events are processed.
    Running,
    /// The shutdown signal came or the inbound stream ended; no event is
    /// processed any more.
    ShuttingDown,
    /// The loop has been left.
    Terminated,
}

/// What reached the loop.
#[derive(Clone, Copy, Debug)]
pub enum Event<'a> {
    /// A message of the inbound stream, with its payload where it has one.
    Message(Option<&'a [u8]>),
    /// The inbound stream gave an error in place of a message.
    TransportError,
    /// The inbound stream ended.
    StreamEnded,
    /// The shutdown signal arrived.
    Shutdown,
}

/// What a step came to, for the log.
#[derive(Clone, Copy, Debug, PartialEq, Eq, Structural)]
pub enum Note {
    /// A trade was read and recorded.
    Processed,
    /// The payload is no JSON, names no token or yields no price.
    Unparsable,
    /// The payload is not well-formed UTF-8.
    NotUtf8,
    /// The message has no payload.
    NoPayload,
    /// The inbound stream gave an error.
    TransportError,
    /// The inbound stream ended.
    StreamEnded,
    /// The shutdown signal arrived.
    ShutdownRequested,
    /// The loop is no longer running, and the event was not looked at.
    Ignored,
}

/// One value of the indicator, as it goes to the outbound stream.
#[derive(Debug, PartialEq, Eq)]
pub struct IndicatorResult {
    /// The token the price belongs to.
    pub token_id: String,
    /// The index in ticks, from 0 to `RSI_FULL`.
    pub value: u64,
    /// The price that completed the window, in ticks.
    pub price: i64,
    /// When the value was computed, in milliseconds since the Unix epoch.
    pub timestamp_ms: u128,
}

/// An `IndicatorResult` as contracts see it.
pub struct IndicatorView {
    pub token_id: Seq<char>,
    pub value: u64,
    pub price: i64,
    pub timestamp_ms: u128,
}

impl View for IndicatorResult {
    type V = IndicatorView;

    open spec fn view(&self) -> IndicatorView {
        IndicatorView {
            token_id: self.token_id@,
            value: self.value,
            price: self.price,
            timestamp_ms: self.timestamp_ms,
        }
    }
}

/// What the loop has to do after a step.
#[derive(Debug, PartialEq, Eq)]
pub struct Reaction {
    /// The result to publish, where the step produced one.
    pub emission: Option<IndicatorResult>,
    /// Whether the offset of the message is to be committed.
    pub commit: bool,
    /// What the step came to.
    pub note: Note,
}

/// A `Reaction` as contracts see it.
pub struct ReactionView {
    pub emission: Option<IndicatorView>,
    pub commit: bool,
    pub note: Note,
}

impl View for Reaction {
    type V = ReactionView;

    open spec fn view(&self) -> ReactionView {
        ReactionView {
            emission: match self.emission {
                Some(result) => Some(result@),
                None => None,
            },
            commit: self.commit,
            note: self.note,
        }
    }
}

impl ReactionView {
    /// A reaction without an emission.
    pub open spec fn quiet(commit: bool, note: Note) -> ReactionView {
        ReactionView { emission: None, commit, note }
    }

    /// The time the emission carries, 0 where there is none.
    pub open spec fn stamp(self) -> u128 {
        match self.emission {
            Some(result) => result.timestamp_ms,
            None => 0,
        }
    }
}

/// The state of the loop: its phase, the indicator period, and the history
/// of every token seen so far.
pub struct PipelineState {
    pub phase: Phase,
    pub period: nat,
    pub histories: Map<Seq<char>, Seq<i64>>,
}

impl PipelineState {
    /// The result that a trade gives once it is recorded: the index over the
    /// history of its token, absent while that history is too short.
    pub open spec fn emission(self, token: Seq<char>, price: i64, now: u128) -> Option<
        IndicatorView,
    > {
        match rsi(history_of(recorded(self.histories, token, price), token), self.period) {
            Some(value) => Some(
                IndicatorView { token_id: token, value: value as u64, price, timestamp_ms: now },
            ),
            None => None,
        }
    }

    /// A trade is recorded and the index attempted; the offset is committed.
    pub open spec fn on_trade(self, token: Seq<char>, price: i64, now: u128) -> (
        PipelineState,
        ReactionView,
    ) {
        (
            PipelineState { histories: recorded(self.histories, token, price), ..self },
            ReactionView {
                emission: self.emission(token, price, now),
                commit: true,
                note: Note::Processed,
            },
        )
    }

    /// A trade handed to the loop directly: recorded by a running loop,
    /// passed over by a stopped one.
    pub open spec fn observe(self, token: Seq<char>, price: i64, now: u128) -> (
        PipelineState,
        ReactionView,
    ) {
        if self.phase != Phase::Running {
            (self, ReactionView::quiet(false, Note::Ignored))
        } else {
            self.on_trade(token, price, now)
        }
    }

    /// A message is committed whatever it holds; it changes the histories
    /// only where its payload is UTF-8 and carries a trade.
    pub open spec fn on_message(self, payload: Option<Seq<u8>>, now: u128) -> (
        PipelineState,
        ReactionView,
    ) {
        match payload {
            None => (self, ReactionView::quiet(true, Note::NoPayload)),
            Some(bytes) => if !valid_utf8(bytes) {
                (self, ReactionView::quiet(true, Note::NotUtf8))
            } else {
                match trade_of_payload(decode_utf8(bytes)) {
                    None => (self, ReactionView::quiet(true, Note::Unparsable)),
                    Some((token, price)) => self.on_trade(token, price, now),
                }
            },
        }
    }

    /// One step of the loop: the state after the event, and the reaction.
    ///
    /// Only a running loop looks at the event. An error of the inbound stream
    /// is passed over without a commit. The shutdown signal and the end of
    /// the stream stop the loop.
    pub open spec fn step(self, event: Event, now: u128) -> (PipelineState, ReactionView) {
        if self.phase != Phase::Running {
            (self, ReactionView::quiet(false, Note::Ignored))
        } else {
            match event {
                Event::Message(payload) => self.on_message(
                    match payload {
                        Some(bytes) => Some(bytes@),
                        None => None,
                    },
                    now,
                ),
                Event::TransportError => (self, ReactionView::quiet(false, Note::TransportError)),
                Event::StreamEnded => (
                    PipelineState { phase: Phase::ShuttingDown, ..self },
                    ReactionView::quiet(false, Note::StreamEnded),
                ),
                Event::Shutdown => (
                    PipelineState { phase: Phase::ShuttingDown, ..self },
                    ReactionView::quiet(false, Note::ShutdownRequested),
                ),
            }
        }
    }

    /// The state once the loop has been left: a loop that was stopped is
    /// terminated, a running one is not touched.
    pub open spec fn finished(self) -> PipelineState {
        if self.phase == Phase::Running {
            self
        } else {
            PipelineState { phase: Phase::Terminated, ..self }
        }
    }
}

/// The state after a run of events, each with the time of its step, and the
/// reactions in order.
pub open spec fn run(state: PipelineState, events: Seq<(Event, u128)>) -> (
    PipelineState,
    Seq<ReactionView>,
)
    decreases events.len(),
{
    if events.len() == 0 {
        (state, Seq::empty())
    } else {
        let (next, reaction) = state.step(events[0].0, events[0].1);
        let (last, reactions) = run(next, events.drop_first());
        (last, seq![reaction] + reactions)
    }
}

/// The loop's state and decisions.
pub struct Orchestrator {
    phase: Phase,
    period: usize,
    histories: HistoryStore,
}

impl View for Orchestrator {
    type V = PipelineState;

    closed spec fn view(&self) -> PipelineState {
        PipelineState {
            phase: self.phase,
            period: self.period as nat,
            histories: self.histories@,
        }
    }
}

impl Orchestrator {
    #[verifier::type_invariant]
    spec fn period_positive(self) -> bool {
        self.period >= 1
    }

    /// A running loop that has seen no token.
    pub fn new(period: usize) -> (orchestrator: Self)
        requires
            period >= 1,
        ensures
            orchestrator@ == (PipelineState {
                phase: Phase::Running,
                period: period as nat,
                histories: Map::empty(),
            }),
    {
        Orchestrator { phase: Phase::Running, period, histories: HistoryStore::new() }
    }

    /// Where the loop stands.
    pub fn phase(&self) -> (phase: Phase)
        ensures
            phase == self@.phase,
    {
        self.phase
    }

    /// The indicator period.
    pub fn period(&self) -> (period: usize)
        ensures
            period == self@.period,
            period >= 1,
    {
        proof {
            use_type_invariant(self);
        }
        self.period
    }

    /// The history of a token, `None` before its first price.
    pub fn history(&self, token: &str) -> (r: Option<&PriceSeries>)
        ensures
            match r {
                Some(series) => {
                    &&& self@.histories.contains_key(token@)
                    &&& series@ == self@.histories[token@]
                    &&& 1 <= series@.len() <= MAX_HISTORY
                },
                None => !self@.histories.contains_key(token@),
            },
    {
        self.histories.history(token)
    }

    /// Records a trade and attempts the index over the history of its token,
    /// as a message that carries the trade would. A loop that is not running
    /// passes the trade over.
    pub fn observe(&mut self, token: &str, price: i64, now: u128) -> (r: Reaction)
        ensures
            (final(self)@, r@) == old(self)@.observe(token@, price, now),
            r.emission matches Some(result) ==> result.value <= RSI_FULL,
    {
        proof {
            use_type_invariant(&*self);
        }
        match self.phase {
            Phase::Running => {},
            _ => {
                return Reaction { emission: None, commit: false, note: Note::Ignored };
            },
        }
        // The store is taken out while it is changed and put back after.
        let mut histories = HistoryStore::new();
        std::mem::swap(&mut self.histories, &mut histories);
        histories.append(token, price);
        let computed = match histories.history(token) {
            Some(series) => compute_rsi_from_prices(series, self.period),
            None => None,
        };
        self.histories = histories;
        let emission = match computed {
            Some(value) => Some(
                IndicatorResult { token_id: token.to_owned(), value, price, timestamp_ms: now },
            ),
            None => None,
        };
        Reaction { emission, commit: true, note: Note::Processed }
    }

    /// One step of the loop at a given time.
    pub fn react(&mut self, event: Event, now: u128) -> (r: Reaction)
        ensures
            (final(self)@, r@) == old(self)@.step(event, now),
            r.emission matches Some(result) ==> result.value <= RSI_FULL,
    {
        proof {
            use_type_invariant(&*self);
        }
        match self.phase {
            Phase::Running => {},
            _ => {
                return Reaction { emission: None, commit: false, note: Note::Ignored };
            },
        }
        match event {
            Event::Message(payload) => {
                let bytes = match payload {
                    Some(bytes) => bytes,
                    None => {
                        return Reaction { emission: None, commit: true, note: Note::NoPayload };
                    },
                };
                let text = match utf8_text(bytes) {
                    Some(text) => text,
                    None => {
                        return Reaction { emission: None, commit: true, note: Note::NotUtf8 };
                    },
                };
                match parse_price_from_payload(text) {
                    Some((token, price)) => self.observe(token.as_str(), price, now),
                    None => Reaction { emission: None, commit: true, note: Note::Unparsable },
                }
            },
            Event::TransportError => Reaction {
                emission: None,
                commit: false,
                note: Note::TransportError,
            },
            Event::StreamEnded => {
                self.phase = Phase::ShuttingDown;
                Reaction { emission: None, commit: false, note: Note::StreamEnded }
            },
            Event::Shutdown => {
                self.phase = Phase::ShuttingDown;
                Reaction { emission: None, commit: false, note: Note::ShutdownRequested }
            },
        }
    }

    /// One step of the loop. An emission carries the time at which the clock
    /// was read for it; all else is as in `react`.
    pub fn step(&mut self, event: Event) -> (r: Reaction)
        ensures
            (final(self)@, r@) == old(self)@.step(event, r@.stamp()),
            r.emission matches Some(result) ==> result.value <= RSI_FULL,
    {
        let reaction = self.react(event, 0);
        match reaction.emission {
            Some(result) => {
                let stamped = IndicatorResult {
                    token_id: result.token_id,
                    value: result.value,
                    price: result.price,
                    timestamp_ms: now_ms(),
                };
                Reaction { emission: Some(stamped), commit: reaction.commit, note: reaction.note }
            },
            None => reaction,
        }
    }

    /// Leaves the loop: a loop that was stopped is terminated.
    pub fn finish(&mut self)
        ensures
            final(self)@ == old(self)@.finished(),
    {
        proof {
            use_type_invariant(&*self);
        }
        match self.phase {
            Phase::Running => {},
            _ => {
                self.phase = Phase::Terminated;
            },
        }
    }
}

/// A loop that is not running passes over every event: the state stays, no
/// result is emitted, no offset committed.
pub proof fn lemma_stopped_ignores(state: PipelineState, event: Event, now: u128)
    requires
        state.phase != Phase::Running,
    ensures
        state.step(event, now) == (state, ReactionView::quiet(false, Note::Ignored)),
{
}

/// The shutdown signal and the end of the stream stop a running loop at
/// once, and leave the histories as they are.
pub proof fn lemma_stop_is_immediate(state: PipelineState, event: Event, now: u128)
    requires
        state.phase == Phase::Running,
        event is Shutdown || event is StreamEnded,
    ensures
        state.step(event, now).0.phase == Phase::ShuttingDown,
        state.step(event, now).0.histories == state.histories,
        state.step(event, now).1.emission is None,
        !state.step(event, now).1.commit,
{
}

/// Whatever arrives after the loop was stopped changes nothing: the state
/// after the run is the state before it, and every reaction is to ignore.
pub proof fn lemma_stopped_run_is_silent(state: PipelineState, events: Seq<(Event, u128)>)
    requires
        state.phase != Phase::Running,
    ensures
        run(state, events).0 == state,
        run(state, events).1.len() == events.len(),
        forall|i: int|
            0 <= i < events.len() ==> (#[trigger] run(state, events).1[i]) == ReactionView::quiet(
                false,
                Note::Ignored,
            ),
    decreases events.len(),
{
    if events.len() > 0 {
        lemma_stopped_run_is_silent(state, events.drop_first());
    }
}

/// Whether every history holds at least one price and at most `MAX_HISTORY`.
pub open spec fn histories_bounded(histories: Map<Seq<char>, Seq<i64>>) -> bool {
    forall|token: Seq<char>| #[trigger]
        histories.contains_key(token) ==> 1 <= histories[token].len() <= MAX_HISTORY
}

/// A step keeps the histories bounded and the period as it is, and never
/// brings a stopped loop back to running.
pub proof fn lemma_step_keeps_bound(state: PipelineState, event: Event, now: u128)
    requires
        histories_bounded(state.histories),
    ensures
        histories_bounded(state.step(event, now).0.histories),
        state.step(event, now).0.period == state.period,
        state.phase != Phase::Running ==> state.step(event, now).0.phase == state.phase,
{
    if state.phase == Phase::Running {
        if let Event::Message(Some(bytes)) = event {
            if valid_utf8(bytes@) {
                if let Some((token, price)) = trade_of_payload(decode_utf8(bytes@)) {
                    lemma_recorded_keeps_bound(state.histories, token, price);
                }
            }
        }
    }
}

/// From a state whose histories are bounded, and so from a new loop, every
/// run of events leads to a state whose histories are bounded.
pub proof fn lemma_run_keeps_bound(state: PipelineState, events: Seq<(Event, u128)>)
    requires
        histories_bounded(state.histories),
    ensures
        histories_bounded(run(state, events).0.histories),
        run(state, events).0.period == state.period,
    decreases events.len(),
{
    if events.len() > 0 {
        lemma_step_keeps_bound(state, events[0].0, events[0].1);
        lemma_run_keeps_bound(state.step(events[0].0, events[0].1).0, events.drop_first());
    }
}

/// A result is emitted exactly when the history of the token, the new price
/// included, holds more than `period` prices; its value is then at most 100.
pub proof fn lemma_emission_iff_enough(
    state: PipelineState,
    token: Seq<char>,
    price: i64,
    now: u128,
)
    ensures
        state.emission(token, price, now) is Some <==> history_of(
            recorded(state.histories, token, price),
            token,
        ).len() >= state.period + 1,
        state.emission(token, price, now) matches Some(result) ==> result.value <= RSI_FULL,
{
    lemma_rsi_in_range(
        history_of(recorded(state.histories, token, price), token),
        state.period,
    );
}

} // verus!
