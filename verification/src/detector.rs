//! Streaming detection of the session state from relayed terminal output.
//!
//! The detector feeds every chunk of output to its buffer, asks the
//! classifier what the recent lines look like, and commits a change of
//! state only once the same candidate has been seen again after the
//! debounce interval. It also keeps the time since work began.

pub mod buffer;
pub mod lines;
pub mod patterns;
pub mod state;
pub mod text;

pub use buffer::OutputBuffer;
pub use patterns::PatternMatcher;
pub use state::SessionState;

use vstd::prelude::*;
use vstd::string::{StrSliceExecFns, StringExecFns};
use crate::clock::{elapsed, elapsed_nanos};
use crate::detector::buffer::{
    absorb, ansi_stripped, empty_buffer, first_live_text, is_line, joined,
    lemma_last_line_is_first_of_window, live, live_at, live_texts, visible_texts, BufferView,
    LineEntry,
};
use crate::detector::patterns::{
    any_hit, approval_needed, completed, failed, idle_patterns, idle_prompt, PatternSets,
};

verus! {

/// How long a candidate has to last before it is committed, in nanoseconds.
pub const STATE_DEBOUNCE_NANOS: u64 = 500_000_000;

/// How long work has to last before its end is worth a notification, in
/// nanoseconds.
pub const MIN_WORKING_DURATION_NANOS: u64 = 30_000_000_000;

/// The nanoseconds in a second.
pub const NANOS_PER_SEC: u64 = 1_000_000_000;

/// The most characters that the detail line has.
pub const DETAILS_MAX_CHARS: usize = 100;

/// The characters that are kept of a detail line that is too long.
pub const DETAILS_KEPT_CHARS: usize = 97;

/// The state that the four findings of the classifier amount to: a request
/// for approval comes before a failure, that before a completed task, that
/// before the idle prompt; with none of them the session is working.
pub open spec fn classify(approval: bool, failure: bool, completion: bool, idle: bool) -> SessionState {
    if approval {
        SessionState::AwaitingApproval
    } else if failure {
        SessionState::Error
    } else if completion {
        SessionState::Completed
    } else if idle {
        SessionState::Idle
    } else {
        SessionState::Working
    }
}

/// The state that a window of text shows at this instant.
pub open spec fn detected_state(text: Seq<char>) -> SessionState {
    classify(approval_needed(text), failed(text), completed(text), idle_prompt(text))
}

/// The part of the detector that the debounce works on.
pub ghost struct Debounce {
    /// The committed state.
    pub current: SessionState,
    /// The candidate that waits to be committed.
    pub pending: Option<SessionState>,
    /// When the candidate was first proposed, or the last state committed.
    pub last_change: u64,
    /// When work began, while the session is working.
    pub working_started: Option<u64>,
}

/// A committed change of state: the new state, and the whole seconds that
/// the session had worked where it left `Working`.
pub type Transition = (SessionState, Option<u64>);

/// Whole seconds from `earlier` to `now`.
pub open spec fn whole_seconds(now: u64, earlier: u64) -> u64 {
    (elapsed(now, earlier) / NANOS_PER_SEC as int) as u64
}

/// The working time that a change away from the committed state reports
/// at `now`: the whole seconds since work began where that state is
/// `Working`, nothing otherwise.
pub open spec fn reported_duration(d: Debounce, now: u64) -> Option<u64> {
    match d.working_started {
        Some(started) if d.current == SessionState::Working => Some(whole_seconds(now, started)),
        _ => None,
    }
}

/// The state after `candidate` was committed at `now`.
pub open spec fn committed(d: Debounce, candidate: SessionState, now: u64) -> Debounce {
    Debounce {
        current: candidate,
        pending: None,
        last_change: now,
        working_started: if candidate == SessionState::Working {
            Some(now)
        } else if d.current == SessionState::Working {
            None
        } else {
            d.working_started
        },
    }
}

/// Whether observing `candidate` at `now` commits it.
pub open spec fn commits(d: Debounce, candidate: SessionState, now: u64) -> bool {
    &&& candidate != d.current
    &&& d.pending == Some(candidate)
    &&& elapsed(now, d.last_change) >= STATE_DEBOUNCE_NANOS
}

/// The debounce: what becomes of the state when `candidate` is observed at
/// `now`, and the change that is committed, if any.
pub open spec fn observe(d: Debounce, candidate: SessionState, now: u64) -> (
    Debounce,
    Option<Transition>,
) {
    if candidate == d.current {
        (Debounce { pending: None, ..d }, None)
    } else if d.pending != Some(candidate) {
        (Debounce { pending: Some(candidate), last_change: now, ..d }, None)
    } else if elapsed(now, d.last_change) >= STATE_DEBOUNCE_NANOS {
        (committed(d, candidate, now), Some((candidate, reported_duration(d, now))))
    } else {
        (d, None)
    }
}

/// What holds of the debounce at all times: the work timer runs exactly
/// while the session is working, and the pending candidate is never the
/// committed state.
pub open spec fn consistent(d: Debounce) -> bool {
    &&& (d.current == SessionState::Working) == (d.working_started is Some)
    &&& d.pending != Some(d.current)
}

/// The debounce of a session that has just started at `now`.
pub open spec fn fresh(now: u64) -> Debounce {
    Debounce {
        current: SessionState::Working,
        pending: None,
        last_change: now,
        working_started: Some(now),
    }
}

/// How long the session has been working at `now`, in nanoseconds; `None`
/// while the work timer does not run.
pub open spec fn working_time(d: Debounce, now: u64) -> Option<u64> {
    match d.working_started {
        Some(started) => Some(elapsed(now, started) as u64),
        None => None,
    }
}

/// Whether at `now` the session has been working for at least
/// [`MIN_WORKING_DURATION_NANOS`].
pub open spec fn worked_long_enough(d: Debounce, now: u64) -> bool {
    match d.working_started {
        Some(started) => elapsed(now, started) >= MIN_WORKING_DURATION_NANOS,
        None => false,
    }
}

/// A detail line cut to [`DETAILS_MAX_CHARS`]: one that is longer keeps its
/// first [`DETAILS_KEPT_CHARS`] characters and ends in three dots.
pub open spec fn clipped(line: Seq<char>) -> Seq<char> {
    if line.len() > DETAILS_MAX_CHARS {
        line.take(DETAILS_KEPT_CHARS as int) + seq!['.', '.', '.']
    } else {
        line
    }
}

/// The detail line for a list of remembered lines read at `now`.
pub open spec fn details_of(buffer: BufferView, now: u64) -> Seq<char> {
    match first_live_text(buffer.recent, now) {
        Some(line) => clipped(line),
        None => Seq::empty(),
    }
}

/// What a [`StateDetector`] holds.
pub ghost struct DetectorView {
    pub buffer: BufferView,
    pub debounce: Debounce,
}

/// The detector after it took in `data` at `now`, and the change of state
/// that this committed, if any.
pub open spec fn process(before: DetectorView, data: Seq<u8>, now: u64) -> (
    DetectorView,
    Option<Transition>,
) {
    let buffer = absorb(before.buffer, ansi_stripped(data), now);
    let candidate = detected_state(joined(live_texts(buffer.recent, now)));
    let (debounce, transition) = observe(before.debounce, candidate, now);
    (DetectorView { buffer, debounce }, transition)
}

/// A state is committed only where the same candidate was pending and the
/// debounce interval has passed since it was proposed; nothing else changes
/// the committed state.
pub proof fn lemma_commit_needs_debounce(d: Debounce, candidate: SessionState, now: u64)
    ensures
        observe(d, candidate, now).1 is Some ==> commits(d, candidate, now),
        observe(d, candidate, now).0.current != d.current ==> commits(d, candidate, now),
        !commits(d, candidate, now) ==> observe(d, candidate, now).0.current == d.current,
{
}

/// A candidate that is observed again once the debounce interval has
/// passed is committed, and the change is reported.
pub proof fn lemma_commit_after_debounce(d: Debounce, candidate: SessionState, now: u64)
    requires
        commits(d, candidate, now),
    ensures
        observe(d, candidate, now).0.current == candidate,
        observe(d, candidate, now).0.pending is None,
        observe(d, candidate, now).1 == Some((candidate, reported_duration(d, now))),
{
}

/// A candidate that is observed again before the debounce interval has
/// passed changes nothing.
pub proof fn lemma_early_observation_changes_nothing(
    d: Debounce,
    candidate: SessionState,
    now: u64,
)
    requires
        candidate != d.current,
        d.pending == Some(candidate),
        elapsed(now, d.last_change) < STATE_DEBOUNCE_NANOS,
    ensures
        observe(d, candidate, now) == (d, None::<Transition>),
{
}

/// A candidate that is seen first at `first` and again at `second` is
/// committed by the second observation exactly if the debounce interval
/// lies between the two.
pub proof fn lemma_two_observations(d: Debounce, candidate: SessionState, first: u64, second: u64)
    requires
        candidate != d.current,
        d.pending != Some(candidate),
    ensures
        observe(d, candidate, first).1 is None,
        observe(d, candidate, first).0.current == d.current,
        observe(observe(d, candidate, first).0, candidate, second).1 is Some <==> elapsed(
            second,
            first,
        ) >= STATE_DEBOUNCE_NANOS,
        observe(observe(d, candidate, first).0, candidate, second).0.current == if elapsed(
            second,
            first,
        ) >= STATE_DEBOUNCE_NANOS {
            candidate
        } else {
            d.current
        },
{
}

/// The debounce after `candidate` was observed at each of `times`, in
/// that order.
pub open spec fn observe_all(d: Debounce, candidate: SessionState, times: Seq<u64>) -> Debounce
    decreases times.len(),
{
    if times.len() == 0 {
        d
    } else {
        observe(observe_all(d, candidate, times.drop_last()), candidate, times.last()).0
    }
}

/// A candidate that is observed without interruption, any number of times,
/// becomes the committed state exactly if one of the observations after the
/// first comes at least the debounce interval after the first; until then
/// the committed state stays what it was.
pub proof fn lemma_continuous_observation(d: Debounce, candidate: SessionState, times: Seq<u64>)
    requires
        candidate != d.current,
        d.pending != Some(candidate),
        times.len() > 0,
    ensures
        observe_all(d, candidate, times).current == candidate <==> exists|i: int|
            0 < i < times.len() && elapsed(#[trigger] times[i], times[0])
                >= STATE_DEBOUNCE_NANOS,
        observe_all(d, candidate, times).current != candidate ==> {
            &&& observe_all(d, candidate, times).current == d.current
            &&& observe_all(d, candidate, times).pending == Some(candidate)
            &&& observe_all(d, candidate, times).last_change == times[0]
        },
    decreases times.len(),
{
    let earlier = times.drop_last();
    if earlier.len() == 0 {
        assert(observe_all(d, candidate, earlier) == d);
    } else {
        lemma_continuous_observation(d, candidate, earlier);
        assert(earlier[0] == times[0]);
        let before = observe_all(d, candidate, earlier);
        if before.current == candidate {
            let i = choose|i: int|
                0 < i < earlier.len() && elapsed(#[trigger] earlier[i], earlier[0])
                    >= STATE_DEBOUNCE_NANOS;
            assert(times[i] == earlier[i]);
        } else {
            let after = observe_all(d, candidate, times);
            if after.current == candidate {
                assert(elapsed(times[times.len() - 1], times[0]) >= STATE_DEBOUNCE_NANOS);
            } else {
                assert forall|i: int| 0 < i < times.len() implies elapsed(
                    #[trigger] times[i],
                    times[0],
                ) < STATE_DEBOUNCE_NANOS by {
                    if i < earlier.len() {
                        assert(times[i] == earlier[i]);
                    }
                }
            }
        }
    }
}

/// Observing the committed state drops the pending candidate and reports
/// nothing.
pub proof fn lemma_current_state_clears_pending(d: Debounce, now: u64)
    ensures
        observe(d, d.current, now).0.pending is None,
        observe(d, d.current, now).0.current == d.current,
        observe(d, d.current, now).1 is None,
{
}

/// A change away from `Working` reports the whole seconds since work
/// began; a change between two other states reports no working time.
pub proof fn lemma_working_time_reported(d: Debounce, candidate: SessionState, now: u64)
    requires
        consistent(d),
        commits(d, candidate, now),
    ensures
        d.current == SessionState::Working ==> observe(d, candidate, now).1 == Some(
            (candidate, Some(whole_seconds(now, d.working_started->0))),
        ),
        d.current != SessionState::Working ==> observe(d, candidate, now).1 == Some(
            (candidate, None::<u64>),
        ),
{
}

/// The debounce stays consistent whatever is observed.
pub proof fn lemma_observe_consistent(d: Debounce, candidate: SessionState, now: u64)
    requires
        consistent(d),
    ensures
        consistent(observe(d, candidate, now).0),
{
}

/// Of the window that a buffer gives, the line that decides whether the
/// idle prompt shows is the last one: the readable line that has been
/// remembered longest. A window with a single readable line shows the
/// prompt exactly if that line bears its signature.
pub proof fn lemma_idle_prompt_of_window(recent: Seq<LineEntry>, now: u64)
    requires
        visible_texts(recent),
    ensures
        live_texts(recent, now).len() == 0 ==> !idle_prompt(joined(live_texts(recent, now))),
        live_texts(recent, now).len() > 0 ==> idle_prompt(joined(live_texts(recent, now)))
            == any_hit(idle_patterns(), live_texts(recent, now).last()),
{
    let readable = live_texts(recent, now);
    lemma_last_line_is_first_of_window(recent, now);
    if readable.len() > 0 {
        let kept = live(recent, now);
        let last = readable.last();
        assert(last == kept[kept.len() - 1].text);
        assert(kept.contains(kept[kept.len() - 1]));
        recent.lemma_filter_contains_rev(live_at(now), kept[kept.len() - 1]);
        let k = choose|k: int| 0 <= k < recent.len() && recent[k] == kept[kept.len() - 1];
        assert(is_line(recent[k].text));
    }
}

/// A request for approval wins over everything else that the same window
/// shows, a completed task and the idle prompt included.
pub proof fn lemma_approval_comes_first(text: Seq<char>)
    requires
        approval_needed(text),
    ensures
        detected_state(text) == SessionState::AwaitingApproval,
{
}

/// The order of the findings: each state is detected exactly where its own
/// finding holds and none of those before it.
pub proof fn lemma_priority_order(text: Seq<char>)
    ensures
        detected_state(text) == SessionState::AwaitingApproval <==> approval_needed(text),
        detected_state(text) == SessionState::Error <==> !approval_needed(text) && failed(text),
        detected_state(text) == SessionState::Completed <==> !approval_needed(text) && !failed(
            text,
        ) && completed(text),
        detected_state(text) == SessionState::Idle <==> !approval_needed(text) && !failed(text)
            && !completed(text) && idle_prompt(text),
        detected_state(text) == SessionState::Working <==> !approval_needed(text) && !failed(
            text,
        ) && !completed(text) && !idle_prompt(text),
{
}

/// The debounce as the detector stores it.
struct DebounceState {
    current_state: SessionState,
    last_state_change: u64,
    pending_state: Option<SessionState>,
    working_started: Option<u64>,
}

impl View for DebounceState {
    type V = Debounce;

    closed spec fn view(&self) -> Debounce {
        Debounce {
            current: self.current_state,
            pending: self.pending_state,
            last_change: self.last_state_change,
            working_started: self.working_started,
        }
    }
}

impl DebounceState {
    #[verifier::type_invariant]
    spec fn kept_consistent(self) -> bool {
        consistent(self@)
    }

    fn start(now: u64) -> (state: Self)
        ensures
            state@ == fresh(now),
    {
        DebounceState {
            current_state: SessionState::Working,
            last_state_change: now,
            pending_state: None,
            working_started: Some(now),
        }
    }

    fn observe_at(&mut self, candidate: SessionState, now: u64) -> (transition: Option<Transition>)
        ensures
            (final(self)@, transition) == observe(old(self)@, candidate, now),
            consistent(old(self)@),
            consistent(final(self)@),
    {
        proof {
            use_type_invariant(&*self);
        }
        if candidate == self.current_state {
            self.pending_state = None;
            return None;
        }
        let proposed = match self.pending_state {
            Some(pending) => pending == candidate,
            None => false,
        };
        if !proposed {
            self.pending_state = Some(candidate);
            self.last_state_change = now;
            return None;
        }
        if elapsed_nanos(now, self.last_state_change) < STATE_DEBOUNCE_NANOS {
            return None;
        }
        let previous = self.current_state;
        let duration = if previous == SessionState::Working {
            match self.working_started {
                Some(started) => Some(elapsed_nanos(now, started) / NANOS_PER_SEC),
                None => None,
            }
        } else {
            None
        };
        let fresh_state = DebounceState {
            current_state: candidate,
            last_state_change: now,
            pending_state: None,
            working_started: if candidate == SessionState::Working {
                Some(now)
            } else {
                None
            },
        };
        *self = fresh_state;
        Some((candidate, duration))
    }
}

/// Follows the state of a session through its terminal output.
pub struct StateDetector {
    buffer: OutputBuffer,
    debounce: DebounceState,
    patterns: PatternSets,
}

impl View for StateDetector {
    type V = DetectorView;

    closed spec fn view(&self) -> DetectorView {
        DetectorView { buffer: self.buffer@, debounce: self.debounce@ }
    }
}

impl StateDetector {
    /// A detector for a session that starts now, in `Working`.
    pub fn new() -> (detector: Self)
        ensures
            detector@.buffer == empty_buffer(),
            exists|now: u64| detector@.debounce == fresh(now),
    {
        let buffer = OutputBuffer::new();
        let now = buffer.now();
        let detector = StateDetector {
            buffer,
            debounce: DebounceState::start(now),
            patterns: PatternSets::new(),
        };
        assert(detector@.debounce == fresh(now));
        detector
    }

    /// The time on the detector's clock.
    pub fn now(&self) -> u64 {
        self.buffer.now()
    }

    /// The state that the four findings of the classifier amount to.
    pub fn classify(approval: bool, failure: bool, completion: bool, idle: bool) -> (state:
        SessionState)
        ensures
            state == classify(approval, failure, completion, idle),
    {
        if approval {
            SessionState::AwaitingApproval
        } else if failure {
            SessionState::Error
        } else if completion {
            SessionState::Completed
        } else if idle {
            SessionState::Idle
        } else {
            SessionState::Working
        }
    }

    /// The state that `text` shows at this instant.
    pub fn detect_state(&self, text: &str) -> (state: SessionState)
        ensures
            state == detected_state(text@),
    {
        if self.patterns.is_approval_needed(text) {
            return SessionState::AwaitingApproval;
        }
        if self.patterns.is_error(text) {
            return SessionState::Error;
        }
        if self.patterns.is_completed(text) {
            return SessionState::Completed;
        }
        if self.patterns.is_idle_prompt(text) {
            return SessionState::Idle;
        }
        SessionState::Working
    }

    /// The debounce: takes note that `candidate` was observed at `now`, and
    /// returns the change of state that this commits, if any.
    pub fn observe_at(&mut self, candidate: SessionState, now: u64) -> (transition: Option<
        Transition,
    >)
        ensures
            final(self)@.buffer == old(self)@.buffer,
            (final(self)@.debounce, transition) == observe(old(self)@.debounce, candidate, now),
            consistent(old(self)@.debounce),
            consistent(final(self)@.debounce),
    {
        self.debounce.observe_at(candidate, now)
    }

    /// Takes in a chunk of output at the time `now` and returns the change
    /// of state that this commits, if any.
    pub fn process_output_at(&mut self, data: &[u8], now: u64) -> (transition: Option<Transition>)
        ensures
            (final(self)@, transition) == process(old(self)@, data@, now),
            consistent(old(self)@.debounce),
            consistent(final(self)@.debounce),
    {
        self.buffer.append_at(data, now);
        let text = self.buffer.get_recent_text_at(now);
        let candidate = self.detect_state(text.as_str());
        self.debounce.observe_at(candidate, now)
    }

    /// Takes in a chunk of output at the time the detector's clock shows
    /// and returns the change of state that this commits, if any.
    pub fn process_output(&mut self, data: &[u8]) -> (transition: Option<Transition>)
        ensures
            exists|now: u64| (final(self)@, transition) == process(old(self)@, data@, now),
            consistent(old(self)@.debounce),
            consistent(final(self)@.debounce),
    {
        let now = self.buffer.now();
        self.process_output_at(data, now)
    }

    /// The committed state.
    pub fn current_state(&self) -> (state: SessionState)
        ensures
            state == self@.debounce.current,
    {
        self.debounce.current_state
    }

    /// The latest line that is readable at `now`, cut to
    /// [`DETAILS_MAX_CHARS`]; empty where no line is readable.
    pub fn get_details_at(&self, now: u64) -> (details: String)
        ensures
            details@ == details_of(self@.buffer, now),
    {
        match self.buffer.get_last_line_at(now) {
            Some(line) => {
                if line.unicode_len() > DETAILS_MAX_CHARS {
                    proof {
                        reveal_strlit("...");
                        assert("..."@ =~= seq!['.', '.', '.']);
                    }
                    String::from_str(line.substring_char(0, DETAILS_KEPT_CHARS)).concat("...")
                } else {
                    String::from_str(line)
                }
            },
            None => String::new(),
        }
    }

    /// The latest line that is readable at the time the detector's clock
    /// shows, cut to [`DETAILS_MAX_CHARS`].
    pub fn get_details(&self) -> (details: String)
        ensures
            exists|now: u64| details@ == details_of(self@.buffer, now),
    {
        let now = self.buffer.now();
        self.get_details_at(now)
    }

    /// Puts the detector back to where a session starts, at the time `now`:
    /// `Working`, with nothing buffered, nothing pending and a work timer
    /// that starts at `now`.
    pub fn reset_at(&mut self, now: u64)
        ensures
            final(self)@.buffer == empty_buffer(),
            final(self)@.debounce == fresh(now),
    {
        self.debounce = DebounceState::start(now);
        self.buffer.clear();
    }

    /// Puts the detector back to where a session starts, at the time the
    /// detector's clock shows.
    pub fn reset(&mut self)
        ensures
            final(self)@.buffer == empty_buffer(),
            exists|now: u64| final(self)@.debounce == fresh(now),
    {
        let now = self.buffer.now();
        self.reset_at(now);
    }

    /// How long the session has been working at `now`, in nanoseconds;
    /// `None` while it is not working.
    pub fn working_duration_at(&self, now: u64) -> (duration: Option<u64>)
        ensures
            duration is Some <==> self@.debounce.current == SessionState::Working,
            duration == working_time(self@.debounce, now),
    {
        proof {
            use_type_invariant(&self.debounce);
        }
        match self.debounce.working_started {
            Some(started) => Some(elapsed_nanos(now, started)),
            None => None,
        }
    }

    /// How long the session has been working at the time the detector's
    /// clock shows, in nanoseconds; `None` while it is not working.
    pub fn working_duration(&self) -> (duration: Option<u64>)
        ensures
            duration is Some <==> self@.debounce.current == SessionState::Working,
            exists|now: u64| duration == working_time(self@.debounce, now),
    {
        let now = self.buffer.now();
        self.working_duration_at(now)
    }

    /// Whether at `now` the session has been working for at least
    /// [`MIN_WORKING_DURATION_NANOS`].
    pub fn worked_long_enough_for_notification_at(&self, now: u64) -> (enough: bool)
        ensures
            enough == worked_long_enough(self@.debounce, now),
            enough ==> self@.debounce.current == SessionState::Working,
    {
        proof {
            use_type_invariant(&self.debounce);
        }
        match self.debounce.working_started {
            Some(started) => elapsed_nanos(now, started) >= MIN_WORKING_DURATION_NANOS,
            None => false,
        }
    }

    /// Whether the session has been working long enough for the end of its
    /// work to be worth a notification.
    pub fn worked_long_enough_for_notification(&self) -> (enough: bool)
        ensures
            enough ==> self@.debounce.current == SessionState::Working,
            exists|now: u64| enough == worked_long_enough(self@.debounce, now),
    {
        let now = self.buffer.now();
        self.worked_long_enough_for_notification_at(now)
    }
}

impl Default for StateDetector {
    fn default() -> (detector: Self)
        ensures
            detector@.buffer == empty_buffer(),
            exists|now: u64| detector@.debounce == fresh(now),
    {
        StateDetector::new()
    }
}

} // verus!
