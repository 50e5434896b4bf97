//! The decisions of the relay.
//!
//! The relay itself, which owns the pseudo-terminal, the child process and
//! the threads that copy bytes, lives outside this library. What it does at
//! each step is decided here: which events a session reports and when,
//! what a read that ended one way or another means for the loop that made
//! it, and which values stand in for those the machine does not give.

use vstd::prelude::*;
use vstd::string::StringExecFns;
use crate::detector::state::SessionState;
use crate::detector::buffer::empty_buffer;
use crate::detector::{details_of, fresh, process, DetectorView, StateDetector};
use crate::ipc::client::IpcClient;
use crate::ipc::protocol::{Message, MessageView};

verus! {

/// The columns assumed for a terminal that does not tell its size.
pub const DEFAULT_COLS: u16 = 80;

/// The rows that go with [`DEFAULT_COLS`].
pub const DEFAULT_ROWS: u16 = 24;

/// How long the output loop waits before it reads again after a read that
/// would have blocked, in milliseconds.
pub const OUTPUT_RETRY_MILLIS: u64 = 10;

/// How long the input loop waits for input before it looks at the stop
/// flag again, in milliseconds.
pub const INPUT_POLL_MILLIS: u64 = 100;

/// The exit code reported for a child whose exit status has none that fits.
pub const UNMAPPABLE_EXIT_CODE: i32 = -1;

/// The terminal type handed to the child where the relay has none itself.
pub open spec fn default_term() -> Seq<char> {
    "xterm-256color"@
}

/// The detail line of the state reported when a session starts.
pub open spec fn starting_details() -> Seq<char> {
    "Starting..."@
}

/// How a read on one of the relay's handles ended.
#[derive(Debug, Clone, Copy, PartialEq, Eq, Structural)]
pub enum ReadOutcome {
    /// The read returned no bytes: the other side is closed.
    Eof,
    /// The read returned bytes.
    Data,
    /// Nothing is there to read at the moment.
    WouldBlock,
    /// The read failed.
    Failed,
}

/// What a loop of the relay does after a read.
#[derive(Debug, Clone, Copy, PartialEq, Eq, Structural)]
pub enum LoopStep {
    /// Pass the bytes on, then read again.
    Forward,
    /// Read again.
    Retry,
    /// Leave the loop.
    Stop,
}

/// The step that follows a read: bytes are passed on, a read that would
/// block is tried again, and the end of the stream ends the loop, as does
/// every failure.
pub open spec fn step_after(outcome: ReadOutcome) -> LoopStep {
    match outcome {
        ReadOutcome::Data => LoopStep::Forward,
        ReadOutcome::WouldBlock => LoopStep::Retry,
        ReadOutcome::Eof => LoopStep::Stop,
        ReadOutcome::Failed => LoopStep::Stop,
    }
}

/// The exit code for the raw exit status of the child.
pub open spec fn mapped_exit_code(status: u32) -> i32 {
    if status <= i32::MAX {
        status as i32
    } else {
        UNMAPPABLE_EXIT_CODE
    }
}

/// What a [`PtyHandler`] holds.
pub ghost struct HandlerView {
    pub session_id: Seq<char>,
    pub tool: Seq<char>,
    pub project_name: Seq<char>,
    /// The path of the notification endpoint.
    pub endpoint: Seq<char>,
    pub detector: DetectorView,
    /// The state that the last event sent told of.
    pub last_reported: SessionState,
}

/// The handler after it saw the chunk `data` of output at `now`, and the
/// event to send, if any: a committed change to a state other than the
/// one reported last.
pub open spec fn relay(before: HandlerView, data: Seq<u8>, now: u64) -> (
    HandlerView,
    Option<MessageView>,
) {
    let (detector, transition) = process(before.detector, data, now);
    match transition {
        Some((state, working_duration_secs)) if state != before.last_reported => (
            HandlerView { detector, last_reported: state, ..before },
            Some(
                MessageView::State {
                    session_id: before.session_id,
                    state,
                    details: details_of(detector.buffer, now),
                    working_duration_secs,
                },
            ),
        ),
        _ => (HandlerView { detector, ..before }, None),
    }
}

/// An event is sent only for a state other than the one reported last, and
/// from then on that state is the one reported last; without an event the
/// state reported last stays.
pub proof fn lemma_no_state_reported_twice(before: HandlerView, data: Seq<u8>, now: u64)
    ensures
        relay(before, data, now).1 matches Some(event) ==> event matches MessageView::State {
            state,
            ..
        } && state != before.last_reported && relay(before, data, now).0.last_reported == state,
        relay(before, data, now).1 is None ==> relay(before, data, now).0.last_reported
            == before.last_reported,
{
}

/// While the state reported last is the committed state, every committed
/// change is reported, and the two stay the same.
pub proof fn lemma_every_change_reported(before: HandlerView, data: Seq<u8>, now: u64)
    requires
        before.last_reported == before.detector.debounce.current,
    ensures
        relay(before, data, now).1 is Some <==> process(before.detector, data, now).1 is Some,
        relay(before, data, now).0.last_reported
            == relay(before, data, now).0.detector.debounce.current,
{
}

/// Oversees one session: knows what it is called, follows its state and
/// decides which events to send.
pub struct PtyHandler {
    session_id: String,
    tool: String,
    project_name: String,
    ipc: IpcClient,
    detector: StateDetector,
    last_state: SessionState,
}

impl View for PtyHandler {
    type V = HandlerView;

    closed spec fn view(&self) -> HandlerView {
        HandlerView {
            session_id: self.session_id@,
            tool: self.tool@,
            project_name: self.project_name@,
            endpoint: self.ipc@,
            detector: self.detector@,
            last_reported: self.last_state,
        }
    }
}

impl PtyHandler {
    /// A handler for a session that starts now and reports to `ipc`.
    pub fn new(session_id: String, tool: String, project_name: String, ipc: IpcClient) -> (handler:
        Self)
        ensures
            handler@.session_id == session_id@,
            handler@.tool == tool@,
            handler@.project_name == project_name@,
            handler@.endpoint == ipc@,
            handler@.last_reported == SessionState::Working,
            handler@.detector.buffer == empty_buffer(),
            exists|now: u64| handler@.detector.debounce == fresh(now),
    {
        PtyHandler {
            session_id,
            tool,
            project_name,
            ipc,
            detector: StateDetector::new(),
            last_state: SessionState::Working,
        }
    }

    /// The command that the session runs.
    pub fn tool(&self) -> (tool: &str)
        ensures
            tool@ == self@.tool,
    {
        self.tool.as_str()
    }

    /// The client that the session's events go to.
    pub fn ipc(&self) -> (ipc: &IpcClient)
        ensures
            ipc@ == self@.endpoint,
    {
        &self.ipc
    }

    /// The state that the last event sent told of.
    pub fn last_reported(&self) -> (state: SessionState)
        ensures
            state == self@.last_reported,
    {
        self.last_state
    }

    /// The committed state of the session.
    pub fn current_state(&self) -> (state: SessionState)
        ensures
            state == self@.detector.debounce.current,
    {
        self.detector.current_state()
    }

    /// The size to give the pseudo-terminal: that of the controlling
    /// terminal as columns and rows, or 80 by 24 where it is not known.
    pub fn initial_size(queried: Option<(u16, u16)>) -> (size: (u16, u16))
        ensures
            size == match queried {
                Some(size) => size,
                None => (DEFAULT_COLS, DEFAULT_ROWS),
            },
    {
        match queried {
            Some(size) => size,
            None => (DEFAULT_COLS, DEFAULT_ROWS),
        }
    }

    /// The terminal type to hand to the child: the relay's own, or a
    /// common one where it has none.
    pub fn terminal_type(inherited: Option<String>) -> (term: String)
        ensures
            term@ == match inherited {
                Some(term) => term@,
                None => default_term(),
            },
    {
        match inherited {
            Some(term) => term,
            None => String::from_str("xterm-256color"),
        }
    }

    /// The event that opens the session, for the relay running as process
    /// `pid`.
    pub fn start_message(&self, pid: u32) -> (message: Message)
        ensures
            message@ == (MessageView::Start {
                session_id: self@.session_id,
                tool: self@.tool,
                project_name: self@.project_name,
                pid,
            }),
    {
        Message::start(
            self.session_id.as_str(),
            self.tool.as_str(),
            self.project_name.as_str(),
            pid,
        )
    }

    /// The event that follows the opening one: the session is working.
    pub fn initial_state_message(&self) -> (message: Message)
        ensures
            message@ == (MessageView::State {
                session_id: self@.session_id,
                state: SessionState::Working,
                details: starting_details(),
                working_duration_secs: None,
            }),
    {
        Message::state(self.session_id.as_str(), SessionState::Working, "Starting...")
    }

    /// The event that closes the session.
    pub fn end_message(&self, exit_code: i32) -> (message: Message)
        ensures
            message@ == (MessageView::End { session_id: self@.session_id, exit_code }),
    {
        Message::end(self.session_id.as_str(), exit_code)
    }

    /// The exit code for the raw exit status of the child: the status
    /// itself where it fits, [`UNMAPPABLE_EXIT_CODE`] where it does not.
    pub fn exit_code(status: u32) -> (code: i32)
        ensures
            code == mapped_exit_code(status),
    {
        if status <= 0x7fff_ffff {
            status as i32
        } else {
            UNMAPPABLE_EXIT_CODE
        }
    }

    /// What a loop of the relay does after a read that ended as `outcome`.
    pub fn after_read(outcome: ReadOutcome) -> (step: LoopStep)
        ensures
            step == step_after(outcome),
    {
        match outcome {
            ReadOutcome::Data => LoopStep::Forward,
            ReadOutcome::WouldBlock => LoopStep::Retry,
            ReadOutcome::Eof => LoopStep::Stop,
            ReadOutcome::Failed => LoopStep::Stop,
        }
    }

    /// Takes note of a chunk of the child's output at the time `now` and
    /// returns the event to send, if any.
    pub fn on_output_at(&mut self, data: &[u8], now: u64) -> (event: Option<Message>)
        ensures
            event is Some <==> relay(old(self)@, data@, now).1 is Some,
            event matches Some(message) ==> relay(old(self)@, data@, now).1 == Some(message@),
            final(self)@ == relay(old(self)@, data@, now).0,
    {
        match self.detector.process_output_at(data, now) {
            Some((state, working_duration_secs)) => {
                if state != self.last_state {
                    let details = self.detector.get_details_at(now);
                    let message = Message::state_with_duration(
                        self.session_id.as_str(),
                        state,
                        details.as_str(),
                        working_duration_secs,
                    );
                    self.last_state = state;
                    Some(message)
                } else {
                    None
                }
            },
            None => None,
        }
    }

    /// Takes note of a chunk of the child's output at the time the
    /// session's clock shows and returns the event to send, if any.
    pub fn on_output(&mut self, data: &[u8]) -> (event: Option<Message>)
        ensures
            exists|now: u64|
                {
                    &&& event is Some <==> (#[trigger] relay(old(self)@, data@, now)).1 is Some
                    &&& event matches Some(message) ==> relay(old(self)@, data@, now).1 == Some(
                        message@,
                    )
                    &&& final(self)@ == relay(old(self)@, data@, now).0
                },
    {
        let now = self.detector.now();
        self.on_output_at(data, now)
    }
}

} // verus!
