//! Session events and their wire encoding: one flat JSON record per line,
//! every field named, absent fields left out.

use vstd::prelude::*;
use vstd::string::StringExecFns;
use crate::detector::state::SessionState;
use crate::ipc::json::{
    decimal, json_literal, push_decimal, push_signed_decimal, quoted, signed_decimal,
};

verus! {

/// An event of one session. `session_id` ties the events of a session together.
#[derive(Debug, Clone)]
pub enum Message {
    Start { session_id: String, tool: String, project_name: String, pid: u32 },
    State {
        session_id: String,
        state: SessionState,
        details: String,
        /// Seconds spent working before this change of state.
        working_duration_secs: Option<u64>,
    },
    End { session_id: String, exit_code: i32 },
}

/// A [`Message`] with its texts as sequences of characters.
pub ghost enum MessageView {
    Start { session_id: Seq<char>, tool: Seq<char>, project_name: Seq<char>, pid: u32 },
    State {
        session_id: Seq<char>,
        state: SessionState,
        details: Seq<char>,
        working_duration_secs: Option<u64>,
    },
    End { session_id: Seq<char>, exit_code: i32 },
}

impl View for Message {
    type V = MessageView;

    open spec fn view(&self) -> MessageView {
        match *self {
            Message::Start { session_id, tool, project_name, pid } => MessageView::Start {
                session_id: session_id@,
                tool: tool@,
                project_name: project_name@,
                pid,
            },
            Message::State {
                session_id,
                state,
                details,
                working_duration_secs,
            } => MessageView::State {
                session_id: session_id@,
                state,
                details: details@,
                working_duration_secs,
            },
            Message::End { session_id, exit_code } => MessageView::End {
                session_id: session_id@,
                exit_code,
            },
        }
    }
}

/// The record of a session start. The three texts are JSON string literals.
pub open spec fn start_record(
    session_id: Seq<char>,
    tool: Seq<char>,
    project_name: Seq<char>,
    pid: u32,
) -> Seq<char> {
    "{\"type\":\"START\",\"session_id\":"@ + session_id + ",\"tool\":"@ + tool
        + ",\"project_name\":"@ + project_name + ",\"pid\":"@ + decimal(pid as nat) + "}\n"@
}

/// The field that carries the working duration, or nothing where it is absent.
pub open spec fn duration_field(working_duration_secs: Option<u64>) -> Seq<char> {
    match working_duration_secs {
        Some(secs) => ",\"working_duration_secs\":"@ + decimal(secs as nat),
        None => Seq::empty(),
    }
}

/// The record of a change of state. The two texts are JSON string literals.
pub open spec fn state_record(
    session_id: Seq<char>,
    state: SessionState,
    details: Seq<char>,
    working_duration_secs: Option<u64>,
) -> Seq<char> {
    "{\"type\":\"STATE\",\"session_id\":"@ + session_id + ",\"state\":\""@ + state.wire_name()
        + "\",\"details\":"@ + details + duration_field(working_duration_secs) + "}\n"@
}

/// The record of a session end. The text is a JSON string literal.
pub open spec fn end_record(session_id: Seq<char>, exit_code: i32) -> Seq<char> {
    "{\"type\":\"END\",\"session_id\":"@ + session_id + ",\"exit_code\":"@ + signed_decimal(
        exit_code as int,
    ) + "}\n"@
}

/// The line that goes over the wire for an event: its record, with every
/// text as a JSON string literal.
pub open spec fn wire_text(message: MessageView) -> Seq<char> {
    match message {
        MessageView::Start { session_id, tool, project_name, pid } => start_record(
            json_literal(session_id),
            json_literal(tool),
            json_literal(project_name),
            pid,
        ),
        MessageView::State { session_id, state, details, working_duration_secs } => state_record(
            json_literal(session_id),
            state,
            json_literal(details),
            working_duration_secs,
        ),
        MessageView::End { session_id, exit_code } => end_record(
            json_literal(session_id),
            exit_code,
        ),
    }
}

impl Message {
    pub fn start(session_id: &str, tool: &str, project_name: &str, pid: u32) -> (message: Self)
        ensures
            message@ == (MessageView::Start {
                session_id: session_id@,
                tool: tool@,
                project_name: project_name@,
                pid,
            }),
    {
        Message::Start {
            session_id: String::from_str(session_id),
            tool: String::from_str(tool),
            project_name: String::from_str(project_name),
            pid,
        }
    }

    /// A change of state that carries no working duration.
    pub fn state(session_id: &str, state: SessionState, details: &str) -> (message: Self)
        ensures
            message@ == (MessageView::State {
                session_id: session_id@,
                state,
                details: details@,
                working_duration_secs: None,
            }),
    {
        Message::State {
            session_id: String::from_str(session_id),
            state,
            details: String::from_str(details),
            working_duration_secs: None,
        }
    }

    pub fn state_with_duration(
        session_id: &str,
        state: SessionState,
        details: &str,
        working_duration_secs: Option<u64>,
    ) -> (message: Self)
        ensures
            message@ == (MessageView::State {
                session_id: session_id@,
                state,
                details: details@,
                working_duration_secs,
            }),
    {
        Message::State {
            session_id: String::from_str(session_id),
            state,
            details: String::from_str(details),
            working_duration_secs,
        }
    }

    pub fn end(session_id: &str, exit_code: i32) -> (message: Self)
        ensures
            message@ == (MessageView::End { session_id: session_id@, exit_code }),
    {
        Message::End { session_id: String::from_str(session_id), exit_code }
    }

    /// Puts the record of a session start together from texts that are
    /// already JSON string literals.
    pub fn encode_start(session_id: &str, tool: &str, project_name: &str, pid: u32) -> (line:
        String)
        ensures
            line@ == start_record(session_id@, tool@, project_name@, pid),
    {
        let mut line = String::from_str("{\"type\":\"START\",\"session_id\":");
        line.append(session_id);
        line.append(",\"tool\":");
        line.append(tool);
        line.append(",\"project_name\":");
        line.append(project_name);
        line.append(",\"pid\":");
        push_decimal(&mut line, pid as u64);
        line.append("}\n");
        line
    }

    /// Puts the record of a change of state together from texts that are
    /// already JSON string literals.
    pub fn encode_state(
        session_id: &str,
        state: SessionState,
        details: &str,
        working_duration_secs: Option<u64>,
    ) -> (line: String)
        ensures
            line@ == state_record(session_id@, state, details@, working_duration_secs),
    {
        let mut line = String::from_str("{\"type\":\"STATE\",\"session_id\":");
        line.append(session_id);
        line.append(",\"state\":\"");
        line.append(state.as_str());
        line.append("\",\"details\":");
        line.append(details);
        match working_duration_secs {
            Some(secs) => {
                line.append(",\"working_duration_secs\":");
                push_decimal(&mut line, secs);
            },
            None => {
                assert(line@ + duration_field(working_duration_secs) =~= line@);
            },
        }
        line.append("}\n");
        line
    }

    /// Puts the record of a session end together from a text that is already
    /// a JSON string literal.
    pub fn encode_end(session_id: &str, exit_code: i32) -> (line: String)
        ensures
            line@ == end_record(session_id@, exit_code),
    {
        let mut line = String::from_str("{\"type\":\"END\",\"session_id\":");
        line.append(session_id);
        line.append(",\"exit_code\":");
        push_signed_decimal(&mut line, exit_code as i64);
        line.append("}\n");
        line
    }

    /// The line that goes over the wire for this event, line break
    /// included.
    pub fn serialize(&self) -> (line: String)
        ensures
            line@ == wire_text(self@),
    {
        match self {
            Message::Start { session_id, tool, project_name, pid } => {
                let session_id = quoted(session_id.as_str());
                let tool = quoted(tool.as_str());
                let project_name = quoted(project_name.as_str());
                Message::encode_start(
                    session_id.as_str(),
                    tool.as_str(),
                    project_name.as_str(),
                    *pid,
                )
            },
            Message::State { session_id, state, details, working_duration_secs } => {
                let session_id = quoted(session_id.as_str());
                let details = quoted(details.as_str());
                Message::encode_state(
                    session_id.as_str(),
                    *state,
                    details.as_str(),
                    *working_duration_secs,
                )
            },
            Message::End { session_id, exit_code } => {
                let session_id = quoted(session_id.as_str());
                Message::encode_end(session_id.as_str(), *exit_code)
            },
        }
    }
}

} // verus!
