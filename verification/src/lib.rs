//! Session supervision for an interactive tool running behind a pseudo-terminal:
//! the streaming state detector that watches the relayed bytes, the event
//! protocol that reports its transitions, and the decisions of the relay itself.

pub mod clock;
pub mod detector;
pub mod error;
pub mod ipc;
pub mod project;
pub mod pty;
