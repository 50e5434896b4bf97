//! The event protocol spoken to the notification endpoint, and its client.

pub mod client;
pub mod json;
pub mod protocol;

pub use client::IpcClient;
pub use protocol::Message;
