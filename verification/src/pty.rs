//! The relay between the controlling terminal and the supervised tool.

pub mod handler;

pub use handler::PtyHandler;
