//! The notification client: where events are sent, and what to make of the
//! way a send ended.
//!
//! The client opens a connection for every event, writes one record and
//! closes. Nobody listening is a normal condition and no error. The
//! connection itself is made outside this library, which decides here where
//! the endpoint lies and what the caller is told.

use vstd::prelude::*;
use vstd::string::{StrSliceExecFns, StringExecFns};
use crate::error::{BoopError, ErrorView, Result};

verus! {

/// How long a write to the endpoint may take, in seconds.
pub const SEND_TIMEOUT_SECS: u64 = 1;

/// The directory that the endpoint lies under where the user's home
/// directory is not known.
pub open spec fn fallback_home() -> Seq<char> {
    "/tmp"@
}

/// `base` followed by the relative path `part`, with a separator between
/// the two unless `base` is empty or ends in one.
pub open spec fn path_join(base: Seq<char>, part: Seq<char>) -> Seq<char> {
    if base.len() > 0 && base.last() != '/' {
        base + seq!['/'] + part
    } else {
        base + part
    }
}

/// Where the endpoint lies for a given home directory.
pub open spec fn endpoint_path(home: Option<Seq<char>>) -> Seq<char> {
    let base = match home {
        Some(home) => home,
        None => fallback_home(),
    };
    path_join(path_join(base, ".boop"@), "sock"@)
}

/// How an attempt to send one event ended.
#[derive(Debug, Clone)]
pub enum SendOutcome {
    /// The record was written.
    Sent,
    /// Nothing exists at the endpoint's path.
    NotFound,
    /// Nobody accepts connections at the endpoint.
    ConnectionRefused,
    /// The connection failed for another reason, given as text.
    ConnectFailed(String),
    /// The write timeout could not be set, for the reason given as text.
    TimeoutRefused(String),
    /// The record could not be written, for the reason given as text.
    WriteFailed(String),
}

/// What the caller is told of an attempt to send that ended as `outcome`:
/// nobody listening is a success like a record written; every other
/// failure of the transport is an IPC error that says at which step it
/// came and why.
pub open spec fn verdict(outcome: SendOutcome) -> core::result::Result<(), ErrorView> {
    match outcome {
        SendOutcome::Sent => Ok(()),
        SendOutcome::NotFound => Ok(()),
        SendOutcome::ConnectionRefused => Ok(()),
        SendOutcome::ConnectFailed(reason) => Err(
            ErrorView::Ipc("Failed to connect to socket: "@ + reason@),
        ),
        SendOutcome::TimeoutRefused(reason) => Err(
            ErrorView::Ipc("Failed to set write timeout: "@ + reason@),
        ),
        SendOutcome::WriteFailed(reason) => Err(
            ErrorView::Ipc("Failed to send message: "@ + reason@),
        ),
    }
}

/// Whether nobody was there to take the record: nothing at the endpoint's
/// path, or nobody accepting connections.
pub open spec fn no_listener(outcome: SendOutcome) -> bool {
    outcome is NotFound || outcome is ConnectionRefused
}

/// A send succeeds for its caller exactly where the record was written or
/// nobody was listening; every other way it can end is an IPC error, and
/// no other kind of error ever comes of a send.
pub proof fn lemma_send_fails_only_with_ipc_errors(outcome: SendOutcome)
    ensures
        verdict(outcome) is Ok <==> outcome is Sent || no_listener(outcome),
        verdict(outcome) matches Err(error) ==> error is Ipc,
{
}

fn join(base: String, part: &str) -> (path: String)
    ensures
        path@ == path_join(base@, part@),
{
    let length = base.as_str().unicode_len();
    let needs_separator = length > 0 && base.as_str().get_char(length - 1) != '/';
    if needs_separator {
        proof {
            reveal_strlit("/");
            assert("/"@ =~= seq!['/']);
        }
        base.concat("/").concat(part)
    } else {
        base.concat(part)
    }
}

/// Sends events to the notification endpoint.
#[derive(Debug, Clone)]
pub struct IpcClient {
    socket_path: String,
}

impl View for IpcClient {
    type V = Seq<char>;

    /// The path of the endpoint.
    closed spec fn view(&self) -> Seq<char> {
        self.socket_path@
    }
}

impl IpcClient {
    /// A client for the well-known endpoint below the home directory
    /// `home`, or below a fallback where that is not known.
    pub fn for_home(home: Option<&str>) -> (client: Self)
        ensures
            client@ == endpoint_path(
                match home {
                    Some(home) => Some(home@),
                    None => None,
                },
            ),
    {
        let base = match home {
            Some(home) => String::from_str(home),
            None => String::from_str("/tmp"),
        };
        IpcClient { socket_path: join(join(base, ".boop"), "sock") }
    }

    /// A client for the endpoint at `socket_path`.
    pub fn with_path(socket_path: String) -> (client: Self)
        ensures
            client@ == socket_path@,
    {
        IpcClient { socket_path }
    }

    /// The path of the endpoint.
    pub fn socket_path(&self) -> (path: &str)
        ensures
            path@ == self@,
    {
        self.socket_path.as_str()
    }

    /// What the caller of a send is told once it ended as `outcome`.
    pub fn conclude(outcome: SendOutcome) -> (result: Result<()>)
        ensures
            result is Ok <==> verdict(outcome) is Ok,
            result matches Err(error) ==> verdict(outcome) == Err::<(), ErrorView>(error@),
            result matches Err(error) ==> error is Ipc,
    {
        match outcome {
            SendOutcome::Sent => Ok(()),
            SendOutcome::NotFound => Ok(()),
            SendOutcome::ConnectionRefused => Ok(()),
            SendOutcome::ConnectFailed(reason) => Err(
                BoopError::Ipc(
                    String::from_str("Failed to connect to socket: ").concat(reason.as_str()),
                ),
            ),
            SendOutcome::TimeoutRefused(reason) => Err(
                BoopError::Ipc(
                    String::from_str("Failed to set write timeout: ").concat(reason.as_str()),
                ),
            ),
            SendOutcome::WriteFailed(reason) => Err(
                BoopError::Ipc(String::from_str("Failed to send message: ").concat(reason.as_str())),
            ),
        }
    }
}

} // verus!
