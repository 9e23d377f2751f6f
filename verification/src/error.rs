//! What can go wrong with a call or a watch.

use vstd::prelude::*;

verus! {

/// Why a binding could not be registered or a call failed.
#[derive(Debug)]
pub enum BackendError {
    /// The binding's spec, or what became of it, is not acceptable.
    InvalidSpec { message: String },
    /// No profile is registered under this name.
    ProfileNotFound { backend_name: String },
    /// The server could not be reached, or the request failed.
    Transport { message: String },
    /// No reply came in time.
    Timeout { timeout_ms: u64 },
}

/// A [`BackendError`] with its texts.
pub enum BackendFault {
    InvalidSpec { message: Seq<char> },
    ProfileNotFound { backend_name: Seq<char> },
    Transport { message: Seq<char> },
    Timeout { timeout_ms: u64 },
}

impl View for BackendError {
    type V = BackendFault;

    open spec fn view(&self) -> BackendFault {
        match *self {
            BackendError::InvalidSpec { message } => BackendFault::InvalidSpec {
                message: message@,
            },
            BackendError::ProfileNotFound { backend_name } => BackendFault::ProfileNotFound {
                backend_name: backend_name@,
            },
            BackendError::Transport { message } => BackendFault::Transport { message: message@ },
            BackendError::Timeout { timeout_ms } => BackendFault::Timeout { timeout_ms },
        }
    }
}

/// Why a watch could not be set up.
#[derive(Debug)]
pub enum WatchError {
    /// The watch spec is not acceptable.
    InvalidSpec { message: String },
    /// The server could not be reached, or it refused the subscription.
    Subscribe { message: String },
}

/// A [`WatchError`] with its texts.
pub enum WatchFault {
    InvalidSpec { message: Seq<char> },
    Subscribe { message: Seq<char> },
}

impl View for WatchError {
    type V = WatchFault;

    open spec fn view(&self) -> WatchFault {
        match *self {
            WatchError::InvalidSpec { message } => WatchFault::InvalidSpec { message: message@ },
            WatchError::Subscribe { message } => WatchFault::Subscribe { message: message@ },
        }
    }
}

/// An [`BackendError::InvalidSpec`] with this message.
pub(crate) fn invalid_spec(message: &str) -> (error: BackendError)
    ensures
        error@ == (BackendFault::InvalidSpec { message: message@ }),
{
    BackendError::InvalidSpec { message: message.to_owned() }
}

/// A [`BackendError::Transport`] with this message.
pub(crate) fn transport(message: &str) -> (error: BackendError)
    ensures
        error@ == (BackendFault::Transport { message: message@ }),
{
    BackendError::Transport { message: message.to_owned() }
}

} // verus!
