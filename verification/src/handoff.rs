//! Handing a batch of input operations to the thread that owns the input
//! connection, and waiting a bounded time for its answer.
use vstd::prelude::*;
use std::sync::Arc;
use std::sync::atomic::AtomicU64;
use std::sync::mpsc::{Receiver, Sender};

verus! {

#[verifier::external_type_specification]
#[verifier::external_body]
#[verifier::reject_recursive_types(T)]
pub struct ExSender<T>(Sender<T>);

#[verifier::external_type_specification]
#[verifier::external_body]
#[verifier::reject_recursive_types(T)]
pub struct ExReceiver<T>(Receiver<T>);

/// Mid-action abort signal: (live generation counter, value the action was
/// validated against). Sessions check it between ops; a mismatch stops the
/// remaining intended input, releases held state, and reports Partial.
pub type Guard = Option<(Arc<AtomicU64>, u64)>;

/// How long a caller waits for the input thread's answer, in seconds.
pub const REPLY_TIMEOUT_SECS: u64 = 10;

/// Calls `std::sync::mpsc::channel`.  Nothing is stated of the new channel.
#[verifier::external_body]
pub(crate) fn open_channel<T>() -> (Sender<T>, Receiver<T>) {
    std::sync::mpsc::channel()
}

/// Calls `Sender::send` and reports whether it returned `Ok`.  The standard
/// library documents that it fails only when the receiving end is gone, which
/// no clause here can observe, so the result is left unstated.
#[verifier::external_body]
pub(crate) fn send_message<T>(tx: &Sender<T>, msg: T) -> bool {
    tx.send(msg).is_ok()
}

/// Calls `Receiver::recv_timeout` with a timeout of `secs` seconds and keeps
/// the value when one arrived.  What arrives, and when, depends on another
/// thread and on time, so nothing is stated of the result.
#[verifier::external_body]
pub(crate) fn receive_within<T>(rx: &Receiver<T>, secs: u64) -> Option<T> {
    rx.recv_timeout(std::time::Duration::from_secs(secs)).ok()
}

/// What an input thread does with a request.
#[derive(Debug, PartialEq, Eq, Structural)]
pub enum WorkerAction {
    /// Open the input connection first (there is none yet, or the last one
    /// broke).
    Connect,
    /// Apply the request on the open connection.
    Serve,
    /// There is no connection: answer that nothing was sent.
    AnswerNothing,
}

/// The first decision on a request: connections are made lazily, when a
/// request finds none.
pub open spec fn action_before_request(has_session: bool) -> WorkerAction {
    if has_session {
        WorkerAction::Serve
    } else {
        WorkerAction::Connect
    }
}

/// After a connection attempt: serve on success, else answer `Nothing`.
pub open spec fn action_after_connect(ok: bool) -> WorkerAction {
    if ok {
        WorkerAction::Serve
    } else {
        WorkerAction::AnswerNothing
    }
}

/// A session is kept for later requests unless it broke.
pub open spec fn keeps_session(broken: bool) -> bool {
    !broken
}

/// Decides how an input thread starts on a request.
pub fn before_request(has_session: bool) -> (a: WorkerAction)
    ensures
        a == action_before_request(has_session),
{
    if has_session {
        WorkerAction::Serve
    } else {
        WorkerAction::Connect
    }
}

/// Decides what follows a connection attempt.
pub fn after_connect(ok: bool) -> (a: WorkerAction)
    ensures
        a == action_after_connect(ok),
{
    if ok {
        WorkerAction::Serve
    } else {
        WorkerAction::AnswerNothing
    }
}

/// Decides whether the session is kept after a request.
pub fn keep_session(broken: bool) -> (k: bool)
    ensures
        k == keeps_session(broken),
{
    !broken
}

/// An input thread retries after failures: a session is kept and serves the
/// next request while it is sound, and once it broke the next request
/// connects anew; a failed connection is answered with `Nothing` and the
/// request after it tries to connect again.
pub proof fn lemma_worker_reconnects(broken: bool, connected: bool)
    ensures
        action_before_request(keeps_session(broken)) == (if broken {
            WorkerAction::Connect
        } else {
            WorkerAction::Serve
        }),
        !connected ==> action_after_connect(connected) == WorkerAction::AnswerNothing
            && action_before_request(connected) == WorkerAction::Connect,
{
}

} // verus!
