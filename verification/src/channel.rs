//! The tokio channels that carry requests and packets to the connection loop.
use vstd::prelude::*;
use tokio::sync::mpsc::error::SendError;
use tokio::sync::mpsc::UnboundedReceiver;
use tokio::sync::mpsc::UnboundedSender;
use tokio::sync::oneshot;

verus! {

#[verifier::external_type_specification]
#[verifier::external_body]
#[verifier::reject_recursive_types(T)]
pub struct ExUnboundedSender<T>(UnboundedSender<T>);

#[verifier::external_type_specification]
#[verifier::external_body]
#[verifier::reject_recursive_types(T)]
pub struct ExUnboundedReceiver<T>(UnboundedReceiver<T>);

/// `SendError` is a tuple struct with one public field, the value that could
/// not be sent; Verus reads that field.
#[verifier::external_type_specification]
#[verifier::reject_recursive_types(T)]
pub struct ExSendError<T>(SendError<T>);

#[verifier::external_type_specification]
#[verifier::external_body]
#[verifier::reject_recursive_types(T)]
pub struct ExOneshotSender<T>(oneshot::Sender<T>);

#[verifier::external_type_specification]
#[verifier::external_body]
#[verifier::reject_recursive_types(T)]
pub struct ExOneshotReceiver<T>(oneshot::Receiver<T>);

#[verifier::external_type_specification]
#[verifier::external_body]
pub struct ExRecvError(oneshot::error::RecvError);

/// Calls `tokio::sync::mpsc::unbounded_channel`: a new channel's two ends.
/// Nothing is stated of them: which sender feeds which receiver is not
/// visible to Verus.
#[verifier::external_body]
pub(crate) fn unbounded_channel<T>() -> (UnboundedSender<T>, UnboundedReceiver<T>) {
    tokio::sync::mpsc::unbounded_channel()
}

/// Calls `UnboundedSender::send`. Whether it succeeds depends on whether the
/// receiving end is still open, so success is not stated; an error hands the
/// message back.
#[verifier::external_body]
pub(crate) fn send<T>(sender: &UnboundedSender<T>, message: T) -> (sent: Result<(), SendError<T>>)
    ensures
        sent matches Err(e) ==> e.0 == message,
{
    sender.send(message)
}

/// Calls `UnboundedSender::clone`: another sender of the same channel, which
/// Verus cannot tell apart from any other sender.
#[verifier::external_body]
pub(crate) fn clone_sender<T>(sender: &UnboundedSender<T>) -> UnboundedSender<T> {
    sender.clone()
}

/// Calls `tokio::sync::oneshot::channel`: a new one-shot channel's two ends.
#[verifier::external_body]
pub(crate) fn oneshot_channel<T>() -> (oneshot::Sender<T>, oneshot::Receiver<T>) {
    oneshot::channel()
}

/// Calls `oneshot::Sender::send`. It fails when the receiving end is gone,
/// and then hands the value back.
#[verifier::external_body]
pub(crate) fn respond<T>(sender: oneshot::Sender<T>, value: T) -> (sent: Result<(), T>)
    ensures
        sent matches Err(back) ==> back == value,
{
    sender.send(value)
}

} // verus!
