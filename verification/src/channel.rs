//! Message channels between the threads of the simulation: sending a request,
//! and asking for a reply, with failures named by the message they concern.
use vstd::prelude::*;
use std::sync::mpsc::{Sender, Receiver};
use crate::structs::ChanError;

verus! {

#[verifier::external_type_specification]
#[verifier::external_body]
#[verifier::reject_recursive_types(T)]
pub struct ExSender<T>(std::sync::mpsc::Sender<T>);

#[verifier::external_type_specification]
#[verifier::external_body]
#[verifier::reject_recursive_types(T)]
pub struct ExReceiver<T>(std::sync::mpsc::Receiver<T>);

/// Cloning a sending end gives another sending end of the same channel.
///
/// Specifies `Clone::clone` of `std::sync::mpsc::Sender`; nothing is claimed of
/// the result, which Verus cannot look into.
pub assume_specification<T>[ <std::sync::mpsc::Sender<T> as Clone>::clone ](s: &Sender<T>) -> (r: Sender<T>);

/// A new channel: its sending and its receiving end.
///
/// Calls `std::sync::mpsc::channel`. Nothing is claimed of the two ends.
#[verifier::external_body]
pub(crate) fn new_channel<T>() -> (r: (Sender<T>, Receiver<T>)) {
    std::sync::mpsc::channel()
}

/// Sends `msg` on `tx`; `true` when it was handed to the channel.
///
/// Calls `std::sync::mpsc::Sender::send`, which fails when the receiving end is
/// gone. Whether it is gone depends on another thread, so nothing is claimed
/// of the result.
#[verifier::external_body]
pub(crate) fn send_on<T>(tx: &Sender<T>, msg: T) -> (sent: bool) {
    tx.send(msg).is_ok()
}

/// Waits for a value on `rx`; `None` when every sending end is gone.
///
/// Calls `std::sync::mpsc::Receiver::recv`. What arrives depends on other
/// threads, so nothing is claimed of the result.
#[verifier::external_body]
pub(crate) fn recv_on<T>(rx: &Receiver<T>) -> (r: Option<T>) {
    rx.recv().ok()
}

/// The result of sending the message named `path`: success when it was sent,
/// else a send error that names it.
pub fn send_outcome(sent: bool, path: &'static str) -> (r: Result<(), ChanError>)
    ensures
        sent ==> r == Ok::<(), ChanError>(()),
        !sent ==> r == Err::<(), ChanError>(ChanError::SendError(path)),
{
    if sent {
        Ok(())
    } else {
        Err(ChanError::SendError(path))
    }
}

/// The result of a request named `path` that expects a reply: a send error when
/// the request could not be sent, else the reply, or a receive error when none came.
pub fn reply_outcome<R>(sent: bool, reply: Option<R>, path: &'static str) -> (r: Result<R, ChanError>)
    ensures
        !sent ==> r == Err::<R, ChanError>(ChanError::SendError(path)),
        sent && reply is None ==> r == Err::<R, ChanError>(ChanError::RecvError(path)),
        sent ==> (reply matches Some(v) ==> r == Ok::<R, ChanError>(v)),
{
    if !sent {
        Err(ChanError::SendError(path))
    } else {
        match reply {
            Some(v) => Ok(v),
            None => Err(ChanError::RecvError(path)),
        }
    }
}

} // verus!
