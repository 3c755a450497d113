//! The request for a graceful exit, shared through a `tokio` watch channel: the RPC
//! `shutdown` method and the signal handlers raise it, the server loop and the index worker
//! look at it.

use vstd::prelude::*;
use tokio::sync::watch::{Receiver, Sender};

verus! {

#[verifier::external_type_specification]
#[verifier::external_body]
#[verifier::reject_recursive_types(T)]
pub struct ExWatchSender<T>(Sender<T>);

#[verifier::external_type_specification]
#[verifier::external_body]
#[verifier::reject_recursive_types(T)]
pub struct ExWatchReceiver<T>(Receiver<T>);

/// The sending end of the exit channel, the values handed to it, and whether the exit has
/// been raised on it: whether the channel's value is `true`.
pub struct ExitSignal {
    tx: Sender<bool>,
    sent: Ghost<Seq<bool>>,
    raised: Ghost<bool>,
}

impl ExitSignal {
    /// Whether the channel's value is `true`.
    pub closed spec fn raised(&self) -> bool {
        self.raised@
    }

    /// The values handed to the channel's `send`, in order.
    pub closed spec fn sent(&self) -> Seq<bool> {
        self.sent@
    }
}

/// Opens the exit channel with `tokio::sync::watch::channel(false)`; the signal keeps its
/// only sender, the receiver goes to the server loop.
/// Claimed: the channel's value starts `false`.
#[verifier::external_body]
pub fn init() -> (r: (ExitSignal, Receiver<bool>))
    ensures
        !r.0.raised(),
        r.0.sent() == Seq::<bool>::empty(),
{
    let (tx, rx) = tokio::sync::watch::channel(false);
    (ExitSignal { tx, sent: Ghost(Seq::empty()), raised: Ghost(false) }, rx)
}

/// Calls `tokio::sync::watch::Sender::send` with `true`. The send stores the value when a
/// receiver is left and leaves it unchanged otherwise (tokio's watch.rs, `send`).
/// Claimed: `true` is the value handed to `send`, and a value that is `true` stays `true`.
/// Whether this send stored it is not claimed: it depends on receivers that other threads
/// hold.
#[verifier::external_body]
fn send_exit(s: &mut ExitSignal)
    ensures
        final(s).sent() == old(s).sent().push(true),
        old(s).raised() ==> final(s).raised(),
{
    let _ = s.tx.send(true);
}

/// Calls `tokio::sync::watch::Sender::borrow` and reads the value.
/// Claimed: it is the channel's value. Only `send_exit` writes to the channel (this signal
/// holds its one sender and receivers cannot write), so that value is `raised`.
#[verifier::external_body]
fn current_value(s: &ExitSignal) -> (r: bool)
    ensures
        r == s.raised(),
{
    *s.tx.borrow()
}

/// Asks for a graceful exit by sending `true` on the exit channel; does nothing before the
/// channel exists. Once raised, the exit stays raised.
pub fn request(s: &mut Option<ExitSignal>)
    ensures
        old(s).is_none() ==> final(s).is_none(),
        old(s).is_some() ==> final(s).is_some() && final(s).unwrap().sent() == old(
            s,
        ).unwrap().sent().push(true),
        old(s).is_some() && old(s).unwrap().raised() ==> final(s).unwrap().raised(),
{
    match s {
        Some(t) => send_exit(t),
        None => {},
    }
}

/// Whether an exit was asked for and taken by the channel; never before the channel
/// exists.
pub fn requested(s: &Option<ExitSignal>) -> (r: bool)
    ensures
        r == (s.is_some() && s.unwrap().raised()),
{
    match s {
        Some(t) => current_value(t),
        None => false,
    }
}

} // verus!
