//! Shutdown coordination: one message, fanned out to every registered task.

use vstd::prelude::*;

verus! {

/// What the coordinator tells the long-running tasks.
#[derive(Debug, Clone, Copy, PartialEq, Eq, Structural)]
pub enum ControlMsg {
    /// Stop at the next point of waiting.
    Shutdown,
}

/// Makes `tokio::sync::mpsc::UnboundedSender` known as a type whose inside is not looked at.
#[verifier::external_type_specification]
#[verifier::external_body]
#[verifier::reject_recursive_types(T)]
pub struct ExUnboundedSender<T>(tokio::sync::mpsc::UnboundedSender<T>);

/// Makes `tokio::sync::mpsc::UnboundedReceiver` known as a type whose inside is not looked at.
#[verifier::external_type_specification]
#[verifier::external_body]
#[verifier::reject_recursive_types(T)]
pub struct ExUnboundedReceiver<T>(tokio::sync::mpsc::UnboundedReceiver<T>);

/// Calls `tokio::sync::mpsc::unbounded_channel`. Nothing is claimed of the two ends.
#[verifier::external_body]
pub(crate) fn open_channel<T>() -> (ends: (
    tokio::sync::mpsc::UnboundedSender<T>,
    tokio::sync::mpsc::UnboundedReceiver<T>,
)) {
    tokio::sync::mpsc::unbounded_channel()
}

/// Calls `UnboundedSender::send` and tells whether the message was accepted.
/// Whether it is depends on the receiving task, so nothing is claimed of the answer.
#[verifier::external_body]
pub(crate) fn offer<T>(tx: &tokio::sync::mpsc::UnboundedSender<T>, msg: T) -> (accepted: bool) {
    tx.send(msg).is_ok()
}

/// The registry of the tasks that are to hear of a shutdown.
pub struct ControlChannel {
    senders: Vec<tokio::sync::mpsc::UnboundedSender<ControlMsg>>,
}

impl ControlChannel {
    /// How many receivers have been handed out.
    pub closed spec fn subscribers(&self) -> nat {
        self.senders@.len()
    }

    /// A registry without subscribers.
    pub fn new() -> (c: ControlChannel)
        ensures
            c.subscribers() == 0,
    {
        ControlChannel { senders: Vec::new() }
    }

    /// Registers one more task and hands out the receiving end that is its own.
    pub fn new_receiver(&mut self) -> (rx: tokio::sync::mpsc::UnboundedReceiver<ControlMsg>)
        ensures
            final(self).subscribers() == old(self).subscribers() + 1,
    {
        let (tx, rx) = open_channel::<ControlMsg>();
        self.senders.push(tx);
        rx
    }

    /// Offers `msg` to every subscriber, in the order of registration, and goes on
    /// after a subscriber that does not take it. The answer tells for each
    /// subscriber whether it took the message.
    pub fn send(&self, msg: ControlMsg) -> (taken: Vec<bool>)
        ensures
            taken@.len() == self.subscribers(),
    {
        let mut taken: Vec<bool> = Vec::new();
        let mut i: usize = 0;
        while i < self.senders.len()
            invariant
                i <= self.senders.len(),
                taken@.len() == i,
            decreases self.senders.len() - i,
        {
            let accepted = offer(&self.senders[i], msg);
            taken.push(accepted);
            i = i + 1;
        }
        taken
    }
}

/// The places of `taken` that hold `false`, in rising order.
pub open spec fn refusals(taken: Seq<bool>) -> Seq<usize>
    decreases taken.len(),
{
    if taken.len() == 0 {
        Seq::empty()
    } else if taken.last() {
        refusals(taken.drop_last())
    } else {
        refusals(taken.drop_last()).push((taken.len() - 1) as usize)
    }
}

/// The subscribers that did not take a broadcast, by their place in the order of
/// registration.
pub fn undelivered(taken: &Vec<bool>) -> (missed: Vec<usize>)
    ensures
        missed@ == refusals(taken@),
{
    let mut missed: Vec<usize> = Vec::new();
    let mut i: usize = 0;
    while i < taken.len()
        invariant
            i <= taken.len(),
            missed@ == refusals(taken@.take(i as int)),
        decreases taken.len() - i,
    {
        proof {
            assert(taken@.take(i + 1).drop_last() =~= taken@.take(i as int));
        }
        if !taken[i] {
            missed.push(i);
        }
        i = i + 1;
    }
    proof {
        assert(taken@.take(i as int) =~= taken@);
    }
    missed
}

/// What a long-running task does after it looked at its control channel.
#[derive(Debug, Clone, Copy, PartialEq, Eq, Structural)]
pub enum Verdict {
    /// Shutdown was announced: leave the loop.
    Stop,
    /// The channel closed without an announcement: report it and leave the loop.
    StopPremature,
}

/// The verdict on what the control channel gave: a message, or `None` when it is closed.
pub fn on_control(msg: Option<ControlMsg>) -> (v: Verdict)
    ensures
        v == match msg {
            Some(ControlMsg::Shutdown) => Verdict::Stop,
            None => Verdict::StopPremature,
        },
{
    match msg {
        Some(ControlMsg::Shutdown) => Verdict::Stop,
        None => Verdict::StopPremature,
    }
}

/// What the accept loop sees when it wakes.
#[derive(Debug, Clone, Copy, PartialEq, Eq, Structural)]
pub enum AcceptEvent {
    /// The control channel gave a message, or `None` when it is closed.
    Control(Option<ControlMsg>),
    /// A connection, or the error of one attempt to accept, is at hand.
    Incoming,
    /// The listener will give no more connections.
    ListenerClosed,
}

/// What the accept loop does next.
#[derive(Debug, Clone, Copy, PartialEq, Eq, Structural)]
pub enum AcceptAction {
    /// Hand the connection to a handler task of its own and go on accepting.
    Dispatch,
    /// Stop accepting; handlers in flight are left alone.
    Stop,
    /// Stop accepting and report that no shutdown was announced.
    StopPremature,
}

/// The accept loop's decision.
pub open spec fn accept_action(event: AcceptEvent) -> AcceptAction {
    match event {
        AcceptEvent::Control(Some(ControlMsg::Shutdown)) => AcceptAction::Stop,
        AcceptEvent::Control(None) => AcceptAction::StopPremature,
        AcceptEvent::Incoming => AcceptAction::Dispatch,
        AcceptEvent::ListenerClosed => AcceptAction::StopPremature,
    }
}

/// Decides what the accept loop does on an event.
pub fn on_accept_event(event: AcceptEvent) -> (a: AcceptAction)
    ensures
        a == accept_action(event),
{
    match event {
        AcceptEvent::Control(msg) => match on_control(msg) {
            Verdict::Stop => AcceptAction::Stop,
            Verdict::StopPremature => AcceptAction::StopPremature,
        },
        AcceptEvent::Incoming => AcceptAction::Dispatch,
        AcceptEvent::ListenerClosed => AcceptAction::StopPremature,
    }
}

} // verus!
