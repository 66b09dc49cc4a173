//! The queue of messages passed between the entities of the stack.
use vstd::prelude::*;
use std::collections::VecDeque;

verus! {

/// How urgently a message is to be delivered.
#[derive(Debug, Clone, Copy, PartialEq, Eq, Structural)]
pub enum MessagePrio {
    /// Delivered before everything already queued.
    Immediate,
    /// Delivered after everything already queued.
    Normal,
}

impl Default for MessagePrio {
    /// Messages are normal unless said otherwise.
    fn default() -> (r: Self)
        ensures
            r == MessagePrio::Normal,
    {
        MessagePrio::Normal
    }
}

/// Messages waiting for delivery, in delivery order.
pub struct MessageQueue<M> {
    messages: VecDeque<M>,
}

impl<M> View for MessageQueue<M> {
    type V = Seq<M>;

    closed spec fn view(&self) -> Seq<M> {
        self.messages@
    }
}

impl<M> MessageQueue<M> {
    /// An empty queue.
    pub fn new() -> (r: Self)
        ensures
            r@ == Seq::<M>::empty(),
    {
        Self { messages: VecDeque::new() }
    }

    /// Queue `message` after all others.
    pub fn push_back(&mut self, message: M)
        ensures
            final(self)@ == old(self)@.push(message),
    {
        self.messages.push_back(message);
    }

    /// Queue `message` before all others when `Immediate`, after them when `Normal`.
    pub fn push_prio(&mut self, message: M, prio: MessagePrio)
        ensures
            prio == MessagePrio::Immediate ==> final(self)@ == seq![message] + old(self)@,
            prio == MessagePrio::Normal ==> final(self)@ == old(self)@.push(message),
    {
        match prio {
            MessagePrio::Immediate => {
                self.messages.push_front(message);
            },
            MessagePrio::Normal => {
                self.messages.push_back(message);
            },
        }
    }

    /// Take the next message to deliver, if any.
    pub fn pop_front(&mut self) -> (r: Option<M>)
        ensures
            old(self)@.len() == 0 ==> r is None && final(self)@ == old(self)@,
            old(self)@.len() > 0 ==> r == Some(old(self)@[0]) && final(self)@ == old(self)@.drop_first(),
    {
        let r = self.messages.pop_front();
        proof {
            if old(self)@.len() > 0 {
                assert(self@ =~= old(self)@.drop_first());
            }
        }
        r
    }
}

/// Immediate messages overtake what is queued, normal ones wait their turn: after
/// queueing `m` on `q`, the next message taken is `m` when it is immediate or `q` was empty,
/// and otherwise the first message of `q`.
pub proof fn lemma_prio_order<M>(q: Seq<M>, m: M, prio: MessagePrio)
    ensures
        ({
            let after = if prio == MessagePrio::Immediate { seq![m] + q } else { q.push(m) };
            after[0] == (if prio == MessagePrio::Immediate || q.len() == 0 { m } else { q[0] })
        }),
{
}

} // verus!
