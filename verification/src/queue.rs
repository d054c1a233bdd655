//! The outgoing-packet and incoming-message queues.
//!
//! Both live in `atone`'s double-ended queue, whose incremental resizing
//! keeps the datagram path free of large reallocation pauses.  The queue is
//! opaque here: what it holds is named, and the effect of each operation on
//! that name is stated from the crate's source, which keeps elements in
//! insertion order and serves them front first.

use vstd::prelude::*;

use crate::server::{MessageResult, OutboundPacket};

verus! {

#[verifier::external_type_specification]
#[verifier::external_body]
#[verifier::reject_recursive_types(T)]
pub struct ExVc<T, const N: usize>(atone::CustomVc<T, N>);

/// What the outgoing UDP queue holds, oldest first.
pub uninterp spec fn out_queue(q: atone::Vc<OutboundPacket>) -> Seq<OutboundPacket>;

/// What the incoming message queue holds, oldest first.
pub uninterp spec fn in_queue(q: atone::Vc<MessageResult>) -> Seq<MessageResult>;

/// Relies on `atone::Vc::new`: an empty queue.
#[verifier::external_body]
pub(crate) fn out_queue_new() -> (q: atone::Vc<OutboundPacket>)
    ensures
        out_queue(q) == Seq::<OutboundPacket>::empty(),
{
    atone::Vc::new()
}

/// Relies on `atone::Vc::push_back`: the value joins the back of the queue.
#[verifier::external_body]
pub(crate) fn out_queue_push(q: &mut atone::Vc<OutboundPacket>, x: OutboundPacket)
    ensures
        out_queue(*final(q)) == out_queue(*old(q)).push(x),
{
    q.push_back(x);
}

/// Relies on `atone::Vc::drain` over the full range: every element leaves,
/// oldest first, and the queue is empty afterward.
#[verifier::external_body]
pub(crate) fn out_queue_take_all(q: &mut atone::Vc<OutboundPacket>) -> (r: Vec<OutboundPacket>)
    ensures
        r@ == out_queue(*old(q)),
        out_queue(*final(q)) == Seq::<OutboundPacket>::empty(),
{
    q.drain(..).collect()
}

/// Relies on `atone::Vc::new`: an empty queue.
#[verifier::external_body]
pub(crate) fn in_queue_new() -> (q: atone::Vc<MessageResult>)
    ensures
        in_queue(q) == Seq::<MessageResult>::empty(),
{
    atone::Vc::new()
}

/// Relies on `atone::Vc::push_back`: the value joins the back of the queue.
#[verifier::external_body]
pub(crate) fn in_queue_push(q: &mut atone::Vc<MessageResult>, x: MessageResult)
    ensures
        in_queue(*final(q)) == in_queue(*old(q)).push(x),
{
    q.push_back(x);
}

/// Relies on `atone::Vc::pop_front`: the oldest element leaves the queue,
/// and an empty queue yields nothing and stays as it is.
#[verifier::external_body]
pub(crate) fn in_queue_pop_front(q: &mut atone::Vc<MessageResult>) -> (r: Option<MessageResult>)
    ensures
        in_queue(*old(q)).len() == 0 ==> r is None && in_queue(*final(q)) == in_queue(*old(q)),
        in_queue(*old(q)).len() > 0 ==> r == Option::Some(in_queue(*old(q))[0]) && in_queue(
            *final(q),
        ) == in_queue(*old(q)).skip(1),
{
    q.pop_front()
}

} // verus!
