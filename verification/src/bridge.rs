//! Client network bridge: bounded, non-blocking hand-off queues between
//! the socket tasks and the application tick loop.
//!
//! One ingress task decodes inbound frames and hands the decoded messages
//! to the application through a bounded queue; one egress task drains a
//! bounded queue of client-originated messages and writes their frames to
//! the transport. The application only ever touches the two queues — never
//! the transport — and every hand-off drops instead of blocking, so a slow
//! consumer can never stall a producer.
//!
//! The queues are crossbeam `ArrayQueue`s shared across threads; other
//! threads may push and pop concurrently with ours, so no contract here
//! says what a queue holds — only what holds of whatever comes out of it.
//! Everything popped is folded into the verified reconciliation state.

use crate::client::{spec_apply_all, ClientState};
use crate::codec::{
    decode_server_message, encode_client_message, spec_decode_server, spec_encode_client,
    DecodeError,
};
use crate::msg::{msg_models, ClientMessage, ClientMessageModel, ServerMessage};
use crossbeam::queue::ArrayQueue;
use vstd::prelude::*;

verus! {

#[verifier::external_type_specification]
#[verifier::external_body]
#[verifier::reject_recursive_types(T)]
pub struct ExArrayQueue<T>(ArrayQueue<T>);

/// Relies on crossbeam's `ArrayQueue::new`, which builds a bounded queue of
/// the given capacity; it panics on a zero capacity or one so large that no
/// power of two exceeds it, which the precondition rules out.
#[verifier::external_body]
fn queue_new<T>(cap: usize) -> ArrayQueue<T>
    requires
        1 <= cap < usize::MAX / 2,
{
    ArrayQueue::new(cap)
}

/// Relies on crossbeam's `ArrayQueue::push`: a full queue rejects the
/// element and hands exactly it back as the error.
#[verifier::external_body]
fn queue_push<T>(q: &ArrayQueue<T>, value: T) -> (r: Result<(), T>)
    ensures
        (r matches Err(back) ==> back == value),
{
    q.push(value)
}

/// Relies on crossbeam's `ArrayQueue::pop`: it returns an element the queue
/// held, or `None` when the queue was empty. Other threads push
/// concurrently, so nothing more can be promised of the result.
#[verifier::external_body]
fn queue_pop<T>(q: &ArrayQueue<T>) -> Option<T> {
    q.pop()
}

/// The pair of bounded queues between the socket tasks and the application.
pub struct ClientBridge {
    inbound: ArrayQueue<ServerMessage>,
    outbound: ArrayQueue<ClientMessage>,
}

impl ClientBridge {
    /// Two empty bounded queues of the given capacities.
    pub fn new(inbound_cap: usize, outbound_cap: usize) -> ClientBridge
        requires
            1 <= inbound_cap < usize::MAX / 2,
            1 <= outbound_cap < usize::MAX / 2,
    {
        ClientBridge { inbound: queue_new(inbound_cap), outbound: queue_new(outbound_cap) }
    }

    /// Ingress hand-off: the socket task offers one decoded message to the
    /// application. Returns whether it was accepted; a full queue drops it
    /// (the producer never blocks).
    pub fn deliver_inbound(&self, m: ServerMessage) -> bool {
        queue_push(&self.inbound, m).is_ok()
    }

    /// Ingress step for one raw frame: decode it and, on success, offer the
    /// message to the application. A malformed frame is reported back so
    /// the caller can log it and keep reading; it never ends the session.
    pub fn deliver_inbound_frame(&self, bytes: &[u8]) -> (r: Result<bool, DecodeError>)
        ensures
            (r matches Err(e) ==> spec_decode_server(bytes@) == Err::<
                crate::msg::ServerMessageModel,
                DecodeError,
            >(e)),
            (r matches Ok(_) ==> spec_decode_server(bytes@) is Ok),
    {
        match decode_server_message(bytes) {
            Ok(m) => Ok(self.deliver_inbound(m)),
            Err(e) => Err(e),
        }
    }

    /// Egress hand-off: the application offers one message for the socket
    /// task to send. Returns whether it was accepted; a full queue drops it
    /// rather than stalling the tick loop.
    pub fn send_message(&self, m: ClientMessage) -> bool {
        queue_push(&self.outbound, m).is_ok()
    }

    /// Egress hand-off for transports that frame messages themselves: the
    /// socket task takes the next queued message, not yet encoded.
    pub fn next_outbound(&self) -> Option<ClientMessage> {
        queue_pop(&self.outbound)
    }

    /// Egress step: the socket task takes the next queued message, already
    /// encoded. Every frame handed out is the exact encoding of some client
    /// message.
    pub fn next_outbound_frame(&self) -> (r: Option<Vec<u8>>)
        ensures
            (r matches Some(frame) ==> exists|m: ClientMessageModel|
                frame@ == #[trigger] spec_encode_client(m)),
    {
        match queue_pop(&self.outbound) {
            Some(m) => Some(encode_client_message(&m)),
            None => None,
        }
    }
}

/// One application tick's worth of inbound processing: pops at most
/// `budget` queued messages and applies each to the reconciliation state,
/// in arrival order. Returns the messages it handled, in that order — the
/// state ends exactly at the old state folded through them.
pub fn process_message_queue(bridge: &ClientBridge, state: &mut ClientState, budget: usize) -> (r:
    Vec<ServerMessage>)
    requires
        old(state).wf(),
    ensures
        final(state).wf(),
        r@.len() <= budget,
        final(state)@ == spec_apply_all(old(state)@, msg_models(r@)),
{
    let mut out: Vec<ServerMessage> = Vec::new();
    proof {
        assert(msg_models(out@) =~= Seq::<crate::msg::ServerMessageModel>::empty());
    }
    let mut i: usize = 0;
    while i < budget
        invariant
            i <= budget,
            out@.len() <= i,
            state.wf(),
            state@ == spec_apply_all(old(state)@, msg_models(out@)),
        decreases budget - i,
    {
        match queue_pop(&bridge.inbound) {
            None => {
                return out;
            },
            Some(m) => {
                let ghost prev = out@;
                state.apply_message(&m);
                out.push(m);
                proof {
                    assert(msg_models(out@) =~= msg_models(prev).push(out@.last()@));
                    crate::client::lemma_apply_all_push(
                        old(state)@,
                        msg_models(prev),
                        out@.last()@,
                    );
                }
            },
        }
        i = i + 1;
    }
    out
}

} // verus!
