use vstd::prelude::*;

verus! {

use vstd::utf8::encode_utf8;
use crate::datagram::{Datagram, DatagramType, RpcView};
use crate::fixed_sizes::KEY_SIZE;
use crate::key::sha256_of;
use crate::kademlia::{closest_ok, store_lookup, KademliaDHT, table_updated};
use crate::node::{Node, spec_address};
use crate::service::{has_token, token_pos, PendingEntry};

/// What the receive loop does with one inbound envelope.
#[derive(Clone, Copy, Debug, PartialEq, Eq, Structural)]
pub enum Dispatch {
    /// Misdelivered or spoofed: logged and ignored.
    Discard,
    /// A request: handle the verb and send the reply back.
    Request,
    /// A response: resolve the pending waiter for its token.
    Response,
    /// Controlled shutdown of the receive loop.
    Kill,
}

/// The dispatcher around one node's state. The receive loop itself —
/// socket reads, task spawning — belongs to the runtime; every
/// decision it takes and every state change it applies stands here.
#[derive(Debug)]
pub struct Server {
    pub app: KademliaDHT,
}

impl Server {
    pub fn new(app: KademliaDHT) -> (r: Server)
        ensures
            r.app == app,
    {
        Server { app }
    }

    /// Demultiplexes one parsed envelope: an envelope not addressed to
    /// this node, or whose stated source disagrees with the address
    /// the socket observed, is discarded; the rest go by kind.
    pub fn dispatch(&self, d: &Datagram, observed_source: &String) -> (r: Dispatch)
        ensures
            d@.destination != spec_address(self.app.node) ==> r == Dispatch::Discard,
            d@.destination == spec_address(self.app.node) && d@.source != observed_source@
                ==> r == Dispatch::Discard,
            d@.destination == spec_address(self.app.node) && d@.source == observed_source@
                ==> r == (match d@.data_type {
                DatagramType::REQUEST => Dispatch::Request,
                DatagramType::RESPONSE => Dispatch::Response,
                DatagramType::KILL => Dispatch::Kill,
            }),
    {
        let my_address = self.app.node.get_address();
        if !d.destination.eq(&my_address) {
            return Dispatch::Discard;
        }
        if !d.source.eq(observed_source) {
            return Dispatch::Discard;
        }
        match d.data_type {
            DatagramType::REQUEST => Dispatch::Request,
            DatagramType::RESPONSE => Dispatch::Response,
            DatagramType::KILL => Dispatch::Kill,
        }
    }

    /// The task spawned for an inbound request: handle the verb
    /// against the node's state and produce the reply to send, with
    /// source and destination swapped and the token kept. The payload
    /// sent back is pinned here as well: `Pong` for `Ping`, the
    /// acknowledged `Store`, the closest contacts for a lookup, the
    /// stored value for a known key.
    pub fn request_handler(&mut self, payload: &Datagram, sender: Node) -> (r: Datagram)
        requires
            old(self).app.wf(),
            sender.id@.len() == KEY_SIZE,
        ensures
            final(self).app.wf(),
            final(self).app.node == old(self).app.node,
            final(self).app.await_response == old(self).app.await_response,
            table_updated(old(self).app.routing_table, final(self).app.routing_table, sender),
            r@.data_type == DatagramType::RESPONSE,
            r@.token_id == payload@.token_id,
            r@.source == payload@.destination,
            r@.destination == payload@.source,
            payload@.data is Ping ==> r@.data == RpcView::Pong
                && final(self).app.store@ == old(self).app.store@,
            (match payload@.data {
                RpcView::Store { key, value } => r@.data == RpcView::StoreAck
                    && final(self).app.store@.len() == old(self).app.store@.len() + 1
                    && store_lookup(final(self).app.store@, key) == Some(value),
                _ => true,
            }),
            (match payload@.data {
                RpcView::FindNode { target } => final(self).app.store@ == old(self).app.store@
                    && (r@.data matches RpcView::Nodes { contacts } && closest_ok(
                    final(self).app.routing_table,
                    target,
                    contacts,
                )),
                _ => true,
            }),
            (match payload@.data {
                RpcView::FindValue { key } => final(self).app.store@ == old(self).app.store@ && (
                match store_lookup(old(self).app.store@, key) {
                    Some(v) => r@.data == (RpcView::Value { value: v }),
                    None => r@.data matches RpcView::Nodes { contacts } && closest_ok(
                        final(self).app.routing_table,
                        sha256_of(encode_utf8(key)),
                        contacts,
                    ),
                }),
                _ => true,
            }),
            (match payload@.data {
                RpcView::Pong | RpcView::StoreAck | RpcView::Nodes { .. } | RpcView::Value {
                    ..
                } => r@.data == RpcView::Pong && final(self).app.store@ == old(self).app.store@,
                _ => true,
            }),
    {
        self.app.handle_request(payload, sender)
    }

    /// The task spawned for an inbound response: resolves the pending
    /// waiter carrying its token, exactly once. A response with an
    /// unknown token is unsolicited: nothing changes and no waiter is
    /// touched.
    pub fn response_handler(&mut self, payload: &Datagram) -> (r: Option<PendingEntry>)
        requires
            old(self).app.wf(),
        ensures
            final(self).app.wf(),
            final(self).app.node == old(self).app.node,
            final(self).app.routing_table == old(self).app.routing_table,
            final(self).app.store@ == old(self).app.store@,
            !has_token(old(self).app.await_response.entries@, payload@.token_id) ==> r is None
                && final(self).app.await_response.entries@
                == old(self).app.await_response.entries@,
            has_token(old(self).app.await_response.entries@, payload@.token_id) ==> r is Some
                && r.unwrap().token_id@ == payload@.token_id
                && final(self).app.await_response.entries@
                == old(self).app.await_response.entries@.remove(
                token_pos(old(self).app.await_response.entries@, payload@.token_id),
            ),
    {
        self.app.await_response.resolve(&payload.token_id)
    }
}

} // verus!
