use vstd::prelude::*;

verus! {

use crate::key::Key;
use crate::node::Node;

/// The three kinds of wire envelope: a request expecting a correlated
/// response, a response to an earlier request, and the controlled
/// shutdown message for a receive loop.
#[derive(Clone, Copy, Debug, PartialEq, Eq, Structural)]
pub enum DatagramType {
    REQUEST,
    RESPONSE,
    KILL,
}

/// One RPC verb or its response, carried inside an envelope.
#[derive(Debug)]
pub enum Rpc {
    Ping,
    Pong,
    Store { key: String, value: String },
    StoreAck,
    FindNode { target: Key },
    FindValue { key: String },
    Nodes { contacts: Vec<Node> },
    Value { value: String },
}

/// Mathematical image of a contact.
#[verifier::ext_equal]
pub struct NodeView {
    pub id: Seq<u8>,
    pub ip: Seq<char>,
    pub port: u16,
}

/// Mathematical image of a verb.
#[verifier::ext_equal]
pub enum RpcView {
    Ping,
    Pong,
    Store { key: Seq<char>, value: Seq<char> },
    StoreAck,
    FindNode { target: Seq<u8> },
    FindValue { key: Seq<char> },
    Nodes { contacts: Seq<NodeView> },
    Value { value: Seq<char> },
}

impl View for Node {
    type V = NodeView;

    open spec fn view(&self) -> NodeView {
        NodeView { id: self.id@, ip: self.ip@, port: self.port }
    }
}

impl DeepView for Node {
    type V = NodeView;

    open spec fn deep_view(&self) -> NodeView {
        self.view()
    }
}

impl View for Rpc {
    type V = RpcView;

    open spec fn view(&self) -> RpcView {
        match self {
            Rpc::Ping => RpcView::Ping,
            Rpc::Pong => RpcView::Pong,
            Rpc::Store { key, value } => RpcView::Store { key: key@, value: value@ },
            Rpc::StoreAck => RpcView::StoreAck,
            Rpc::FindNode { target } => RpcView::FindNode { target: target@ },
            Rpc::FindValue { key } => RpcView::FindValue { key: key@ },
            Rpc::Nodes { contacts } => RpcView::Nodes { contacts: contacts.deep_view() },
            Rpc::Value { value } => RpcView::Value { value: value@ },
        }
    }
}

/// The wire envelope: kind, correlation token, the sender's and the
/// intended receiver's `host:port` addresses, and the verb payload.
/// Envelopes are immutable once sent; the token correlates a request
/// with its eventual response.
#[derive(Debug)]
pub struct Datagram {
    pub data_type: DatagramType,
    pub token_id: String,
    pub source: String,
    pub destination: String,
    pub data: Rpc,
}

/// Mathematical image of an envelope.
#[verifier::ext_equal]
pub struct DatagramView {
    pub data_type: DatagramType,
    pub token_id: Seq<char>,
    pub source: Seq<char>,
    pub destination: Seq<char>,
    pub data: RpcView,
}

impl View for Datagram {
    type V = DatagramView;

    open spec fn view(&self) -> DatagramView {
        DatagramView {
            data_type: self.data_type,
            token_id: self.token_id@,
            source: self.source@,
            destination: self.destination@,
            data: self.data@,
        }
    }
}

impl Clone for Rpc {
    fn clone(&self) -> (r: Self)
        ensures
            r@ == self@,
    {
        match self {
            Rpc::Ping => Rpc::Ping,
            Rpc::Pong => Rpc::Pong,
            Rpc::Store { key, value } => Rpc::Store { key: key.clone(), value: value.clone() },
            Rpc::StoreAck => Rpc::StoreAck,
            Rpc::FindNode { target } => Rpc::FindNode { target: *target },
            Rpc::FindValue { key } => Rpc::FindValue { key: key.clone() },
            Rpc::Nodes { contacts } => {
                let mut copied: Vec<Node> = Vec::new();
                let mut i: usize = 0;
                while i < contacts.len()
                    invariant
                        0 <= i <= contacts@.len(),
                        copied@.len() == i,
                        forall|k: int|
                            0 <= k < i ==> copied.deep_view()[k] == contacts.deep_view()[k],
                    decreases contacts@.len() - i,
                {
                    let c = contacts[i].clone();
                    proof {
                        assert(c@ =~= contacts@[i as int]@);
                    }
                    copied.push(c);
                    i = i + 1;
                }
                proof {
                    assert(copied.deep_view() =~= contacts.deep_view());
                }
                Rpc::Nodes { contacts: copied }
            },
            Rpc::Value { value } => Rpc::Value { value: value.clone() },
        }
    }
}

impl Clone for Datagram {
    fn clone(&self) -> (r: Self)
        ensures
            r@ == self@,
    {
        Datagram {
            data_type: self.data_type,
            token_id: self.token_id.clone(),
            source: self.source.clone(),
            destination: self.destination.clone(),
            data: self.data.clone(),
        }
    }
}

} // verus!
