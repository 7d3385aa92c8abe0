use vstd::prelude::*;

verus! {

use vstd::bytes::{
    spec_u16_to_le_bytes, spec_u16_from_le_bytes, spec_u64_to_le_bytes, spec_u64_from_le_bytes,
    lemma_auto_spec_u16_to_from_le_bytes, lemma_auto_spec_u64_to_from_le_bytes,
    u16_from_le_bytes, u16_to_le_bytes, u64_from_le_bytes, u64_to_le_bytes,
};
use vstd::utf8::{
    encode_utf8, decode_utf8, valid_utf8, encode_utf8_valid_utf8, encode_utf8_decode_utf8,
};
use vstd::slice::{slice_subrange, slice_to_vec, slice_index_get};
use crate::datagram::{Datagram, DatagramType, DatagramView, NodeView, Rpc, RpcView};
use crate::key::Key;
use crate::node::Node;

// The wire form of an envelope is self-describing and round-trips
// exactly: a kind byte, then the token, source and destination strings,
// then the verb. A string is its UTF-8 byte length (8 bytes,
// little-endian) followed by its UTF-8 bytes; an identifier is its 32
// raw bytes; a port is 2 little-endian bytes; a contact list is its
// length (8 bytes) followed by its contacts.

/// The string's UTF-8 form fits the 8-byte length prefix.
pub open spec fn str_ok(s: Seq<char>) -> bool {
    encode_utf8(s).len() <= u64::MAX
}

pub open spec fn enc_str(s: Seq<char>) -> Seq<u8> {
    spec_u64_to_le_bytes(encode_utf8(s).len() as u64) + encode_utf8(s)
}

pub open spec fn node_ok(n: NodeView) -> bool {
    n.id.len() == 32 && str_ok(n.ip)
}

pub open spec fn enc_node(n: NodeView) -> Seq<u8> {
    n.id + enc_str(n.ip) + spec_u16_to_le_bytes(n.port)
}

pub open spec fn enc_nodes(l: Seq<NodeView>) -> Seq<u8>
    decreases l.len(),
{
    if l.len() == 0 {
        Seq::empty()
    } else {
        enc_node(l[0]) + enc_nodes(l.drop_first())
    }
}

pub open spec fn rpc_ok(r: RpcView) -> bool {
    match r {
        RpcView::Ping => true,
        RpcView::Pong => true,
        RpcView::Store { key, value } => str_ok(key) && str_ok(value),
        RpcView::StoreAck => true,
        RpcView::FindNode { target } => target.len() == 32,
        RpcView::FindValue { key } => str_ok(key),
        RpcView::Nodes { contacts } => contacts.len() <= u64::MAX && (forall|i: int|
            0 <= i < contacts.len() ==> node_ok(#[trigger] contacts[i])),
        RpcView::Value { value } => str_ok(value),
    }
}

pub open spec fn rpc_tag(r: RpcView) -> u8 {
    match r {
        RpcView::Ping => 0,
        RpcView::Pong => 1,
        RpcView::Store { .. } => 2,
        RpcView::StoreAck => 3,
        RpcView::FindNode { .. } => 4,
        RpcView::FindValue { .. } => 5,
        RpcView::Nodes { .. } => 6,
        RpcView::Value { .. } => 7,
    }
}

pub open spec fn enc_rpc(r: RpcView) -> Seq<u8> {
    seq![rpc_tag(r)] + match r {
        RpcView::Ping => Seq::<u8>::empty(),
        RpcView::Pong => Seq::<u8>::empty(),
        RpcView::Store { key, value } => enc_str(key) + enc_str(value),
        RpcView::StoreAck => Seq::<u8>::empty(),
        RpcView::FindNode { target } => target,
        RpcView::FindValue { key } => enc_str(key),
        RpcView::Nodes { contacts } => spec_u64_to_le_bytes(contacts.len() as u64) + enc_nodes(
            contacts,
        ),
        RpcView::Value { value } => enc_str(value),
    }
}

pub open spec fn kind_byte(k: DatagramType) -> u8 {
    match k {
        DatagramType::REQUEST => 0,
        DatagramType::RESPONSE => 1,
        DatagramType::KILL => 2,
    }
}

pub open spec fn datagram_ok(v: DatagramView) -> bool {
    str_ok(v.token_id) && str_ok(v.source) && str_ok(v.destination) && rpc_ok(v.data)
}

pub open spec fn enc_datagram(v: DatagramView) -> Seq<u8> {
    seq![kind_byte(v.data_type)] + enc_str(v.token_id) + enc_str(v.source) + enc_str(
        v.destination,
    ) + enc_rpc(v.data)
}

// ---- decoding, as a mathematical partial inverse over byte suffixes ----

pub open spec fn dec_u64(w: Seq<u8>) -> Option<(u64, Seq<u8>)> {
    if w.len() >= 8 {
        Some((spec_u64_from_le_bytes(w.take(8)), w.skip(8)))
    } else {
        None
    }
}

pub open spec fn dec_u16(w: Seq<u8>) -> Option<(u16, Seq<u8>)> {
    if w.len() >= 2 {
        Some((spec_u16_from_le_bytes(w.take(2)), w.skip(2)))
    } else {
        None
    }
}

pub open spec fn dec_str(w: Seq<u8>) -> Option<(Seq<char>, Seq<u8>)> {
    match dec_u64(w) {
        None => None,
        Some((n, w1)) => if w1.len() >= n && valid_utf8(w1.take(n as int)) {
            Some((decode_utf8(w1.take(n as int)), w1.skip(n as int)))
        } else {
            None
        },
    }
}

pub open spec fn dec_node(w: Seq<u8>) -> Option<(NodeView, Seq<u8>)> {
    if w.len() < 32 {
        None
    } else {
        match dec_str(w.skip(32)) {
            None => None,
            Some((ip, w2)) => match dec_u16(w2) {
                None => None,
                Some((port, w3)) => Some((NodeView { id: w.take(32), ip, port }, w3)),
            },
        }
    }
}

pub open spec fn dec_nodes(w: Seq<u8>, n: u64) -> Option<(Seq<NodeView>, Seq<u8>)>
    decreases n,
{
    if n == 0 {
        Some((Seq::empty(), w))
    } else {
        match dec_node(w) {
            None => None,
            Some((nd, w1)) => match dec_nodes(w1, (n - 1) as u64) {
                None => None,
                Some((l, w2)) => Some((seq![nd] + l, w2)),
            },
        }
    }
}

pub open spec fn dec_rpc(w: Seq<u8>) -> Option<(RpcView, Seq<u8>)> {
    if w.len() < 1 {
        None
    } else {
        let tag = w[0];
        let w0 = w.skip(1);
        if tag == 0 {
            Some((RpcView::Ping, w0))
        } else if tag == 1 {
            Some((RpcView::Pong, w0))
        } else if tag == 2 {
            match dec_str(w0) {
                None => None,
                Some((key, w1)) => match dec_str(w1) {
                    None => None,
                    Some((value, w2)) => Some((RpcView::Store { key, value }, w2)),
                },
            }
        } else if tag == 3 {
            Some((RpcView::StoreAck, w0))
        } else if tag == 4 {
            if w0.len() >= 32 {
                Some((RpcView::FindNode { target: w0.take(32) }, w0.skip(32)))
            } else {
                None
            }
        } else if tag == 5 {
            match dec_str(w0) {
                None => None,
                Some((key, w1)) => Some((RpcView::FindValue { key }, w1)),
            }
        } else if tag == 6 {
            match dec_u64(w0) {
                None => None,
                Some((n, w1)) => match dec_nodes(w1, n) {
                    None => None,
                    Some((contacts, w2)) => Some((RpcView::Nodes { contacts }, w2)),
                },
            }
        } else if tag == 7 {
            match dec_str(w0) {
                None => None,
                Some((value, w1)) => Some((RpcView::Value { value }, w1)),
            }
        } else {
            None
        }
    }
}

pub open spec fn dec_datagram(w: Seq<u8>) -> Option<DatagramView> {
    if w.len() < 1 || w[0] > 2 {
        None
    } else {
        let data_type = if w[0] == 0 {
            DatagramType::REQUEST
        } else if w[0] == 1 {
            DatagramType::RESPONSE
        } else {
            DatagramType::KILL
        };
        match dec_str(w.skip(1)) {
            None => None,
            Some((token_id, w1)) => match dec_str(w1) {
                None => None,
                Some((source, w2)) => match dec_str(w2) {
                    None => None,
                    Some((destination, w3)) => match dec_rpc(w3) {
                        None => None,
                        Some((data, w4)) => if w4.len() == 0 {
                            Some(DatagramView { data_type, token_id, source, destination, data })
                        } else {
                            None
                        },
                    },
                },
            },
        }
    }
}

// ---- round trip: decoding an encoding gives back the value ----

proof fn lemma_dec_u64_enc(n: u64, rest: Seq<u8>)
    ensures
        dec_u64(spec_u64_to_le_bytes(n) + rest) == Some((n, rest)),
{
    lemma_auto_spec_u64_to_from_le_bytes();
    let w = spec_u64_to_le_bytes(n) + rest;
    assert(w.take(8) =~= spec_u64_to_le_bytes(n));
    assert(w.skip(8) =~= rest);
}

proof fn lemma_dec_u16_enc(n: u16, rest: Seq<u8>)
    ensures
        dec_u16(spec_u16_to_le_bytes(n) + rest) == Some((n, rest)),
{
    lemma_auto_spec_u16_to_from_le_bytes();
    let w = spec_u16_to_le_bytes(n) + rest;
    assert(w.take(2) =~= spec_u16_to_le_bytes(n));
    assert(w.skip(2) =~= rest);
}

proof fn lemma_dec_str_enc(s: Seq<char>, rest: Seq<u8>)
    requires
        str_ok(s),
    ensures
        dec_str(enc_str(s) + rest) == Some((s, rest)),
{
    let e = encode_utf8(s);
    let n = e.len() as u64;
    assert(enc_str(s) + rest =~= spec_u64_to_le_bytes(n) + (e + rest));
    lemma_dec_u64_enc(n, e + rest);
    assert((e + rest).take(n as int) =~= e);
    assert((e + rest).skip(n as int) =~= rest);
    encode_utf8_valid_utf8(s);
    encode_utf8_decode_utf8(s);
}

proof fn lemma_dec_node_enc(n: NodeView, rest: Seq<u8>)
    requires
        node_ok(n),
    ensures
        dec_node(enc_node(n) + rest) == Some((n, rest)),
{
    let w = enc_node(n) + rest;
    assert(w.take(32) =~= n.id);
    assert(w.skip(32) =~= enc_str(n.ip) + (spec_u16_to_le_bytes(n.port) + rest));
    lemma_dec_str_enc(n.ip, spec_u16_to_le_bytes(n.port) + rest);
    lemma_dec_u16_enc(n.port, rest);
    assert(NodeView { id: w.take(32), ip: n.ip, port: n.port } =~= n);
}

proof fn lemma_dec_nodes_enc(l: Seq<NodeView>, rest: Seq<u8>)
    requires
        l.len() <= u64::MAX,
        forall|i: int| 0 <= i < l.len() ==> node_ok(#[trigger] l[i]),
    ensures
        dec_nodes(enc_nodes(l) + rest, l.len() as u64) == Some((l, rest)),
    decreases l.len(),
{
    if l.len() == 0 {
        assert(enc_nodes(l) + rest =~= rest);
        assert(Seq::<NodeView>::empty() =~= l);
    } else {
        let tail = l.drop_first();
        assert(enc_nodes(l) + rest =~= enc_node(l[0]) + (enc_nodes(tail) + rest));
        lemma_dec_node_enc(l[0], enc_nodes(tail) + rest);
        assert(forall|i: int| 0 <= i < tail.len() ==> node_ok(#[trigger] tail[i]));
        lemma_dec_nodes_enc(tail, rest);
        assert(tail.len() as u64 == (l.len() as u64 - 1) as u64);
        assert(seq![l[0]] + tail =~= l);
    }
}

proof fn lemma_dec_rpc_enc(r: RpcView, rest: Seq<u8>)
    requires
        rpc_ok(r),
    ensures
        dec_rpc(enc_rpc(r) + rest) == Some((r, rest)),
{
    let w = enc_rpc(r) + rest;
    assert(w[0] == rpc_tag(r));
    match r {
        RpcView::Ping => {
            assert(w.skip(1) =~= rest);
        },
        RpcView::Pong => {
            assert(w.skip(1) =~= rest);
        },
        RpcView::Store { key, value } => {
            assert(w.skip(1) =~= enc_str(key) + (enc_str(value) + rest));
            lemma_dec_str_enc(key, enc_str(value) + rest);
            lemma_dec_str_enc(value, rest);
        },
        RpcView::StoreAck => {
            assert(w.skip(1) =~= rest);
        },
        RpcView::FindNode { target } => {
            assert(w.skip(1) =~= target + rest);
            assert((target + rest).take(32) =~= target);
            assert((target + rest).skip(32) =~= rest);
        },
        RpcView::FindValue { key } => {
            assert(w.skip(1) =~= enc_str(key) + rest);
            lemma_dec_str_enc(key, rest);
        },
        RpcView::Nodes { contacts } => {
            assert(w.skip(1) =~= spec_u64_to_le_bytes(contacts.len() as u64) + (enc_nodes(
                contacts,
            ) + rest));
            lemma_dec_u64_enc(contacts.len() as u64, enc_nodes(contacts) + rest);
            lemma_dec_nodes_enc(contacts, rest);
        },
        RpcView::Value { value } => {
            assert(w.skip(1) =~= enc_str(value) + rest);
            lemma_dec_str_enc(value, rest);
        },
    }
}

/// The codec round-trips: decoding the encoding of any well-formed
/// envelope, whatever verb it carries, yields exactly that envelope.
pub proof fn lemma_codec_round_trip(v: DatagramView)
    requires
        datagram_ok(v),
    ensures
        dec_datagram(enc_datagram(v)) == Some(v),
{
    let w = enc_datagram(v);
    assert(w[0] == kind_byte(v.data_type));
    assert(w.skip(1) =~= enc_str(v.token_id) + (enc_str(v.source) + (enc_str(v.destination)
        + enc_rpc(v.data))));
    lemma_dec_str_enc(v.token_id, enc_str(v.source) + (enc_str(v.destination) + enc_rpc(v.data)));
    lemma_dec_str_enc(v.source, enc_str(v.destination) + enc_rpc(v.data));
    lemma_dec_str_enc(v.destination, enc_rpc(v.data));
    lemma_dec_rpc_enc(v.data, Seq::empty());
    assert(enc_rpc(v.data) + Seq::<u8>::empty() =~= enc_rpc(v.data));
    assert(dec_datagram(w) == Some(DatagramView {
        data_type: v.data_type,
        token_id: v.token_id,
        source: v.source,
        destination: v.destination,
        data: v.data,
    }));
    assert(DatagramView {
        data_type: v.data_type,
        token_id: v.token_id,
        source: v.source,
        destination: v.destination,
        data: v.data,
    } =~= v);
}

// ---- executable encoder ----

proof fn lemma_enc_nodes_snoc(l: Seq<NodeView>, j: int)
    requires
        0 <= j < l.len(),
    ensures
        enc_nodes(l.take(j + 1)) == enc_nodes(l.take(j)) + enc_node(l[j]),
    decreases j,
{
    if j == 0 {
        assert(l.take(1)[0] == l[0]);
        assert(l.take(1).drop_first() =~= Seq::<NodeView>::empty());
        assert(l.take(0) =~= Seq::<NodeView>::empty());
        assert(enc_nodes(Seq::<NodeView>::empty()) == Seq::<u8>::empty());
        assert(enc_nodes(l.take(1)) == enc_node(l[0]) + enc_nodes(l.take(1).drop_first()));
        assert(enc_node(l[0]) + Seq::<u8>::empty() =~= enc_node(l[0]));
        assert(enc_nodes(l.take(0)) + enc_node(l[0]) =~= enc_node(l[0]));
    } else {
        let t = l.drop_first();
        lemma_enc_nodes_snoc(t, j - 1);
        assert(l.take(j + 1)[0] == l[0]);
        assert(l.take(j + 1).drop_first() =~= t.take(j));
        assert(l.take(j)[0] == l[0]);
        assert(l.take(j).drop_first() =~= t.take(j - 1));
        assert(t[j - 1] == l[j]);
        assert(enc_nodes(l.take(j + 1)) == enc_node(l[0]) + enc_nodes(t.take(j)));
        assert(enc_node(l[0]) + (enc_nodes(t.take(j - 1)) + enc_node(t[j - 1])) =~= (enc_node(
            l[0],
        ) + enc_nodes(t.take(j - 1))) + enc_node(t[j - 1]));
        assert(enc_nodes(l.take(j)) == enc_node(l[0]) + enc_nodes(t.take(j - 1)));
    }
}

/// Appends the wire form of one string.
fn encode_str(out: &mut Vec<u8>, s: &str)
    ensures
        final(out)@ == old(out)@ + enc_str(s@),
        str_ok(s@),
{
    let b: &[u8] = s.as_bytes();
    let n: u64 = b.len() as u64;
    let mut lb = u64_to_le_bytes(n);
    out.append(&mut lb);
    let mut bv = slice_to_vec(b);
    out.append(&mut bv);
    proof {
        assert(out@ =~= old(out)@ + enc_str(s@));
    }
}

/// Appends the wire form of one contact.
fn encode_node(out: &mut Vec<u8>, n: &Node)
    ensures
        final(out)@ == old(out)@ + enc_node(n@),
        node_ok(n@),
{
    let mut idv = slice_to_vec(n.id.0.as_slice());
    out.append(&mut idv);
    encode_str(out, n.ip.as_str());
    let mut pb = u16_to_le_bytes(n.port);
    out.append(&mut pb);
    proof {
        assert(out@ =~= old(out)@ + enc_node(n@));
    }
}

/// Appends the wire form of one verb.
fn encode_rpc(out: &mut Vec<u8>, r: &Rpc)
    ensures
        final(out)@ == old(out)@ + enc_rpc(r@),
        rpc_ok(r@),
{
    match r {
        Rpc::Ping => {
            out.push(0);
            proof {
                assert(out@ =~= old(out)@ + enc_rpc(r@));
            }
        },
        Rpc::Pong => {
            out.push(1);
            proof {
                assert(out@ =~= old(out)@ + enc_rpc(r@));
            }
        },
        Rpc::Store { key, value } => {
            out.push(2);
            encode_str(out, key.as_str());
            encode_str(out, value.as_str());
            proof {
                assert(out@ =~= old(out)@ + enc_rpc(r@));
            }
        },
        Rpc::StoreAck => {
            out.push(3);
            proof {
                assert(out@ =~= old(out)@ + enc_rpc(r@));
            }
        },
        Rpc::FindNode { target } => {
            out.push(4);
            let mut tv = slice_to_vec(target.0.as_slice());
            out.append(&mut tv);
            proof {
                assert(out@ =~= old(out)@ + enc_rpc(r@));
            }
        },
        Rpc::FindValue { key } => {
            out.push(5);
            encode_str(out, key.as_str());
            proof {
                assert(out@ =~= old(out)@ + enc_rpc(r@));
            }
        },
        Rpc::Nodes { contacts } => {
            out.push(6);
            let cnt: u64 = contacts.len() as u64;
            let mut cb = u64_to_le_bytes(cnt);
            out.append(&mut cb);
            let ghost base = out@;
            let ghost views = contacts.deep_view();
            let mut i: usize = 0;
            while i < contacts.len()
                invariant
                    0 <= i <= contacts@.len(),
                    views == contacts.deep_view(),
                    views.len() == contacts@.len(),
                    out@ == base + enc_nodes(views.take(i as int)),
                    forall|k: int| 0 <= k < i ==> node_ok(#[trigger] views[k]),
                decreases contacts@.len() - i,
            {
                encode_node(out, &contacts[i]);
                proof {
                    lemma_enc_nodes_snoc(views, i as int);
                    assert(views[i as int] == contacts@[i as int]@);
                    assert(out@ =~= base + enc_nodes(views.take(i + 1)));
                }
                i = i + 1;
            }
            proof {
                assert(views.take(views.len() as int) =~= views);
                assert(out@ =~= old(out)@ + enc_rpc(r@));
            }
        },
        Rpc::Value { value } => {
            out.push(7);
            encode_str(out, value.as_str());
            proof {
                assert(out@ =~= old(out)@ + enc_rpc(r@));
            }
        },
    }
}

/// Serializes an envelope to its wire bytes.
pub fn encode_datagram(d: &Datagram) -> (r: Vec<u8>)
    ensures
        r@ == enc_datagram(d@),
        datagram_ok(d@),
{
    let mut out: Vec<u8> = Vec::new();
    let kb: u8 = match d.data_type {
        DatagramType::REQUEST => 0,
        DatagramType::RESPONSE => 1,
        DatagramType::KILL => 2,
    };
    out.push(kb);
    encode_str(&mut out, d.token_id.as_str());
    encode_str(&mut out, d.source.as_str());
    encode_str(&mut out, d.destination.as_str());
    encode_rpc(&mut out, &d.data);
    proof {
        assert(out@ =~= enc_datagram(d@));
    }
    out
}

// ---- executable decoder ----

/// Relies on `str::from_utf8`: it accepts exactly the valid UTF-8 byte
/// strings and yields their decoding; the owned copy keeps the
/// characters.
#[verifier::external_body]
fn utf8_to_string(bytes: &[u8]) -> (r: Option<String>)
    ensures
        match r {
            Some(s) => valid_utf8(bytes@) && s@ == decode_utf8(bytes@),
            None => !valid_utf8(bytes@),
        },
{
    match std::str::from_utf8(bytes) {
        Ok(s) => Some(s.to_owned()),
        Err(_) => None,
    }
}

fn decode_u64(bytes: &[u8], pos: usize) -> (r: Option<(u64, usize)>)
    requires
        pos <= bytes@.len(),
    ensures
        match r {
            Some(v) => pos <= v.1 <= bytes@.len() && dec_u64(bytes@.skip(pos as int)) == Some(
                (v.0, bytes@.skip(v.1 as int)),
            ),
            None => dec_u64(bytes@.skip(pos as int)) is None,
        },
{
    if bytes.len() - pos >= 8 {
        let s = slice_subrange(bytes, pos, pos + 8);
        let x = u64_from_le_bytes(s);
        proof {
            assert(bytes@.skip(pos as int).take(8) =~= bytes@.subrange(
                pos as int,
                pos as int + 8,
            ));
            assert(bytes@.skip(pos as int).skip(8) =~= bytes@.skip(pos as int + 8));
        }
        Some((x, pos + 8))
    } else {
        None
    }
}

fn decode_str(bytes: &[u8], pos: usize) -> (r: Option<(String, usize)>)
    requires
        pos <= bytes@.len(),
    ensures
        match r {
            Some(v) => pos <= v.1 <= bytes@.len() && dec_str(bytes@.skip(pos as int)) == Some(
                (v.0@, bytes@.skip(v.1 as int)),
            ),
            None => dec_str(bytes@.skip(pos as int)) is None,
        },
{
    match decode_u64(bytes, pos) {
        None => None,
        Some((n, p1)) => {
            let rem = bytes.len() - p1;
            if n > rem as u64 {
                proof {
                    assert(bytes@.skip(p1 as int).len() < n);
                }
                None
            } else {
                let nn = n as usize;
                let sl = slice_subrange(bytes, p1, p1 + nn);
                proof {
                    assert(sl@ =~= bytes@.skip(p1 as int).take(n as int));
                }
                match utf8_to_string(sl) {
                    None => None,
                    Some(s) => {
                        proof {
                            assert(bytes@.skip(p1 as int).skip(n as int) =~= bytes@.skip(
                                p1 as int + nn,
                            ));
                        }
                        Some((s, p1 + nn))
                    },
                }
            }
        },
    }
}

/// Reads 32 raw identifier bytes.
fn read_id(bytes: &[u8], pos: usize) -> (r: Option<([u8; 32], usize)>)
    requires
        pos <= bytes@.len(),
    ensures
        match r {
            Some(v) => pos + 32 == v.1 <= bytes@.len() && v.0@ == bytes@.skip(pos as int).take(
                32,
            ),
            None => bytes@.skip(pos as int).len() < 32,
        },
{
    let blen: usize = bytes.len();
    if blen - pos < 32 {
        return None;
    }
    let mut arr: [u8; 32] = [0u8; 32];
    let mut i: usize = 0;
    while i < 32
        invariant
            0 <= i <= 32,
            blen == bytes@.len(),
            pos + 32 <= blen,
            arr@.len() == 32,
            forall|j: int| 0 <= j < i ==> arr@[j] == bytes@[pos + j],
        decreases 32 - i,
    {
        arr.set(i, *slice_index_get(bytes, pos + i));
        i = i + 1;
    }
    proof {
        assert(arr@ =~= bytes@.skip(pos as int).take(32));
    }
    Some((arr, pos + 32))
}

fn decode_node(bytes: &[u8], pos: usize) -> (r: Option<(Node, usize)>)
    requires
        pos <= bytes@.len(),
    ensures
        match r {
            Some(v) => pos <= v.1 <= bytes@.len() && dec_node(bytes@.skip(pos as int)) == Some(
                (v.0@, bytes@.skip(v.1 as int)),
            ),
            None => dec_node(bytes@.skip(pos as int)) is None,
        },
{
    let ghost w = bytes@.skip(pos as int);
    match read_id(bytes, pos) {
        None => None,
        Some((arr, p1)) => {
            proof {
                assert(bytes@.skip(p1 as int) =~= w.skip(32));
            }
            match decode_str(bytes, p1) {
                None => None,
                Some((ip, p2)) => {
                    if bytes.len() - p2 < 2 {
                        proof {
                            assert(bytes@.skip(p2 as int).len() < 2);
                        }
                        None
                    } else {
                        let sl = slice_subrange(bytes, p2, p2 + 2);
                        let port = u16_from_le_bytes(sl);
                        let id = Key::from_bytes(arr);
                        let nd = Node { id, ip, port };
                        proof {
                            assert(sl@ =~= bytes@.skip(p2 as int).take(2));
                            assert(bytes@.skip(p2 as int).skip(2) =~= bytes@.skip(p2 as int + 2));
                            assert(nd@ =~= NodeView { id: w.take(32), ip: nd.ip@, port });
                        }
                        Some((nd, p2 + 2))
                    }
                },
            }
        },
    }
}

fn decode_nodes(bytes: &[u8], pos: usize, n: u64) -> (r: Option<(Vec<Node>, usize)>)
    requires
        pos <= bytes@.len(),
    ensures
        match r {
            Some(v) => pos <= v.1 <= bytes@.len() && dec_nodes(bytes@.skip(pos as int), n)
                == Some((v.0.deep_view(), bytes@.skip(v.1 as int))),
            None => dec_nodes(bytes@.skip(pos as int), n) is None,
        },
{
    let ghost w0 = bytes@.skip(pos as int);
    let mut acc: Vec<Node> = Vec::new();
    let mut p: usize = pos;
    let mut i: u64 = 0;
    while i < n
        invariant
            0 <= i <= n,
            pos <= p <= bytes@.len(),
            w0 == bytes@.skip(pos as int),
            dec_nodes(w0, n) == (match dec_nodes(bytes@.skip(p as int), (n - i) as u64) {
                None => None::<(Seq<NodeView>, Seq<u8>)>,
                Some(pr) => Some((acc.deep_view() + pr.0, pr.1)),
            }),
        decreases n - i,
    {
        let ghost p_old = p as int;
        let ghost acc_old = acc.deep_view();
        match decode_node(bytes, p) {
            None => {
                proof {
                    assert(dec_nodes(bytes@.skip(p_old), (n - i) as u64) is None);
                    assert(dec_nodes(w0, n) is None);
                }
                return None;
            },
            Some((nd, p2)) => {
                proof {
                    assert(dec_node(bytes@.skip(p_old)) == Some((nd@, bytes@.skip(p2 as int))));
                }
                acc.push(nd);
                p = p2;
                proof {
                    assert(acc.deep_view() =~= acc_old.push(nd@));
                    let rest = dec_nodes(bytes@.skip(p as int), (n - i - 1) as u64);
                    assert(dec_nodes(bytes@.skip(p_old), (n - i) as u64) == (match rest {
                        None => None::<(Seq<NodeView>, Seq<u8>)>,
                        Some(pr) => Some((seq![nd@] + pr.0, pr.1)),
                    }));
                    if rest is Some {
                        let pr = rest.unwrap();
                        assert(acc_old + (seq![nd@] + pr.0) =~= acc.deep_view() + pr.0);
                    }
                }
                i = i + 1;
            },
        }
    }
    proof {
        assert(dec_nodes(bytes@.skip(p as int), 0) == Some(
            (Seq::<NodeView>::empty(), bytes@.skip(p as int)),
        ));
        assert(acc.deep_view() + Seq::<NodeView>::empty() =~= acc.deep_view());
    }
    Some((acc, p))
}

fn decode_rpc(bytes: &[u8], pos: usize) -> (r: Option<(Rpc, usize)>)
    requires
        pos <= bytes@.len(),
    ensures
        match r {
            Some(v) => pos <= v.1 <= bytes@.len() && dec_rpc(bytes@.skip(pos as int)) == Some(
                (v.0@, bytes@.skip(v.1 as int)),
            ),
            None => dec_rpc(bytes@.skip(pos as int)) is None,
        },
{
    let ghost w = bytes@.skip(pos as int);
    if bytes.len() - pos < 1 {
        return None;
    }
    let tag = *slice_index_get(bytes, pos);
    let p0 = pos + 1;
    proof {
        assert(w[0] == tag);
        assert(w.skip(1) =~= bytes@.skip(p0 as int));
    }
    if tag == 0 {
        Some((Rpc::Ping, p0))
    } else if tag == 1 {
        Some((Rpc::Pong, p0))
    } else if tag == 2 {
        match decode_str(bytes, p0) {
            None => None,
            Some((key, p1)) => match decode_str(bytes, p1) {
                None => None,
                Some((value, p2)) => Some((Rpc::Store { key, value }, p2)),
            },
        }
    } else if tag == 3 {
        Some((Rpc::StoreAck, p0))
    } else if tag == 4 {
        match read_id(bytes, p0) {
            None => None,
            Some((arr, p1)) => {
                proof {
                    assert(bytes@.skip(p1 as int) =~= w.skip(1).skip(32));
                }
                Some((Rpc::FindNode { target: Key::from_bytes(arr) }, p1))
            },
        }
    } else if tag == 5 {
        match decode_str(bytes, p0) {
            None => None,
            Some((key, p1)) => Some((Rpc::FindValue { key }, p1)),
        }
    } else if tag == 6 {
        match decode_u64(bytes, p0) {
            None => None,
            Some((n, p1)) => match decode_nodes(bytes, p1, n) {
                None => None,
                Some((contacts, p2)) => Some((Rpc::Nodes { contacts }, p2)),
            },
        }
    } else if tag == 7 {
        match decode_str(bytes, p0) {
            None => None,
            Some((value, p1)) => Some((Rpc::Value { value }, p1)),
        }
    } else {
        None
    }
}

/// Parses an envelope from its wire bytes: exactly the encodings of
/// well-formed envelopes are accepted, and each yields the envelope
/// that produced it.
pub fn decode_datagram(bytes: &Vec<u8>) -> (r: Option<Datagram>)
    ensures
        match r {
            Some(d) => dec_datagram(bytes@) == Some(d@),
            None => dec_datagram(bytes@) is None,
        },
{
    let sl: &[u8] = bytes.as_slice();
    if sl.len() < 1 {
        return None;
    }
    let kb = *slice_index_get(sl, 0);
    if kb > 2 {
        return None;
    }
    let data_type = if kb == 0 {
        DatagramType::REQUEST
    } else if kb == 1 {
        DatagramType::RESPONSE
    } else {
        DatagramType::KILL
    };
    proof {
        assert(bytes@.skip(0) =~= bytes@);
        assert(bytes@.skip(1) =~= sl@.skip(1));
    }
    match decode_str(sl, 1) {
        None => None,
        Some((token_id, p1)) => match decode_str(sl, p1) {
            None => None,
            Some((source, p2)) => match decode_str(sl, p2) {
                None => None,
                Some((destination, p3)) => match decode_rpc(sl, p3) {
                    None => None,
                    Some((data, p4)) => {
                        if p4 == sl.len() {
                            let d = Datagram { data_type, token_id, source, destination, data };
                            proof {
                                assert(bytes@.skip(p4 as int).len() == 0);
                                assert(dec_datagram(bytes@) == Some(d@));
                            }
                            Some(d)
                        } else {
                            proof {
                                assert(bytes@.skip(p4 as int).len() > 0);
                            }
                            None
                        }
                    },
                },
            },
        },
    }
}

} // verus!
