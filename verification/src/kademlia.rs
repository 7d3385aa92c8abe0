use vstd::prelude::*;

verus! {

use vstd::utf8::encode_utf8;
use crate::datagram::{Datagram, DatagramType, NodeView, Rpc, RpcView};
use crate::distance::bytes_lt;
use crate::fixed_sizes::{JOIN_ROUND_BUDGET, K_BUCKET_SIZE, KEY_SIZE, N_BUCKETS};
use crate::key::{Key, lemma_xor_injective, sha256_of, spec_bucket_index, xor_bytes};
use crate::node::{Node, node_eq, spec_address};
use crate::routing_table::{RoutingTable, spec_insert};
use crate::service::AwaitResponse;

/// The value the local node knows for a key; the latest `Store` wins.
pub open spec fn store_lookup(s: Seq<(String, String)>, k: Seq<char>) -> Option<Seq<char>>
    decreases s.len(),
{
    if s.len() == 0 {
        None
    } else if s.last().0@ == k {
        Some(s.last().1@)
    } else {
        store_lookup(s.drop_last(), k)
    }
}

/// The relational image of recording one contact in a routing table:
/// the local identifier is never stored, and only the band the
/// contact's distance selects changes, by one bucket update.
pub open spec fn table_updated(pre: RoutingTable, post: RoutingTable, c: Node) -> bool {
    &&& post.wf()
    &&& post.node == pre.node
    &&& post.bootstrap == pre.bootstrap
    &&& (c.id@ == pre.node.id@ ==> post.buckets@ == pre.buckets@)
    &&& (c.id@ != pre.node.id@ ==> ({
        let b = spec_bucket_index(xor_bytes(pre.node.id@, c.id@));
        &&& post.buckets@[b].nodes@ == spec_insert(pre.buckets@[b].nodes@, c)
        &&& forall|i: int| 0 <= i < N_BUCKETS && i != b ==> post.buckets@[i] == pre.buckets@[i]
    }))
}

/// The relational image of recording a whole sequence of contacts,
/// one `table_updated` step per contact, in order.
pub open spec fn tables_chain(pre: RoutingTable, post: RoutingTable, cs: Seq<Node>) -> bool
    decreases cs.len(),
{
    if cs.len() == 0 {
        post == pre
    } else {
        exists|mid: RoutingTable|
            tables_chain(pre, mid, cs.drop_last()) && table_updated(mid, post, cs.last())
    }
}

/// Some bucket of the table holds a contact with this image.
pub open spec fn table_contains_view(t: RoutingTable, nv: NodeView) -> bool {
    exists|b: int, j: int|
        0 <= b < N_BUCKETS && 0 <= j < t.buckets@[b].nodes@.len() && t.buckets@[b].nodes@[j]@ == nv
}

/// What a closest-node answer promises: as many contacts as the table
/// can give up to the bucket capacity, each from the table, strictly
/// ascending by distance to the target.
pub open spec fn closest_ok(t: RoutingTable, target_id: Seq<u8>, contacts: Seq<NodeView>) -> bool {
    &&& contacts.len() == (if K_BUCKET_SIZE as int <= t.total_contacts() {
        K_BUCKET_SIZE as int
    } else {
        t.total_contacts()
    })
    &&& forall|i: int, j: int|
        0 <= i < j < contacts.len() ==> bytes_lt(
            xor_bytes(contacts[i].id, target_id),
            xor_bytes(contacts[j].id, target_id),
        )
    &&& forall|k: int| 0 <= k < contacts.len() ==> table_contains_view(t, #[trigger] contacts[k])
}

/// `c` is one of the discovered contacts.
pub open spec fn from_discovered(discovered: Seq<Node>, c: Node) -> bool {
    exists|j: int| 0 <= j < discovered.len() && node_eq(discovered[j], c)
}

/// Some already-queried address equals `a`.
pub open spec fn addr_known(qs: Seq<String>, a: Seq<char>) -> bool {
    exists|i: int| 0 <= i < qs.len() && qs[i]@ == a
}

/// What the contacts picked for the next join round satisfy: each is
/// one of the discovered contacts, none carries an address already
/// queried, no identifier repeats, and they stand ascending by XOR
/// distance to `me`, so the closest are queried first.
pub open spec fn join_selection_ok(
    me: Node,
    queried: Seq<String>,
    discovered: Seq<Node>,
    picked: Seq<Node>,
) -> bool {
    &&& forall|k: int|
        0 <= k < picked.len() ==> from_discovered(discovered, #[trigger] picked[k])
    &&& forall|k: int|
        0 <= k < picked.len() ==> !addr_known(queried, spec_address(#[trigger] picked[k]))
    &&& forall|i: int, j: int|
        #![trigger picked[i], picked[j]]
        0 <= i < j < picked.len() ==> bytes_lt(
            xor_bytes(picked[i].id@, me.id@),
            xor_bytes(picked[j].id@, me.id@),
        )
    &&& forall|i: int, j: int|
        #![trigger picked[i], picked[j]]
        0 <= i < j < picked.len() ==> picked[i].id@ != picked[j].id@
}

/// One round of the iterative join: which discovered contacts to query
/// next — those whose addresses were not queried yet, without
/// duplicate identifiers, ascending by XOR distance to `me` so the
/// closest are queried first — and whether the lookup is done, because
/// nothing new is left to query or the round budget is spent.
pub fn join_step(me: &Node, queried: &Vec<String>, discovered: Vec<Node>, round: u32) -> (r: (
    Vec<Node>,
    bool,
))
    ensures
        join_selection_ok(*me, queried@, discovered@, r.0@),
        r.1 == (r.0@.len() == 0 || round + 1 >= JOIN_ROUND_BUDGET),
{
    broadcast use vstd::seq_lib::group_to_multiset_ensures;

    let mut fresh: Vec<(Node, [u8; 32])> = Vec::new();
    let mut i: usize = 0;
    while i < discovered.len()
        invariant
            0 <= i <= discovered@.len(),
            forall|k: int|
                0 <= k < fresh@.len() ==> from_discovered(discovered@, (#[trigger] fresh@[k]).0),
            forall|k: int|
                0 <= k < fresh@.len() ==> !addr_known(
                    queried@,
                    spec_address((#[trigger] fresh@[k]).0),
                ),
            forall|k: int|
                0 <= k < fresh@.len() ==> (#[trigger] fresh@[k]).1@ == xor_bytes(
                    fresh@[k].0.id@,
                    me.id@,
                ),
            forall|k: int, l: int| 0 <= k < l < fresh@.len() ==> fresh@[k].0.id@ != fresh@[l].0.id@,
        decreases discovered@.len() - i,
    {
        let cand = discovered[i].clone();
        let addr = cand.get_address();
        let mut known = false;
        let mut q: usize = 0;
        while q < queried.len()
            invariant
                0 <= q <= queried@.len(),
                known ==> addr_known(queried@, addr@),
                !known ==> forall|t: int| 0 <= t < q ==> queried@[t]@ != addr@,
            decreases queried@.len() - q,
        {
            if queried[q].eq(&addr) {
                known = true;
            }
            q = q + 1;
        }
        if !known {
            let mut dup = false;
            let mut t: usize = 0;
            while t < fresh.len()
                invariant
                    0 <= t <= fresh@.len(),
                    dup ==> (exists|k: int| 0 <= k < fresh@.len() && fresh@[k].0.id@ == cand.id@),
                    !dup ==> forall|k: int| 0 <= k < t ==> fresh@[k].0.id@ != cand.id@,
                decreases fresh@.len() - t,
            {
                if fresh[t].0.id.equals(&cand.id) {
                    dup = true;
                }
                t = t + 1;
            }
            if !dup {
                let d = cand.id.distance(&me.id);
                proof {
                    assert(spec_address(cand) == addr@);
                    assert(node_eq(discovered@[i as int], cand));
                    assert(from_discovered(discovered@, cand));
                }
                fresh.push((cand, d));
            }
        }
        i = i + 1;
    }
    proof {
        assert forall|p: int, q2: int| 0 <= p < q2 < fresh@.len() implies fresh@[p].1@
            != fresh@[q2].1@ by {
            if fresh@[p].1@ == fresh@[q2].1@ {
                lemma_xor_injective(fresh@[p].0.id@, fresh@[q2].0.id@, me.id@);
            }
        }
    }
    let ghost fall = fresh@;
    let sorted = crate::routing_table::sort_pairs(fresh);
    let ghost sall = sorted@;
    let mut out: Vec<Node> = Vec::new();
    let mut k: usize = 0;
    while k < sorted.len()
        invariant
            0 <= k <= sorted@.len(),
            sall == sorted@,
            out@.len() == k,
            forall|t: int| 0 <= t < k ==> (#[trigger] out@[t])@ == sorted@[t].0@,
        decreases sorted@.len() - k,
    {
        let c = sorted[k].0.clone();
        proof {
            assert(c@ =~= sorted@[k as int].0@);
        }
        out.push(c);
        k = k + 1;
    }
    let done = out.len() == 0 || round >= JOIN_ROUND_BUDGET - 1;
    proof {
        assert forall|t: int| 0 <= t < out@.len() implies (#[trigger] out@[t])@ == sall[t].0@
            && sall[t].1@ == xor_bytes(out@[t].id@, me.id@) && from_discovered(
            discovered@,
            out@[t],
        ) && !addr_known(queried@, spec_address(out@[t])) by {
            assert(out@[t]@ == sall[t].0@);
            assert(sall.contains(sall[t]));
            assert(sall.to_multiset().count(sall[t]) > 0);
            assert(fall.contains(sall[t]));
            let idx = choose|idx: int| 0 <= idx < fall.len() && fall[idx] == sall[t];
            assert(node_eq(fall[idx].0, out@[t]));
            assert(from_discovered(discovered@, fall[idx].0));
            let j0 = choose|j: int|
                0 <= j < discovered@.len() && node_eq(discovered@[j], fall[idx].0);
            assert(node_eq(discovered@[j0], out@[t]));
            assert(from_discovered(discovered@, out@[t]));
            assert(spec_address(fall[idx].0) == spec_address(out@[t]));
        }
        assert forall|k: int| 0 <= k < out@.len() implies from_discovered(
            discovered@,
            #[trigger] out@[k],
        ) by {
            assert(out@[k]@ == sall[k].0@);
        }
        assert forall|k: int| 0 <= k < out@.len() implies !addr_known(
            queried@,
            spec_address(#[trigger] out@[k]),
        ) by {
            assert(out@[k]@ == sall[k].0@);
        }
        assert forall|i2: int, j2: int|
            #![trigger out@[i2], out@[j2]]
            0 <= i2 < j2 < out@.len() implies bytes_lt(
            xor_bytes(out@[i2].id@, me.id@),
            xor_bytes(out@[j2].id@, me.id@),
        ) by {
            assert(bytes_lt(sall[i2].1@, sall[j2].1@));
            assert(out@[i2]@ == sall[i2].0@);
            assert(out@[j2]@ == sall[j2].0@);
        }
        assert forall|i2: int, j2: int|
            #![trigger out@[i2], out@[j2]]
            0 <= i2 < j2 < out@.len() implies out@[i2].id@ != out@[j2].id@ by {
            assert(bytes_lt(sall[i2].1@, sall[j2].1@));
            assert(out@[i2]@ == sall[i2].0@);
            assert(out@[j2]@ == sall[j2].0@);
            if out@[i2].id@ == out@[j2].id@ {
                assert(sall[i2].1@ =~= sall[j2].1@);
                crate::distance::lemma_bytes_lt_irrefl(sall[i2].1@);
            }
        }
        assert(join_selection_ok(*me, queried@, discovered@, out@));
    }
    (out, done)
}

/// The object application code starts and stops: the local contact,
/// its routing table, the pending-waiter table, and the local
/// key-value knowledge that `Store` accumulates.
#[derive(Debug)]
pub struct KademliaDHT {
    pub node: Node,
    pub routing_table: RoutingTable,
    pub await_response: AwaitResponse,
    pub store: Vec<(String, String)>,
}

impl KademliaDHT {
    pub open spec fn wf(self) -> bool {
        &&& self.routing_table.wf()
        &&& self.await_response.wf()
        &&& self.routing_table.node.id@ == self.node.id@
        &&& self.node.id@.len() == KEY_SIZE
    }

    /// A fresh node around `node`; a bootstrap contact, when given, is
    /// the seed the orchestrator's join lookup will query first.
    pub fn new(node: Node, bootstrap: Option<Node>) -> (r: KademliaDHT)
        requires
            node.id@.len() == KEY_SIZE,
        ensures
            r.wf(),
            node_eq(r.node, node),
            r.routing_table.bootstrap == bootstrap,
            r.routing_table.total_contacts() == 0,
            r.await_response.entries@.len() == 0,
            r.store@.len() == 0,
    {
        let rt = RoutingTable::new(node.clone(), bootstrap);
        KademliaDHT {
            node,
            routing_table: rt,
            await_response: AwaitResponse::new(),
            store: Vec::new(),
        }
    }

    /// Looks the key up in what this node stores locally.
    fn store_get(&self, key: &String) -> (r: Option<String>)
        ensures
            match r {
                Some(v) => store_lookup(self.store@, key@) == Some(v@),
                None => store_lookup(self.store@, key@) is None,
            },
    {
        let ghost s = self.store@;
        let mut i: usize = self.store.len();
        proof {
            assert(s.take(s.len() as int) =~= s);
        }
        while i > 0
            invariant
                0 <= i <= self.store@.len(),
                s == self.store@,
                store_lookup(s, key@) == store_lookup(s.take(i as int), key@),
            decreases i,
        {
            proof {
                assert(s.take(i as int).last() == s[i - 1]);
                assert(s.take(i as int).drop_last() =~= s.take(i - 1));
            }
            if self.store[i - 1].0.eq(key) {
                return Some(self.store[i - 1].1.clone());
            }
            i = i - 1;
        }
        proof {
            assert(s.take(0).len() == 0);
        }
        None
    }

    /// The contacts sent back for a lookup around `target`.
    fn closest_contacts(&self, target: &Key) -> (r: Vec<Node>)
        requires
            self.routing_table.wf(),
            target@.len() == KEY_SIZE,
        ensures
            closest_ok(self.routing_table, target@, r.deep_view()),
    {
        let probe = Node { id: *target, ip: String::new(), port: 0 };
        let pairs = self.routing_table.get_closest_nodes(&probe, K_BUCKET_SIZE);
        let mut out: Vec<Node> = Vec::new();
        let mut i: usize = 0;
        while i < pairs.len()
            invariant
                0 <= i <= pairs@.len(),
                out@.len() == i,
                forall|k: int| 0 <= k < i ==> (#[trigger] out@[k])@ == pairs@[k].0@,
            decreases pairs@.len() - i,
        {
            let c = pairs[i].0.clone();
            let ghost cv = c@;
            proof {
                assert(cv =~= pairs@[i as int].0@);
            }
            out.push(c);
            i = i + 1;
        }
        proof {
            let cs = out.deep_view();
            assert(cs.len() == pairs@.len());
            assert(forall|k: int| 0 <= k < cs.len() ==> cs[k] == (#[trigger] out@[k])@);
            assert forall|p: int, q: int| 0 <= p < q < cs.len() implies bytes_lt(
                xor_bytes(cs[p].id, target@),
                xor_bytes(cs[q].id, target@),
            ) by {
                assert(pairs@[p].1@ == xor_bytes(pairs@[p].0.id@, probe.id@));
                assert(pairs@[q].1@ == xor_bytes(pairs@[q].0.id@, probe.id@));
            }
            assert forall|k: int| 0 <= k < cs.len() implies table_contains_view(
                self.routing_table,
                #[trigger] cs[k],
            ) by {
                assert(self.routing_table.spec_contains(pairs@[k].0));
                let (b, j) = choose|b: int, j: int|
                    0 <= b < N_BUCKETS && 0 <= j < self.routing_table.buckets@[b].nodes@.len()
                        && node_eq(self.routing_table.buckets@[b].nodes@[j], pairs@[k].0);
                assert(self.routing_table.buckets@[b].nodes@[j]@ =~= cs[k]);
            }
        }
        out
    }

    /// Records every contact that replied during a lookup round: the
    /// table afterwards is the one-contact update chained over the
    /// replies, in order, and nothing else of the node changes.
    pub fn record_contacts(&mut self, contacts: Vec<Node>)
        requires
            old(self).wf(),
        ensures
            final(self).wf(),
            final(self).node == old(self).node,
            final(self).routing_table.node == old(self).routing_table.node,
            final(self).routing_table.bootstrap == old(self).routing_table.bootstrap,
            final(self).await_response == old(self).await_response,
            final(self).store@ == old(self).store@,
            tables_chain(old(self).routing_table, final(self).routing_table, contacts@),
    {
        let ghost all = contacts@;
        let ghost rt0 = self.routing_table;
        let ghost me = old(self).node;
        let ghost waiters = old(self).await_response;
        let ghost kept = old(self).store@;
        let mut cs = contacts;
        let ghost mut i: int = 0;
        proof {
            assert(all.take(0) =~= Seq::<Node>::empty());
        }
        while cs.len() > 0
            invariant
                0 <= i <= all.len(),
                cs@ == all.skip(i),
                self.wf(),
                self.node == me,
                self.routing_table.node == rt0.node,
                self.routing_table.bootstrap == rt0.bootstrap,
                self.await_response == waiters,
                self.store@ == kept,
                tables_chain(rt0, self.routing_table, all.take(i)),
            decreases cs@.len(),
        {
            let c = cs.remove(0);
            proof {
                assert(c == all[i]);
                assert(cs@ =~= all.skip(i + 1));
                assert(c.id@.len() == 32);
            }
            let ghost prev = self.routing_table;
            self.routing_table.update(c, None);
            proof {
                assert(table_updated(prev, self.routing_table, c));
                assert(all.take(i + 1).drop_last() =~= all.take(i));
                assert(all.take(i + 1).last() == c);
                assert(tables_chain(rt0, prev, all.take(i + 1).drop_last()));
                assert(tables_chain(rt0, self.routing_table, all.take(i + 1)));
                i = i + 1;
            }
        }
        proof {
            assert(all.take(i) =~= all);
        }
    }

    /// Handles one inbound request: first records the sender as
    /// liveness evidence, then answers its verb — `Ping` with `Pong`,
    /// `Store` with an acknowledgement after keeping the pair,
    /// `FindNode` and an unknown `FindValue` key with the closest
    /// contacts, a known `FindValue` key with its value. A response
    /// verb arriving as a request is answered with a plain `Pong`.
    /// The reply envelope carries the request's token with source and
    /// destination swapped.
    pub fn handle_request(&mut self, payload: &Datagram, sender: Node) -> (r: Datagram)
        requires
            old(self).wf(),
            sender.id@.len() == KEY_SIZE,
        ensures
            final(self).wf(),
            final(self).node == old(self).node,
            final(self).await_response == old(self).await_response,
            table_updated(old(self).routing_table, final(self).routing_table, sender),
            r@.data_type == DatagramType::RESPONSE,
            r@.token_id == payload@.token_id,
            r@.source == payload@.destination,
            r@.destination == payload@.source,
            payload@.data is Ping ==> r@.data == RpcView::Pong
                && final(self).store@ == old(self).store@,
            (match payload@.data {
                RpcView::Store { key, value } => r@.data == RpcView::StoreAck
                    && final(self).store@.len() == old(self).store@.len() + 1
                    && store_lookup(final(self).store@, key) == Some(value),
                _ => true,
            }),
            (match payload@.data {
                RpcView::FindNode { target } => final(self).store@ == old(self).store@ && (
                r@.data matches RpcView::Nodes { contacts } && closest_ok(
                    final(self).routing_table,
                    target,
                    contacts,
                )),
                _ => true,
            }),
            (match payload@.data {
                RpcView::FindValue { key } => final(self).store@ == old(self).store@ && (
                match store_lookup(old(self).store@, key) {
                    Some(v) => r@.data == (RpcView::Value { value: v }),
                    None => r@.data matches RpcView::Nodes { contacts } && closest_ok(
                        final(self).routing_table,
                        sha256_of(encode_utf8(key)),
                        contacts,
                    ),
                }),
                _ => true,
            }),
            (match payload@.data {
                RpcView::Pong | RpcView::StoreAck | RpcView::Nodes { .. } | RpcView::Value {
                    ..
                } => r@.data == RpcView::Pong && final(self).store@ == old(self).store@,
                _ => true,
            }),
    {
        self.routing_table.update(sender, None);
        let resp: Rpc = match &payload.data {
            Rpc::Ping => Rpc::Pong,
            Rpc::Store { key, value } => {
                let ghost s0 = self.store@;
                self.store.push((key.clone(), value.clone()));
                proof {
                    assert(self.store@.last().0@ == key@ && self.store@.last().1@ == value@);
                }
                Rpc::StoreAck
            },
            Rpc::FindNode { target } => Rpc::Nodes { contacts: self.closest_contacts(target) },
            Rpc::FindValue { key } => {
                match self.store_get(key) {
                    Some(value) => Rpc::Value { value },
                    None => {
                        let t = Key::new(key.clone());
                        Rpc::Nodes { contacts: self.closest_contacts(&t) }
                    },
                }
            },
            Rpc::Pong => Rpc::Pong,
            Rpc::StoreAck => Rpc::Pong,
            Rpc::Nodes { .. } => Rpc::Pong,
            Rpc::Value { .. } => Rpc::Pong,
        };
        Datagram {
            data_type: DatagramType::RESPONSE,
            token_id: payload.token_id.clone(),
            source: payload.destination.clone(),
            destination: payload.source.clone(),
            data: resp,
        }
    }
}

} // verus!
