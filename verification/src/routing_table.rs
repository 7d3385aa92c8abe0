use vstd::prelude::*;

verus! {

use vstd::seq_lib::group_seq_properties;
use crate::fixed_sizes::{K_BUCKET_SIZE, KEY_SIZE, N_BUCKETS};
use crate::key::{
    Key, lemma_bucket_index_range, lemma_xor_injective, spec_bucket_index, xor_bytes,
};
use crate::distance::{bytes_le, bytes_lt, bytes_lt_exec, lemma_bytes_le_trans,
    lemma_bytes_lt_connected};
use crate::node::{Node, node_eq};

/// No two contacts of the sequence share an identifier.
pub open spec fn ids_unique(s: Seq<Node>) -> bool {
    forall|i: int, j: int| 0 <= i < j < s.len() ==> s[i].id@ != s[j].id@
}

/// What membership of bucket `b` of the table around `self_id` demands
/// of a single contact.
pub open spec fn member_ok(self_id: Seq<u8>, b: int, n: Node) -> bool {
    &&& n.id@.len() == KEY_SIZE
    &&& n.id@ != self_id
    &&& spec_bucket_index(xor_bytes(self_id, n.id@)) == b
}

/// Well-formedness of the contacts of bucket `b`: bounded, duplicate
/// free, and every member belongs to this distance band.
pub open spec fn bucket_wf_for(s: Seq<Node>, self_id: Seq<u8>, b: int) -> bool {
    &&& s.len() <= K_BUCKET_SIZE
    &&& ids_unique(s)
    &&& forall|i: int| 0 <= i < s.len() ==> member_ok(self_id, b, #[trigger] s[i])
}

/// Some contact of `s` carries identifier `id`.
pub open spec fn has_id(s: Seq<Node>, id: Seq<u8>) -> bool {
    exists|j: int| 0 <= j < s.len() && s[j].id@ == id
}

pub open spec fn id_pos(s: Seq<Node>, id: Seq<u8>) -> int {
    choose|j: int| 0 <= j < s.len() && s[j].id@ == id
}

/// One bucket update. A contact already present is moved to the
/// freshest (last) position, carrying its latest address; a new contact
/// is appended while room remains; a newcomer to a full bucket is
/// dropped, deferring any eviction probing to the orchestrator's
/// background refresh.
pub open spec fn spec_insert(s: Seq<Node>, c: Node) -> Seq<Node> {
    if has_id(s, c.id@) {
        s.remove(id_pos(s, c.id@)).push(c)
    } else if s.len() < K_BUCKET_SIZE {
        s.push(c)
    } else {
        s
    }
}

/// Removal by identifier; a miss leaves the bucket unchanged.
pub open spec fn spec_remove_id(s: Seq<Node>, id: Seq<u8>) -> Seq<Node> {
    if has_id(s, id) {
        s.remove(id_pos(s, id))
    } else {
        s
    }
}

/// A bounded, ordered collection of contacts for one distance band.
/// The least-recently-seen contact stands first, the freshest last.
#[derive(Debug)]
pub struct Bucket {
    pub nodes: Vec<Node>,
}

impl Bucket {
    pub fn new() -> (r: Bucket)
        ensures
            r.nodes@.len() == 0,
    {
        Bucket { nodes: Vec::new() }
    }

    /// Position of the contact carrying `id`, if any.
    pub fn find_id(&self, id: &Key) -> (r: Option<usize>)
        ensures
            match r {
                Some(j) => 0 <= j < self.nodes@.len() && self.nodes@[j as int].id@ == id@,
                None => !has_id(self.nodes@, id@),
            },
    {
        let mut j: usize = 0;
        while j < self.nodes.len()
            invariant
                0 <= j <= self.nodes@.len(),
                forall|k: int| 0 <= k < j ==> self.nodes@[k].id@ != id@,
            decreases self.nodes@.len() - j,
        {
            if self.nodes[j].id.equals(id) {
                return Some(j);
            }
            j = j + 1;
        }
        None
    }

    /// Refreshes a known contact or inserts an unknown one, following
    /// `spec_insert`.
    pub fn insert_or_refresh(&mut self, c: Node)
        requires
            ids_unique(old(self).nodes@),
        ensures
            final(self).nodes@ == spec_insert(old(self).nodes@, c),
    {
        let ghost s0 = self.nodes@;
        match self.find_id(&c.id) {
            Some(j) => {
                proof {
                    assert(has_id(s0, c.id@));
                    let jj = id_pos(s0, c.id@);
                    assert(0 <= jj < s0.len() && s0[jj].id@ == c.id@);
                    assert(jj == j);
                }
                let _ = self.nodes.remove(j);
                self.nodes.push(c);
            },
            None => {
                if self.nodes.len() < K_BUCKET_SIZE {
                    self.nodes.push(c);
                }
            },
        }
    }

    /// Removes the contact carrying `id`, if present.
    pub fn remove_id(&mut self, id: &Key)
        requires
            ids_unique(old(self).nodes@),
        ensures
            final(self).nodes@ == spec_remove_id(old(self).nodes@, id@),
    {
        let ghost s0 = self.nodes@;
        match self.find_id(id) {
            Some(j) => {
                proof {
                    assert(has_id(s0, id@));
                    let jj = id_pos(s0, id@);
                    assert(0 <= jj < s0.len() && s0[jj].id@ == id@);
                    assert(jj == j);
                }
                let _ = self.nodes.remove(j);
            },
            None => {},
        }
    }
}

impl Bucket {
    /// The bucket's own contacts sorted ascending by distance to the
    /// target, at most `n` of them, paired with those distances.
    pub fn closest_to(&self, target: &Node, n: usize) -> (r: Vec<(Node, [u8; 32])>)
        requires
            ids_unique(self.nodes@),
        ensures
            r@.len() == (if n as int <= self.nodes@.len() {
                n as int
            } else {
                self.nodes@.len() as int
            }),
            forall|k: int|
                0 <= k < r@.len() ==> (exists|j: int|
                    0 <= j < self.nodes@.len() && node_eq(self.nodes@[j], (#[trigger] r@[k]).0))
                    && r@[k].1@ == xor_bytes(r@[k].0.id@, target.id@),
            forall|i: int, j: int| 0 <= i < j < r@.len() ==> bytes_lt(r@[i].1@, r@[j].1@),
    {
        broadcast use vstd::seq_lib::group_to_multiset_ensures;

        let mut pairs: Vec<(Node, [u8; 32])> = Vec::new();
        let mut j: usize = 0;
        while j < self.nodes.len()
            invariant
                0 <= j <= self.nodes@.len(),
                ids_unique(self.nodes@),
                pairs@.len() == j,
                forall|k: int|
                    0 <= k < j ==> node_eq(self.nodes@[k], (#[trigger] pairs@[k]).0)
                        && pairs@[k].1@ == xor_bytes(pairs@[k].0.id@, target.id@),
            decreases self.nodes@.len() - j,
        {
            let c = self.nodes[j].clone();
            let d = c.id.distance(&target.id);
            pairs.push((c, d));
            j = j + 1;
        }
        proof {
            assert forall|p: int, q: int| 0 <= p < q < pairs@.len() implies pairs@[p].1@
                != pairs@[q].1@ by {
                if pairs@[p].1@ == pairs@[q].1@ {
                    lemma_xor_injective(pairs@[p].0.id@, pairs@[q].0.id@, target.id@);
                    assert(self.nodes@[p].id@ == self.nodes@[q].id@);
                }
            }
        }
        let ghost pall = pairs@;
        let mut r = sort_pairs(pairs);
        let ghost sall = r@;
        r.truncate(n);
        proof {
            assert forall|k: int| 0 <= k < r@.len() implies (exists|j2: int|
                0 <= j2 < self.nodes@.len() && node_eq(self.nodes@[j2], (#[trigger] r@[k]).0))
                && r@[k].1@ == xor_bytes(r@[k].0.id@, target.id@) by {
                assert(r@[k] == sall[k]);
                assert(sall.contains(sall[k]));
                assert(sall.to_multiset().count(sall[k]) > 0);
                assert(pall.contains(sall[k]));
                let idx = choose|idx: int| 0 <= idx < pall.len() && pall[idx] == sall[k];
                assert(node_eq(self.nodes@[idx], r@[k].0));
            }
        }
        r
    }
}

/// A bucket update keeps the bucket well formed when the incoming
/// contact belongs to that band.
pub proof fn lemma_insert_wf(s: Seq<Node>, c: Node, self_id: Seq<u8>, b: int)
    requires
        bucket_wf_for(s, self_id, b),
        member_ok(self_id, b, c),
    ensures
        bucket_wf_for(spec_insert(s, c), self_id, b),
{
    broadcast use group_seq_properties;

    if has_id(s, c.id@) {
        let j = id_pos(s, c.id@);
        assert(0 <= j < s.len() && s[j].id@ == c.id@);
        let t = s.remove(j).push(c);
        assert forall|p: int, q: int| 0 <= p < q < t.len() implies t[p].id@ != t[q].id@ by {
            if q < t.len() - 1 {
                // both drawn from s at shifted positions
                assert(t[p] == if p < j { s[p] } else { s[p + 1] });
                assert(t[q] == if q < j { s[q] } else { s[q + 1] });
            } else {
                // q is the appended contact; p comes from s with the
                // occurrence of this identifier removed
                assert(t[p] == if p < j { s[p] } else { s[p + 1] });
            }
        }
        assert(forall|i: int| 0 <= i < t.len() ==> member_ok(self_id, b, #[trigger] t[i]));
    } else if s.len() < K_BUCKET_SIZE {
        let t = s.push(c);
        assert forall|p: int, q: int| 0 <= p < q < t.len() implies t[p].id@ != t[q].id@ by {
            if q == t.len() - 1 {
                assert(!(s[p].id@ == c.id@)) by {
                    if s[p].id@ == c.id@ {
                        assert(has_id(s, c.id@));
                    }
                }
            }
        }
    }
}

/// A table update is idempotent in size: inserting a contact a second
/// time refreshes its position and leaves the bucket's contact count
/// unchanged.
pub proof fn lemma_update_idempotent(s: Seq<Node>, c: Node)
    requires
        ids_unique(s),
    ensures
        spec_insert(spec_insert(s, c), c).len() == spec_insert(s, c).len(),
{
    let t = spec_insert(s, c);
    if has_id(s, c.id@) {
        assert(t.last() == c);
        assert(has_id(t, c.id@));
    } else if s.len() < K_BUCKET_SIZE {
        assert(t.last() == c);
        assert(has_id(t, c.id@));
    }
    if has_id(t, c.id@) {
        let j = id_pos(t, c.id@);
        assert(0 <= j < t.len() && t[j].id@ == c.id@);
        assert(spec_insert(t, c) == t.remove(j).push(c));
    }
}

/// Sorts candidate pairs of contact and distance ascending by
/// distance. Distances must be pairwise distinct, as they are for
/// candidates with pairwise distinct identifiers, and stay so.
#[verifier::rlimit(30)]
pub(crate) fn sort_pairs(input: Vec<(Node, [u8; 32])>) -> (out: Vec<(Node, [u8; 32])>)
    requires
        forall|i: int, j: int| 0 <= i < j < input@.len() ==> input@[i].1@ != input@[j].1@,
    ensures
        out@.to_multiset() == input@.to_multiset(),
        out@.len() == input@.len(),
        forall|i: int, j: int| 0 <= i < j < out@.len() ==> bytes_lt(out@[i].1@, out@[j].1@),
{
    broadcast use vstd::seq_lib::group_to_multiset_ensures;
    broadcast use vstd::multiset::group_multiset_axioms;

    let ghost input0 = input@;
    let mut work = input;
    let mut out: Vec<(Node, [u8; 32])> = Vec::new();
    while work.len() > 0
        invariant
            out@.len() + work@.len() == input0.len(),
            out@.to_multiset().add(work@.to_multiset()) =~= input0.to_multiset(),
            forall|i: int, j: int| 0 <= i < j < out@.len() ==> bytes_le(out@[i].1@, out@[j].1@),
            forall|i: int, j: int|
                0 <= i < out@.len() && 0 <= j < work@.len() ==> bytes_le(
                    out@[i].1@,
                    work@[j].1@,
                ),
            forall|i: int, j: int| 0 <= i < j < out@.len() ==> out@[i].1@ != out@[j].1@,
            forall|i: int, j: int| 0 <= i < j < work@.len() ==> work@[i].1@ != work@[j].1@,
            forall|i: int, j: int|
                0 <= i < out@.len() && 0 <= j < work@.len() ==> out@[i].1@ != work@[j].1@,
        decreases work@.len(),
    {
        let mut m: usize = 0;
        let mut k: usize = 1;
        while k < work.len()
            invariant
                0 <= m < k <= work@.len(),
                work@.len() > 0,
                forall|t: int| 0 <= t < k ==> bytes_le(work@[m as int].1@, work@[t].1@),
            decreases work@.len() - k,
        {
            if bytes_lt_exec(&work[k].1, &work[m].1) {
                proof {
                    assert forall|t: int| 0 <= t < k implies bytes_le(
                        work@[k as int].1@,
                        work@[t].1@,
                    ) by {
                        lemma_bytes_le_trans(work@[k as int].1@, work@[m as int].1@, work@[t].1@);
                    }
                }
                m = k;
            } else {
                proof {
                    if !bytes_lt(work@[m as int].1@, work@[k as int].1@) {
                        lemma_bytes_lt_connected(work@[m as int].1@, work@[k as int].1@);
                        assert(work@[m as int].1@ =~= work@[k as int].1@);
                    }
                }
            }
            k = k + 1;
        }
        let ghost w0 = work@;
        let ghost o0 = out@;
        let x = work.remove(m);
        out.push(x);
        proof {
            assert(w0.contains(w0[m as int]));
            assert forall|t: int| 0 <= t < work@.len() implies work@[t] == (if t < m {
                w0[t]
            } else {
                w0[t + 1]
            }) by {}
            assert(out@.to_multiset().add(work@.to_multiset()) =~= input0.to_multiset()) by {
                o0.to_multiset_ensures();
                w0.to_multiset_ensures();
                assert(out@ == o0.push(x));
                assert(out@.to_multiset() =~= o0.to_multiset().insert(x));
                assert(work@ == w0.remove(m as int));
                assert(work@.to_multiset() =~= w0.to_multiset().remove(x));
                assert(w0.to_multiset().count(x) > 0);
                assert(o0.to_multiset().insert(x).add(w0.to_multiset().remove(x))
                    =~= o0.to_multiset().add(w0.to_multiset()));
            }
        }
    }
    proof {
        assert forall|i: int, j: int| 0 <= i < j < out@.len() implies bytes_lt(
            out@[i].1@,
            out@[j].1@,
        ) by {
            assert(bytes_le(out@[i].1@, out@[j].1@));
            assert(out@[i].1@ != out@[j].1@);
        }
    }
    out
}

/// The full set of distance bands around one node: 256 buckets, one
/// per possible bucket index. A contact never appears in more than one
/// bucket (its band is a function of its identifier), and the local
/// node's own identifier is never stored.
#[derive(Debug)]
pub struct RoutingTable {
    pub node: Node,
    pub bootstrap: Option<Node>,
    pub buckets: Vec<Bucket>,
}

impl RoutingTable {
    pub open spec fn wf(self) -> bool {
        &&& self.buckets@.len() == N_BUCKETS
        &&& self.node.id@.len() == KEY_SIZE
        &&& forall|b: int|
            0 <= b < N_BUCKETS ==> bucket_wf_for(
                (#[trigger] self.buckets@[b]).nodes@,
                self.node.id@,
                b,
            )
    }

    /// Number of contacts held over all buckets from index `i` on.
    pub open spec fn count_from(self, i: int) -> int
        decreases N_BUCKETS - i,
    {
        if i < 0 || i >= N_BUCKETS {
            0
        } else {
            self.buckets@[i].nodes@.len() + self.count_from(i + 1)
        }
    }

    /// Number of contacts held over all buckets.
    pub open spec fn total_contacts(self) -> int {
        self.count_from(0)
    }

    /// Some bucket holds a contact with exactly this identifier,
    /// address and port.
    pub open spec fn spec_contains(self, n: Node) -> bool {
        exists|b: int, j: int|
            0 <= b < N_BUCKETS && 0 <= j < self.buckets@[b].nodes@.len() && node_eq(
                self.buckets@[b].nodes@[j],
                n,
            )
    }

    /// Creates 256 empty buckets. A bootstrap contact, when given, is
    /// recorded as a seed only: the table starts empty, and the
    /// orchestrator performs the lookup that populates it.
    pub fn new(node: Node, bootstrap: Option<Node>) -> (r: RoutingTable)
        requires
            node.id@.len() == KEY_SIZE,
        ensures
            r.wf(),
            r.node == node,
            r.bootstrap == bootstrap,
            r.total_contacts() == 0,
            forall|b: int| 0 <= b < N_BUCKETS ==> (#[trigger] r.buckets@[b]).nodes@.len() == 0,
    {
        let mut buckets: Vec<Bucket> = Vec::new();
        let mut i: usize = 0;
        while i < N_BUCKETS
            invariant
                buckets@.len() == i,
                0 <= i <= N_BUCKETS,
                forall|b: int| 0 <= b < i ==> (#[trigger] buckets@[b]).nodes@.len() == 0,
            decreases N_BUCKETS - i,
        {
            buckets.push(Bucket::new());
            i = i + 1;
        }
        let r = RoutingTable { node, bootstrap, buckets };
        proof {
            r.lemma_count_from_empty(0);
        }
        r
    }

    proof fn lemma_count_from_empty(self, i: int)
        requires
            forall|b: int| 0 <= b < N_BUCKETS ==> (#[trigger] self.buckets@[b]).nodes@.len() == 0,
        ensures
            self.count_from(i) == 0,
        decreases N_BUCKETS - i,
    {
        if 0 <= i < N_BUCKETS {
            self.lemma_count_from_empty(i + 1);
        }
    }

    /// The distance band a contact falls in, relative to this node.
    pub fn node_find_bucket_index(&self, other: &Node) -> (r: usize)
        requires
            self.node.id@.len() == KEY_SIZE,
            other.id@.len() == KEY_SIZE,
        ensures
            r == spec_bucket_index(xor_bytes(self.node.id@, other.id@)),
            r < N_BUCKETS,
    {
        let d = self.node.id.distance(&other.id);
        crate::key::bucket_index_of_distance(&d)
    }

    /// Records liveness evidence for a contact: a contact carrying the
    /// local node's own identifier is ignored; any other is inserted
    /// into, or refreshed within, the bucket its distance selects, as
    /// `spec_insert` describes. The optional index hint is diagnostic
    /// only and never consulted: the band is always recomputed from the
    /// identifiers, and the conservative full-bucket policy needs no
    /// liveness probe.
    pub fn update(&mut self, contact: Node, hint: Option<usize>)
        requires
            old(self).wf(),
            contact.id@.len() == KEY_SIZE,
        ensures
            final(self).wf(),
            final(self).node == old(self).node,
            final(self).bootstrap == old(self).bootstrap,
            contact.id@ == old(self).node.id@ ==> final(self).buckets@ == old(self).buckets@,
            contact.id@ != old(self).node.id@ ==> ({
                let b = spec_bucket_index(xor_bytes(old(self).node.id@, contact.id@));
                &&& final(self).buckets@[b].nodes@ == spec_insert(
                    old(self).buckets@[b].nodes@,
                    contact,
                )
                &&& forall|i: int|
                    0 <= i < N_BUCKETS && i != b ==> final(self).buckets@[i] == old(
                        self,
                    ).buckets@[i]
            }),
    {
        if contact.id.equals(&self.node.id) {
            return ;
        }
        let idx = self.node_find_bucket_index(&contact);
        let ghost b0 = self.buckets@;
        let mut bucket = self.buckets.remove(idx);
        proof {
            lemma_insert_wf(bucket.nodes@, contact, self.node.id@, idx as int);
        }
        bucket.insert_or_refresh(contact);
        self.buckets.insert(idx, bucket);
        proof {
            assert forall|i: int| 0 <= i < N_BUCKETS && i != idx implies self.buckets@[i]
                == b0[i] by {
                assert(self.buckets@[i] == b0.remove(idx as int).insert(idx as int, bucket)[i]);
            }
            assert(self.buckets@[idx as int] == bucket);
        }
    }

    /// What each gathered candidate pair satisfies: its contact stands
    /// in the table and its distance is the XOR of the two identifiers.
    pub open spec fn pair_ok(self, target_id: Seq<u8>, p: (Node, [u8; 32])) -> bool {
        &&& self.spec_contains(p.0)
        &&& p.0.id@.len() == KEY_SIZE
        &&& p.1@ == xor_bytes(p.0.id@, target_id)
    }

    /// The `count` contacts of the table closest to `target` by XOR
    /// distance, each paired with that distance, ascending and
    /// duplicate free. All bands are scanned, so the result is the
    /// global optimum that outward expansion from the target's own
    /// band approximates; fewer than `count` contacts are returned
    /// only when the whole table holds fewer.
    #[verifier::rlimit(50)]
    pub fn get_closest_nodes(&self, target: &Node, count: usize) -> (r: Vec<(Node, [u8; 32])>)
        requires
            self.wf(),
            target.id@.len() == KEY_SIZE,
        ensures
            r@.len() == (if count as int <= self.total_contacts() {
                count as int
            } else {
                self.total_contacts()
            }),
            forall|k: int| 0 <= k < r@.len() ==> self.pair_ok(target.id@, #[trigger] r@[k]),
            forall|i: int, j: int| 0 <= i < j < r@.len() ==> bytes_lt(r@[i].1@, r@[j].1@),
            forall|i: int, j: int| 0 <= i < j < r@.len() ==> r@[i].0.id@ != r@[j].0.id@,
    {
        broadcast use vstd::seq_lib::group_to_multiset_ensures;

        let mut cands: Vec<(Node, [u8; 32])> = Vec::new();
        let mut b: usize = 0;
        while b < N_BUCKETS
            invariant
                self.wf(),
                target.id@.len() == KEY_SIZE,
                0 <= b <= N_BUCKETS,
                cands@.len() + self.count_from(b as int) == self.total_contacts(),
                forall|k: int|
                    0 <= k < cands@.len() ==> self.pair_ok(target.id@, #[trigger] cands@[k]),
                forall|k: int|
                    0 <= k < cands@.len() ==> spec_bucket_index(
                        xor_bytes(self.node.id@, (#[trigger] cands@[k]).0.id@),
                    ) < b,
                forall|k: int, l: int|
                    0 <= k < l < cands@.len() ==> cands@[k].0.id@ != cands@[l].0.id@,
            decreases N_BUCKETS - b,
        {
            let ghost clen0 = cands@.len();
            let mut j: usize = 0;
            while j < self.buckets[b].nodes.len()
                invariant
                    self.wf(),
                    target.id@.len() == KEY_SIZE,
                    0 <= b < N_BUCKETS,
                    0 <= j <= self.buckets@[b as int].nodes@.len(),
                    cands@.len() == clen0 + j,
                    forall|k: int|
                        0 <= k < cands@.len() ==> self.pair_ok(target.id@, #[trigger] cands@[k]),
                    forall|k: int|
                        0 <= k < cands@.len() ==> (spec_bucket_index(
                            xor_bytes(self.node.id@, (#[trigger] cands@[k]).0.id@),
                        ) < b || (exists|j2: int|
                            0 <= j2 < j && cands@[k].0.id@ == self.buckets@[b as int].nodes@[j2].id@)),
                    forall|k: int, l: int|
                        0 <= k < l < cands@.len() ==> cands@[k].0.id@ != cands@[l].0.id@,
                decreases self.buckets@[b as int].nodes@.len() - j,
            {
                let nd = self.buckets[b].nodes[j].clone();
                let d = nd.id.distance(&target.id);
                proof {
                    let n0 = self.buckets@[b as int].nodes@[j as int];
                    assert(member_ok(self.node.id@, b as int, n0));
                    assert(nd.id@ == n0.id@);
                    assert(self.spec_contains(nd));
                    assert forall|k: int| 0 <= k < cands@.len() implies cands@[k].0.id@
                        != nd.id@ by {
                        if spec_bucket_index(xor_bytes(self.node.id@, cands@[k].0.id@)) < b {
                            assert(spec_bucket_index(xor_bytes(self.node.id@, nd.id@)) == b);
                        } else {
                            let bnodes = self.buckets@[b as int].nodes@;
                            let j2 = choose|j2: int|
                                0 <= j2 < j && cands@[k].0.id@ == bnodes[j2].id@;
                            assert(bnodes[j2].id@ != n0.id@);
                        }
                    }
                }
                cands.push((nd, d));
                j = j + 1;
            }
            proof {
                assert(self.count_from(b as int) == self.buckets@[b as int].nodes@.len()
                    + self.count_from(b as int + 1));
                assert forall|k: int| 0 <= k < cands@.len() implies spec_bucket_index(
                    xor_bytes(self.node.id@, (#[trigger] cands@[k]).0.id@),
                ) < b + 1 by {
                    if !(spec_bucket_index(xor_bytes(self.node.id@, cands@[k].0.id@)) < b) {
                        let j2 = choose|j2: int|
                            0 <= j2 < self.buckets@[b as int].nodes@.len() && cands@[k].0.id@
                                == self.buckets@[b as int].nodes@[j2].id@;
                        assert(member_ok(self.node.id@, b as int, self.buckets@[b as int].nodes@[j2]));
                    }
                }
            }
            b = b + 1;
        }
        proof {
            assert(self.count_from(N_BUCKETS as int) == 0);
            assert forall|k: int, l: int| 0 <= k < l < cands@.len() implies cands@[k].1@
                != cands@[l].1@ by {
                if cands@[k].1@ == cands@[l].1@ {
                    lemma_xor_injective(cands@[k].0.id@, cands@[l].0.id@, target.id@);
                }
            }
        }
        let ghost call = cands@;
        let mut r = sort_pairs(cands);
        let ghost sall = r@;
        r.truncate(count);
        proof {
            assert forall|k: int| 0 <= k < r@.len() implies self.pair_ok(
                target.id@,
                #[trigger] r@[k],
            ) by {
                assert(r@[k] == sall[k]);
                assert(sall.contains(sall[k]));
                assert(sall.to_multiset().count(sall[k]) > 0);
                assert(call.contains(sall[k]));
                let idx = choose|idx: int| 0 <= idx < call.len() && call[idx] == sall[k];
                assert(self.pair_ok(target.id@, call[idx]));
            }
            assert forall|i: int, j: int| 0 <= i < j < r@.len() implies r@[i].0.id@
                != r@[j].0.id@ by {
                assert(bytes_lt(r@[i].1@, r@[j].1@));
                if r@[i].0.id@ == r@[j].0.id@ {
                    assert(r@[i].1@ =~= r@[j].1@);
                    crate::distance::lemma_bytes_lt_irrefl(r@[i].1@);
                }
            }
        }
        r
    }
}

} // verus!
