use vstd::prelude::*;

verus! {

/// One pending-response waiter: the correlation token of an in-flight
/// request and the destination the request was sent to. The single-use
/// delivery channel itself lives with the transport runtime; this
/// table is the bookkeeping that keeps tokens unique and resolutions
/// single.
#[derive(Debug)]
pub struct PendingEntry {
    pub token_id: String,
    pub destination: String,
}

/// No two entries share a token.
pub open spec fn tokens_unique(s: Seq<PendingEntry>) -> bool {
    forall|i: int, j: int| 0 <= i < j < s.len() ==> s[i].token_id@ != s[j].token_id@
}

pub open spec fn has_token(s: Seq<PendingEntry>, t: Seq<char>) -> bool {
    exists|j: int| 0 <= j < s.len() && s[j].token_id@ == t
}

pub open spec fn token_pos(s: Seq<PendingEntry>, t: Seq<char>) -> int {
    choose|j: int| 0 <= j < s.len() && s[j].token_id@ == t
}

/// The pending-waiter table: at most one waiter per token. An entry is
/// created when a request is issued, and removed exactly once — either
/// by the matching response or by the timeout.
#[derive(Debug)]
pub struct AwaitResponse {
    pub entries: Vec<PendingEntry>,
}

impl AwaitResponse {
    pub open spec fn wf(self) -> bool {
        tokens_unique(self.entries@)
    }

    pub fn new() -> (r: AwaitResponse)
        ensures
            r.wf(),
            r.entries@.len() == 0,
    {
        AwaitResponse { entries: Vec::new() }
    }

    fn find_token(&self, token: &String) -> (r: Option<usize>)
        ensures
            match r {
                Some(j) => 0 <= j < self.entries@.len() && self.entries@[j as int].token_id@
                    == token@,
                None => !has_token(self.entries@, token@),
            },
    {
        let mut j: usize = 0;
        while j < self.entries.len()
            invariant
                0 <= j <= self.entries@.len(),
                forall|k: int| 0 <= k < j ==> self.entries@[k].token_id@ != token@,
            decreases self.entries@.len() - j,
        {
            if token.eq(&self.entries[j].token_id) {
                return Some(j);
            }
            j = j + 1;
        }
        None
    }

    /// Atomically claims a token for a new in-flight request. A token
    /// already claimed is a caller error, reported and never silently
    /// overwritten.
    pub fn register_waiter(&mut self, token: String, destination: String) -> (r: bool)
        requires
            old(self).wf(),
        ensures
            final(self).wf(),
            has_token(old(self).entries@, token@) ==> r == false
                && final(self).entries@ == old(self).entries@,
            !has_token(old(self).entries@, token@) ==> r == true
                && final(self).entries@ == old(self).entries@.push(
                (PendingEntry { token_id: token, destination }),
            ),
    {
        match self.find_token(&token) {
            Some(_) => false,
            None => {
                let ghost s0 = self.entries@;
                self.entries.push(PendingEntry { token_id: token, destination });
                proof {
                    assert forall|i: int, j: int|
                        0 <= i < j < self.entries@.len() implies self.entries@[i].token_id@
                        != self.entries@[j].token_id@ by {
                        if j == self.entries@.len() - 1 {
                            assert(!has_token(s0, self.entries@[j].token_id@));
                        }
                    }
                }
                true
            },
        }
    }

    /// Takes the waiter a response or a timeout resolves: the entry
    /// for the token is removed exactly when one exists. An unknown
    /// token — an unsolicited response, or a second resolution racing
    /// a first — changes nothing and is reported as `None`.
    pub fn resolve(&mut self, token: &String) -> (r: Option<PendingEntry>)
        requires
            old(self).wf(),
        ensures
            final(self).wf(),
            !has_token(old(self).entries@, token@) ==> r is None
                && final(self).entries@ == old(self).entries@,
            has_token(old(self).entries@, token@) ==> r is Some
                && r.unwrap().token_id@ == token@
                && final(self).entries@ == old(self).entries@.remove(
                token_pos(old(self).entries@, token@),
            ),
    {
        let ghost s0 = self.entries@;
        match self.find_token(token) {
            None => None,
            Some(j) => {
                proof {
                    assert(has_token(s0, token@));
                    let jj = token_pos(s0, token@);
                    assert(0 <= jj < s0.len() && s0[jj].token_id@ == token@);
                    assert(jj == j);
                }
                let e = self.entries.remove(j);
                proof {
                    assert forall|p: int, q: int|
                        0 <= p < q < self.entries@.len() implies self.entries@[p].token_id@
                        != self.entries@[q].token_id@ by {
                        assert(self.entries@[p] == if p < j { s0[p] } else { s0[p + 1] });
                        assert(self.entries@[q] == if q < j { s0[q] } else { s0[q + 1] });
                    }
                }
                Some(e)
            },
        }
    }
}

/// A token sees at most one resolution: once its waiter is removed,
/// no waiter with that token remains, so a later response for it is
/// unsolicited and delivers nothing.
pub proof fn lemma_single_resolution(s: Seq<PendingEntry>, t: Seq<char>)
    requires
        tokens_unique(s),
        has_token(s, t),
    ensures
        !has_token(s.remove(token_pos(s, t)), t),
{
    let p = token_pos(s, t);
    assert(0 <= p < s.len() && s[p].token_id@ == t);
    let r = s.remove(p);
    assert forall|j: int| 0 <= j < r.len() implies r[j].token_id@ != t by {
        assert(r[j] == if j < p { s[j] } else { s[j + 1] });
    }
}

} // verus!
