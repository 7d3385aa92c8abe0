use vstd::prelude::*;

verus! {

use crate::datagram::{Datagram, DatagramType};
use crate::service::{AwaitResponse, has_token};

/// What the client does with one outgoing datagram. Exactly one of
/// three outcomes occurs: a `KILL` is sent fire-and-forget with no
/// waiter registered; a fresh token claims a waiter that the caller
/// then awaits until the matching response or the timeout resolves
/// it; a token already in flight is a caller error and nothing is
/// sent or registered.
#[derive(Clone, Copy, Debug, PartialEq, Eq, Structural)]
pub enum RequestDisposition {
    FireAndForget,
    Await,
    DuplicateToken,
}

/// Decides an outgoing request and keeps the waiter table exact: the
/// runtime sends the bytes and arms the timeout only when the
/// disposition says so, and resolves the waiter — once — with the
/// response or with nothing when the timeout fires first.
pub fn prepare_request(table: &mut AwaitResponse, d: &Datagram) -> (r: RequestDisposition)
    requires
        old(table).wf(),
    ensures
        final(table).wf(),
        d@.data_type == DatagramType::KILL ==> r == RequestDisposition::FireAndForget
            && final(table).entries@ == old(table).entries@,
        d@.data_type != DatagramType::KILL && has_token(old(table).entries@, d@.token_id)
            ==> r == RequestDisposition::DuplicateToken
            && final(table).entries@ == old(table).entries@,
        d@.data_type != DatagramType::KILL && !has_token(old(table).entries@, d@.token_id) ==> ({
            &&& r == RequestDisposition::Await
            &&& final(table).entries@.len() == old(table).entries@.len() + 1
            &&& final(table).entries@.subrange(0, old(table).entries@.len() as int)
                == old(table).entries@
            &&& final(table).entries@.last().token_id@ == d@.token_id
            &&& final(table).entries@.last().destination@ == d@.destination
        }),
{
    match d.data_type {
        DatagramType::KILL => RequestDisposition::FireAndForget,
        _ => {
            let ghost s0 = table.entries@;
            if table.register_waiter(d.token_id.clone(), d.destination.clone()) {
                proof {
                    assert(table.entries@.subrange(0, s0.len() as int) =~= s0);
                }
                RequestDisposition::Await
            } else {
                RequestDisposition::DuplicateToken
            }
        },
    }
}

} // verus!
