//! The connection object.
//!
//! A connection owns one transport.  It issues request tokens from an
//! atomic counter that starts at 1 — token 0 is never issued, it is the
//! sentinel for "no token yet" — and it keeps the table of in-flight
//! requests: one single-delivery slot per token, filled by the connection's
//! one logical reader and emptied by the request that registered it.  A
//! broken connection stays broken; once the counter has wrapped, every
//! further token call fails.

use vstd::prelude::*;
use std::collections::HashMap;
use crate::err::Driver;

verus! {

broadcast use vstd::std_specs::hash::group_hash_axioms;

/// One in-flight request's delivery slot: `None` while the response is
/// still owed, `Some` once the reader has delivered the frame payload.
pub type PendingSlot = Option<Vec<u8>>;

pub struct Connection {
    /// The next token to issue; 0 means the counter has wrapped.
    pub next_token: u64,
    /// Liveness flag: set by transport failures and by token exhaustion,
    /// never cleared.
    pub broken: bool,
    /// The pending-request table, keyed by token.
    pub pending: HashMap<u64, PendingSlot>,
}

/// What one `token()` call does: the connection afterwards, and what the
/// call returns.  Issuing the last token wraps the counter to the 0
/// sentinel and marks the connection broken; once wrapped, every call
/// fails with `TokenOverflow`.
pub open spec fn token_step(c: Connection) -> (Connection, Result<u64, Driver>) {
    if c.next_token == 0 {
        (Connection { broken: true, ..c }, Err(Driver::TokenOverflow))
    } else if c.next_token == u64::MAX {
        (Connection { next_token: 0, broken: true, ..c }, Ok(u64::MAX))
    } else {
        (Connection { next_token: (c.next_token + 1) as u64, ..c }, Ok(c.next_token))
    }
}

/// The connection state and the tokens returned by `n` calls in a row.
pub open spec fn run_tokens(c: Connection, n: nat) -> (Connection, Seq<u64>)
    decreases n,
{
    if n == 0 {
        (c, Seq::empty())
    } else {
        let (c1, s1) = run_tokens(c, (n - 1) as nat);
        let (c2, r) = token_step(c1);
        (
            c2,
            match r {
                Ok(v) => s1.push(v),
                Err(_) => s1,
            },
        )
    }
}

impl Connection {
    /// A fresh connection: counter at 1, healthy, no request in flight.
    pub fn new() -> (r: Connection)
        ensures
            r.next_token == 1,
            !r.broken,
            r.pending@ == Map::<u64, PendingSlot>::empty(),
    {
        Connection { next_token: 1, broken: false, pending: HashMap::new() }
    }

    /// Issues the next request token; see [`token_step`] for the contract.
    pub fn token(&mut self) -> (r: Result<u64, Driver>)
        ensures
            *final(self) == token_step(*old(self)).0,
            r == token_step(*old(self)).1,
    {
        if self.next_token == 0 {
            self.broken = true;
            Err(Driver::TokenOverflow)
        } else if self.next_token == u64::MAX {
            self.next_token = 0;
            self.broken = true;
            Ok(u64::MAX)
        } else {
            let t = self.next_token;
            self.next_token = t + 1;
            Ok(t)
        }
    }

    /// Marks the connection broken; nothing else changes.
    pub fn mark_broken(&mut self)
        ensures
            final(self).broken,
            final(self).next_token == old(self).next_token,
            final(self).pending@ == old(self).pending@,
    {
        self.broken = true;
    }

    /// Whether the connection has been marked broken.
    pub fn is_broken(&self) -> (r: bool)
        ensures
            r == self.broken,
    {
        self.broken
    }

    /// Registers a request that awaits a response for `token`.  Refused
    /// when the token already has a slot: at most one request per token.
    pub fn register(&mut self, token: u64) -> (r: bool)
        ensures
            final(self).next_token == old(self).next_token,
            final(self).broken == old(self).broken,
            r == !old(self).pending@.contains_key(token),
            r ==> final(self).pending@ == old(self).pending@.insert(token, None),
            !r ==> final(self).pending@ == old(self).pending@,
    {
        if self.pending.contains_key(&token) {
            false
        } else {
            self.pending.insert(token, None);
            true
        }
    }

    /// The reader delivers a frame payload to the request waiting on
    /// `token`.  A frame for a token that is not registered, or whose slot
    /// is already full, is dropped: late and duplicate frames never reach
    /// a waiter, and never displace a delivered response.
    pub fn deliver(&mut self, token: u64, payload: Vec<u8>) -> (r: bool)
        ensures
            final(self).next_token == old(self).next_token,
            final(self).broken == old(self).broken,
            r == (old(self).pending@.contains_key(token) && old(self).pending@[token] is None),
            r ==> final(self).pending@ == old(self).pending@.insert(token, Some(payload)),
            !r ==> final(self).pending@ == old(self).pending@,
    {
        let waiting = match self.pending.get(&token) {
            Some(slot) => slot.is_none(),
            None => false,
        };
        if waiting {
            self.pending.insert(token, Some(payload));
            true
        } else {
            false
        }
    }

    /// Takes the delivered response for `token`, retiring its slot.
    /// `None` while the response is still owed (the slot, if any, stays).
    pub fn take_delivered(&mut self, token: u64) -> (r: Option<Vec<u8>>)
        ensures
            final(self).next_token == old(self).next_token,
            final(self).broken == old(self).broken,
            match r {
                Some(p) => {
                    &&& old(self).pending@.contains_key(token)
                    &&& old(self).pending@[token] == Some(p)
                    &&& final(self).pending@ == old(self).pending@.remove(token)
                },
                None => {
                    &&& !(old(self).pending@.contains_key(token) && old(
                        self,
                    ).pending@[token] is Some)
                    &&& final(self).pending@ == old(self).pending@
                },
            },
    {
        let delivered = match self.pending.get(&token) {
            Some(slot) => slot.is_some(),
            None => false,
        };
        if delivered {
            match self.pending.remove(&token) {
                Some(Some(p)) => Some(p),
                _ => {
                    proof {
                        assert(false);
                    }
                    None
                },
            }
        } else {
            None
        }
    }

    /// Removes `token`'s slot whatever its state.  Every exit path of a
    /// request must end here, so a late frame for a retired token finds
    /// no slot and is dropped.
    pub fn retire(&mut self, token: u64)
        ensures
            final(self).next_token == old(self).next_token,
            final(self).broken == old(self).broken,
            final(self).pending@ == old(self).pending@.remove(token),
    {
        self.pending.remove(&token);
    }
}

/// Token monotonicity: from a fresh connection, `n` calls return exactly
/// the tokens 1 through `n`, in order and with no repeats, leave the
/// counter at `n + 1`, and never touch the liveness flag.
pub proof fn lemma_token_monotonicity(c: Connection, n: nat)
    requires
        c.next_token == 1,
        n <= u64::MAX - 1,
    ensures
        ({
            let (c2, toks) = run_tokens(c, n);
            &&& toks.len() == n
            &&& (forall|i: int| 0 <= i < n ==> toks[i] == i + 1)
            &&& (forall|i: int, j: int| 0 <= i < j < n ==> toks[i] != toks[j])
            &&& c2.next_token == n + 1
            &&& c2.broken == c.broken
        }),
    decreases n,
{
    if n > 0 {
        lemma_token_monotonicity(c, (n - 1) as nat);
    }
}

/// Token exhaustion: with the counter at its maximum, the next call still
/// succeeds — returning the last usable token — but marks the connection
/// broken; the call after that fails with `TokenOverflow`.
pub proof fn lemma_token_overflow(c: Connection)
    requires
        c.next_token == u64::MAX,
    ensures
        ({
            let (c1, r1) = token_step(c);
            let (c2, r2) = token_step(c1);
            &&& r1 == Ok::<u64, Driver>(u64::MAX)
            &&& c1.broken
            &&& r2 == Err::<u64, Driver>(Driver::TokenOverflow)
            &&& c2.broken
        }),
{
}

} // verus!
