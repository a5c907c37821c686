//! The host's side of the link: correlation ids, the table of callers that
//! wait for a response, and what to do with each event of the serial link.
use vstd::prelude::*;
use std::collections::HashMap;
use crate::codec::{encode_request, request_bytes, response_from_bytes, decode_response};
use crate::protocol::{CopiRequest, CopiResponse, DeviceMessage, HostMessage};

verus! {

/// The value after `x`, wrapping to 0 past the largest.
pub open spec fn wrap_succ(x: u32) -> u32 {
    if x == u32::MAX {
        0
    } else {
        (x + 1) as u32
    }
}

/// The id handed out when the counter stands at `c`: 0 is skipped.
pub open spec fn issued_id(c: u32) -> u32 {
    if c == 0 {
        1
    } else {
        c
    }
}

/// A counter of correlation ids that never hands out 0.
pub struct NonZeroU32Count {
    next: u32,
}

impl NonZeroU32Count {
    /// Where the counter stands: the next id it hands out, or 0 just after
    /// wrapping.
    pub closed spec fn value(&self) -> u32 {
        self.next
    }

    pub fn new() -> (r: Self)
        ensures
            r.value() == 1,
    {
        NonZeroU32Count { next: 1 }
    }

    /// The next id, which is never 0; after the largest id the count wraps
    /// and goes on at 1.
    pub fn next(&mut self) -> (r: u32)
        ensures
            r == issued_id(old(self).value()),
            r != 0,
            final(self).value() == wrap_succ(r),
    {
        let mut v = self.next;
        self.next = v.wrapping_add(1);
        if v == 0 {
            v = self.next;
            self.next = v.wrapping_add(1);
        }
        v
    }
}

/// Two ids handed out one after the other differ by one, except that the id
/// after the largest is 1: the count wraps and skips 0 alone.
pub proof fn lemma_ids_in_sequence(c: u32)
    ensures
        issued_id(c) != 0,
        issued_id(wrap_succ(issued_id(c))) == if issued_id(c) == u32::MAX {
            1
        } else {
            issued_id(c) + 1
        },
{
}

/// Where a counter that stood at `c` stands after `k` calls of `next`.
pub open spec fn counter_after(c: u32, k: nat) -> u32
    decreases k,
{
    if k == 0 {
        c
    } else {
        wrap_succ(issued_id(counter_after(c, (k - 1) as nat)))
    }
}

/// The id that call `k` (from 0) of `next` hands out, from a counter at `c`.
pub open spec fn id_at(c: u32, k: nat) -> u32 {
    issued_id(counter_after(c, k))
}

proof fn lemma_id_at_closed_form(c: u32, k: nat)
    ensures
        id_at(c, k) as int == (issued_id(c) as int - 1 + k) % (u32::MAX as int) + 1,
    decreases k,
{
    if k > 0 {
        lemma_id_at_closed_form(c, (k - 1) as nat);
        lemma_ids_in_sequence(counter_after(c, (k - 1) as nat));
        let x: int = issued_id(c) as int - 1 + (k - 1);
        let m: int = u32::MAX as int;
        assert(x >= 0);
        if x % m == m - 1 {
            assert((x + 1) % m == 0) by (nonlinear_arith)
                requires
                    x % m == m - 1,
                    m > 1,
                    x >= 0,
            ;
        } else {
            assert((x + 1) % m == x % m + 1) by (nonlinear_arith)
                requires
                    x % m != m - 1,
                    m > 1,
                    x >= 0,
            ;
        }
    }
}

/// Over any `u32::MAX` calls of `next` in a row, the ids handed out are
/// `1..=u32::MAX`, each once: none is 0, no two are equal, and the
/// sequence then starts over.
pub proof fn lemma_ids_cycle(c: u32, j: nat, k: nat)
    requires
        j < k < u32::MAX,
    ensures
        1 <= id_at(c, j) <= u32::MAX,
        id_at(c, j) != id_at(c, k),
        id_at(c, (j + u32::MAX) as nat) == id_at(c, j),
{
    lemma_id_at_closed_form(c, j);
    lemma_id_at_closed_form(c, k);
    lemma_id_at_closed_form(c, (j + u32::MAX) as nat);
    let a: int = issued_id(c) as int - 1;
    let m: int = u32::MAX as int;
    assert(a >= 0);
    assert((a + j) % m != (a + k) % m) by (nonlinear_arith)
        requires
            0 <= j < k < m,
            a >= 0,
    {
        if (a + j) % m == (a + k) % m {
            vstd::arithmetic::div_mod::lemma_fundamental_div_mod(a + j, m);
            vstd::arithmetic::div_mod::lemma_fundamental_div_mod(a + k, m);
        }
    }
    assert((a + j + m) % m == (a + j) % m) by (nonlinear_arith)
        requires
            m > 0,
            a + j >= 0,
    {
        vstd::arithmetic::div_mod::lemma_mod_add_multiples_vanish(a + j, m);
    }
}

/// The callers that wait for a response, each under the id of its request.
pub struct PendingTable<T> {
    callbacks: HashMap<u32, T>,
}

impl<T> View for PendingTable<T> {
    type V = Map<u32, T>;

    closed spec fn view(&self) -> Map<u32, T> {
        self.callbacks@
    }
}

impl<T> PendingTable<T> {
    pub fn new() -> (r: Self)
        ensures
            r@ == Map::<u32, T>::empty(),
    {
        PendingTable { callbacks: HashMap::new() }
    }

    /// Records `resolver` as waiting under `id`, handing back the one that
    /// waited there before, if any.
    pub fn register(&mut self, id: u32, resolver: T) -> (r: Option<T>)
        ensures
            final(self)@ == old(self)@.insert(id, resolver),
            r == (if old(self)@.contains_key(id) {
                Some(old(self)@[id])
            } else {
                None
            }),
    {
        broadcast use vstd::std_specs::hash::group_hash_axioms;

        self.callbacks.insert(id, resolver)
    }

    /// Takes out the caller waiting under `id`, if any.
    pub fn cancel(&mut self, id: u32) -> (r: Option<T>)
        ensures
            final(self)@ == old(self)@.remove(id),
            r == (if old(self)@.contains_key(id) {
                Some(old(self)@[id])
            } else {
                None
            }),
    {
        broadcast use vstd::std_specs::hash::group_hash_axioms;

        self.callbacks.remove(&id)
    }

    /// Matches a response to the caller that waits for it: that caller alone is
    /// taken out, with the result to hand it. A response with id 0, or with an
    /// id that nobody waits for, is dropped and changes nothing.
    pub fn resolve(&mut self, response: CopiResponse) -> (r: Option<(T, DeviceMessage)>)
        ensures
            response.request_id == 0 ==> r is None && final(self)@ == old(self)@,
            response.request_id != 0 ==> final(self)@ == old(self)@.remove(response.request_id),
            r == (if response.request_id != 0 && old(self)@.contains_key(response.request_id) {
                Some((old(self)@[response.request_id], response.message))
            } else {
                None
            }),
    {
        if response.request_id == 0 {
            return None;
        }
        match self.cancel(response.request_id) {
            Some(t) => Some((t, response.message)),
            None => None,
        }
    }
}

/// Registering a caller under `id` and then delivering the response with that
/// id (which takes `id` out of the table, see `PendingTable::resolve`) hands
/// back that caller and leaves the caller under every other id as it was.
pub proof fn lemma_resolves_only_its_caller<T>(
    table: Map<u32, T>,
    id: u32,
    other: u32,
    resolver: T,
)
    requires
        id != 0,
        other != id,
    ensures
        table.insert(id, resolver).remove(id).contains_key(other) == table.contains_key(other),
        table.contains_key(other) ==> table.insert(id, resolver).remove(id)[other] == table[other],
        table.insert(id, resolver).contains_key(id),
        table.insert(id, resolver)[id] == resolver,
{
}

/// The host's handle on a device: it numbers requests and keeps the callers
/// that wait for their responses.
pub struct DeviceChannel<T> {
    pub non_zero_count: NonZeroU32Count,
    pub callbacks: PendingTable<T>,
}

impl<T> DeviceChannel<T> {
    pub fn new() -> (r: Self)
        ensures
            r.non_zero_count.value() == 1,
            r.callbacks@ == Map::<u32, T>::empty(),
    {
        DeviceChannel { non_zero_count: NonZeroU32Count::new(), callbacks: PendingTable::new() }
    }

    /// Starts a call that waits for its result: takes a fresh id, records
    /// `resolver` under it and gives the request to send.
    pub fn query(&mut self, msg: HostMessage, resolver: T) -> (r: CopiRequest)
        ensures
            r.request_id == issued_id(old(self).non_zero_count.value()),
            r.request_id != 0,
            r.message == msg,
            final(self).non_zero_count.value() == wrap_succ(r.request_id),
            final(self).callbacks@ == old(self).callbacks@.insert(r.request_id, resolver),
    {
        let id = self.non_zero_count.next();
        self.callbacks.register(id, resolver);
        CopiRequest { request_id: id, message: msg }
    }

    /// A call that waits for nothing: the request carries id 0.
    pub fn send(&self, msg: HostMessage) -> (r: CopiRequest)
        ensures
            r == (CopiRequest { request_id: 0, message: msg }),
    {
        CopiRequest { request_id: 0, message: msg }
    }

    /// Hands a response to the caller that waits for it; see `PendingTable::resolve`.
    pub fn deliver(&mut self, response: CopiResponse) -> (r: Option<(T, DeviceMessage)>)
        ensures
            final(self).non_zero_count == old(self).non_zero_count,
            response.request_id == 0 ==> r is None && final(self).callbacks@ == old(
                self,
            ).callbacks@,
            response.request_id != 0 ==> final(self).callbacks@ == old(self).callbacks@.remove(
                response.request_id,
            ),
            r == (if response.request_id != 0 && old(self).callbacks@.contains_key(
                response.request_id,
            ) {
                Some((old(self).callbacks@[response.request_id], response.message))
            } else {
                None
            }),
    {
        self.callbacks.resolve(response)
    }

    /// Gives up every waiting call, as when the link has closed: the
    /// resolvers are dropped, which tells their callers that no result comes.
    pub fn close(&mut self)
        ensures
            final(self).non_zero_count == old(self).non_zero_count,
            final(self).callbacks@ == Map::<u32, T>::empty(),
    {
        self.callbacks = PendingTable::new();
    }

    /// Takes back the call under `id`, whose request could not be sent.
    pub fn cancel(&mut self, id: u32) -> (r: Option<T>)
        ensures
            final(self).non_zero_count == old(self).non_zero_count,
            final(self).callbacks@ == old(self).callbacks@.remove(id),
            r == (if old(self).callbacks@.contains_key(id) {
                Some(old(self).callbacks@[id])
            } else {
                None
            }),
    {
        self.callbacks.cancel(id)
    }
}

/// Something that happened on the host's serial link.
pub enum LinkEvent {
    /// A request to send.
    Outbound(CopiRequest),
    /// Nobody will send requests any more.
    OutboundClosed,
    /// A packet arrived.
    Inbound(Vec<u8>),
    /// Reading failed: the link is gone.
    ReadFailed,
    /// Writing the request with this id failed.
    WriteFailed(u32),
}

/// What the host's link task does next.
pub enum LinkAction {
    /// Write these bytes as one packet.
    Write(Vec<u8>),
    /// Hand this response on to the waiting callers.
    Deliver(CopiResponse),
    /// Nothing to do; go on reading.
    Ignore,
    /// Give up the call under this id: its caller learns that it failed.
    Abandon(u32),
    /// End the session: the link is closed.
    Stop,
}

/// Decides what the host's link task does with one event.
pub fn host_link_step(event: LinkEvent) -> (r: LinkAction)
    ensures
        match event {
            LinkEvent::Outbound(req) => r matches LinkAction::Write(bytes) && bytes@
                == request_bytes(req) && bytes@.len() <= 64,
            LinkEvent::OutboundClosed => r is Stop,
            LinkEvent::Inbound(bytes) => match response_from_bytes(bytes@) {
                Some(resp) => r == LinkAction::Deliver(resp),
                None => r is Ignore,
            },
            LinkEvent::ReadFailed => r is Stop,
            LinkEvent::WriteFailed(id) => if id == 0 {
                r is Ignore
            } else {
                r == LinkAction::Abandon(id)
            },
        },
{
    match event {
        LinkEvent::Outbound(req) => LinkAction::Write(encode_request(&req)),
        LinkEvent::OutboundClosed => LinkAction::Stop,
        LinkEvent::Inbound(bytes) => match decode_response(bytes.as_slice()) {
            Some(resp) => LinkAction::Deliver(resp),
            None => LinkAction::Ignore,
        },
        LinkEvent::ReadFailed => LinkAction::Stop,
        LinkEvent::WriteFailed(id) => {
            if id == 0 {
                LinkAction::Ignore
            } else {
                LinkAction::Abandon(id)
            }
        },
    }
}

} // verus!
