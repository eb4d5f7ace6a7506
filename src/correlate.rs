//! The pending-response table: outbound requests waiting for the response
//! that carries their id in `correlate`.
//!
//! Each entry holds the responder that completes the waiting request. An entry
//! leaves the table when its response arrives, when the wait times out, or
//! when the waiter gives up, so that no entry outlives its waiter.
use std::collections::HashMap;
use vstd::prelude::*;

use crate::datapack::DataPack;

verus! {

broadcast use vstd::std_specs::hash::group_hash_axioms;

/// The table after a waiter for `id` registers `v`.
pub open spec fn reserve_spec<V>(m: Map<u128, V>, id: u128, v: V) -> Map<u128, V> {
    if m.contains_key(id) {
        m
    } else {
        m.insert(id, v)
    }
}

/// The table after the entry for `id` leaves, for any reason.
pub open spec fn release_spec<V>(m: Map<u128, V>, id: u128) -> Map<u128, V> {
    m.remove(id)
}

/// The id of the request that a packet answers, when the table waits for it.
pub open spec fn answered<V>(m: Map<u128, V>, p: DataPack) -> Option<u128> {
    match p.correlate {
        Some(id) => if m.contains_key(id) {
            Some(id)
        } else {
            None
        },
        None => None,
    }
}

/// A table of responders keyed by request id.
pub struct PendingTable<V> {
    entries: HashMap<u128, V>,
}

impl<V> View for PendingTable<V> {
    type V = Map<u128, V>;

    closed spec fn view(&self) -> Map<u128, V> {
        self.entries@
    }
}

impl<V> PendingTable<V> {
    pub fn new() -> (r: Self)
        ensures
            r@ == Map::<u128, V>::empty(),
    {
        PendingTable { entries: HashMap::new() }
    }

    /// Whether a waiter for `id` is registered.
    pub fn contains(&self, id: u128) -> (r: bool)
        ensures
            r == self@.contains_key(id),
    {
        self.entries.contains_key(&id)
    }

    pub fn len(&self) -> (r: usize)
        ensures
            r as nat == self@.len(),
    {
        self.entries.len()
    }

    /// Registers the responder `v` for the request `id`. An id already
    /// waited for is refused and `v` is handed back.
    pub fn reserve(&mut self, id: u128, v: V) -> (r: Result<(), V>)
        ensures
            final(self)@ == reserve_spec(old(self)@, id, v),
            old(self)@.contains_key(id) <==> r is Err,
            r is Err ==> r == Err::<(), V>(v),
    {
        if self.entries.contains_key(&id) {
            return Err(v);
        }
        self.entries.insert(id, v);
        Ok(())
    }

    /// Takes the responder for the request that `p` answers, if the table
    /// waits for one; a packet that answers nothing waited for leaves the
    /// table as it is.
    pub fn resolve(&mut self, p: &DataPack) -> (r: Option<V>)
        ensures
            answered(old(self)@, *p) is None ==> r is None && final(self)@ == old(self)@,
            answered(old(self)@, *p) matches Some(id) ==> r == Some(old(self)@[id])
                && final(self)@ == release_spec(old(self)@, id),
    {
        match p.correlate {
            Some(id) => self.entries.remove(&id),
            None => None,
        }
    }

    /// Drops the entry for `id`: the waiter gave up or timed out. Returns
    /// whether there was one.
    pub fn cancel(&mut self, id: u128) -> (r: bool)
        ensures
            final(self)@ == release_spec(old(self)@, id),
            r == old(self)@.contains_key(id),
    {
        match self.entries.remove(&id) {
            Some(_) => true,
            None => false,
        }
    }
}

/// Relies on `ulid::Ulid::new`: a fresh identifier drawn from the clock and a
/// random source. Nothing is promised of its value.
#[verifier::external_body]
pub fn fresh_id() -> u128 {
    ulid::Ulid::new().0
}

/// The id under which a packet is posted: its own, or `fresh` when it has
/// none (zero).
pub open spec fn post_id(p: DataPack, fresh: u128) -> u128 {
    if p.id == 0 {
        fresh
    } else {
        p.id
    }
}

impl<V> PendingTable<V> {
    /// Registers `v` as the waiter for `p`'s response, giving `p` the id
    /// `fresh` when it has none. Fails, handing both back, when that id is
    /// already waited for.
    pub fn post_with_id(&mut self, p: DataPack, fresh: u128, v: V) -> (r: Result<
        DataPack,
        (DataPack, V),
    >)
        ensures
            final(self)@ == reserve_spec(old(self)@, post_id(p, fresh), v),
            old(self)@.contains_key(post_id(p, fresh)) <==> r is Err,
            r matches Ok(q) ==> q == (DataPack { id: post_id(p, fresh), ..p }),
            r matches Err(e) ==> e.0 == (DataPack { id: post_id(p, fresh), ..p }) && e.1 == v,
    {
        let mut p = p;
        if p.id == 0 {
            p.id = fresh;
        }
        match self.reserve(p.id, v) {
            Ok(()) => Ok(p),
            Err(v) => Err((p, v)),
        }
    }

    /// Like `post_with_id`, with a freshly drawn id for a packet without one.
    pub fn post(&mut self, p: DataPack, v: V) -> (r: Result<DataPack, (DataPack, V)>)
        ensures
            exists|fresh: u128|
                {
                    &&& final(self)@ == reserve_spec(old(self)@, post_id(p, fresh), v)
                    &&& (old(self)@.contains_key(post_id(p, fresh)) <==> r is Err)
                    &&& (r matches Ok(q) ==> q == (DataPack { id: post_id(p, fresh), ..p }))
                    &&& (r matches Err(e) ==> e.0 == (DataPack { id: post_id(p, fresh), ..p })
                        && e.1 == v)
                },
    {
        let fresh = fresh_id();
        self.post_with_id(p, fresh, v)
    }
}

/// A waiter that registers and then gives up leaves the table as it found
/// it, and a response that comes after that finds no entry.
pub proof fn law_abandoned_waiter_leaves_no_entry<V>(m: Map<u128, V>, id: u128, v: V, late: DataPack)
    requires
        !m.contains_key(id),
        late.correlate == Some(id),
    ensures
        reserve_spec(m, id, v).contains_key(id),
        release_spec(reserve_spec(m, id, v), id) == m,
        answered(release_spec(reserve_spec(m, id, v), id), late) is None,
{
    assert(release_spec(reserve_spec(m, id, v), id) =~= m);
}

/// The table holds an id exactly while a waiter for it is registered: a
/// response to a registered request hands out that request's responder and
/// removes its entry, leaving every other entry in place.
pub proof fn law_response_completes_its_waiter<V>(
    m: Map<u128, V>,
    id: u128,
    v: V,
    response: DataPack,
)
    requires
        !m.contains_key(id),
        response.correlate == Some(id),
    ensures
        answered(reserve_spec(m, id, v), response) == Some(id),
        reserve_spec(m, id, v)[id] == v,
        release_spec(reserve_spec(m, id, v), id) == m,
        forall|k: u128| k != id ==> (#[trigger] reserve_spec(m, id, v).contains_key(k)
            <==> m.contains_key(k)),
{
    assert(release_spec(reserve_spec(m, id, v), id) =~= m);
}

} // verus!
