//! Path-based dispatch of inbound requests, and the packet that carries a
//! handler's reply back.
use vstd::prelude::*;

use crate::correlate::{answered, release_spec, reserve_spec};
use crate::datapack::{path_of, DataPack};
use crate::text::str_eq;

verus! {

/// The handler that the routes give for `p`: the last one registered on it.
pub open spec fn lookup<H>(routes: Seq<(Seq<char>, H)>, p: Seq<char>) -> Option<H>
    decreases routes.len(),
{
    if routes.len() == 0 {
        None
    } else if routes.last().0 == p {
        Some(routes.last().1)
    } else {
        lookup(routes.drop_last(), p)
    }
}

/// A map from request paths to handlers.
pub struct Router<H> {
    routes: Vec<(String, H)>,
}

impl<H> Router<H> {
    /// The registered routes, oldest first.
    pub closed spec fn spec_routes(&self) -> Seq<(Seq<char>, H)> {
        self.routes@.map_values(|r: (String, H)| (r.0@, r.1))
    }

    /// The handler registered on `p`, if any.
    pub open spec fn handler(&self, p: Seq<char>) -> Option<H> {
        lookup(self.spec_routes(), p)
    }

    pub fn new() -> (r: Self)
        ensures
            forall|p: Seq<char>| #[trigger] r.handler(p) is None,
    {
        let r = Router { routes: Vec::new() };
        proof {
            assert(r.spec_routes() =~= Seq::<(Seq<char>, H)>::empty());
        }
        r
    }

    /// Registers `h` on `path`, in place of any handler it had.
    pub fn route(&mut self, path: String, h: H)
        ensures
            final(self).handler(path@) == Some(h),
            forall|p: Seq<char>| p != path@ ==> #[trigger] final(self).handler(p) == old(self).handler(p),
    {
        let ghost pv = path@;
        self.routes.push((path, h));
        proof {
            assert(self.spec_routes().drop_last() =~= old(self).spec_routes());
            assert(self.spec_routes().last() == (pv, h));
        }
    }

    /// The handler for an inbound packet: none for a packet without a path,
    /// else the one registered on its path, if any. A packet that nothing
    /// handles is dropped.
    pub fn dispatch(&self, p: &DataPack) -> (r: Option<&H>)
        ensures
            path_of(*p) is None ==> r is None,
            path_of(*p) matches Some(q) ==> (r is Some <==> self.handler(q) is Some),
            path_of(*p) matches Some(q) ==> (r matches Some(h) ==> *h == self.handler(q)->0),
    {
        match &p.path {
            None => None,
            Some(path) => self.find(path.as_str()),
        }
    }

    fn find(&self, path: &str) -> (r: Option<&H>)
        ensures
            r is Some <==> self.handler(path@) is Some,
            r matches Some(h) ==> *h == self.handler(path@)->0,
    {
        let mut i: usize = self.routes.len();
        let ghost rs = self.spec_routes();
        proof {
            assert(rs.take(rs.len() as int) =~= rs);
        }
        while i > 0
            invariant
                i <= self.routes@.len(),
                rs == self.spec_routes(),
                rs.len() == self.routes@.len(),
                lookup(rs, path@) == lookup(rs.take(i as int), path@),
            decreases i,
        {
            let ghost pre = rs.take(i as int);
            assert(pre.drop_last() =~= rs.take(i - 1));
            assert(pre.last() == rs[i - 1]);
            if str_eq(self.routes[i - 1].0.as_str(), path) {
                return Some(&self.routes[i - 1].1);
            }
            i = i - 1;
        }
        None
    }
}

/// What a handler gives back for a request.
pub enum Reply {
    /// No reply is sent.
    Nothing,
    /// The encoded value that answers the request.
    Value(Vec<u8>),
    /// The encoded error of a handler or an extractor that refused the
    /// request.
    Rejected(Vec<u8>),
}

/// The reply packet that answers `request`, with the new packet id `id`.
pub open spec fn reply_spec(request: DataPack, reply: Reply, id: u128) -> Option<DataPack> {
    match reply {
        Reply::Nothing => None,
        Reply::Value(v) => Some(DataPack::response_of(id, v).linked(request)),
        Reply::Rejected(e) => if request.path is Some {
            Some(DataPack::response_of(id, e).linked(request))
        } else {
            None
        },
    }
}

/// Turns a handler's reply into the packet sent back, if any: a value, and
/// for a request an error, travel in a response linked to the request.
pub fn reply_packet(request: &DataPack, reply: Reply, id: u128) -> (r: Option<DataPack>)
    ensures
        r == reply_spec(*request, reply, id),
{
    match reply {
        Reply::Nothing => None,
        Reply::Value(v) => Some(DataPack::response(id, v).link(request)),
        Reply::Rejected(e) => if request.path.is_some() {
            Some(DataPack::response(id, e).link(request))
        } else {
            None
        },
    }
}

/// A request whose handler returns a value is answered by a response that
/// correlates to the request's id and carries exactly that value.
pub proof fn law_reply_correlates(request: DataPack, v: Vec<u8>, id: u128)
    ensures
        reply_spec(request, Reply::Value(v), id) is Some,
        reply_spec(request, Reply::Value(v), id)->0.correlate == Some(request.id),
        reply_spec(request, Reply::Value(v), id)->0.payload == v,
        reply_spec(request, Reply::Value(v), id)->0.path is None,
{
}

/// A request that a plugin posted and that another plugin's handler answers
/// with a value: the reply correlates to the request, so the poster's table
/// hands out exactly the waiter it registered, whose entry then leaves, and
/// the reply carries the value.
pub proof fn law_request_response_correlation<V>(
    table: Map<u128, V>,
    waiter: V,
    request: DataPack,
    value: Vec<u8>,
    reply_id: u128,
)
    requires
        !table.contains_key(request.id),
    ensures
        ({
            let posted = reserve_spec(table, request.id, waiter);
            let reply = reply_spec(request, Reply::Value(value), reply_id)->0;
            &&& answered(posted, reply) == Some(request.id)
            &&& posted[request.id] == waiter
            &&& release_spec(posted, request.id) == table
            &&& reply.payload == value
        }),
{
    assert(release_spec(reserve_spec(table, request.id, waiter), request.id) =~= table);
}

} // verus!
