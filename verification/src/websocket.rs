//! The client set of a broadcast hub, and streams that start with bytes that
//! were already read.

use std::collections::HashMap;
use vstd::prelude::*;
use vstd::std_specs::iter::IteratorSpec;

verus! {

/// How many packets may wait for a client before it counts as dead.
pub const CLIENT_QUEUE_PACKETS: usize = 128;

/// The clients connected to a broadcast hub, each under an id of its own.
pub struct ClientSet<S> {
    clients: HashMap<u64, S>,
    next_id: u64,
}

impl<S> View for ClientSet<S> {
    type V = Map<u64, S>;

    /// The clients by id.
    closed spec fn view(&self) -> Map<u64, S> {
        self.clients@
    }
}

impl<S> ClientSet<S> {
    /// The id that the next client gets.
    pub closed spec fn spec_next_id(&self) -> u64 {
        self.next_id
    }

    /// No clients yet.
    pub fn new() -> (set: Self)
        ensures
            set@ == Map::<u64, S>::empty(),
            set.spec_next_id() == 0,
    {
        ClientSet { clients: HashMap::new(), next_id: 0 }
    }

    /// Add a client and return its id. Ids wrap around.
    pub fn register(&mut self, client: S) -> (id: u64)
        ensures
            id == old(self).spec_next_id(),
            final(self)@ == old(self)@.insert(id, client),
            final(self).spec_next_id() == id.wrapping_add(1),
    {
        broadcast use vstd::std_specs::hash::group_hash_axioms;

        let id: u64 = self.next_id;
        self.next_id = id.wrapping_add(1);
        self.clients.insert(id, client);
        id
    }

    /// Drop a client that has disconnected.
    pub fn remove(&mut self, id: u64)
        ensures
            final(self)@ == old(self)@.remove(id),
            final(self).spec_next_id() == old(self).spec_next_id(),
    {
        broadcast use vstd::std_specs::hash::group_hash_axioms;

        let ghost before = self.clients@;
        self.clients.remove(&id);
        assert(self.clients@ =~= before.remove(id));
    }

    /// Drop the clients that a broadcast could not reach.
    pub fn remove_dead(&mut self, dead: &[u64])
        ensures
            final(self)@ == old(self)@.remove_keys(dead@.to_set()),
            final(self).spec_next_id() == old(self).spec_next_id(),
    {
        let ghost before = self@;
        let mut i: usize = 0;
        assert(before.remove_keys(dead@.take(0).to_set()) =~= before);
        while i < dead.len()
            invariant
                i <= dead@.len(),
                self.spec_next_id() == old(self).spec_next_id(),
                self@ == before.remove_keys(dead@.take(i as int).to_set()),
            decreases dead@.len() - i,
        {
            self.remove(dead[i]);
            proof {
                let some = dead@.take(i as int);
                assert(dead@.take(i + 1) =~= some.push(dead@[i as int]));
                assert(some.push(dead@[i as int]).to_set() =~= some.to_set().insert(
                    dead@[i as int],
                )) by {
                    broadcast use vstd::seq_lib::group_seq_properties;

                }
                assert(self@ =~= before.remove_keys(dead@.take(i + 1).to_set()));
            }
            i = i + 1;
        }
        assert(dead@.take(dead@.len() as int) =~= dead@);
    }

    /// The client with this id.
    pub fn get(&self, id: u64) -> (client: Option<&S>)
        ensures
            match client {
                Some(c) => self@.contains_key(id) && *c == self@[id],
                None => !self@.contains_key(id),
            },
    {
        broadcast use vstd::std_specs::hash::group_hash_axioms;

        self.clients.get(&id)
    }

    /// The ids of all clients.
    pub fn ids(&self) -> (ids: Vec<u64>)
        ensures
            ids@.to_set() == self@.dom(),
            ids@.no_duplicates(),
    {
        broadcast use vstd::std_specs::hash::group_hash_axioms;

        let mut ids: Vec<u64> = Vec::new();
        let ghost all = self.clients.keys().remaining().unref();
        for id in keys: self.clients.keys()
            invariant
                keys.seq() == self.clients.keys().remaining(),
                all == keys.seq().unref(),
                ids@ == all.take(keys.index()),
        {
            assert(all.take(keys.index() + 1) =~= all.take(keys.index()).push(*id));
            ids.push(*id);
        }
        proof {
            assert(ids@ =~= all);
            let refs = self.clients.keys().remaining();
            assert forall|i: int, j: int| 0 <= i < j < all.len() implies all[i] != all[j] by {
                assert(refs[i] != refs[j]);
            }
        }
        ids
    }

    /// Number of currently connected clients.
    pub fn client_count(&self) -> (n: usize)
        ensures
            n == self@.dom().len(),
    {
        broadcast use vstd::std_specs::hash::group_hash_axioms;

        self.clients.len()
    }
}

/// Wraps a stream with a prefix of already-read bytes so a WebSocket handshake
/// can be replayed from a buffered HTTP request head.
pub struct PrefixedStream<S> {
    prefix: Vec<u8>,
    pos: usize,
    inner: S,
}

impl<S> View for PrefixedStream<S> {
    type V = Seq<u8>;

    /// The bytes that are still to be replayed.
    closed spec fn view(&self) -> Seq<u8> {
        self.prefix@.skip(self.pos as int)
    }
}

impl<S> PrefixedStream<S> {
    /// The stream behind the prefix.
    pub closed spec fn spec_inner(&self) -> S {
        self.inner
    }

    pub closed spec fn wf(&self) -> bool {
        self.pos <= self.prefix@.len()
    }

    pub fn new(prefix: Vec<u8>, inner: S) -> (stream: Self)
        ensures
            stream.wf(),
            stream@ == prefix@,
            stream.spec_inner() == inner,
    {
        let stream = PrefixedStream { prefix, pos: 0, inner };
        assert(stream@ =~= prefix@);
        stream
    }

    /// The stream behind the prefix.
    pub fn inner_mut(&mut self) -> (inner: &mut S)
        requires
            old(self).wf(),
        ensures
            *inner == old(self).spec_inner(),
            final(self).spec_inner() == *final(inner),
            final(self)@ == old(self)@,
            final(self).wf(),
    {
        &mut self.inner
    }

    /// Replay up to `room` bytes; none when the prefix is used up and the inner
    /// stream has to be read.
    pub fn read_prefix(&mut self, room: usize) -> (bytes: Option<Vec<u8>>)
        requires
            old(self).wf(),
        ensures
            final(self).wf(),
            final(self).spec_inner() == old(self).spec_inner(),
            match bytes {
                Some(b) => {
                    let n = if old(self)@.len() <= room {
                        old(self)@.len() as int
                    } else {
                        room as int
                    };
                    &&& old(self)@.len() > 0
                    &&& b@ == old(self)@.take(n)
                    &&& final(self)@ == old(self)@.skip(n)
                },
                None => old(self)@.len() == 0 && final(self)@ == old(self)@,
            },
    {
        if self.pos >= self.prefix.len() {
            return None;
        }
        let ghost before = self@;
        let left: usize = self.prefix.len() - self.pos;
        let n: usize = if left < room {
            left
        } else {
            room
        };
        let mut bytes: Vec<u8> = Vec::new();
        bytes.extend_from_slice(
            vstd::slice::slice_subrange(self.prefix.as_slice(), self.pos, self.pos + n),
        );
        self.pos = self.pos + n;
        proof {
            assert(bytes@ =~= before.take(n as int));
            assert(self@ =~= before.skip(n as int));
        }
        Some(bytes)
    }
}

/// The bytes that reads with these amounts of room replay, and those left.
pub open spec fn replay(prefix: Seq<u8>, rooms: Seq<nat>) -> (Seq<u8>, Seq<u8>)
    decreases rooms.len(),
{
    if rooms.len() == 0 {
        (Seq::empty(), prefix)
    } else {
        let (got, left) = replay(prefix, rooms.drop_last());
        let n = if left.len() <= rooms.last() {
            left.len() as int
        } else {
            rooms.last() as int
        };
        (got + left.take(n), left.skip(n))
    }
}

/// Reads of any sizes replay the prefix in order and nothing else: what they
/// got followed by what is left is the prefix.
pub proof fn law_prefix_is_replayed_exactly(prefix: Seq<u8>, rooms: Seq<nat>)
    ensures
        replay(prefix, rooms).0 + replay(prefix, rooms).1 == prefix,
    decreases rooms.len(),
{
    if rooms.len() == 0 {
        assert(Seq::<u8>::empty() + prefix =~= prefix);
    } else {
        law_prefix_is_replayed_exactly(prefix, rooms.drop_last());
        let (got, left) = replay(prefix, rooms.drop_last());
        let n = if left.len() <= rooms.last() {
            left.len() as int
        } else {
            rooms.last() as int
        };
        assert((got + left.take(n)) + left.skip(n) =~= got + left);
    }
}

/// A broadcast drops exactly the clients it could not reach.
pub proof fn law_only_dead_clients_are_dropped<S>(clients: Map<u64, S>, dead: Seq<u64>, id: u64)
    ensures
        ({
            let left = clients.remove_keys(dead.to_set());
            &&& left.contains_key(id) <==> clients.contains_key(id) && !dead.contains(id)
            &&& left.contains_key(id) ==> left[id] == clients[id]
        }),
{
}

} // verus!
