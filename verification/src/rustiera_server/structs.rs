//! The clients of the packet server, and the answers that wait for room on their streams.

use crate::h3::{header_views, Header, HeaderView};
use crate::text::bytes_eq;
use std::collections::HashMap;
use vstd::prelude::*;
use vstd::slice::slice_to_vec;

verus! {

/// An answer that is not fully sent yet: the headers, unless they have gone out, the whole
/// body, and how much of it has gone out.
pub struct PartialResponse {
    pub headers: Option<Vec<Header>>,
    pub body: Vec<u8>,
    pub written: usize,
}

/// What an answer that is not fully sent yet holds.
pub struct PartialView {
    pub headers: Option<Seq<HeaderView>>,
    pub body: Seq<u8>,
    pub written: int,
}

impl View for PartialResponse {
    type V = PartialView;

    open spec fn view(&self) -> PartialView {
        PartialView {
            headers: match self.headers {
                Some(headers) => Some(header_views(headers@)),
                None => None,
            },
            body: self.body@,
            written: self.written as int,
        }
    }
}

impl PartialView {
    /// Nothing of the body goes out before the headers, and once they are out something of the
    /// body is left.
    pub open spec fn well_formed(self) -> bool {
        match self.headers {
            Some(_) => self.written == 0,
            None => 0 <= self.written < self.body.len(),
        }
    }

    /// The part of the body that has not gone out.
    pub open spec fn rest(self) -> Seq<u8> {
        self.body.subrange(self.written, self.body.len() as int)
    }
}

/// One client: its QUIC connection, the HTTP/3 connection on top of it once there is one, and
/// the answers that are not fully sent yet, by stream.
pub struct Client<Q, H> {
    pub q_conn: Q,
    pub http3_conn: Option<H>,
    pub partial_responses: HashMap<u64, PartialResponse>,
}

impl<Q, H> Client<Q, H> {
    /// The answers that are not fully sent yet, by stream.
    pub open spec fn waiting(&self) -> Map<u64, PartialView> {
        self.partial_responses@.map_values(|r: PartialResponse| r@)
    }

    /// Every answer that is not fully sent yet makes sense.
    pub open spec fn well_formed(&self) -> bool {
        forall|stream_id: u64| #[trigger]
            self.waiting().contains_key(stream_id) ==> self.waiting()[stream_id].well_formed()
    }

    /// A client with a fresh QUIC connection.
    pub fn new(q_conn: Q) -> (client: Self)
        ensures
            client.q_conn == q_conn,
            client.http3_conn is None,
            client.waiting() == Map::<u64, PartialView>::empty(),
            client.well_formed(),
    {
        let client = Client { q_conn, http3_conn: None, partial_responses: HashMap::new() };
        assert(client.waiting() =~= Map::<u64, PartialView>::empty());
        client
    }

    /// Notes an answer that is not fully sent yet.
    pub(crate) fn keep(&mut self, stream_id: u64, response: PartialResponse)
        requires
            old(self).well_formed(),
            response@.well_formed(),
        ensures
            final(self).well_formed(),
            final(self).q_conn == old(self).q_conn,
            final(self).http3_conn == old(self).http3_conn,
            final(self).waiting() == old(self).waiting().insert(stream_id, response@),
    {
        self.partial_responses.insert(stream_id, response);
        assert(self.waiting() =~= old(self).waiting().insert(stream_id, response@));
        assert forall|id: u64| #[trigger] self.waiting().contains_key(id) implies self.waiting()[
            id
        ].well_formed() by {
            if id != stream_id {
                assert(old(self).waiting().contains_key(id));
            }
        }
    }

    /// Forgets the answer of a stream.
    pub(crate) fn forget(&mut self, stream_id: u64) -> (response: Option<PartialResponse>)
        requires
            old(self).well_formed(),
        ensures
            final(self).well_formed(),
            final(self).q_conn == old(self).q_conn,
            final(self).http3_conn == old(self).http3_conn,
            final(self).waiting() == old(self).waiting().remove(stream_id),
            match response {
                Some(r) => old(self).waiting().contains_key(stream_id) && r@ == old(
                    self,
                ).waiting()[stream_id],
                None => !old(self).waiting().contains_key(stream_id),
            },
    {
        let response = self.partial_responses.remove(&stream_id);
        assert(self.waiting() =~= old(self).waiting().remove(stream_id));
        assert forall|id: u64| #[trigger] self.waiting().contains_key(id) implies self.waiting()[
            id
        ].well_formed() by {
            assert(old(self).waiting().contains_key(id));
        }
        response
    }
}

/// The clients of the packet server by connection ID. No ID is there twice.
pub struct ClientMap<C> {
    ids: Vec<Vec<u8>>,
    clients: Vec<C>,
}

impl<C> View for ClientMap<C> {
    type V = Map<Seq<u8>, C>;

    closed spec fn view(&self) -> Map<Seq<u8>, C> {
        Map::new(
            |id: Seq<u8>|
                exists|i: int| 0 <= i < self.ids@.len() && (#[trigger] self.ids@[i])@ == id,
            |id: Seq<u8>|
                self.clients@[choose|i: int|
                    0 <= i < self.ids@.len() && (#[trigger] self.ids@[i])@ == id],
        )
    }
}

impl<C> ClientMap<C> {
    /// Every ID has its client, and no ID is there twice.
    pub closed spec fn well_formed(&self) -> bool {
        &&& self.ids@.len() == self.clients@.len()
        &&& forall|i: int, j: int|
            0 <= i < self.ids@.len() && 0 <= j < self.ids@.len() && (#[trigger] self.ids@[i])@ == (
            #[trigger] self.ids@[j])@ ==> i == j
    }

    /// The client at an index is the one of the ID at that index.
    proof fn lemma_at(&self, i: int)
        requires
            self.well_formed(),
            0 <= i < self.ids@.len(),
        ensures
            self@.contains_key(self.ids@[i]@),
            self@[self.ids@[i]@] == self.clients@[i],
    {
        let id = self.ids@[i]@;
        let k = choose|k: int| 0 <= k < self.ids@.len() && (#[trigger] self.ids@[k])@ == id;
        assert(0 <= k < self.ids@.len() && self.ids@[k]@ == id);
        assert(k == i);
    }

    /// A map without clients.
    pub fn new() -> (map: Self)
        ensures
            map.well_formed(),
            map@ == Map::<Seq<u8>, C>::empty(),
    {
        let map = ClientMap { ids: Vec::new(), clients: Vec::new() };
        assert(map@ =~= Map::<Seq<u8>, C>::empty());
        map
    }

    /// Where the client of an ID is.
    fn position(&self, id: &[u8]) -> (position: Option<usize>)
        requires
            self.well_formed(),
        ensures
            match position {
                Some(i) => {
                    &&& i < self.ids@.len()
                    &&& self.ids@[i as int]@ == id@
                    &&& self@.contains_key(id@)
                    &&& self@[id@] == self.clients@[i as int]
                },
                None => !self@.contains_key(id@),
            },
    {
        let mut i: usize = 0;
        while i < self.ids.len()
            invariant
                self.well_formed(),
                i <= self.ids@.len(),
                forall|j: int| 0 <= j < i ==> (#[trigger] self.ids@[j])@ != id@,
            decreases self.ids@.len() - i,
        {
            if bytes_eq(self.ids[i].as_slice(), id) {
                proof {
                    self.lemma_at(i as int);
                }
                return Some(i);
            }
            i = i + 1;
        }
        None
    }

    /// Whether there is a client with this ID.
    pub fn contains_key(&self, id: &[u8]) -> (known: bool)
        requires
            self.well_formed(),
        ensures
            known == self@.contains_key(id@),
    {
        self.position(id).is_some()
    }

    /// The client with this ID.
    pub fn get_mut(&mut self, id: &[u8]) -> (client: Option<&mut C>)
        requires
            old(self).well_formed(),
        ensures
            final(self).well_formed(),
            match client {
                Some(c) => {
                    &&& old(self)@.contains_key(id@)
                    &&& *c == old(self)@[id@]
                    &&& final(self)@ == old(self)@.insert(id@, *final(c))
                },
                None => !old(self)@.contains_key(id@) && final(self)@ == old(self)@,
            },
    {
        match self.position(id) {
            Some(i) => {
                Some(&mut self.clients[i])
            },
            None => None,
        }
    }

    /// Adds a client, in place of one with the same ID.
    pub fn insert(&mut self, id: Vec<u8>, client: C)
        requires
            old(self).well_formed(),
        ensures
            final(self).well_formed(),
            final(self)@ == old(self)@.insert(id@, client),
    {
        match self.position(id.as_slice()) {
            Some(i) => {
                self.clients.set(i, client);
                proof {
                    assert forall|other: Seq<u8>| #[trigger]
                        self@.contains_key(other) implies self@[other] == old(self)@.insert(
                        id@,
                        client,
                    )[other] by {
                        let k = choose|k: int|
                            0 <= k < self.ids@.len() && (#[trigger] self.ids@[k])@ == other;
                        self.lemma_at(k);
                        old(self).lemma_at(k);
                    }
                    self.lemma_at(i as int);
                    assert(self@ =~= old(self)@.insert(id@, client));
                }
            },
            None => {
                self.ids.push(id);
                self.clients.push(client);
                proof {
                    let last = old(self).ids@.len() as int;
                    assert forall|i: int, j: int|
                        0 <= i < self.ids@.len() && 0 <= j < self.ids@.len() && (
                        #[trigger] self.ids@[i])@ == (#[trigger] self.ids@[j])@ implies i == j by {
                        if i < last {
                            old(self).lemma_at(i);
                        }
                        if j < last {
                            old(self).lemma_at(j);
                        }
                    }
                    self.lemma_at(last);
                    assert forall|other: Seq<u8>| #[trigger]
                        self@.contains_key(other) == old(self)@.insert(id@, client).contains_key(
                            other,
                        ) by {
                        if old(self)@.contains_key(other) {
                            let k = choose|k: int|
                                0 <= k < last && (#[trigger] old(self).ids@[k])@ == other;
                            assert(self.ids@[k]@ == other);
                        }
                    }
                    assert forall|other: Seq<u8>| #[trigger]
                        self@.contains_key(other) implies self@[other] == old(self)@.insert(
                        id@,
                        client,
                    )[other] by {
                        let k = choose|k: int|
                            0 <= k < self.ids@.len() && (#[trigger] self.ids@[k])@ == other;
                        self.lemma_at(k);
                        if k < last {
                            old(self).lemma_at(k);
                        }
                    }
                    assert(self@ =~= old(self)@.insert(id@, client));
                }
            },
        }
    }

    /// The IDs of all clients, each once.
    pub fn ids(&self) -> (ids: Vec<Vec<u8>>)
        requires
            self.well_formed(),
        ensures
            forall|i: int| 0 <= i < ids@.len() ==> self@.contains_key((#[trigger] ids@[i])@),
            forall|id: Seq<u8>| #[trigger]
                self@.contains_key(id) ==> exists|i: int|
                    0 <= i < ids@.len() && (#[trigger] ids@[i])@ == id,
            forall|i: int, j: int|
                0 <= i < ids@.len() && 0 <= j < ids@.len() && (#[trigger] ids@[i])@ == (
                #[trigger] ids@[j])@ ==> i == j,
    {
        let mut ids: Vec<Vec<u8>> = Vec::new();
        let mut i: usize = 0;
        while i < self.ids.len()
            invariant
                i <= self.ids@.len(),
                ids@.len() == i,
                forall|j: int| 0 <= j < i ==> (#[trigger] ids@[j])@ == self.ids@[j]@,
            decreases self.ids@.len() - i,
        {
            ids.push(slice_to_vec(self.ids[i].as_slice()));
            i = i + 1;
        }
        proof {
            assert forall|i: int| 0 <= i < ids@.len() implies self@.contains_key(
                (#[trigger] ids@[i])@,
            ) by {
                self.lemma_at(i);
            }
            assert forall|id: Seq<u8>| #[trigger] self@.contains_key(id) implies exists|i: int|
                0 <= i < ids@.len() && (#[trigger] ids@[i])@ == id by {
                let k = choose|k: int| 0 <= k < self.ids@.len() && (#[trigger] self.ids@[k])@ == id;
                assert(ids@[k]@ == id);
            }
            assert forall|i: int, j: int|
                0 <= i < ids@.len() && 0 <= j < ids@.len() && (#[trigger] ids@[i])@ == (
                #[trigger] ids@[j])@ implies i == j by {
                assert(self.ids@[i]@ == self.ids@[j]@);
            }
        }
        ids
    }
}

} // verus!
