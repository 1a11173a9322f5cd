//! The dispatch engine: the client registry, both pattern indexes and the
//! routing decisions for each operation.
use submap::{BroadcastMap, SubMap};
use vstd::prelude::*;
use vstd::utf8::{is_leading_byte_width_1, partial_valid_utf8_extend_ascii_block, valid_utf8};
use crate::order::{bytes_lt, lex_lt, lemma_lex_total, lemma_lex_transitive};
use crate::codec::{copy_range, encode_routed, routed_spec};
use crate::proto::FrameKind;
use crate::matcher::{
    bc_members, bc_register, bc_unregister, broadcast_names, is_utf8, members_of,
    new_broadcast_map, new_sub_map, sub_register, sub_subscribe, sub_subscribers,
    sub_unregister, sub_unsubscribe, subscribers_of, subscription_topics,
    subscriptions_well_formed, uses_mask_syntax, uses_topic_syntax,
};
use crate::pattern::{
    is_valid_topic_pattern, lemma_no_wildcard_well_formed, topic_pattern_well_formed, TOPIC_WILDCARD,
};
use crate::proto::{DEFAULT_QUEUE_SIZE, ERR_BUSY, ERR_DATA, ERR_NOT_REGISTERED, ERR_OTHER};

verus! {

/// The topic every client is subscribed to on registration.
pub const BROKER_WARN_TOPIC: &'static str = ".broker/warn";

/// Reserved for informational publications of the broker.
pub const BROKER_INFO_TOPIC: &'static str = ".broker/info";

/// The reserved name of the broker's own in-process client.
pub const BROKER_NAME: &'static str = ".broker";

pub open spec fn warn_topic() -> Seq<u8> {
    seq![0x2Eu8, 0x62, 0x72, 0x6F, 0x6B, 0x65, 0x72, 0x2F, 0x77, 0x61, 0x72, 0x6E]
}

proof fn lemma_warn_topic()
    ensures
        topic_pattern_well_formed(warn_topic()),
        valid_utf8(warn_topic()),
{
    let w = warn_topic();
    assert forall|j: int| 0 <= j < w.len() implies w[j] != TOPIC_WILDCARD && #[trigger]
        is_leading_byte_width_1(w[j]) by {
        assert(0 <= j < 12);
    }
    lemma_no_wildcard_well_formed(w);
    partial_valid_utf8_extend_ascii_block(w, 0, 12);
    assert(w.subrange(0, 12) =~= w);
}

fn warn_topic_bytes() -> (r: Vec<u8>)
    ensures
        r@ == warn_topic(),
{
    let r: Vec<u8> = vec![0x2Eu8, 0x62, 0x72, 0x6F, 0x6B, 0x65, 0x72, 0x2F, 0x77, 0x61, 0x72, 0x6E];
    assert(r@ =~= warn_topic());
    r
}

#[derive(Clone, Copy, Debug, PartialEq, Eq, Structural)]
pub enum ElbusClientType {
    Internal,
    LocalIpc,
    Tcp,
}

pub open spec fn client_type_name(t: ElbusClientType) -> Seq<char> {
    match t {
        ElbusClientType::Internal => "internal"@,
        ElbusClientType::LocalIpc => "local_ipc"@,
        ElbusClientType::Tcp => "tcp"@,
    }
}

impl ElbusClientType {
    pub fn as_str(&self) -> (r: &'static str)
        ensures
            r@ == client_type_name(*self),
    {
        proof {
            reveal_strlit("internal");
            reveal_strlit("local_ipc");
            reveal_strlit("tcp");
        }
        match self {
            ElbusClientType::Internal => "internal",
            ElbusClientType::LocalIpc => "local_ipc",
            ElbusClientType::Tcp => "tcp",
        }
    }
}

/// Identity and description of one client. Its outbound queue, of capacity
/// `queue_size`, is kept by whoever runs the connection.
pub struct ElbusClient {
    pub name: Vec<u8>,
    pub tp: ElbusClientType,
    pub source: Option<String>,
    pub port: Option<String>,
    pub queue_size: usize,
}

impl ElbusClient {
    pub fn new(
        name: &[u8],
        queue_size: usize,
        tp: ElbusClientType,
        source: Option<String>,
        port: Option<String>,
    ) -> (r: Self)
        ensures
            r.name@ == name@,
            r.queue_size == queue_size,
            r.tp == tp,
            r.source == source,
            r.port == port,
    {
        ElbusClient { name: copy_range(name, 0, name.len()), tp, source, port, queue_size }
    }

    /// What the registry keeps about a client besides its name: transport type,
    /// source, port and queue size.
    pub open spec fn desc(&self) -> (ElbusClientType, Option<String>, Option<String>, usize) {
        (self.tp, self.source, self.port, self.queue_size)
    }
}

struct Entry {
    id: u64,
    client: ElbusClient,
}

/// The broker's state: registered clients, the broadcast index by name and the
/// topic subscription index.
pub struct Broker {
    entries: Vec<Entry>,
    next_id: u64,
    broadcasts: BroadcastMap<u64>,
    subscriptions: SubMap<u64>,
    queue_size: usize,
    descs: Ghost<Map<u64, (ElbusClientType, Option<String>, Option<String>, usize)>>,
}

/// Whether some client registered in `m` has the name `n`.
pub open spec fn name_taken(m: Map<u64, Seq<u8>>, n: Seq<u8>) -> bool {
    exists|c: u64| #[trigger] m.contains_key(c) && m[c] == n
}

/// Names are unique: two registered ids with one name are the same id.
pub open spec fn names_unique(m: Map<u64, Seq<u8>>) -> bool {
    forall|c1: u64, c2: u64|
        #[trigger] m.contains_key(c1) && #[trigger] m.contains_key(c2) && m[c1] == m[c2] ==> c1
            == c2
}

impl Broker {
    /// The registered clients: id to name.
    pub closed spec fn clients(&self) -> Map<u64, Seq<u8>> {
        broadcast_names(self.broadcasts)
    }

    /// The topic patterns of each registered client.
    pub closed spec fn topics(&self) -> Map<u64, Set<Seq<u8>>> {
        subscription_topics(self.subscriptions)
    }

    /// The description of each registered client.
    pub closed spec fn descriptions(&self) -> Map<
        u64,
        (ElbusClientType, Option<String>, Option<String>, usize),
    > {
        self.descs@
    }

    /// How many more clients can still be given a fresh id.
    pub closed spec fn ids_left(&self) -> nat {
        (u64::MAX - self.next_id) as nat
    }

    /// Every id has been handed out once.
    pub open spec fn ids_exhausted(&self) -> bool {
        self.ids_left() == 0
    }

    pub closed spec fn spec_queue_size(&self) -> usize {
        self.queue_size
    }

    closed spec fn has_entry(&self, c: u64) -> bool {
        exists|i: int| 0 <= i < self.entries@.len() && #[trigger] self.entries@[i].id == c
    }

    pub closed spec fn wf(&self) -> bool {
        &&& forall|i: int, j: int|
            0 <= i < self.entries@.len() && 0 <= j < self.entries@.len() && i != j
                ==> #[trigger] self.entries@[i].id != #[trigger] self.entries@[j].id
        &&& forall|i: int|
            0 <= i < self.entries@.len() ==> {
                let e = #[trigger] self.entries@[i];
                &&& e.id < self.next_id
                &&& self.clients().contains_key(e.id)
                &&& self.clients()[e.id] == e.client.name@
            }
        &&& forall|c: u64| #[trigger] self.clients().contains_key(c) ==> self.has_entry(c)
        &&& forall|c: u64| #[trigger]
            self.topics().contains_key(c) <==> self.clients().contains_key(c)
        &&& forall|c: u64| #[trigger] self.clients().contains_key(c) ==> valid_utf8(self.clients()[c])
        &&& forall|c: u64| #[trigger]
            self.descs@.contains_key(c) <==> self.clients().contains_key(c)
        &&& forall|i: int|
            0 <= i < self.entries@.len() ==> self.descs@[(#[trigger] self.entries@[i]).id]
                == self.entries@[i].client.desc()
        &&& names_unique(self.clients())
        &&& subscriptions_well_formed(self.topics())
        &&& uses_topic_syntax(self.subscriptions)
        &&& uses_mask_syntax(self.broadcasts)
    }

    /// An empty broker with the default queue size.
    pub fn new() -> (r: Broker)
        ensures
            r.wf(),
            r.clients().dom() == Set::<u64>::empty(),
            r.topics().dom() == Set::<u64>::empty(),
            r.descriptions().dom() == Set::<u64>::empty(),
            r.ids_left() == u64::MAX,
            r.spec_queue_size() == DEFAULT_QUEUE_SIZE,
    {
        let r = Broker {
            entries: Vec::new(),
            next_id: 0,
            broadcasts: new_broadcast_map(),
            subscriptions: new_sub_map(),
            queue_size: DEFAULT_QUEUE_SIZE,
            descs: Ghost(Map::empty()),
        };
        assert(r.topics().dom() =~= Set::<u64>::empty());
        assert(r.descriptions().dom() =~= Set::<u64>::empty());
        r
    }

    pub fn set_queue_size(&mut self, queue_size: usize)
        requires
            old(self).wf(),
        ensures
            final(self).wf(),
            final(self).spec_queue_size() == queue_size,
            final(self).ids_left() == old(self).ids_left(),
            final(self).descriptions() == old(self).descriptions(),
            final(self).clients() == old(self).clients(),
            final(self).topics() == old(self).topics(),
    {
        self.queue_size = queue_size;
    }

    pub fn queue_size(&self) -> (r: usize)
        ensures
            r == self.spec_queue_size(),
    {
        self.queue_size
    }

    /// The id of the client registered under `name`, if there is one.
    pub fn lookup(&self, name: &[u8]) -> (r: Option<u64>)
        requires
            self.wf(),
        ensures
            r is Some <==> name_taken(self.clients(), name@),
            r is Some ==> self.clients().contains_key(r->Some_0) && self.clients()[r->Some_0]
                == name@,
    {
        let mut i: usize = 0;
        while i < self.entries.len()
            invariant
                self.wf(),
                i <= self.entries@.len(),
                forall|j: int| 0 <= j < i ==> self.entries@[j].client.name@ != name@,
            decreases self.entries@.len() - i,
        {
            if bytes_eq(self.entries[i].client.name.as_slice(), name) {
                return Some(self.entries[i].id);
            }
            i = i + 1;
        }
        proof {
            if name_taken(self.clients(), name@) {
                let c = choose|c: u64| #[trigger] self.clients().contains_key(c) && self.clients()[c] == name@;
                assert(self.has_entry(c));
                let k = choose|k: int| 0 <= k < self.entries@.len() && #[trigger] self.entries@[k].id == c;
                assert(self.entries@[k].client.name@ == name@);
            }
        }
        None
    }

    /// The description of the client with id `id`, if registered.
    pub fn client(&self, id: u64) -> (r: Option<&ElbusClient>)
        requires
            self.wf(),
        ensures
            r is Some <==> self.clients().contains_key(id),
            r is Some ==> r->Some_0.name@ == self.clients()[id] && r->Some_0.desc()
                == self.descriptions()[id],
    {
        let mut i: usize = 0;
        while i < self.entries.len()
            invariant
                self.wf(),
                i <= self.entries@.len(),
                forall|j: int| 0 <= j < i ==> self.entries@[j].id != id,
            decreases self.entries@.len() - i,
        {
            if self.entries[i].id == id {
                return Some(&self.entries[i].client);
            }
            i = i + 1;
        }
        None
    }

    /// Registers a client under its name: `ERR_BUSY` when the name is taken;
    /// otherwise it enters both indexes, subscribed to `.broker/warn` alone.
    /// `ERR_OTHER` only once all 2^64 ids have been handed out.
    pub fn register(&mut self, client: ElbusClient) -> (r: Result<u64, u8>)
        requires
            old(self).wf(),
            valid_utf8(client.name@),
        ensures
            final(self).wf(),
            final(self).spec_queue_size() == old(self).spec_queue_size(),
            r is Ok ==> final(self).ids_left() == old(self).ids_left() - 1,
            r is Ok ==> final(self).descriptions() == old(self).descriptions().insert(
                r->Ok_0,
                client.desc(),
            ),
            r is Err ==> final(self).ids_left() == old(self).ids_left() && final(self).descriptions()
                == old(self).descriptions(),
            name_taken(old(self).clients(), client.name@) ==> r == Err::<u64, u8>(ERR_BUSY),
            !name_taken(old(self).clients(), client.name@) && r is Ok ==> {
                &&& !old(self).clients().contains_key(r->Ok_0)
                &&& final(self).clients() == old(self).clients().insert(r->Ok_0, client.name@)
                &&& final(self).topics() == old(self).topics().insert(
                    r->Ok_0,
                    set![warn_topic()],
                )
            },
            !name_taken(old(self).clients(), client.name@) && r is Err ==> r == Err::<u64, u8>(
                ERR_OTHER,
            ) && old(self).ids_exhausted(),
            r is Err ==> final(self).clients() == old(self).clients() && final(self).topics()
                == old(self).topics(),
    {
        if self.lookup(client.name.as_slice()).is_some() {
            return Err(ERR_BUSY);
        }
        if self.next_id == u64::MAX {
            return Err(ERR_OTHER);
        }
        let id = self.next_id;
        proof {
            if self.clients().contains_key(id) {
                assert(self.has_entry(id));
                let k = choose|k: int| 0 <= k < self.entries@.len() && #[trigger] self.entries@[k].id == id;
                assert(self.entries@[k].id < self.next_id);
            }
        }
        let ghost old_clients = self.clients();
        let ghost old_topics = self.topics();
        bc_register(&mut self.broadcasts, client.name.as_slice(), id);
        let fresh = sub_register(&mut self.subscriptions, id);
        assert(fresh);
        let warn = warn_topic_bytes();
        proof {
            lemma_warn_topic();
        }
        sub_subscribe(&mut self.subscriptions, warn.as_slice(), id);
        self.next_id = id + 1;
        let ghost name = client.name@;
        let ghost d = client.desc();
        let ghost old_descs = self.descs@;
        proof {
            self.descs@ = self.descs@.insert(id, d);
        }
        self.entries.push(Entry { id, client });
        proof {
            assert(self.clients() == old_clients.insert(id, name));
            assert(self.topics() == old_topics.insert(id, Set::<Seq<u8>>::empty().insert(warn_topic())));
            assert(Set::<Seq<u8>>::empty().insert(warn_topic()) =~= set![warn_topic()]);
            let n = self.entries@.len();
            assert(self.entries@[n - 1].id == id);
            assert forall|c: u64| #[trigger] self.clients().contains_key(c) implies self.has_entry(c) by {
                if c == id {
                    assert(self.entries@[n - 1].id == c);
                } else {
                    assert(old(self).has_entry(c));
                    let k = choose|k: int| 0 <= k < old(self).entries@.len() && #[trigger] old(self).entries@[k].id == c;
                    assert(self.entries@[k] == old(self).entries@[k]);
                }
            }
            assert forall|c1: u64, c2: u64|
                #[trigger] self.clients().contains_key(c1) && #[trigger] self.clients().contains_key(c2)
                    && self.clients()[c1] == self.clients()[c2] implies c1 == c2 by {
                if c1 != id && c2 == id {
                    assert(old_clients.contains_key(c1) && old_clients[c1] == name);
                }
                if c1 == id && c2 != id {
                    assert(old_clients.contains_key(c2) && old_clients[c2] == name);
                }
            }
            assert forall|c: u64, p: Seq<u8>| #[trigger] self.topics().contains_key(c) && #[trigger]
                self.topics()[c].contains(p) implies topic_pattern_well_formed(p) by {
                if c != id {
                    assert(old_topics.contains_key(c) && old_topics[c].contains(p));
                }
            }
        }
        Ok(id)
    }
}

impl Broker {
    /// Takes a client out of the registry and both indexes; nothing happens for an
    /// unknown id.
    pub fn unregister(&mut self, id: u64)
        requires
            old(self).wf(),
        ensures
            final(self).wf(),
            final(self).spec_queue_size() == old(self).spec_queue_size(),
            final(self).ids_left() == old(self).ids_left(),
            final(self).descriptions() == old(self).descriptions().remove(id),
            final(self).clients() == old(self).clients().remove(id),
            final(self).topics() == old(self).topics().remove(id),
    {
        let mut k: usize = 0;
        while k < self.entries.len()
            invariant
                self.wf(),
                k <= self.entries@.len(),
                forall|j: int| 0 <= j < k ==> self.entries@[j].id != id,
            ensures
                k <= self.entries@.len(),
                forall|j: int| 0 <= j < k ==> self.entries@[j].id != id,
                k == self.entries@.len() || self.entries@[k as int].id == id,
            decreases self.entries@.len() - k,
        {
            if self.entries[k].id == id {
                break;
            }
            k = k + 1;
        }
        if k == self.entries.len() {
            proof {
                assert(!self.clients().contains_key(id)) by {
                    if self.clients().contains_key(id) {
                        assert(self.has_entry(id));
                    }
                }
                assert(self.clients().remove(id) =~= self.clients());
                assert(self.topics().remove(id) =~= self.topics());
            }
            return;
        }
        let ghost old_clients = self.clients();
        let ghost old_topics = self.topics();
        let ghost old_entries = self.entries@;
        let name = copy_range(self.entries[k].client.name.as_slice(), 0, self.entries[k].client.name.len());
        proof {
            let e = old_entries[k as int];
            assert(e.id == id && old_clients.contains_key(id) && old_clients[id] == e.client.name@);
            assert(valid_utf8(old_clients[id]));
            assert(name@ == old_clients[id]);
        }
        sub_unregister(&mut self.subscriptions, id);
        bc_unregister(&mut self.broadcasts, name.as_slice(), id);
        self.entries.remove(k);
        proof {
            self.descs@ = self.descs@.remove(id);
            assert(self.entries@ == old_entries.remove(k as int));
            assert forall|c: u64| #[trigger] self.clients().contains_key(c) implies self.has_entry(c) by {
                assert(old_clients.contains_key(c) && c != id);
                let i = choose|i: int| 0 <= i < old_entries.len() && #[trigger] old_entries[i].id == c;
                if i < k {
                    assert(self.entries@[i] == old_entries[i]);
                } else {
                    assert(i != k);
                    assert(self.entries@[i - 1] == old_entries[i]);
                }
            }
            assert forall|i: int, j: int|
                0 <= i < self.entries@.len() && 0 <= j < self.entries@.len() && i != j
                    implies #[trigger] self.entries@[i].id != #[trigger] self.entries@[j].id by {
                let oi = if i < k { i } else { i + 1 };
                let oj = if j < k { j } else { j + 1 };
                assert(self.entries@[i] == old_entries[oi]);
                assert(self.entries@[j] == old_entries[oj]);
            }
            assert forall|i: int| 0 <= i < self.entries@.len() implies {
                let e = #[trigger] self.entries@[i];
                &&& e.id < self.next_id
                &&& self.clients().contains_key(e.id)
                &&& self.clients()[e.id] == e.client.name@
            } by {
                let oi = if i < k { i } else { i + 1 };
                assert(self.entries@[i] == old_entries[oi]);
                assert(oi != k);
            }
            assert forall|c: u64, p: Seq<u8>| #[trigger] self.topics().contains_key(c) && #[trigger]
                self.topics()[c].contains(p) implies topic_pattern_well_formed(p) by {
                assert(old_topics.contains_key(c) && old_topics[c].contains(p));
            }
        }
    }

    /// Adds `pattern` to the subscriptions of client `id`. `ERR_DATA` when the
    /// pattern is not UTF-8 or has `#` before its last segment; `ERR_NOT_REGISTERED`
    /// for an unknown client.
    pub fn subscribe(&mut self, id: u64, pattern: &[u8]) -> (r: Result<(), u8>)
        requires
            old(self).wf(),
        ensures
            final(self).wf(),
            final(self).spec_queue_size() == old(self).spec_queue_size(),
            final(self).ids_left() == old(self).ids_left(),
            final(self).descriptions() == old(self).descriptions(),
            final(self).clients() == old(self).clients(),
            r == subscribe_step(old(self).topics(), id, pattern@).1,
            final(self).topics() == subscribe_step(old(self).topics(), id, pattern@).0,
    {
        if !is_utf8(pattern) || !is_valid_topic_pattern(pattern) {
            return Err(ERR_DATA);
        }
        let ghost old_topics = self.topics();
        if !sub_subscribe(&mut self.subscriptions, pattern, id) {
            return Err(ERR_NOT_REGISTERED);
        }
        proof {
            assert forall|c: u64, p: Seq<u8>| #[trigger] self.topics().contains_key(c) && #[trigger]
                self.topics()[c].contains(p) implies topic_pattern_well_formed(p) by {
                if c != id || p != pattern@ {
                    assert(old_topics.contains_key(c) && old_topics[c].contains(p));
                }
            }
        }
        Ok(())
    }

    /// Removes `pattern` from the subscriptions of client `id`. `ERR_DATA` when the
    /// pattern is not UTF-8; `ERR_NOT_REGISTERED` for an unknown client.
    pub fn unsubscribe(&mut self, id: u64, pattern: &[u8]) -> (r: Result<(), u8>)
        requires
            old(self).wf(),
        ensures
            final(self).wf(),
            final(self).spec_queue_size() == old(self).spec_queue_size(),
            final(self).ids_left() == old(self).ids_left(),
            final(self).descriptions() == old(self).descriptions(),
            final(self).clients() == old(self).clients(),
            r == unsubscribe_step(old(self).topics(), id, pattern@).1,
            final(self).topics() == unsubscribe_step(old(self).topics(), id, pattern@).0,
    {
        if !is_utf8(pattern) {
            return Err(ERR_DATA);
        }
        let ghost old_topics = self.topics();
        if !sub_unsubscribe(&mut self.subscriptions, pattern, id) {
            return Err(ERR_NOT_REGISTERED);
        }
        proof {
            assert forall|c: u64, p: Seq<u8>| #[trigger] self.topics().contains_key(c) && #[trigger]
                self.topics()[c].contains(p) implies topic_pattern_well_formed(p) by {
                assert(old_topics.contains_key(c) && old_topics[c].contains(p));
            }
        }
        Ok(())
    }
}

/// One subscription: the new table and the outcome.
pub open spec fn subscribe_step(t: Map<u64, Set<Seq<u8>>>, c: u64, p: Seq<u8>) -> (
    Map<u64, Set<Seq<u8>>>,
    Result<(), u8>,
) {
    if !valid_utf8(p) || !topic_pattern_well_formed(p) {
        (t, Err(ERR_DATA))
    } else if !t.contains_key(c) {
        (t, Err(ERR_NOT_REGISTERED))
    } else {
        (t.insert(c, t[c].insert(p)), Ok(()))
    }
}

/// One unsubscription: the new table and the outcome.
pub open spec fn unsubscribe_step(t: Map<u64, Set<Seq<u8>>>, c: u64, p: Seq<u8>) -> (
    Map<u64, Set<Seq<u8>>>,
    Result<(), u8>,
) {
    if !valid_utf8(p) {
        (t, Err(ERR_DATA))
    } else if !t.contains_key(c) {
        (t, Err(ERR_NOT_REGISTERED))
    } else {
        (t.insert(c, t[c].remove(p)), Ok(()))
    }
}

/// A unit of delivery, shared by all its recipients. A routed frame carries the
/// request body in `buf`, its payload starting at `payload_pos`; a prepared frame
/// carries the exact bytes to write.
pub struct FrameData {
    pub kind: FrameKind,
    pub sender: Option<Vec<u8>>,
    pub topic: Option<Vec<u8>>,
    pub header: Option<Vec<u8>>,
    pub buf: Vec<u8>,
    pub payload_pos: usize,
}

pub open spec fn opt_view(o: Option<Vec<u8>>) -> Option<Seq<u8>> {
    match o {
        Some(v) => Some(v@),
        None => None,
    }
}

pub open spec fn or_empty(o: Option<Seq<u8>>) -> Seq<u8> {
    match o {
        Some(v) => v,
        None => Seq::empty(),
    }
}

impl FrameData {
    pub open spec fn wf(&self) -> bool {
        self.payload_pos <= self.buf@.len()
    }

    pub open spec fn payload_spec(&self) -> Seq<u8> {
        self.buf@.subrange(self.payload_pos as int, self.buf@.len() as int)
    }

    /// The bytes the writer puts on the wire for this frame.
    pub open spec fn wire_spec(&self) -> Seq<u8> {
        if self.kind == FrameKind::Prepared {
            self.buf@
        } else {
            routed_spec(
                self.kind,
                or_empty(opt_view(self.sender)),
                opt_view(self.topic),
                or_empty(opt_view(self.header)),
                self.payload_spec(),
            )
        }
    }

    /// The user payload: `buf` from `payload_pos` on.
    pub fn payload(&self) -> (r: Vec<u8>)
        requires
            self.wf(),
        ensures
            r@ == self.payload_spec(),
    {
        copy_range(self.buf.as_slice(), self.payload_pos, self.buf.len())
    }

    /// The extension header, or nothing.
    pub fn header(&self) -> (r: Vec<u8>)
        ensures
            r@ == or_empty(opt_view(self.header)),
    {
        match &self.header {
            Some(h) => copy_range(h.as_slice(), 0, h.len()),
            None => Vec::new(),
        }
    }

    /// Encodes the frame for the receiving client's socket.
    pub fn encode(&self) -> (r: Vec<u8>)
        requires
            self.wf(),
        ensures
            r@ == self.wire_spec(),
    {
        if self.kind == FrameKind::Prepared {
            return copy_range(self.buf.as_slice(), 0, self.buf.len());
        }
        let payload = self.payload();
        let header = self.header();
        let empty: Vec<u8> = Vec::new();
        let sender: &[u8] = match &self.sender {
            Some(s) => s.as_slice(),
            None => empty.as_slice(),
        };
        let topic: Option<&[u8]> = match &self.topic {
            Some(t) => Some(t.as_slice()),
            None => None,
        };
        encode_routed(self.kind, sender, topic, header.as_slice(), payload.as_slice())
    }
}

/// A frame and the clients (by id, each once) whose queues receive it.
pub struct Delivery {
    pub frame: FrameData,
    pub recipients: Vec<u64>,
}

/// A routed frame of `kind` from `sender` over `buf`.
pub open spec fn routed_frame_ok(
    f: FrameData,
    kind: FrameKind,
    sender: Seq<u8>,
    topic: Option<Seq<u8>>,
    header: Option<Seq<u8>>,
    buf: Seq<u8>,
    payload_pos: usize,
) -> bool {
    &&& f.kind == kind
    &&& opt_view(f.sender) == Some(sender)
    &&& opt_view(f.topic) == topic
    &&& opt_view(f.header) == header
    &&& f.buf@ == buf
    &&& f.payload_pos == payload_pos
}

impl Broker {
    /// A directed message to the client named `target`; `ERR_NOT_REGISTERED` when
    /// there is none.
    pub fn send(
        &self,
        sender: &[u8],
        target: &[u8],
        header: Option<Vec<u8>>,
        buf: Vec<u8>,
        payload_pos: usize,
    ) -> (r: Result<Delivery, u8>)
        requires
            self.wf(),
        ensures
            !name_taken(self.clients(), target@) ==> r is Err && r->Err_0 == ERR_NOT_REGISTERED,
            name_taken(self.clients(), target@) ==> r is Ok && {
                let d = r->Ok_0;
                &&& d.recipients@.len() == 1
                &&& self.clients().contains_key(d.recipients@[0])
                &&& self.clients()[d.recipients@[0]] == target@
                &&& routed_frame_ok(
                    d.frame,
                    FrameKind::Message,
                    sender@,
                    None,
                    opt_view(header),
                    buf@,
                    payload_pos,
                )
            },
    {
        match self.lookup(target) {
            Some(id) => {
                let frame = FrameData {
                    kind: FrameKind::Message,
                    sender: Some(copy_range(sender, 0, sender.len())),
                    topic: None,
                    header,
                    buf,
                    payload_pos,
                };
                assert(opt_view(frame.sender) == Some(sender@));
                let recipients: Vec<u64> = vec![id];
                Ok(Delivery { frame, recipients })
            },
            None => Err(ERR_NOT_REGISTERED),
        }
    }

    /// A broadcast to every client whose name matches the mask `target`.
    pub fn send_broadcast(
        &self,
        sender: &[u8],
        target: &[u8],
        header: Option<Vec<u8>>,
        buf: Vec<u8>,
        payload_pos: usize,
    ) -> (r: Delivery)
        requires
            self.wf(),
            valid_utf8(target@),
        ensures
            r.recipients@.no_duplicates(),
            r.recipients@.to_set() == members_of(self.clients(), target@),
            routed_frame_ok(
                r.frame,
                FrameKind::Broadcast,
                sender@,
                None,
                opt_view(header),
                buf@,
                payload_pos,
            ),
    {
        let recipients = bc_members(&self.broadcasts, target);
        let frame = FrameData {
            kind: FrameKind::Broadcast,
            sender: Some(copy_range(sender, 0, sender.len())),
            topic: None,
            header,
            buf,
            payload_pos,
        };
        assert(opt_view(frame.sender) == Some(sender@));
        Delivery { frame, recipients }
    }

    /// A publication to every client with a pattern matching `topic`.
    pub fn publish(
        &self,
        sender: &[u8],
        topic: &[u8],
        header: Option<Vec<u8>>,
        buf: Vec<u8>,
        payload_pos: usize,
    ) -> (r: Delivery)
        requires
            self.wf(),
            valid_utf8(topic@),
        ensures
            r.recipients@.no_duplicates(),
            r.recipients@.to_set() == subscribers_of(self.topics(), topic@),
            routed_frame_ok(
                r.frame,
                FrameKind::Publish,
                sender@,
                Some(topic@),
                opt_view(header),
                buf@,
                payload_pos,
            ),
    {
        let recipients = sub_subscribers(&self.subscriptions, topic);
        let frame = FrameData {
            kind: FrameKind::Publish,
            sender: Some(copy_range(sender, 0, sender.len())),
            topic: Some(copy_range(topic, 0, topic.len())),
            header,
            buf,
            payload_pos,
        };
        assert(opt_view(frame.sender) == Some(sender@));
        assert(opt_view(frame.topic) == Some(topic@));
        Delivery { frame, recipients }
    }
}

/// One registered client as the administration surface reports it.
pub struct ClientInfo {
    pub id: u64,
    pub name: Vec<u8>,
    pub tp: ElbusClientType,
    pub source: Option<String>,
    pub port: Option<String>,
}

/// The entry reports the stored transport type, source and port of its client.
pub open spec fn info_matches(
    i: ClientInfo,
    d: (ElbusClientType, Option<String>, Option<String>, usize),
) -> bool {
    i.tp == d.0 && i.source == d.1 && i.port == d.2
}

pub open spec fn sorted_by_name(v: Seq<ClientInfo>) -> bool {
    forall|i: int, j: int| 0 <= i < j < v.len() ==> lex_lt(#[trigger] v[i].name@, #[trigger] v[j].name@)
}

fn clone_text(s: &Option<String>) -> (r: Option<String>)
    ensures
        r == *s,
{
    match s {
        Some(t) => Some(t.clone()),
        None => None,
    }
}

/// Inserts `info` where it keeps `out` sorted by name.
fn insert_sorted(out: &mut Vec<ClientInfo>, info: ClientInfo) -> (p: usize)
    requires
        sorted_by_name(old(out)@),
        forall|i: int| 0 <= i < old(out)@.len() ==> old(out)@[i].name@ != info.name@,
    ensures
        p <= old(out)@.len(),
        final(out)@ == old(out)@.insert(p as int, info),
        sorted_by_name(final(out)@),
{
    let mut p: usize = 0;
    while p < out.len() && bytes_lt(out[p].name.as_slice(), info.name.as_slice())
        invariant
            p <= out@.len(),
            forall|q: int| 0 <= q < p ==> lex_lt(#[trigger] out@[q].name@, info.name@),
        decreases out@.len() - p,
    {
        p = p + 1;
    }
    proof {
        assert forall|q: int| p <= q < out@.len() implies lex_lt(info.name@, #[trigger] out@[q].name@) by {
            lemma_lex_total(info.name@, out@[p as int].name@);
            if q > p {
                lemma_lex_transitive(info.name@, out@[p as int].name@, out@[q].name@);
            }
        }
    }
    let ghost before = out@;
    let ghost x = info;
    out.insert(p, info);
    proof {
        assert forall|i: int, j: int| 0 <= i < j < out@.len() implies lex_lt(#[trigger] out@[i].name@, #[trigger] out@[j].name@) by {
            if j < p {
                assert(out@[i] == before[i] && out@[j] == before[j]);
            } else if j == p {
                assert(out@[i] == before[i]);
            } else if i < p {
                assert(out@[i] == before[i] && out@[j] == before[j - 1]);
                lemma_lex_transitive(before[i].name@, x.name@, before[j - 1].name@);
            } else if i == p {
                assert(out@[j] == before[j - 1]);
            } else {
                assert(out@[i] == before[i - 1] && out@[j] == before[j - 1]);
            }
        }
    }
    p
}

impl Broker {
    /// Every registered client, each once, sorted by name.
    #[verifier::rlimit(100)]
    #[verifier::spinoff_prover]
    pub fn list_clients(&self) -> (r: Vec<ClientInfo>)
        requires
            self.wf(),
        ensures
            sorted_by_name(r@),
            forall|i: int| 0 <= i < r@.len() ==> self.clients().contains_key(#[trigger] r@[i].id)
                && self.clients()[r@[i].id] == r@[i].name@,
            forall|i: int|
                0 <= i < r@.len() ==> info_matches(#[trigger] r@[i], self.descriptions()[r@[i].id]),
            forall|c: u64| #[trigger] self.clients().contains_key(c) ==> exists|i: int|
                0 <= i < r@.len() && r@[i].id == c,
    {
        let mut out: Vec<ClientInfo> = Vec::new();
        let mut k: usize = 0;
        while k < self.entries.len()
            invariant
                self.wf(),
                k <= self.entries@.len(),
                sorted_by_name(out@),
                forall|i: int| 0 <= i < out@.len() ==> self.clients().contains_key(#[trigger] out@[i].id)
                    && self.clients()[out@[i].id] == out@[i].name@,
                forall|i: int|
                    0 <= i < out@.len() ==> info_matches(#[trigger] out@[i], self.descriptions()[out@[i].id]),
                forall|i: int| #![trigger out@[i]] 0 <= i < out@.len() ==> exists|j: int| 0 <= j < k && #[trigger] self.entries@[j].id == out@[i].id,
                forall|j: int| 0 <= j < k ==> exists|i: int| 0 <= i < out@.len() && out@[i].id == #[trigger] self.entries@[j].id,
            decreases self.entries@.len() - k,
        {
            let e = &self.entries[k];
            let info = ClientInfo {
                id: e.id,
                name: copy_range(e.client.name.as_slice(), 0, e.client.name.len()),
                tp: e.client.tp,
                source: clone_text(&e.client.source),
                port: clone_text(&e.client.port),
            };
            proof {
                let ek = self.entries@[k as int];
                assert(self.clients().contains_key(ek.id) && self.clients()[ek.id] == ek.client.name@);
                assert forall|i: int| 0 <= i < out@.len() implies out@[i].name@ != info.name@ by {
                    let j = choose|j: int| 0 <= j < k && #[trigger] self.entries@[j].id == out@[i].id;
                    assert(self.entries@[j].id != self.entries@[k as int].id);
                    if out@[i].name@ == info.name@ {
                        assert(self.clients().contains_key(out@[i].id));
                        assert(self.clients()[out@[i].id] == self.clients()[ek.id]);
                    }
                }
            }
            let ghost before = out@;
            let ghost x = info;
            let p = insert_sorted(&mut out, info);
            proof {
                assert forall|i: int| #![trigger out@[i]] 0 <= i < out@.len() implies exists|j: int| 0 <= j < k + 1 && #[trigger] self.entries@[j].id == out@[i].id by {
                    if i == p {
                        assert(self.entries@[k as int].id == out@[i].id);
                    } else {
                        let oi = if i < p { i } else { i - 1 };
                        assert(out@[i] == before[oi]);
                        let j = choose|j: int| 0 <= j < k && #[trigger] self.entries@[j].id == before[oi].id;
                        assert(self.entries@[j].id == out@[i].id);
                    }
                }
                assert forall|j: int| 0 <= j < k + 1 implies exists|i: int| 0 <= i < out@.len() && out@[i].id == #[trigger] self.entries@[j].id by {
                    if j == k {
                        assert(out@[p as int].id == self.entries@[j].id);
                    } else {
                        let i = choose|i: int| 0 <= i < before.len() && before[i].id == #[trigger] self.entries@[j].id;
                        if i < p {
                            assert(out@[i] == before[i]);
                        } else {
                            assert(out@[i + 1] == before[i]);
                        }
                    }
                }
                assert forall|i: int| 0 <= i < out@.len() implies self.clients().contains_key(#[trigger] out@[i].id)
                    && self.clients()[out@[i].id] == out@[i].name@ by {
                    if i != p {
                        let oi = if i < p { i } else { i - 1 };
                        assert(out@[i] == before[oi]);
                    }
                }
                assert forall|i: int| 0 <= i < out@.len() implies info_matches(#[trigger] out@[i], self.descriptions()[out@[i].id]) by {
                    if i != p {
                        let oi = if i < p { i } else { i - 1 };
                        assert(out@[i] == before[oi]);
                    } else {
                        assert(self.descs@[self.entries@[k as int].id] == self.entries@[k as int].client.desc());
                    }
                }
            }
            k = k + 1;
        }
        proof {
            assert forall|c: u64| #[trigger] self.clients().contains_key(c) implies exists|i: int|
                0 <= i < out@.len() && out@[i].id == c by {
                assert(self.has_entry(c));
                let j = choose|j: int| 0 <= j < self.entries@.len() && #[trigger] self.entries@[j].id == c;
                assert(exists|i: int| 0 <= i < out@.len() && out@[i].id == self.entries@[j].id);
            }
        }
        out
    }
}

/// The registry, the subscription table and the descriptions hold the same
/// clients.
pub proof fn lemma_tables_agree(b: &Broker)
    requires
        b.wf(),
    ensures
        forall|c: u64| #[trigger] b.topics().contains_key(c) <==> b.clients().contains_key(c),
        forall|c: u64| #[trigger] b.descriptions().contains_key(c) <==> b.clients().contains_key(c),
{
}

/// No two registered clients share a name.
pub proof fn lemma_names_unique(b: &Broker)
    requires
        b.wf(),
    ensures
        names_unique(b.clients()),
{
}

/// Each registered client is the one client registered under its name, so a
/// lookup of that name finds exactly it.
pub proof fn lemma_lookup_finds_registered(b: &Broker, c: u64)
    requires
        b.wf(),
        b.clients().contains_key(c),
    ensures
        name_taken(b.clients(), b.clients()[c]),
        forall|d: u64| #[trigger]
            b.clients().contains_key(d) && b.clients()[d] == b.clients()[c] ==> d == c,
{
    assert(b.clients().contains_key(c) && b.clients()[c] == b.clients()[c]);
}

/// Whether two byte strings are equal.
pub fn bytes_eq(a: &[u8], b: &[u8]) -> (r: bool)
    ensures
        r == (a@ == b@),
{
    if a.len() != b.len() {
        return false;
    }
    let mut i: usize = 0;
    while i < a.len()
        invariant
            a@.len() == b@.len(),
            i <= a@.len(),
            forall|j: int| 0 <= j < i ==> a@[j] == b@[j],
        decreases a@.len() - i,
    {
        if a[i] != b[i] {
            return false;
        }
        i = i + 1;
    }
    assert(a@ =~= b@);
    true
}

} // verus!
