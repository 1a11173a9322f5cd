//! The in-process client: the same operations as a connected peer, carried out
//! directly on the broker.
use vstd::prelude::*;
use vstd::utf8::{encode_utf8, encode_utf8_valid_utf8};
use crate::broker::{
    name_taken, routed_frame_ok, subscribe_step, unsubscribe_step,
    Broker, Delivery, ElbusClient, ElbusClientType,
};
use crate::codec::copy_range;
use crate::matcher::{members_of, subscribers_of};
use crate::pattern::views_of;
use crate::peer::{subscribe_all, unsubscribe_all};
use crate::proto::{FrameKind, QoS, ERR_BUSY, ERR_DATA, ERR_NOT_REGISTERED, RESPONSE_OK};

verus! {

/// What an operation of the in-process client confirms: under `QoS::Processed` a
/// completed confirmation carrying `RESPONSE_OK`, else none.
pub open spec fn confirm_of(qos: QoS) -> Option<u8> {
    if qos == QoS::Processed {
        Some(RESPONSE_OK)
    } else {
        None
    }
}

fn confirm(qos: QoS) -> (r: Option<u8>)
    ensures
        r == confirm_of(qos),
{
    match qos {
        QoS::Processed => Some(RESPONSE_OK),
        QoS::No => None,
    }
}

fn str_bytes(s: &str) -> (r: Vec<u8>)
    ensures
        r@ == encode_utf8(s@),
{
    let b = s.as_bytes();
    copy_range(b, 0, b.len())
}

pub open spec fn encode_all(s: Seq<&str>) -> Seq<Seq<u8>> {
    s.map_values(|t: &str| encode_utf8(t@))
}

/// A client registered in-process under a name.
pub struct Client {
    id: u64,
    name: Vec<u8>,
}

impl Client {
    pub closed spec fn spec_id(&self) -> u64 {
        self.id
    }

    pub closed spec fn spec_name(&self) -> Seq<u8> {
        self.name@
    }

    pub fn id(&self) -> (r: u64)
        ensures
            r == self.spec_id(),
    {
        self.id
    }

    pub fn name(&self) -> (r: Vec<u8>)
        ensures
            r@ == self.spec_name(),
    {
        copy_range(self.name.as_slice(), 0, self.name.len())
    }

    pub fn subscribe(&self, broker: &mut Broker, topic: &str, qos: QoS) -> (r: Result<Option<u8>, u8>)
        requires
            old(broker).wf(),
        ensures
            final(broker).wf(),
            final(broker).clients() == old(broker).clients(),
            final(broker).ids_left() == old(broker).ids_left(),
            final(broker).descriptions() == old(broker).descriptions(),
            ({
                let step = subscribe_step(old(broker).topics(), self.spec_id(), encode_utf8(topic@));
                &&& final(broker).topics() == step.0
                &&& step.1 is Ok ==> r == Ok::<Option<u8>, u8>(confirm_of(qos))
                &&& step.1 is Err ==> r == Err::<Option<u8>, u8>(step.1->Err_0)
            }),
    {
        let t = str_bytes(topic);
        match broker.subscribe(self.id, t.as_slice()) {
            Ok(()) => Ok(confirm(qos)),
            Err(e) => Err(e),
        }
    }

    pub fn unsubscribe(&self, broker: &mut Broker, topic: &str, qos: QoS) -> (r: Result<Option<u8>, u8>)
        requires
            old(broker).wf(),
        ensures
            final(broker).wf(),
            final(broker).clients() == old(broker).clients(),
            final(broker).ids_left() == old(broker).ids_left(),
            final(broker).descriptions() == old(broker).descriptions(),
            ({
                let step = unsubscribe_step(old(broker).topics(), self.spec_id(), encode_utf8(topic@));
                &&& final(broker).topics() == step.0
                &&& step.1 is Ok ==> r == Ok::<Option<u8>, u8>(confirm_of(qos))
                &&& step.1 is Err ==> r == Err::<Option<u8>, u8>(step.1->Err_0)
            }),
    {
        let t = str_bytes(topic);
        match broker.unsubscribe(self.id, t.as_slice()) {
            Ok(()) => Ok(confirm(qos)),
            Err(e) => Err(e),
        }
    }

    fn all_bytes(topics: &Vec<&str>) -> (r: Vec<Vec<u8>>)
        ensures
            views_of(r@) == encode_all(topics@),
    {
        let mut r: Vec<Vec<u8>> = Vec::new();
        let mut i: usize = 0;
        while i < topics.len()
            invariant
                i <= topics@.len(),
                views_of(r@) == encode_all(topics@).subrange(0, i as int),
            decreases topics@.len() - i,
        {
            let ghost r0 = views_of(r@);
            let b = str_bytes(topics[i]);
            r.push(b);
            assert(views_of(r@) =~= r0.push(encode_utf8(topics@[i as int]@)));
            assert(encode_all(topics@).subrange(0, i + 1) =~= encode_all(topics@).subrange(0, i as int).push(encode_utf8(topics@[i as int]@)));
            i = i + 1;
        }
        assert(encode_all(topics@).subrange(0, i as int) =~= encode_all(topics@));
        r
    }

    pub fn subscribe_bulk(&self, broker: &mut Broker, topics: Vec<&str>, qos: QoS) -> (r: Result<Option<u8>, u8>)
        requires
            old(broker).wf(),
        ensures
            final(broker).wf(),
            final(broker).clients() == old(broker).clients(),
            final(broker).ids_left() == old(broker).ids_left(),
            final(broker).descriptions() == old(broker).descriptions(),
            ({
                let res = subscribe_all(old(broker).topics(), self.spec_id(), encode_all(topics@));
                &&& final(broker).topics() == res.0
                &&& res.1 is Ok ==> r == Ok::<Option<u8>, u8>(confirm_of(qos))
                &&& res.1 is Err ==> r == Err::<Option<u8>, u8>(res.1->Err_0)
            }),
    {
        let ts = Self::all_bytes(&topics);
        match broker.subscribe_bulk(self.id, &ts) {
            Ok(()) => Ok(confirm(qos)),
            Err(e) => Err(e),
        }
    }

    pub fn unsubscribe_bulk(&self, broker: &mut Broker, topics: Vec<&str>, qos: QoS) -> (r: Result<Option<u8>, u8>)
        requires
            old(broker).wf(),
        ensures
            final(broker).wf(),
            final(broker).clients() == old(broker).clients(),
            final(broker).ids_left() == old(broker).ids_left(),
            final(broker).descriptions() == old(broker).descriptions(),
            ({
                let res = unsubscribe_all(old(broker).topics(), self.spec_id(), encode_all(topics@));
                &&& final(broker).topics() == res.0
                &&& res.1 is Ok ==> r == Ok::<Option<u8>, u8>(confirm_of(qos))
                &&& res.1 is Err ==> r == Err::<Option<u8>, u8>(res.1->Err_0)
            }),
    {
        let ts = Self::all_bytes(&topics);
        match broker.unsubscribe_bulk(self.id, &ts) {
            Ok(()) => Ok(confirm(qos)),
            Err(e) => Err(e),
        }
    }

    /// A directed message with `payload` to the client named `target`.
    pub fn send(&self, broker: &Broker, target: &str, payload: Vec<u8>, qos: QoS) -> (r: Result<(Delivery, Option<u8>), u8>)
        requires
            broker.wf(),
        ensures
            !name_taken(broker.clients(), encode_utf8(target@)) ==> r == Err::<(Delivery, Option<u8>), u8>(ERR_NOT_REGISTERED),
            name_taken(broker.clients(), encode_utf8(target@)) ==> r is Ok && {
                let (d, c) = r->Ok_0;
                &&& c == confirm_of(qos)
                &&& d.recipients@.len() == 1
                &&& broker.clients().contains_key(d.recipients@[0])
                &&& broker.clients()[d.recipients@[0]] == encode_utf8(target@)
                &&& routed_frame_ok(d.frame, FrameKind::Message, self.spec_name(), None, None, payload@, 0)
            },
    {
        let t = str_bytes(target);
        match broker.send(self.name.as_slice(), t.as_slice(), None, payload, 0) {
            Ok(d) => Ok((d, confirm(qos))),
            Err(e) => Err(e),
        }
    }

    /// A directed message with an extension header.
    pub fn zc_send(&self, broker: &Broker, target: &str, header: Vec<u8>, payload: Vec<u8>, qos: QoS) -> (r: Result<(Delivery, Option<u8>), u8>)
        requires
            broker.wf(),
        ensures
            !name_taken(broker.clients(), encode_utf8(target@)) ==> r == Err::<(Delivery, Option<u8>), u8>(ERR_NOT_REGISTERED),
            name_taken(broker.clients(), encode_utf8(target@)) ==> r is Ok && {
                let (d, c) = r->Ok_0;
                &&& c == confirm_of(qos)
                &&& d.recipients@.len() == 1
                &&& broker.clients().contains_key(d.recipients@[0])
                &&& broker.clients()[d.recipients@[0]] == encode_utf8(target@)
                &&& routed_frame_ok(d.frame, FrameKind::Message, self.spec_name(), None, Some(header@), payload@, 0)
            },
    {
        let t = str_bytes(target);
        match broker.send(self.name.as_slice(), t.as_slice(), Some(header), payload, 0) {
            Ok(d) => Ok((d, confirm(qos))),
            Err(e) => Err(e),
        }
    }

    /// A broadcast with `payload` to every client whose name matches `target`.
    pub fn send_broadcast(&self, broker: &Broker, target: &str, payload: Vec<u8>, qos: QoS) -> (r: (Delivery, Option<u8>))
        requires
            broker.wf(),
        ensures
            r.1 == confirm_of(qos),
            r.0.recipients@.no_duplicates(),
            r.0.recipients@.to_set() == members_of(broker.clients(), encode_utf8(target@)),
            routed_frame_ok(r.0.frame, FrameKind::Broadcast, self.spec_name(), None, None, payload@, 0),
    {
        let t = str_bytes(target);
        proof {
            encode_utf8_valid_utf8(target@);
        }
        let d = broker.send_broadcast(self.name.as_slice(), t.as_slice(), None, payload, 0);
        (d, confirm(qos))
    }

    /// A publication of `payload` to `topic`.
    pub fn publish(&self, broker: &Broker, topic: &str, payload: Vec<u8>, qos: QoS) -> (r: (Delivery, Option<u8>))
        requires
            broker.wf(),
        ensures
            r.1 == confirm_of(qos),
            r.0.recipients@.no_duplicates(),
            r.0.recipients@.to_set() == subscribers_of(broker.topics(), encode_utf8(topic@)),
            routed_frame_ok(r.0.frame, FrameKind::Publish, self.spec_name(), Some(encode_utf8(topic@)), None, payload@, 0),
    {
        let t = str_bytes(topic);
        proof {
            encode_utf8_valid_utf8(topic@);
        }
        let d = broker.publish(self.name.as_slice(), t.as_slice(), None, payload, 0);
        (d, confirm(qos))
    }

    /// Takes the client out of the broker.
    pub fn unregister(&self, broker: &mut Broker)
        requires
            old(broker).wf(),
        ensures
            final(broker).wf(),
            final(broker).clients() == old(broker).clients().remove(self.spec_id()),
            final(broker).ids_left() == old(broker).ids_left(),
            final(broker).descriptions() == old(broker).descriptions().remove(self.spec_id()),
            final(broker).topics() == old(broker).topics().remove(self.spec_id()),
    {
        broker.unregister(self.id);
    }
}

impl Broker {
    /// Registers an in-process client. `ERR_DATA` for an empty name, `ERR_BUSY`
    /// for a name in use; names starting with `.` are allowed here.
    pub fn register_client(&mut self, name: &str) -> (r: Result<Client, u8>)
        requires
            old(self).wf(),
        ensures
            final(self).wf(),
            final(self).spec_queue_size() == old(self).spec_queue_size(),
            r is Ok ==> final(self).ids_left() == old(self).ids_left() - 1
                && final(self).descriptions() == old(self).descriptions().insert(
                r->Ok_0.spec_id(),
                (ElbusClientType::Internal, None::<String>, None::<String>, old(self).spec_queue_size()),
            ),
            r is Err ==> final(self).ids_left() == old(self).ids_left()
                && final(self).descriptions() == old(self).descriptions(),
            name@.len() == 0 ==> r == Err::<Client, u8>(ERR_DATA),
            name@.len() > 0 && name_taken(old(self).clients(), encode_utf8(name@)) ==> r == Err::<Client, u8>(ERR_BUSY),
            r is Ok ==> {
                &&& r->Ok_0.spec_name() == encode_utf8(name@)
                &&& !old(self).clients().contains_key(r->Ok_0.spec_id())
                &&& final(self).clients() == old(self).clients().insert(r->Ok_0.spec_id(), encode_utf8(name@))
                &&& final(self).topics() == old(self).topics().insert(
                    r->Ok_0.spec_id(),
                    set![crate::broker::warn_topic()],
                )
            },
            name@.len() > 0 && !name_taken(old(self).clients(), encode_utf8(name@)) && r is Err ==> old(self).ids_exhausted(),
            r is Err ==> final(self).clients() == old(self).clients() && final(self).topics() == old(self).topics(),
    {
        if name.is_empty() {
            return Err(ERR_DATA);
        }
        let bytes = str_bytes(name);
        proof {
            encode_utf8_valid_utf8(name@);
        }
        let qs = self.queue_size();
        let c = ElbusClient::new(bytes.as_slice(), qs, ElbusClientType::Internal, None, None);
        match self.register(c) {
            Ok(id) => Ok(Client { id, name: bytes }),
            Err(e) => Err(e),
        }
    }
}

} // verus!
