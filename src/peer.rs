//! The decisions of one connection: name handshake and the handling of each
//! operation frame. Reading, writing and queueing are left to the caller, which
//! hands in what it read and carries out what comes back.
use vstd::prelude::*;
use vstd::utf8::valid_utf8;
use crate::broker::{
    name_taken, opt_view, routed_frame_ok, subscribe_step, unsubscribe_step, Broker, Delivery,
    ElbusClient, ElbusClientType,
};
use crate::codec::{
    ack_spec, check_greeting, check_name, copy_range, encode_ack, greeting_reply_spec,
    index_of_zero, lemma_index_of_zero, name_length, op_header_known, op_header_ok,
    parse_op_header, wire_name_ok, OpHeader,
};
use crate::matcher::{is_utf8, members_of, subscribers_of};
use crate::pattern::{find_byte, split_bytes, split_on, views_of};
use crate::proto::{FrameKind, FrameOp, QoS, ERR_BUSY, ERR_DATA, ERR_NOT_REGISTERED, ERR_OTHER, RESPONSE_OK};

verus! {

/// Subscribing to each pattern in turn, stopping at the first failure.
pub open spec fn subscribe_all(t: Map<u64, Set<Seq<u8>>>, c: u64, ps: Seq<Seq<u8>>) -> (
    Map<u64, Set<Seq<u8>>>,
    Result<(), u8>,
)
    decreases ps.len(),
{
    if ps.len() == 0 {
        (t, Ok(()))
    } else {
        let step = subscribe_step(t, c, ps[0]);
        if step.1 is Err {
            step
        } else {
            subscribe_all(step.0, c, ps.drop_first())
        }
    }
}

/// Unsubscribing from each pattern in turn, stopping at the first failure.
pub open spec fn unsubscribe_all(t: Map<u64, Set<Seq<u8>>>, c: u64, ps: Seq<Seq<u8>>) -> (
    Map<u64, Set<Seq<u8>>>,
    Result<(), u8>,
)
    decreases ps.len(),
{
    if ps.len() == 0 {
        (t, Ok(()))
    } else {
        let step = unsubscribe_step(t, c, ps[0]);
        if step.1 is Err {
            step
        } else {
            unsubscribe_all(step.0, c, ps.drop_first())
        }
    }
}

pub open spec fn status_of(r: Result<(), u8>) -> u8 {
    match r {
        Ok(_) => RESPONSE_OK,
        Err(e) => e,
    }
}

/// The acknowledgement owed for an operation: only under `QoS::Processed`.
pub open spec fn ack_if(qos: QoS, op_id: Seq<u8>, code: u8) -> Option<Seq<u8>> {
    if qos == QoS::Processed {
        Some(ack_spec(op_id, code))
    } else {
        None
    }
}

/// What handling one operation frame asks of the connection: a frame to hand to
/// the recipients' queues, an acknowledgement for the sender's own queue, and an
/// error on which the connection is closed.
pub struct OpOutcome {
    pub delivery: Option<Delivery>,
    pub ack: Option<Vec<u8>>,
    pub error: Option<u8>,
}

/// A routing operation (message, broadcast, publication) of client `c`, named
/// `sender`, on a well-formed body: `i` is where its target ends.
pub open spec fn route_ok(
    clients: Map<u64, Seq<u8>>,
    topics: Map<u64, Set<Seq<u8>>>,
    sender: Seq<u8>,
    h: OpHeader,
    body: Seq<u8>,
    i: int,
    out: OpOutcome,
) -> bool {
    let target = body.subrange(0, i);
    let pos = (i + 1) as usize;
    &&& out.error is None
    &&& h.op == FrameOp::Message ==> if name_taken(clients, target) {
        &&& out.delivery is Some
        &&& out.delivery->Some_0.recipients@.len() == 1
        &&& clients.contains_key(out.delivery->Some_0.recipients@[0])
        &&& clients[out.delivery->Some_0.recipients@[0]] == target
        &&& routed_frame_ok(
            out.delivery->Some_0.frame,
            FrameKind::Message,
            sender,
            None,
            None,
            body,
            pos,
        )
        &&& opt_view(out.ack) == ack_if(h.qos, h.op_id@, RESPONSE_OK)
    } else {
        &&& out.delivery is None
        &&& opt_view(out.ack) == ack_if(h.qos, h.op_id@, ERR_NOT_REGISTERED)
    }
    &&& h.op == FrameOp::Broadcast ==> {
        &&& out.delivery is Some
        &&& out.delivery->Some_0.recipients@.no_duplicates()
        &&& out.delivery->Some_0.recipients@.to_set() == members_of(clients, target)
        &&& routed_frame_ok(
            out.delivery->Some_0.frame,
            FrameKind::Broadcast,
            sender,
            None,
            None,
            body,
            pos,
        )
        &&& opt_view(out.ack) == ack_if(h.qos, h.op_id@, RESPONSE_OK)
    }
    &&& h.op == FrameOp::PublishTopic ==> {
        &&& out.delivery is Some
        &&& out.delivery->Some_0.recipients@.no_duplicates()
        &&& out.delivery->Some_0.recipients@.to_set() == subscribers_of(topics, target)
        &&& routed_frame_ok(
            out.delivery->Some_0.frame,
            FrameKind::Publish,
            sender,
            Some(target),
            None,
            body,
            pos,
        )
        &&& opt_view(out.ack) == ack_if(h.qos, h.op_id@, RESPONSE_OK)
    }
}

pub open spec fn is_routing(op: FrameOp) -> bool {
    op == FrameOp::Message || op == FrameOp::Broadcast || op == FrameOp::PublishTopic
}

/// The name handshake's result `r` on `name`, from clients `c0` and topics `t0`
/// to `c1` and `t1`: `ERR_DATA` for a name that is empty, starts with `.` or is
/// not UTF-8; `ERR_BUSY` for a name in use; `ERR_OTHER` once ids are exhausted;
/// otherwise `RESPONSE_OK` with the new client's id.
pub open spec fn name_accepted(
    c0: Map<u64, Seq<u8>>,
    t0: Map<u64, Set<Seq<u8>>>,
    c1: Map<u64, Seq<u8>>,
    t1: Map<u64, Set<Seq<u8>>>,
    name: Seq<u8>,
    r: (u8, Option<u64>),
    exhausted: bool,
) -> bool {
    &&& !wire_name_ok(name) ==> r == (ERR_DATA, None::<u64>)
    &&& wire_name_ok(name) && name_taken(c0, name) ==> r == (ERR_BUSY, None::<u64>)
    &&& r.0 == RESPONSE_OK <==> r.1 is Some
    &&& r.0 == RESPONSE_OK ==> {
        &&& !c0.contains_key(r.1->Some_0)
        &&& c1 == c0.insert(r.1->Some_0, name)
        &&& t1 == t0.insert(r.1->Some_0, set![crate::broker::warn_topic()])
    }
    &&& wire_name_ok(name) && !name_taken(c0, name) && r.0 != RESPONSE_OK ==> r == (
        ERR_OTHER,
        None::<u64>,
    ) && exhausted
    &&& r.0 != RESPONSE_OK ==> c1 == c0 && t1 == t0
}

/// The outcome `out` of operation `h` with `body` from client `id`, with
/// clients `c`, topics `t0` before and `t1` after.
pub open spec fn op_handled(
    c: Map<u64, Seq<u8>>,
    t0: Map<u64, Set<Seq<u8>>>,
    t1: Map<u64, Set<Seq<u8>>>,
    id: u64,
    h: OpHeader,
    body: Seq<u8>,
    out: OpOutcome,
) -> bool {
    &&& h.op == FrameOp::Nop ==> out.delivery is None && out.ack is None && out.error is None
        && t1 == t0
    &&& h.op == FrameOp::SubscribeTopic ==> {
        let res = subscribe_all(t0, id, split_on(body, 0));
        &&& t1 == res.0
        &&& out.delivery is None && out.error is None
        &&& opt_view(out.ack) == ack_if(h.qos, h.op_id@, status_of(res.1))
    }
    &&& h.op == FrameOp::UnsubscribeTopic ==> {
        let res = unsubscribe_all(t0, id, split_on(body, 0));
        &&& t1 == res.0
        &&& out.delivery is None && out.error is None
        &&& opt_view(out.ack) == ack_if(h.qos, h.op_id@, status_of(res.1))
    }
    &&& is_routing(h.op) ==> {
        let i = index_of_zero(body);
        &&& t1 == t0
        &&& if i >= body.len() || !valid_utf8(body.subrange(0, i)) {
            out.delivery is None && out.ack is None && out.error == Some(ERR_DATA)
        } else {
            route_ok(c, t0, c[id], h, body, i, out)
        }
    }
}

impl Broker {
    /// Subscribes client `id` to each pattern in turn; stops at the first failure
    /// and returns it.
    pub fn subscribe_bulk(&mut self, id: u64, patterns: &Vec<Vec<u8>>) -> (r: Result<(), u8>)
        requires
            old(self).wf(),
        ensures
            final(self).wf(),
            final(self).spec_queue_size() == old(self).spec_queue_size(),
            final(self).ids_left() == old(self).ids_left(),
            final(self).descriptions() == old(self).descriptions(),
            final(self).clients() == old(self).clients(),
            (final(self).topics(), r) == subscribe_all(old(self).topics(), id, views_of(patterns@)),
    {
        let ghost ps = views_of(patterns@);
        assert(ps.subrange(0, ps.len() as int) =~= ps);
        let mut i: usize = 0;
        while i < patterns.len()
            invariant
                self.wf(),
                self.spec_queue_size() == old(self).spec_queue_size(),
                self.ids_left() == old(self).ids_left(),
                self.descriptions() == old(self).descriptions(),
                self.clients() == old(self).clients(),
                i <= patterns@.len(),
                ps == views_of(patterns@),
                subscribe_all(old(self).topics(), id, ps) == subscribe_all(
                    self.topics(),
                    id,
                    ps.subrange(i as int, ps.len() as int),
                ),
            decreases patterns@.len() - i,
        {
            let ghost rest = ps.subrange(i as int, ps.len() as int);
            assert(rest[0] == patterns@[i as int]@);
            assert(rest.drop_first() =~= ps.subrange(i + 1, ps.len() as int));
            let r = self.subscribe(id, patterns[i].as_slice());
            if r.is_err() {
                return r;
            }
            i = i + 1;
        }
        assert(ps.subrange(i as int, ps.len() as int) =~= Seq::<Seq<u8>>::empty());
        Ok(())
    }

    /// Unsubscribes client `id` from each pattern in turn; stops at the first
    /// failure and returns it.
    pub fn unsubscribe_bulk(&mut self, id: u64, patterns: &Vec<Vec<u8>>) -> (r: Result<(), u8>)
        requires
            old(self).wf(),
        ensures
            final(self).wf(),
            final(self).spec_queue_size() == old(self).spec_queue_size(),
            final(self).ids_left() == old(self).ids_left(),
            final(self).descriptions() == old(self).descriptions(),
            final(self).clients() == old(self).clients(),
            (final(self).topics(), r) == unsubscribe_all(
                old(self).topics(),
                id,
                views_of(patterns@),
            ),
    {
        let ghost ps = views_of(patterns@);
        assert(ps.subrange(0, ps.len() as int) =~= ps);
        let mut i: usize = 0;
        while i < patterns.len()
            invariant
                self.wf(),
                self.spec_queue_size() == old(self).spec_queue_size(),
                self.ids_left() == old(self).ids_left(),
                self.descriptions() == old(self).descriptions(),
                self.clients() == old(self).clients(),
                i <= patterns@.len(),
                ps == views_of(patterns@),
                unsubscribe_all(old(self).topics(), id, ps) == unsubscribe_all(
                    self.topics(),
                    id,
                    ps.subrange(i as int, ps.len() as int),
                ),
            decreases patterns@.len() - i,
        {
            let ghost rest = ps.subrange(i as int, ps.len() as int);
            assert(rest[0] == patterns@[i as int]@);
            assert(rest.drop_first() =~= ps.subrange(i + 1, ps.len() as int));
            let r = self.unsubscribe(id, patterns[i].as_slice());
            if r.is_err() {
                return r;
            }
            i = i + 1;
        }
        assert(ps.subrange(i as int, ps.len() as int) =~= Seq::<Seq<u8>>::empty());
        Ok(())
    }

    /// The name handshake of a connection: `ERR_DATA` for a name that is empty,
    /// starts with `.` or is not UTF-8; `ERR_BUSY` for a name in use; otherwise the
    /// client is registered and `RESPONSE_OK` returned with its id.
    pub fn accept_name(
        &mut self,
        name: &[u8],
        tp: ElbusClientType,
        source: Option<String>,
        port: Option<String>,
    ) -> (r: (u8, Option<u64>))
        requires
            old(self).wf(),
        ensures
            final(self).wf(),
            final(self).spec_queue_size() == old(self).spec_queue_size(),
            r.0 == RESPONSE_OK ==> final(self).ids_left() == old(self).ids_left() - 1
                && final(self).descriptions() == old(self).descriptions().insert(
                r.1->Some_0,
                (tp, source, port, old(self).spec_queue_size()),
            ),
            r.0 != RESPONSE_OK ==> final(self).ids_left() == old(self).ids_left()
                && final(self).descriptions() == old(self).descriptions(),
            name_accepted(
                old(self).clients(),
                old(self).topics(),
                final(self).clients(),
                final(self).topics(),
                name@,
                r,
                old(self).ids_exhausted(),
            ),
    {
        let verdict = check_name(name);
        if verdict != RESPONSE_OK {
            return (verdict, None);
        }
        let qs = self.queue_size();
        let client = ElbusClient::new(name, qs, tp, source, port);
        match self.register(client) {
            Ok(id) => (RESPONSE_OK, Some(id)),
            Err(e) => (e, None),
        }
    }

    /// Handles one operation frame of client `id` with header `h` and body `body`.
    pub fn handle_op(&mut self, id: u64, h: &OpHeader, body: Vec<u8>) -> (out: OpOutcome)
        requires
            old(self).wf(),
            old(self).clients().contains_key(id),
            h.op_id@.len() == 4,
        ensures
            final(self).wf(),
            final(self).spec_queue_size() == old(self).spec_queue_size(),
            final(self).ids_left() == old(self).ids_left(),
            final(self).descriptions() == old(self).descriptions(),
            final(self).clients() == old(self).clients(),
            op_handled(old(self).clients(), old(self).topics(), final(self).topics(), id, *h, body@, out),
    {
        match h.op {
            FrameOp::Nop => {
                return OpOutcome { delivery: None, ack: None, error: None };
            },
            FrameOp::SubscribeTopic | FrameOp::UnsubscribeTopic => {
                let patterns = split_bytes(body.as_slice(), 0);
                let r = if h.op == FrameOp::SubscribeTopic {
                    self.subscribe_bulk(id, &patterns)
                } else {
                    self.unsubscribe_bulk(id, &patterns)
                };
                let ack = if h.qos == QoS::Processed {
                    let code = match r {
                        Ok(_) => RESPONSE_OK,
                        Err(e) => e,
                    };
                    Some(encode_ack(h.op_id.as_slice(), code))
                } else {
                    None
                };
                return OpOutcome { delivery: None, ack, error: None };
            },
            _ => {},
        }
        let found = find_byte(body.as_slice(), 0);
        let i = match found {
            Some(i) => i,
            None => {
                proof {
                    lemma_index_of_zero(body@, body@.len() as int);
                }
                return OpOutcome { delivery: None, ack: None, error: Some(ERR_DATA) };
            },
        };
        proof {
            lemma_index_of_zero(body@, i as int);
        }
        let target = copy_range(body.as_slice(), 0, i);
        if !is_utf8(target.as_slice()) {
            return OpOutcome { delivery: None, ack: None, error: Some(ERR_DATA) };
        }
        let sender = match self.client(id) {
            Some(c) => copy_range(c.name.as_slice(), 0, c.name.len()),
            None => Vec::new(),
        };
        assert(sender@ == self.clients()[id]);
        let n = body.len();
        assert(i < n);
        let pos = i + 1;
        let ghost b = body@;
        match h.op {
            FrameOp::Message => {
                match self.send(sender.as_slice(), target.as_slice(), None, body, pos) {
                    Ok(d) => {
                        let ack = if h.qos == QoS::Processed {
                            Some(encode_ack(h.op_id.as_slice(), RESPONSE_OK))
                        } else {
                            None
                        };
                        OpOutcome { delivery: Some(d), ack, error: None }
                    },
                    Err(e) => {
                        let ack = if h.qos == QoS::Processed {
                            Some(encode_ack(h.op_id.as_slice(), e))
                        } else {
                            None
                        };
                        OpOutcome { delivery: None, ack, error: None }
                    },
                }
            },
            FrameOp::Broadcast => {
                let d = self.send_broadcast(sender.as_slice(), target.as_slice(), None, body, pos);
                let ack = if h.qos == QoS::Processed {
                    Some(encode_ack(h.op_id.as_slice(), RESPONSE_OK))
                } else {
                    None
                };
                OpOutcome { delivery: Some(d), ack, error: None }
            },
            _ => {
                let d = self.publish(sender.as_slice(), target.as_slice(), None, body, pos);
                let ack = if h.qos == QoS::Processed {
                    Some(encode_ack(h.op_id.as_slice(), RESPONSE_OK))
                } else {
                    None
                };
                OpOutcome { delivery: Some(d), ack, error: None }
            },
        }
    }
}

/// Where a connection stands: the handshake steps, then alternately waiting for
/// an operation header and for its body.
pub enum PeerState {
    GreetingIn,
    NameLen,
    Name { len: u16 },
    Idle { id: u64 },
    Body { id: u64, header: OpHeader },
    Closed,
}

impl PeerState {
    pub open spec fn wants_spec(&self) -> nat {
        match self {
            PeerState::GreetingIn => 3,
            PeerState::NameLen => 2,
            PeerState::Name { len } => *len as nat,
            PeerState::Idle { .. } => 9,
            PeerState::Body { header, .. } => header.len as nat,
            PeerState::Closed => 0,
        }
    }

    /// How many bytes the connection reads next.
    pub fn wants(&self) -> (r: usize)
        ensures
            r == self.wants_spec(),
    {
        match self {
            PeerState::GreetingIn => 3,
            PeerState::NameLen => 2,
            PeerState::Name { len } => *len as usize,
            PeerState::Idle { .. } => 9,
            PeerState::Body { header, .. } => header.len as usize,
            PeerState::Closed => 0,
        }
    }

    /// Whether that read is bounded by the timeout: every read but that of an
    /// operation header, since idle connections are allowed.
    pub fn read_is_bounded(&self) -> (r: bool)
        ensures
            r == !(self is Idle),
    {
        !matches!(self, PeerState::Idle { .. })
    }

    pub fn is_closed(&self) -> (r: bool)
        ensures
            r == (self is Closed),
    {
        matches!(self, PeerState::Closed)
    }
}

/// What one step asks of the connection: the next state, bytes to write to the
/// socket now, and the outcome of an operation.
pub struct PeerStep {
    pub next: PeerState,
    pub write: Vec<u8>,
    pub outcome: Option<OpOutcome>,
}

/// The step taken in `state` on `input`, with clients `c0`, topics `t0` before
/// and `c1`, `t1` after, when ids were `exhausted` or not.
pub open spec fn peer_step_ok(
    state: PeerState,
    input: Seq<u8>,
    c0: Map<u64, Seq<u8>>,
    t0: Map<u64, Set<Seq<u8>>>,
    c1: Map<u64, Seq<u8>>,
    t1: Map<u64, Set<Seq<u8>>>,
    exhausted: bool,
    r: PeerStep,
) -> bool {
    match state {
        PeerState::GreetingIn => {
            let reply = greeting_reply_spec(input);
            &&& c1 == c0 && t1 == t0 && r.outcome is None
            &&& r.write@ == seq![reply]
            &&& if reply == RESPONSE_OK {
                r.next is NameLen
            } else {
                r.next is Closed
            }
        },
        PeerState::NameLen => {
            &&& c1 == c0 && t1 == t0 && r.outcome is None && r.write@.len() == 0
            &&& match r.next {
                PeerState::Name { len } => len as int == input[0] as int + 256 * (input[1] as int),
                _ => false,
            }
        },
        PeerState::Name { .. } => {
            &&& r.outcome is None && r.write@.len() == 1
            &&& match r.next {
                PeerState::Idle { id } => name_accepted(
                    c0,
                    t0,
                    c1,
                    t1,
                    input,
                    (r.write@[0], Some(id)),
                    exhausted,
                ),
                PeerState::Closed => name_accepted(
                    c0,
                    t0,
                    c1,
                    t1,
                    input,
                    (r.write@[0], None),
                    exhausted,
                ),
                _ => false,
            }
        },
        PeerState::Idle { id } => {
            &&& c1 == c0 && t1 == t0 && r.outcome is None && r.write@.len() == 0
            &&& input[4] == 0 ==> r.next == PeerState::Idle { id }
            &&& input[4] != 0 && op_header_known(input) ==> match r.next {
                PeerState::Body { id: id2, header } => id2 == id && op_header_ok(input, header),
                _ => false,
            }
            &&& input[4] != 0 && !op_header_known(input) ==> r.next is Closed
        },
        PeerState::Body { id, header } => {
            &&& c1 == c0 && r.write@.len() == 0 && r.outcome is Some
            &&& op_handled(c0, t0, t1, id, header, input, r.outcome->Some_0)
            &&& if r.outcome->Some_0.error is Some {
                r.next is Closed
            } else {
                r.next == PeerState::Idle { id }
            }
        },
        PeerState::Closed => {
            &&& c1 == c0 && t1 == t0 && r.outcome is None && r.write@.len() == 0
            &&& r.next is Closed
        },
    }
}

pub open spec fn state_fits(state: PeerState, c: Map<u64, Seq<u8>>) -> bool {
    match state {
        PeerState::Idle { id } => c.contains_key(id),
        PeerState::Body { id, header } => c.contains_key(id) && header.op_id@.len() == 4,
        _ => true,
    }
}

impl Broker {
    /// One step of a connection: `input` is what was read for `state`; the
    /// client's transport, source and port are used when the name arrives.
    pub fn peer_step(
        &mut self,
        state: PeerState,
        input: &[u8],
        tp: ElbusClientType,
        source: Option<String>,
        port: Option<String>,
    ) -> (r: PeerStep)
        requires
            old(self).wf(),
            input@.len() == state.wants_spec(),
            state_fits(state, old(self).clients()),
        ensures
            final(self).wf(),
            final(self).spec_queue_size() == old(self).spec_queue_size(),
            (state is Name && r.next is Idle) ==> final(self).ids_left() == old(self).ids_left() - 1,
            !(state is Name && r.next is Idle) ==> final(self).ids_left() == old(self).ids_left()
                && final(self).descriptions() == old(self).descriptions(),
            match (state, r.next) {
                (PeerState::Name { .. }, PeerState::Idle { id }) => final(self).descriptions()
                    == old(self).descriptions().insert(
                    id,
                    (tp, source, port, old(self).spec_queue_size()),
                ),
                _ => true,
            },
            peer_step_ok(
                state,
                input@,
                old(self).clients(),
                old(self).topics(),
                final(self).clients(),
                final(self).topics(),
                old(self).ids_exhausted(),
                r,
            ),
    {
        match state {
            PeerState::GreetingIn => {
                let reply = check_greeting(input);
                let next = if reply == RESPONSE_OK {
                    PeerState::NameLen
                } else {
                    PeerState::Closed
                };
                let write: Vec<u8> = vec![reply];
                assert(write@ =~= seq![reply]);
                PeerStep { next, write, outcome: None }
            },
            PeerState::NameLen => {
                let len = name_length(input);
                PeerStep { next: PeerState::Name { len }, write: Vec::new(), outcome: None }
            },
            PeerState::Name { .. } => {
                let (code, id) = self.accept_name(input, tp, source, port);
                let next = match id {
                    Some(id) => PeerState::Idle { id },
                    None => PeerState::Closed,
                };
                let write: Vec<u8> = vec![code];
                assert(write@[0] == code);
                PeerStep { next, write, outcome: None }
            },
            PeerState::Idle { id } => {
                let next = match parse_op_header(input) {
                    Ok(None) => PeerState::Idle { id },
                    Ok(Some(header)) => PeerState::Body { id, header },
                    Err(_) => PeerState::Closed,
                };
                PeerStep { next, write: Vec::new(), outcome: None }
            },
            PeerState::Body { id, header } => {
                let body = copy_range(input, 0, input.len());
                assert(body@ =~= input@);
                let out = self.handle_op(id, &header, body);
                let next = if out.error.is_some() {
                    PeerState::Closed
                } else {
                    PeerState::Idle { id }
                };
                PeerStep { next, write: Vec::new(), outcome: Some(out) }
            },
            PeerState::Closed => PeerStep { next: PeerState::Closed, write: Vec::new(), outcome: None },
        }
    }
}

} // verus!
