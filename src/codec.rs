//! The wire format: greeting, name handshake, operation headers, acknowledgements
//! and routed frames.
use vstd::prelude::*;
use vstd::utf8::valid_utf8;
use crate::matcher::is_utf8;
use crate::pattern::find_byte;
use crate::proto::{
    kind_byte_spec, kind_of_byte_spec, op_of_code_spec, qos_of_code_spec, FrameKind, FrameOp, QoS, ERR_DATA,
    ERR_NOT_SUPPORTED, GREETING, OP_ACK, PROTOCOL_VERSION, RESPONSE_OK,
};

verus! {

/// Little-endian value of four bytes.
pub open spec fn le_u32(b0: u8, b1: u8, b2: u8, b3: u8) -> u32 {
    (b0 as u32) | ((b1 as u32) << 8u32) | ((b2 as u32) << 16u32) | ((b3 as u32) << 24u32)
}

/// Little-endian bytes of a `u32`.
pub open spec fn le_bytes(n: u32) -> Seq<u8> {
    seq![
        (n & 0xff) as u8,
        ((n >> 8u32) & 0xff) as u8,
        ((n >> 16u32) & 0xff) as u8,
        ((n >> 24u32) & 0xff) as u8,
    ]
}

pub proof fn lemma_le_round_trip(n: u32)
    ensures
        le_u32(le_bytes(n)[0], le_bytes(n)[1], le_bytes(n)[2], le_bytes(n)[3]) == n,
{
    let b0 = (n & 0xff) as u8;
    let b1 = ((n >> 8u32) & 0xff) as u8;
    let b2 = ((n >> 16u32) & 0xff) as u8;
    let b3 = ((n >> 24u32) & 0xff) as u8;
    assert((b0 as u32) == (n & 0xff)) by (bit_vector)
        requires
            b0 == (n & 0xff) as u8,
    ;
    assert((b1 as u32) == ((n >> 8u32) & 0xff)) by (bit_vector)
        requires
            b1 == ((n >> 8u32) & 0xff) as u8,
    ;
    assert((b2 as u32) == ((n >> 16u32) & 0xff)) by (bit_vector)
        requires
            b2 == ((n >> 16u32) & 0xff) as u8,
    ;
    assert((b3 as u32) == ((n >> 24u32) & 0xff)) by (bit_vector)
        requires
            b3 == ((n >> 24u32) & 0xff) as u8,
    ;
    assert(((n & 0xff) | (((n >> 8u32) & 0xff) << 8u32) | (((n >> 16u32) & 0xff) << 16u32) | ((
    (n >> 24u32) & 0xff) << 24u32)) == n) by (bit_vector);
}

/// The greeting: its first byte, then the protocol version little-endian.
pub open spec fn greeting_spec() -> Seq<u8> {
    seq![GREETING, 1u8, 0u8]
}

/// A client's echo of the greeting is accepted iff it repeats the greeting.
pub open spec fn greeting_reply_spec(b: Seq<u8>) -> u8 {
    if b[0] == GREETING && b[1] as int + 256 * (b[2] as int) == PROTOCOL_VERSION as int {
        RESPONSE_OK
    } else {
        ERR_NOT_SUPPORTED
    }
}

/// A name sent over the wire is accepted iff it is non-empty UTF-8 not starting with `.`.
pub open spec fn wire_name_ok(n: Seq<u8>) -> bool {
    n.len() > 0 && n[0] != NAME_RESERVED_PREFIX && valid_utf8(n)
}

/// Names given over the wire may not start with this byte (`.`).
pub const NAME_RESERVED_PREFIX: u8 = 0x2E;

/// The bytes the server sends first on every connection.
pub fn greeting() -> (r: Vec<u8>)
    ensures
        r@ == greeting_spec(),
{
    let r: Vec<u8> = vec![GREETING, 1u8, 0u8];
    assert(r@ =~= greeting_spec());
    r
}

/// The one-byte answer to the client's greeting.
pub fn check_greeting(buf: &[u8]) -> (r: u8)
    requires
        buf@.len() == 3,
    ensures
        r == greeting_reply_spec(buf@),
{
    if buf[0] == GREETING && buf[1] as u16 + 256 * (buf[2] as u16) == PROTOCOL_VERSION {
        RESPONSE_OK
    } else {
        ERR_NOT_SUPPORTED
    }
}

/// The name length announced in two little-endian bytes.
pub fn name_length(buf: &[u8]) -> (r: u16)
    requires
        buf@.len() == 2,
    ensures
        r as int == buf@[0] as int + 256 * (buf@[1] as int),
{
    buf[0] as u16 + 256 * (buf[1] as u16)
}

/// The one-byte verdict on a client name received over the wire, before
/// registration: `RESPONSE_OK` or `ERR_DATA`.
pub fn check_name(name: &[u8]) -> (r: u8)
    ensures
        r == (if wire_name_ok(name@) {
            RESPONSE_OK
        } else {
            ERR_DATA
        }),
{
    if name.len() == 0 || name[0] == NAME_RESERVED_PREFIX {
        ERR_DATA
    } else if !is_utf8(name) {
        ERR_DATA
    } else {
        RESPONSE_OK
    }
}

/// The decoded nine-byte header of an operation frame.
pub struct OpHeader {
    pub op_id: Vec<u8>,
    pub op: FrameOp,
    pub qos: QoS,
    pub len: u32,
}

/// What a nine-byte operation header means: `Ok(None)` for a ping (flags byte 0),
/// `Ok(Some(h))` for a known operation and quality of service, else
/// `Err(ERR_NOT_SUPPORTED)`.
pub open spec fn op_header_ok(b: Seq<u8>, h: OpHeader) -> bool {
    &&& h.op_id@ == b.subrange(0, 4)
    &&& op_of_code_spec(b[4] % 64) == Some(h.op)
    &&& qos_of_code_spec(b[4] / 64) == Some(h.qos)
    &&& h.len == le_u32(b[5], b[6], b[7], b[8])
}

pub open spec fn op_header_known(b: Seq<u8>) -> bool {
    op_of_code_spec(b[4] % 64) is Some && qos_of_code_spec(b[4] / 64) is Some
}

pub fn parse_op_header(buf: &[u8]) -> (r: Result<Option<OpHeader>, u8>)
    requires
        buf@.len() == 9,
    ensures
        buf@[4] == 0 ==> r is Ok && r->Ok_0 is None,
        buf@[4] != 0 && op_header_known(buf@) ==> r is Ok && r->Ok_0 is Some && op_header_ok(
            buf@,
            r->Ok_0->Some_0,
        ),
        buf@[4] != 0 && !op_header_known(buf@) ==> r == Err::<Option<OpHeader>, u8>(
            ERR_NOT_SUPPORTED,
        ),
{
    let flags = buf[4];
    if flags == 0 {
        return Ok(None);
    }
    let op = match FrameOp::from_code(flags % 64) {
        Some(op) => op,
        None => {
            return Err(ERR_NOT_SUPPORTED);
        },
    };
    let qos = match QoS::from_code(flags / 64) {
        Some(q) => q,
        None => {
            return Err(ERR_NOT_SUPPORTED);
        },
    };
    let op_id: Vec<u8> = vec![buf[0], buf[1], buf[2], buf[3]];
    assert(op_id@ =~= buf@.subrange(0, 4));
    let len = (buf[5] as u32) | ((buf[6] as u32) << 8u32) | ((buf[7] as u32) << 16u32) | ((
    buf[8] as u32) << 24u32);
    Ok(Some(OpHeader { op_id, op, qos, len }))
}

/// The acknowledgement of an operation: `OP_ACK`, the operation id, the status.
pub open spec fn ack_spec(op_id: Seq<u8>, code: u8) -> Seq<u8> {
    seq![OP_ACK] + op_id + seq![code]
}

pub fn encode_ack(op_id: &[u8], code: u8) -> (r: Vec<u8>)
    ensures
        r@ == ack_spec(op_id@, code),
{
    let mut r: Vec<u8> = Vec::new();
    r.push(OP_ACK);
    let mut i: usize = 0;
    while i < op_id.len()
        invariant
            i <= op_id@.len(),
            r@ == seq![OP_ACK] + op_id@.subrange(0, i as int),
        decreases op_id@.len() - i,
    {
        r.push(op_id[i]);
        assert(op_id@.subrange(0, i + 1) =~= op_id@.subrange(0, i as int).push(op_id@[i as int]));
        i = i + 1;
    }
    assert(op_id@.subrange(0, op_id@.len() as int) =~= op_id@);
    r.push(code);
    assert(r@ =~= ack_spec(op_id@, code));
    r
}

/// What follows the six-byte head of a routed frame: sender, `0`, for a
/// publication the topic and `0`, then header and payload.
pub open spec fn routed_rest(
    sender: Seq<u8>,
    topic: Option<Seq<u8>>,
    header: Seq<u8>,
    payload: Seq<u8>,
) -> Seq<u8> {
    sender + seq![0u8] + match topic {
        Some(t) => t + seq![0u8],
        None => Seq::<u8>::empty(),
    } + header + payload
}

/// A routed frame on the wire: kind byte, the length of the rest as a `u32`
/// little-endian (modulo 2^32), a reserved `0`, the rest.
pub open spec fn routed_spec(
    kind: FrameKind,
    sender: Seq<u8>,
    topic: Option<Seq<u8>>,
    header: Seq<u8>,
    payload: Seq<u8>,
) -> Seq<u8> {
    let rest = routed_rest(sender, topic, header, payload);
    seq![kind_byte_spec(kind)] + le_bytes((rest.len() % 0x1_0000_0000) as u32) + seq![0u8] + rest
}

fn append(v: &mut Vec<u8>, s: &[u8])
    ensures
        final(v)@ == old(v)@ + s@,
{
    let ghost v0 = v@;
    let mut i: usize = 0;
    while i < s.len()
        invariant
            i <= s@.len(),
            v@ == v0 + s@.subrange(0, i as int),
        decreases s@.len() - i,
    {
        v.push(s[i]);
        assert(s@.subrange(0, i + 1) =~= s@.subrange(0, i as int).push(s@[i as int]));
        i = i + 1;
    }
    assert(s@.subrange(0, s@.len() as int) =~= s@);
}

/// Encodes a frame for the receiving client.
pub fn encode_routed(
    kind: FrameKind,
    sender: &[u8],
    topic: Option<&[u8]>,
    header: &[u8],
    payload: &[u8],
) -> (r: Vec<u8>)
    ensures
        r@ == routed_spec(
            kind,
            sender@,
            match topic {
                Some(t) => Some(t@),
                None => None,
            },
            header@,
            payload@,
        ),
{
    let mut rest: Vec<u8> = Vec::new();
    append(&mut rest, sender);
    rest.push(0u8);
    match topic {
        Some(t) => {
            append(&mut rest, t);
            rest.push(0u8);
        },
        None => {},
    }
    append(&mut rest, header);
    append(&mut rest, payload);
    let ghost tv: Option<Seq<u8>> = match topic {
        Some(t) => Some(t@),
        None => None,
    };
    assert(rest@ =~= routed_rest(sender@, tv, header@, payload@));
    let n: u32 = (rest.len() as u64 % 0x1_0000_0000u64) as u32;
    let mut r: Vec<u8> = Vec::new();
    r.push(kind.as_byte());
    r.push((n & 0xff) as u8);
    r.push(((n >> 8u32) & 0xff) as u8);
    r.push(((n >> 16u32) & 0xff) as u8);
    r.push(((n >> 24u32) & 0xff) as u8);
    r.push(0u8);
    let ghost head = r@;
    append(&mut r, rest.as_slice());
    assert(head =~= seq![kind_byte_spec(kind)] + le_bytes(n) + seq![0u8]);
    assert(r@ =~= routed_spec(kind, sender@, tv, header@, payload@));
    r
}

/// Index of the first zero byte of `s`, or its length when there is none.
pub open spec fn index_of_zero(s: Seq<u8>) -> int
    decreases s.len(),
{
    if s.len() == 0 {
        0
    } else if s[0] == 0 {
        0
    } else {
        1 + index_of_zero(s.drop_first())
    }
}

pub proof fn lemma_index_of_zero(s: Seq<u8>, i: int)
    requires
        0 <= i <= s.len(),
        i == s.len() || s[i] == 0,
        forall|j: int| 0 <= j < i ==> s[j] != 0,
    ensures
        index_of_zero(s) == i,
    decreases s.len(),
{
    if s.len() > 0 && i > 0 {
        assert(s[0] != 0);
        let t = s.drop_first();
        assert forall|j: int| 0 <= j < i - 1 implies t[j] != 0 by {
            assert(t[j] == s[j + 1]);
        }
        lemma_index_of_zero(t, i - 1);
    }
}

/// What a routed frame decodes to: kind, sender, topic (publications only), and
/// the data after them (header and payload, which the wire does not separate).
pub open spec fn decode_spec(b: Seq<u8>) -> Option<(FrameKind, Seq<u8>, Option<Seq<u8>>, Seq<u8>)> {
    if b.len() < 6 || b[5] != 0 || le_u32(b[1], b[2], b[3], b[4]) as int != b.len() - 6 {
        None
    } else {
        match kind_of_byte_spec(b[0]) {
            None => None,
            Some(k) => {
                let rest = b.subrange(6, b.len() as int);
                let i = index_of_zero(rest);
                if i >= rest.len() {
                    None
                } else {
                    let sender = rest.subrange(0, i);
                    let after = rest.subrange(i + 1, rest.len() as int);
                    if k == FrameKind::Publish {
                        let j = index_of_zero(after);
                        if j >= after.len() {
                            None
                        } else {
                            Some(
                                (
                                    k,
                                    sender,
                                    Some(after.subrange(0, j)),
                                    after.subrange(j + 1, after.len() as int),
                                ),
                            )
                        }
                    } else {
                        Some((k, sender, None, after))
                    }
                }
            },
        }
    }
}

/// A routed frame as a receiving client reads it.
pub struct RoutedFrame {
    pub kind: FrameKind,
    pub sender: Vec<u8>,
    pub topic: Option<Vec<u8>>,
    pub data: Vec<u8>,
}

impl RoutedFrame {
    pub open spec fn view(&self) -> (FrameKind, Seq<u8>, Option<Seq<u8>>, Seq<u8>) {
        (
            self.kind,
            self.sender@,
            match self.topic {
                Some(t) => Some(t@),
                None => None,
            },
            self.data@,
        )
    }
}

/// The bytes of `b` from `lo` up to `hi`.
pub fn copy_range(b: &[u8], lo: usize, hi: usize) -> (r: Vec<u8>)
    requires
        lo <= hi <= b@.len(),
    ensures
        r@ == b@.subrange(lo as int, hi as int),
{
    let mut r: Vec<u8> = Vec::new();
    let mut i: usize = lo;
    while i < hi
        invariant
            lo <= i <= hi,
            hi <= b@.len(),
            r@ == b@.subrange(lo as int, i as int),
        decreases hi - i,
    {
        r.push(b[i]);
        assert(b@.subrange(lo as int, i + 1) =~= b@.subrange(lo as int, i as int).push(b@[i as int]));
        i = i + 1;
    }
    r
}

/// The first index from `start` on that holds a zero byte, or the length.
fn zero_from(b: &[u8], start: usize) -> (r: usize)
    requires
        start <= b@.len(),
    ensures
        start <= r <= b@.len(),
        r - start == index_of_zero(b@.subrange(start as int, b@.len() as int)),
{
    let mut i: usize = start;
    while i < b.len()
        invariant
            start <= i <= b@.len(),
            forall|j: int| start <= j < i ==> b@[j] != 0,
        ensures
            start <= i <= b@.len(),
            forall|j: int| start <= j < i ==> b@[j] != 0,
            i == b@.len() || b@[i as int] == 0,
        decreases b@.len() - i,
    {
        if b[i] == 0 {
            break;
        }
        i = i + 1;
    }
    proof {
        let s = b@.subrange(start as int, b@.len() as int);
        assert forall|j: int| 0 <= j < i - start implies s[j] != 0 by {
            assert(s[j] == b@[start + j]);
        }
        if i < b@.len() {
            assert(s[i - start] == b@[i as int]);
        }
        lemma_index_of_zero(s, i - start);
    }
    i
}

/// Decodes a routed frame.
pub fn decode_routed(buf: &[u8]) -> (r: Option<RoutedFrame>)
    ensures
        match r {
            Some(f) => decode_spec(buf@) == Some(f.view()),
            None => decode_spec(buf@) is None,
        },
{
    let n = buf.len();
    if n < 6 || buf[5] != 0 {
        return None;
    }
    let len = (buf[1] as u32) | ((buf[2] as u32) << 8u32) | ((buf[3] as u32) << 16u32) | ((
    buf[4] as u32) << 24u32);
    if len as u64 != (n - 6) as u64 {
        return None;
    }
    let kind = match FrameKind::from_byte(buf[0]) {
        Some(k) => k,
        None => {
            return None;
        },
    };
    let ghost rest = buf@.subrange(6, n as int);
    let i = zero_from(buf, 6);
    if i >= n {
        return None;
    }
    let sender = copy_range(buf, 6, i);
    assert(sender@ =~= rest.subrange(0, i - 6));
    let ghost after = rest.subrange(i - 6 + 1, rest.len() as int);
    if kind == FrameKind::Publish {
        let j = zero_from(buf, i + 1);
        assert(buf@.subrange(i + 1, n as int) =~= after);
        if j >= n {
            return None;
        }
        let topic = copy_range(buf, i + 1, j);
        let data = copy_range(buf, j + 1, n);
        assert(topic@ =~= after.subrange(0, j - (i + 1)));
        assert(data@ =~= after.subrange(j - (i + 1) + 1, after.len() as int));
        Some(RoutedFrame { kind, sender, topic: Some(topic), data })
    } else {
        let data = copy_range(buf, i + 1, n);
        assert(data@ =~= after);
        Some(RoutedFrame { kind, sender, topic: None, data })
    }
}

/// Encoding a routed frame without an extension header and decoding it gives back
/// kind, sender, topic and payload, when sender and topic hold no zero byte and
/// the frame's length fits its 32-bit length field.
pub proof fn lemma_routed_round_trip(
    kind: FrameKind,
    sender: Seq<u8>,
    topic: Option<Seq<u8>>,
    payload: Seq<u8>,
)
    requires
        kind != FrameKind::Prepared,
        (kind == FrameKind::Publish) == (topic is Some),
        forall|j: int| 0 <= j < sender.len() ==> sender[j] != 0,
        topic is Some ==> forall|j: int| 0 <= j < topic->Some_0.len() ==> topic->Some_0[j] != 0,
        routed_rest(sender, topic, Seq::empty(), payload).len() < 0x1_0000_0000,
    ensures
        decode_spec(routed_spec(kind, sender, topic, Seq::empty(), payload)) == Some(
            (kind, sender, topic, payload),
        ),
{
    let rest = routed_rest(sender, topic, Seq::empty(), payload);
    let b = routed_spec(kind, sender, topic, Seq::empty(), payload);
    let n = rest.len() as u32;
    lemma_le_round_trip(n);
    assert(b.subrange(6, b.len() as int) =~= rest);
    assert(b[5] == 0);
    assert(kind_of_byte_spec(b[0]) == Some(kind));
    lemma_index_of_zero(rest, sender.len() as int);
    assert(rest.subrange(0, sender.len() as int) =~= sender);
    let after = rest.subrange(sender.len() as int + 1, rest.len() as int);
    match topic {
        Some(t) => {
            assert(after =~= t + seq![0u8] + payload);
            lemma_index_of_zero(after, t.len() as int);
            assert(after.subrange(0, t.len() as int) =~= t);
            assert(after.subrange(t.len() as int + 1, after.len() as int) =~= payload);
        },
        None => {
            assert(after =~= payload);
        },
    }
}

} // verus!
