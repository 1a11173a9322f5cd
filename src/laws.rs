//! Properties of the routing tables that hold across operations.
use vstd::prelude::*;
use vstd::utf8::valid_utf8;
use crate::broker::{routed_frame_ok, subscribe_step, unsubscribe_step, warn_topic, FrameData};
use crate::codec::{decode_spec, lemma_routed_round_trip, routed_rest};
use crate::proto::FrameKind;
use crate::matcher::subscribers_of;
use crate::pattern::{segs_match_topic, split_on, topic_matches, topic_pattern_well_formed, TOPIC_SEPARATOR};
use crate::peer::subscribe_all;

verus! {

proof fn lemma_segs_match_self(s: Seq<Seq<u8>>)
    ensures
        segs_match_topic(s, s),
    decreases s.len(),
{
    if s.len() > 0 {
        lemma_segs_match_self(s.drop_first());
    }
}

/// Every topic matches itself read as a pattern.
pub proof fn lemma_topic_matches_itself(t: Seq<u8>)
    ensures
        topic_matches(t, t),
{
    lemma_segs_match_self(split_on(t, TOPIC_SEPARATOR));
}

/// A client holding a pattern that matches a topic is among that topic's
/// subscribers; a recipient list without repeats whose set is the subscribers
/// then names it exactly once.
pub proof fn lemma_subscriber_receives_once(
    t: Map<u64, Set<Seq<u8>>>,
    c: u64,
    p: Seq<u8>,
    topic: Seq<u8>,
    recipients: Seq<u64>,
)
    requires
        t.contains_key(c),
        t[c].contains(p),
        topic_matches(p, topic),
        recipients.no_duplicates(),
        recipients.to_set() == subscribers_of(t, topic),
    ensures
        subscribers_of(t, topic).contains(c),
        exists|i: int| 0 <= i < recipients.len() && recipients[i] == c,
        forall|i: int, j: int|
            0 <= i < recipients.len() && 0 <= j < recipients.len() && recipients[i] == c
                && recipients[j] == c ==> i == j,
{
    assert(subscribers_of(t, topic).contains(c));
    assert(recipients.to_set().contains(c));
}

/// Right after registration (topics of `c` set to `.broker/warn` alone) the client
/// is a subscriber of `.broker/warn`.
pub proof fn lemma_registered_hears_warnings(t: Map<u64, Set<Seq<u8>>>, c: u64)
    ensures
        subscribers_of(t.insert(c, set![warn_topic()]), warn_topic()).contains(c),
{
    let t2 = t.insert(c, set![warn_topic()]);
    lemma_topic_matches_itself(warn_topic());
    assert(t2[c].contains(warn_topic()));
}

proof fn lemma_repeat_subscribe(t: Map<u64, Set<Seq<u8>>>, c: u64, p: Seq<u8>, n: nat)
    requires
        valid_utf8(p),
        topic_pattern_well_formed(p),
        t.contains_key(c),
        t[c].contains(p),
    ensures
        subscribe_all(t, c, Seq::new(n, |i: int| p)) == (t, Ok::<(), u8>(())),
    decreases n,
{
    if n > 0 {
        let ps = Seq::new(n, |i: int| p);
        assert(t[c].insert(p) =~= t[c]);
        assert(t.insert(c, t[c].insert(p)) =~= t);
        assert(ps.drop_first() =~= Seq::new((n - 1) as nat, |i: int| p));
        lemma_repeat_subscribe(t, c, p, (n - 1) as nat);
    }
}

/// Subscribing to one pattern any number of times and unsubscribing once leaves
/// the client without that pattern.
pub proof fn lemma_subscribe_idempotent(t: Map<u64, Set<Seq<u8>>>, c: u64, p: Seq<u8>, n: nat)
    requires
        valid_utf8(p),
        t.contains_key(c),
    ensures
        ({
            let after = unsubscribe_step(subscribe_all(t, c, Seq::new(n, |i: int| p)).0, c, p).0;
            !(after.contains_key(c) && after[c].contains(p))
        }),
{
    let ps = Seq::new(n, |i: int| p);
    if n > 0 && topic_pattern_well_formed(p) {
        let t1 = t.insert(c, t[c].insert(p));
        assert(ps.drop_first() =~= Seq::new((n - 1) as nat, |i: int| p));
        lemma_repeat_subscribe(t1, c, p, (n - 1) as nat);
    } else if n > 0 {
        assert(subscribe_step(t, c, ps[0]).1 is Err);
    }
}

/// A directed message frame reaches its receiver with the sender's name and the
/// payload byte for byte: its wire form decodes to exactly those, when the name
/// holds no zero byte and the frame's length fits its 32-bit length field.
pub proof fn lemma_message_delivered_intact(
    f: FrameData,
    sender: Seq<u8>,
    body: Seq<u8>,
    pos: usize,
)
    requires
        routed_frame_ok(f, FrameKind::Message, sender, None, None, body, pos),
        pos <= body.len(),
        forall|j: int| 0 <= j < sender.len() ==> sender[j] != 0,
        routed_rest(sender, None, Seq::empty(), f.payload_spec()).len() < 0x1_0000_0000,
    ensures
        f.payload_spec() == body.subrange(pos as int, body.len() as int),
        decode_spec(f.wire_spec()) == Some((FrameKind::Message, sender, None::<Seq<u8>>, f.payload_spec())),
{
    lemma_routed_round_trip(FrameKind::Message, sender, None, f.payload_spec());
}

} // verus!
