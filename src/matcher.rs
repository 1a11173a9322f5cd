//! The two pattern indexes, kept in submap's `SubMap` and `BroadcastMap`.
//!
//! Clients are held in both indexes by their numeric id. What each index holds is
//! named by an uninterpreted view; the wrappers below state, over that view, what
//! submap's source does on each call.
use submap::{BroadcastMap, SubMap};
use vstd::prelude::*;
use vstd::utf8::valid_utf8;
use crate::pattern::{mask_matches, topic_matches, topic_pattern_well_formed};

verus! {

#[verifier::external_type_specification]
#[verifier::external_body]
#[verifier::reject_recursive_types(C)]
pub struct ExSubMap<C>(SubMap<C>);

#[verifier::external_type_specification]
#[verifier::external_body]
#[verifier::reject_recursive_types(C)]
pub struct ExBroadcastMap<C>(BroadcastMap<C>);

/// The topic patterns that a `SubMap` records for each registered client
/// (its `subscribed_topics` table), as bytes.
pub uninterp spec fn subscription_topics(m: SubMap<u64>) -> Map<u64, Set<Seq<u8>>>;

/// Whether a `SubMap` was configured with `/` as separator, `+` as single-segment
/// and `#` as multi-segment wildcard.
pub uninterp spec fn uses_topic_syntax(m: SubMap<u64>) -> bool;

/// The name under which each client is registered in a `BroadcastMap`, as bytes.
pub uninterp spec fn broadcast_names(m: BroadcastMap<u64>) -> Map<u64, Seq<u8>>;

/// Whether a `BroadcastMap` was configured with `.` as separator, `?` as
/// single-segment and `*` as multi-segment wildcard.
pub uninterp spec fn uses_mask_syntax(m: BroadcastMap<u64>) -> bool;

/// Every recorded pattern is well formed (`#` only as the last segment). Under it
/// distinct patterns of one client occupy distinct places in submap's tree.
pub open spec fn subscriptions_well_formed(t: Map<u64, Set<Seq<u8>>>) -> bool {
    forall|c: u64, p: Seq<u8>| #[trigger]
        t.contains_key(c) && #[trigger] t[c].contains(p) ==> topic_pattern_well_formed(p)
}

/// The clients with a recorded pattern that matches `topic`.
pub open spec fn subscribers_of(t: Map<u64, Set<Seq<u8>>>, topic: Seq<u8>) -> Set<u64> {
    Set::new(
        |c: u64|
            t.contains_key(c) && exists|p: Seq<u8>| #[trigger]
                t[c].contains(p) && topic_matches(p, topic),
    )
}

/// The clients whose registered name matches `mask`.
pub open spec fn members_of(n: Map<u64, Seq<u8>>, mask: Seq<u8>) -> Set<u64> {
    Set::new(|c: u64| n.contains_key(c) && mask_matches(mask, n[c]))
}

/// Relies on `std::str::from_utf8`, which fails exactly on bytes that are not UTF-8.
#[verifier::external_body]
pub(crate) fn is_utf8(b: &[u8]) -> (r: bool)
    ensures
        r == valid_utf8(b@),
{
    std::str::from_utf8(b).is_ok()
}

/// Relies on submap's `SubMap::new`, `separator`, `match_any` and `wildcard`:
/// an empty map with the topic syntax.
#[verifier::external_body]
pub(crate) fn new_sub_map() -> (r: SubMap<u64>)
    ensures
        subscription_topics(r).dom() == Set::<u64>::empty(),
        uses_topic_syntax(r),
{
    SubMap::new().separator('/').match_any("+").wildcard("#")
}

/// Relies on submap's `SubMap::register_client`: a new client starts with no
/// patterns; a known one is left alone and `false` returned.
#[verifier::external_body]
pub(crate) fn sub_register(m: &mut SubMap<u64>, client: u64) -> (r: bool)
    ensures
        r == !subscription_topics(*old(m)).contains_key(client),
        subscription_topics(*final(m)) == (if r {
            subscription_topics(*old(m)).insert(client, Set::empty())
        } else {
            subscription_topics(*old(m))
        }),
        uses_topic_syntax(*final(m)) == uses_topic_syntax(*old(m)),
{
    m.register_client(&client)
}

/// Relies on submap's `SubMap::unregister_client`: the client and all its
/// patterns are dropped.
#[verifier::external_body]
pub(crate) fn sub_unregister(m: &mut SubMap<u64>, client: u64) -> (r: bool)
    ensures
        r == subscription_topics(*old(m)).contains_key(client),
        subscription_topics(*final(m)) == subscription_topics(*old(m)).remove(client),
        uses_topic_syntax(*final(m)) == uses_topic_syntax(*old(m)),
{
    m.unregister_client(&client)
}

/// Relies on submap's `SubMap::subscribe`: for a registered client the pattern is
/// added to its set (once); for an unknown one nothing changes and `false` comes back.
#[verifier::external_body]
pub(crate) fn sub_subscribe(m: &mut SubMap<u64>, pattern: &[u8], client: u64) -> (r: bool)
    requires
        valid_utf8(pattern@),
        topic_pattern_well_formed(pattern@),
    ensures
        r == subscription_topics(*old(m)).contains_key(client),
        subscription_topics(*final(m)) == (if r {
            subscription_topics(*old(m)).insert(
                client,
                subscription_topics(*old(m))[client].insert(pattern@),
            )
        } else {
            subscription_topics(*old(m))
        }),
        uses_topic_syntax(*final(m)) == uses_topic_syntax(*old(m)),
{
    m.subscribe(&String::from_utf8_lossy(pattern), &client)
}

/// Relies on submap's `SubMap::unsubscribe`: for a registered client the pattern
/// leaves its set; for an unknown one nothing changes and `false` comes back.
#[verifier::external_body]
pub(crate) fn sub_unsubscribe(m: &mut SubMap<u64>, pattern: &[u8], client: u64) -> (r: bool)
    requires
        valid_utf8(pattern@),
    ensures
        r == subscription_topics(*old(m)).contains_key(client),
        subscription_topics(*final(m)) == (if r {
            subscription_topics(*old(m)).insert(
                client,
                subscription_topics(*old(m))[client].remove(pattern@),
            )
        } else {
            subscription_topics(*old(m))
        }),
        uses_topic_syntax(*final(m)) == uses_topic_syntax(*old(m)),
{
    m.unsubscribe(&String::from_utf8_lossy(pattern), &client)
}

/// Relies on submap's `SubMap::get_subscribers`: the set (a `BTreeSet`, so without
/// repeats) of clients with a pattern matching the topic. submap files a client
/// in a tree under each pattern's segments, cut after the first `#`; the table
/// and the tree agree when, as `sub_subscribe` demands, every pattern ever
/// subscribed has `#` only as its last segment, so no two patterns of one client
/// share a place in the tree.
#[verifier::external_body]
pub(crate) fn sub_subscribers(m: &SubMap<u64>, topic: &[u8]) -> (r: Vec<u64>)
    requires
        valid_utf8(topic@),
        uses_topic_syntax(*m),
        subscriptions_well_formed(subscription_topics(*m)),
    ensures
        r@.no_duplicates(),
        r@.to_set() == subscribers_of(subscription_topics(*m), topic@),
{
    m.get_subscribers(&String::from_utf8_lossy(topic)).into_iter().collect()
}

/// Relies on submap's `BroadcastMap::new`, `separator`, `match_any` and
/// `wildcard`: an empty map with the mask syntax.
#[verifier::external_body]
pub(crate) fn new_broadcast_map() -> (r: BroadcastMap<u64>)
    ensures
        broadcast_names(r).dom() == Set::<u64>::empty(),
        uses_mask_syntax(r),
{
    BroadcastMap::new().separator('.').match_any("?").wildcard("*")
}

/// Relies on submap's `BroadcastMap::register_client`: the client is filed under
/// the name's segments.
#[verifier::external_body]
pub(crate) fn bc_register(m: &mut BroadcastMap<u64>, name: &[u8], client: u64)
    requires
        valid_utf8(name@),
        !broadcast_names(*old(m)).contains_key(client),
    ensures
        broadcast_names(*final(m)) == broadcast_names(*old(m)).insert(client, name@),
        uses_mask_syntax(*final(m)) == uses_mask_syntax(*old(m)),
{
    m.register_client(&String::from_utf8_lossy(name), &client)
}

/// Relies on submap's `BroadcastMap::unregister_client`: the client is taken off
/// the path of the name it was filed under.
#[verifier::external_body]
pub(crate) fn bc_unregister(m: &mut BroadcastMap<u64>, name: &[u8], client: u64)
    requires
        valid_utf8(name@),
        broadcast_names(*old(m)).contains_key(client) ==> broadcast_names(*old(m))[client]
            == name@,
    ensures
        broadcast_names(*final(m)) == broadcast_names(*old(m)).remove(client),
        uses_mask_syntax(*final(m)) == uses_mask_syntax(*old(m)),
{
    m.unregister_client(&String::from_utf8_lossy(name), &client)
}

/// Relies on submap's `BroadcastMap::get_clients_by_mask`: the set (a `BTreeSet`,
/// so without repeats) of clients whose name matches the mask.
#[verifier::external_body]
pub(crate) fn bc_members(m: &BroadcastMap<u64>, mask: &[u8]) -> (r: Vec<u64>)
    requires
        valid_utf8(mask@),
        uses_mask_syntax(*m),
    ensures
        r@.no_duplicates(),
        r@.to_set() == members_of(broadcast_names(*m), mask@),
{
    m.get_clients_by_mask(&String::from_utf8_lossy(mask)).into_iter().collect()
}

} // verus!
