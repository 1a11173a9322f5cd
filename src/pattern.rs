//! Segment splitting and the two wildcard languages: topic patterns
//! (`/`, `+`, `#`) and broadcast masks (`.`, `?`, `*`).
use vstd::prelude::*;

verus! {

pub const TOPIC_SEPARATOR: u8 = 0x2F;

pub const TOPIC_MATCH_ANY: u8 = 0x2B;

pub const TOPIC_WILDCARD: u8 = 0x23;

pub const MASK_SEPARATOR: u8 = 0x2E;

pub const MASK_MATCH_ANY: u8 = 0x3F;

pub const MASK_WILDCARD: u8 = 0x2A;

/// The pieces of `s` between occurrences of `sep`; never empty (`""` gives `[""]`).
pub open spec fn split_on(s: Seq<u8>, sep: u8) -> Seq<Seq<u8>>
    decreases s.len(),
{
    if s.len() == 0 {
        seq![Seq::<u8>::empty()]
    } else {
        let r = split_on(s.drop_last(), sep);
        if s.last() == sep {
            r.push(Seq::<u8>::empty())
        } else {
            r.update(r.len() - 1, r.last().push(s.last()))
        }
    }
}

pub proof fn lemma_split_nonempty(s: Seq<u8>, sep: u8)
    ensures
        split_on(s, sep).len() >= 1,
    decreases s.len(),
{
    if s.len() > 0 {
        lemma_split_nonempty(s.drop_last(), sep);
    }
}

pub proof fn lemma_split_avoids(s: Seq<u8>, sep: u8, b: u8)
    requires
        forall|j: int| 0 <= j < s.len() ==> s[j] != b,
    ensures
        forall|i: int, k: int|
            0 <= i < split_on(s, sep).len() && 0 <= k < split_on(s, sep)[i].len()
                ==> split_on(s, sep)[i][k] != b,
    decreases s.len(),
{
    if s.len() > 0 {
        let t = s.drop_last();
        lemma_split_avoids(t, sep, b);
        lemma_split_nonempty(t, sep);
        let r = split_on(t, sep);
        assert(s.last() != b);
        if s.last() != sep {
            let l = r.last().push(s.last());
            assert forall|k: int| 0 <= k < l.len() implies l[k] != b by {
                if k < l.len() - 1 {
                    assert(l[k] == r[r.len() - 1][k]);
                }
            }
        }
    }
}

/// A pattern without any `#` byte is well formed.
pub proof fn lemma_no_wildcard_well_formed(p: Seq<u8>)
    requires
        forall|j: int| 0 <= j < p.len() ==> p[j] != TOPIC_WILDCARD,
    ensures
        topic_pattern_well_formed(p),
{
    lemma_split_avoids(p, TOPIC_SEPARATOR, TOPIC_WILDCARD);
    let s = split_on(p, TOPIC_SEPARATOR);
    assert forall|i: int| 0 <= i < s.len() - 1 implies s[i] != seq![TOPIC_WILDCARD] by {
        if s[i] == seq![TOPIC_WILDCARD] {
            assert(s[i][0] == TOPIC_WILDCARD);
        }
    }
}

/// Topic pattern segments `p` against concrete topic segments `t`: `+` takes one
/// segment, `#` takes one or more remaining segments. A trailing `#` does not
/// match the empty rest (`room/#` does not match `room`): that is how submap's
/// index matches, and the broker delivers through that index.
pub open spec fn segs_match_topic(p: Seq<Seq<u8>>, t: Seq<Seq<u8>>) -> bool
    decreases p.len(),
{
    if t.len() == 0 {
        p.len() == 0
    } else if p.len() == 0 {
        false
    } else if p[0] == seq![TOPIC_WILDCARD] {
        true
    } else if p[0] == seq![TOPIC_MATCH_ANY] || p[0] == t[0] {
        segs_match_topic(p.drop_first(), t.drop_first())
    } else {
        false
    }
}

/// Broadcast mask segments `m` against the segments `n` of a client name: `?` takes
/// one segment, `*` takes one or more remaining segments and ends the mask (what
/// follows it is not read). As for topics, a trailing `*` does not match an
/// empty rest, following submap's index.
pub open spec fn segs_match_mask(m: Seq<Seq<u8>>, n: Seq<Seq<u8>>) -> bool
    decreases m.len(),
{
    if m.len() == 0 {
        n.len() == 0
    } else if m[0] == seq![MASK_WILDCARD] {
        n.len() > 0
    } else if n.len() == 0 {
        false
    } else if m[0] == seq![MASK_MATCH_ANY] || m[0] == n[0] {
        segs_match_mask(m.drop_first(), n.drop_first())
    } else {
        false
    }
}

pub open spec fn topic_matches(pattern: Seq<u8>, topic: Seq<u8>) -> bool {
    segs_match_topic(split_on(pattern, TOPIC_SEPARATOR), split_on(topic, TOPIC_SEPARATOR))
}

pub open spec fn mask_matches(mask: Seq<u8>, name: Seq<u8>) -> bool {
    segs_match_mask(split_on(mask, MASK_SEPARATOR), split_on(name, MASK_SEPARATOR))
}

/// A topic pattern is well formed when `#` stands, if anywhere, as its last segment.
pub open spec fn topic_pattern_well_formed(pattern: Seq<u8>) -> bool {
    let s = split_on(pattern, TOPIC_SEPARATOR);
    forall|i: int| 0 <= i < s.len() - 1 ==> s[i] != seq![TOPIC_WILDCARD]
}

pub open spec fn views_of(v: Seq<Vec<u8>>) -> Seq<Seq<u8>> {
    v.map_values(|x: Vec<u8>| x@)
}

/// Splits `s` at every `sep` byte.
pub fn split_bytes(s: &[u8], sep: u8) -> (r: Vec<Vec<u8>>)
    ensures
        views_of(r@) == split_on(s@, sep),
{
    let mut acc: Vec<Vec<u8>> = Vec::new();
    let mut cur: Vec<u8> = Vec::new();
    let mut i: usize = 0;
    while i < s.len()
        invariant
            i <= s@.len(),
            split_on(s@.subrange(0, i as int), sep) == views_of(acc@).push(cur@),
        decreases s@.len() - i,
    {
        let ghost prev = s@.subrange(0, i as int);
        let ghost next = s@.subrange(0, i + 1);
        assert(next.drop_last() == prev);
        assert(next.last() == s@[i as int]);
        if s[i] == sep {
            let ghost acc0 = views_of(acc@);
            let ghost cur0 = cur@;
            acc.push(cur);
            cur = Vec::new();
            assert(views_of(acc@) =~= acc0.push(cur0));
            assert(split_on(next, sep) =~= views_of(acc@).push(cur@));
        } else {
            cur.push(s[i]);
            assert(split_on(next, sep) =~= views_of(acc@).push(cur@));
        }
        i = i + 1;
    }
    assert(s@.subrange(0, s@.len() as int) == s@);
    let ghost acc0 = views_of(acc@);
    let ghost cur0 = cur@;
    acc.push(cur);
    assert(views_of(acc@) =~= acc0.push(cur0));
    acc
}

/// Whether `pattern` is a well-formed topic pattern.
pub fn is_valid_topic_pattern(pattern: &[u8]) -> (r: bool)
    ensures
        r == topic_pattern_well_formed(pattern@),
{
    let segs = split_bytes(pattern, TOPIC_SEPARATOR);
    proof {
        lemma_split_nonempty(pattern@, TOPIC_SEPARATOR);
    }
    let ghost s = split_on(pattern@, TOPIC_SEPARATOR);
    assert(segs@.len() == s.len());
    let n: usize = segs.len();
    let mut i: usize = 0;
    while i < n - 1
        invariant
            views_of(segs@) == s,
            s == split_on(pattern@, TOPIC_SEPARATOR),
            n == segs@.len(),
            s.len() >= 1,
            i < n,
            forall|j: int| 0 <= j < i ==> s[j] != seq![TOPIC_WILDCARD],
        decreases segs@.len() - i,
    {
        let seg = &segs[i];
        assert(seg@ == s[i as int]);
        if seg.len() == 1 && seg[0] == TOPIC_WILDCARD {
            assert(s[i as int] =~= seq![TOPIC_WILDCARD]);
            return false;
        }
        assert(s[i as int] != seq![TOPIC_WILDCARD]) by {
            if s[i as int] == seq![TOPIC_WILDCARD] {
                assert(seg@.len() == 1 && seg@[0] == TOPIC_WILDCARD);
            }
        }
        i = i + 1;
    }
    true
}

/// The index of the first `b` in `s`, if there is one.
pub fn find_byte(s: &[u8], b: u8) -> (r: Option<usize>)
    ensures
        match r {
            Some(i) => i < s@.len() && s@[i as int] == b && forall|j: int|
                0 <= j < i ==> s@[j] != b,
            None => forall|j: int| 0 <= j < s@.len() ==> s@[j] != b,
        },
{
    let mut i: usize = 0;
    while i < s.len()
        invariant
            i <= s@.len(),
            forall|j: int| 0 <= j < i ==> s@[j] != b,
        decreases s@.len() - i,
    {
        if s[i] == b {
            return Some(i);
        }
        i = i + 1;
    }
    None
}

} // verus!
