//! Topic names, topic filters, and wildcard matching.
//!
//! A topic is a `/`-separated list of levels. A filter may use `+` for
//! exactly one level and `#` for the remainder of the topic including the
//! parent level, so `sensors/#` matches `sensors` itself. A level that
//! starts with `$` is reserved: a filter whose first level is a wildcard
//! does not match it.
//!
//! Everything here works on the UTF-8 bytes of the strings involved; the
//! string-typed entry points convert with `str::as_bytes`.

use vstd::prelude::*;
use vstd::string::StringSliceAdditionalSpecFns;

verus! {

/// Level separator `/`.
pub const SEP: u8 = 47;

/// Single-level wildcard `+`.
pub const WILD_ONE: u8 = 43;

/// Multi-level wildcard `#`.
pub const WILD_ALL: u8 = 35;

/// Reserved-topic marker `$`.
pub const DOLLAR: u8 = 36;

/// Largest byte length of a topic or filter field on the wire.
pub const TOPIC_MAX_LEN: usize = 65535;

/// The levels of `s`, split on `/`; the empty string is one empty level.
pub open spec fn split_levels(s: Seq<u8>) -> Seq<Seq<u8>>
    decreases s.len(),
{
    if s.len() == 0 {
        seq![Seq::empty()]
    } else {
        let pre = split_levels(s.drop_last());
        if s.last() == SEP {
            pre + seq![Seq::empty()]
        } else {
            pre.update(pre.len() - 1, pre.last().push(s.last()))
        }
    }
}

/// A split always yields at least one level.
pub proof fn lemma_split_levels_nonempty(s: Seq<u8>)
    ensures
        split_levels(s).len() >= 1,
    decreases s.len(),
{
    if s.len() > 0 {
        lemma_split_levels_nonempty(s.drop_last());
    }
}

/// Filter levels against topic levels: `#` swallows the rest, `+` matches
/// any single level, and anything else must be equal.
pub open spec fn levels_match(f: Seq<Seq<u8>>, t: Seq<Seq<u8>>) -> bool
    decreases f.len(),
{
    if f.len() == 0 {
        t.len() == 0
    } else if f[0] == seq![WILD_ALL] {
        true
    } else if t.len() == 0 {
        false
    } else if f[0] == seq![WILD_ONE] || f[0] == t[0] {
        levels_match(f.skip(1), t.skip(1))
    } else {
        false
    }
}

/// Whether the filter `f` matches the topic `t`: level-wise wildcard
/// matching, except that a filter starting with a wildcard never matches a
/// reserved (`$`-prefixed) topic.
pub open spec fn topic_matches_spec(f: Seq<u8>, t: Seq<u8>) -> bool {
    if t.len() > 0 && t[0] == DOLLAR && f.len() > 0 && (f[0] == WILD_ALL || f[0] == WILD_ONE) {
        false
    } else {
        levels_match(split_levels(f), split_levels(t))
    }
}

/// A publishable topic name: non-empty, within the wire length bound, and
/// free of NUL and of the wildcard characters.
pub open spec fn valid_topic_spec(t: Seq<u8>) -> bool {
    &&& 1 <= t.len() <= TOPIC_MAX_LEN
    &&& forall|i: int| 0 <= i < t.len() ==> t[i] != 0 && t[i] != WILD_ONE && t[i] != WILD_ALL
}

/// A subscribable topic filter: non-empty, within the wire length bound,
/// free of NUL, and with every wildcard alone in its level, `#` only last.
pub open spec fn valid_filter_spec(f: Seq<u8>) -> bool {
    &&& 1 <= f.len() <= TOPIC_MAX_LEN
    &&& forall|i: int| 0 <= i < f.len() ==> f[i] != 0
    &&& wildcards_ok(split_levels(f))
}

/// Each `+` or `#` occupies a whole level, and `#` only the last one.
pub open spec fn wildcards_ok(levels: Seq<Seq<u8>>) -> bool {
    forall|i: int|
        0 <= i < levels.len() ==> {
            &&& (#[trigger] levels[i]).contains(WILD_ONE) ==> levels[i] == seq![WILD_ONE]
            &&& levels[i].contains(WILD_ALL) ==> levels[i] == seq![WILD_ALL] && i == levels.len()
                - 1
        }
}

/// The sequence of views of a vector of levels.
pub open spec fn level_views(levels: Seq<Vec<u8>>) -> Seq<Seq<u8>> {
    levels.map_values(|v: Vec<u8>| v@)
}

/// Splits `s` into its levels.
pub fn split_topic(s: &[u8]) -> (r: Vec<Vec<u8>>)
    ensures
        level_views(r@) == split_levels(s@),
        r@.len() >= 1,
{
    let mut levels: Vec<Vec<u8>> = Vec::new();
    levels.push(Vec::new());
    assert(level_views(levels@) =~= split_levels(s@.take(0)));
    let mut i: usize = 0;
    while i < s.len()
        invariant
            i <= s@.len(),
            levels@.len() >= 1,
            level_views(levels@) == split_levels(s@.take(i as int)),
        decreases s@.len() - i,
    {
        let ghost pre = levels@;
        let b: u8 = s[i];
        proof {
            assert(s@.take(i + 1).drop_last() =~= s@.take(i as int));
            assert(s@.take(i + 1).last() == s@[i as int]);
        }
        if b == SEP {
            levels.push(Vec::new());
            assert(level_views(levels@) =~= split_levels(s@.take(i as int)) + seq![
                Seq::<u8>::empty(),
            ]);
        } else {
            let mut last = levels.pop().unwrap();
            last.push(b);
            levels.push(last);
            proof {
                let spre = split_levels(s@.take(i as int));
                assert(levels@ =~= pre.update(pre.len() - 1, levels@[pre.len() - 1]));
                assert(level_views(levels@) =~= spre.update(
                    spre.len() - 1,
                    spre.last().push(b),
                ));
            }
        }
        i = i + 1;
    }
    assert(s@.take(s@.len() as int) =~= s@);
    levels
}

/// Byte-wise equality of two levels.
fn level_eq(a: &Vec<u8>, b: &Vec<u8>) -> (r: bool)
    ensures
        r == (a@ == b@),
{
    if a.len() != b.len() {
        return false;
    }
    let mut i: usize = 0;
    while i < a.len()
        invariant
            i <= a@.len(),
            a@.len() == b@.len(),
            forall|j: int| 0 <= j < i ==> a@[j] == b@[j],
        decreases a@.len() - i,
    {
        if a[i] != b[i] {
            return false;
        }
        i = i + 1;
    }
    proof {
        assert(a@ =~= b@);
    }
    true
}

/// Whether a level is exactly the one-byte wildcard `w`.
fn level_is(l: &Vec<u8>, w: u8) -> (r: bool)
    ensures
        r == (l@ == seq![w]),
{
    if l.len() == 1 && l[0] == w {
        proof {
            assert(l@ =~= seq![w]);
        }
        true
    } else {
        proof {
            if l@.len() == 1 && l@[0] == w {
                assert(l@ =~= seq![w]);
            }
        }
        false
    }
}

/// Whether the filter bytes `filter` match the topic bytes `topic`.
#[verifier::loop_isolation(false)]
pub fn topic_matches_bytes(filter: &[u8], topic: &[u8]) -> (r: bool)
    ensures
        r == topic_matches_spec(filter@, topic@),
{
    if topic.len() > 0 && filter.len() > 0 {
        let t0: u8 = topic[0];
        let f0: u8 = filter[0];
        if t0 == DOLLAR && (f0 == WILD_ALL || f0 == WILD_ONE) {
            return false;
        }
    }
    let fl = split_topic(filter);
    let tl = split_topic(topic);
    let ghost flv = level_views(fl@);
    let ghost tlv = level_views(tl@);
    proof {
        assert(flv.len() == fl@.len());
        assert(tlv.len() == tl@.len());
        assert(flv.skip(0) =~= flv);
        assert(tlv.skip(0) =~= tlv);
    }
    let mut i: usize = 0;
    loop
        invariant
            i <= fl@.len(),
            i <= tl@.len(),
            flv == level_views(fl@),
            tlv == level_views(tl@),
            flv.len() == fl@.len(),
            tlv.len() == tl@.len(),
            levels_match(flv, tlv) == levels_match(flv.skip(i as int), tlv.skip(i as int)),
        decreases fl@.len() - i,
    {
        proof {
            if i < flv.len() {
                assert(flv.skip(i as int)[0] == flv[i as int]);
                assert(flv[i as int] == fl@[i as int]@);
            }
            if i < tlv.len() {
                assert(tlv.skip(i as int)[0] == tlv[i as int]);
                assert(tlv[i as int] == tl@[i as int]@);
            }
        }
        if i >= fl.len() {
            proof {
                assert(flv.skip(i as int).len() == 0);
                assert(tlv.skip(i as int).len() == 0 <==> i == tlv.len());
            }
            return i >= tl.len();
        }
        if level_is(&fl[i], WILD_ALL) {
            return true;
        }
        if i >= tl.len() {
            return false;
        }
        if level_is(&fl[i], WILD_ONE) || level_eq(&fl[i], &tl[i]) {
            proof {
                assert(flv.skip(i as int).skip(1) =~= flv.skip(i + 1));
                assert(tlv.skip(i as int).skip(1) =~= tlv.skip(i + 1));
            }
            i = i + 1;
        } else {
            return false;
        }
    }
}

/// Whether the filter `filter` matches the topic `topic`, as a pure
/// function usable without a connection.
pub fn topic_matches(filter: &str, topic: &str) -> (r: bool)
    ensures
        r == topic_matches_spec(filter.spec_bytes(), topic.spec_bytes()),
{
    topic_matches_bytes(filter.as_bytes(), topic.as_bytes())
}

/// Checks the bytes of a topic name offered for publishing.
pub fn valid_topic_bytes(t: &[u8]) -> (r: bool)
    ensures
        r == valid_topic_spec(t@),
{
    if t.len() == 0 || t.len() > TOPIC_MAX_LEN {
        return false;
    }
    let mut i: usize = 0;
    while i < t.len()
        invariant
            i <= t@.len(),
            forall|j: int| 0 <= j < i ==> t@[j] != 0 && t@[j] != WILD_ONE && t@[j] != WILD_ALL,
        decreases t@.len() - i,
    {
        let b: u8 = t[i];
        if b == 0 || b == WILD_ONE || b == WILD_ALL {
            return false;
        }
        i = i + 1;
    }
    true
}

/// Checks the bytes of a topic filter offered for subscribing.
#[verifier::loop_isolation(false)]
pub fn valid_filter_bytes(f: &[u8]) -> (r: bool)
    ensures
        r == valid_filter_spec(f@),
{
    if f.len() == 0 || f.len() > TOPIC_MAX_LEN {
        return false;
    }
    let mut i: usize = 0;
    while i < f.len()
        invariant
            i <= f@.len(),
            forall|j: int| 0 <= j < i ==> f@[j] != 0,
        decreases f@.len() - i,
    {
        if f[i] == 0 {
            return false;
        }
        i = i + 1;
    }
    let levels = split_topic(f);
    let ghost lv = level_views(levels@);
    proof {
        assert(lv.len() == levels@.len());
    }
    let mut k: usize = 0;
    while k < levels.len()
        invariant
            k <= levels@.len(),
            lv == level_views(levels@),
            lv.len() == levels@.len(),
            forall|j: int|
                0 <= j < k ==> {
                    &&& ((#[trigger] lv[j]).contains(WILD_ONE) ==> lv[j] == seq![WILD_ONE])
                    &&& (lv[j].contains(WILD_ALL) ==> lv[j] == seq![WILD_ALL] && j == lv.len()
                        - 1)
                },
        decreases levels@.len() - k,
    {
        proof {
            assert(lv[k as int] == levels@[k as int]@);
        }
        let level = &levels[k];
        let has_one = level_contains(level, WILD_ONE);
        let has_all = level_contains(level, WILD_ALL);
        if has_one && !level_is(level, WILD_ONE) {
            return false;
        }
        if has_all && !(level_is(level, WILD_ALL) && k == levels.len() - 1) {
            return false;
        }
        k = k + 1;
    }
    true
}

/// Whether a level contains the byte `w`.
fn level_contains(l: &Vec<u8>, w: u8) -> (r: bool)
    ensures
        r == l@.contains(w),
{
    let mut i: usize = 0;
    while i < l.len()
        invariant
            i <= l@.len(),
            forall|j: int| 0 <= j < i ==> l@[j] != w,
        decreases l@.len() - i,
    {
        if l[i] == w {
            return true;
        }
        i = i + 1;
    }
    false
}

/// Checks a topic name given as a string.
pub fn validate_publish_topic(t: &str) -> (r: bool)
    ensures
        r == valid_topic_spec(t.spec_bytes()),
{
    valid_topic_bytes(t.as_bytes())
}

/// Checks a topic filter given as a string.
pub fn validate_subscribe_filter(f: &str) -> (r: bool)
    ensures
        r == valid_filter_spec(f.spec_bytes()),
{
    valid_filter_bytes(f.as_bytes())
}

} // verus!
