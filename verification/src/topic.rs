//! MQTT topic string validation and matching.
//!
//! Topics use `/` as a level separator.  Two wildcard characters exist for
//! subscriptions only: `+` matches exactly one level and `#` matches the rest
//! of a topic (it must be the last level).  Shared subscription filters have
//! the form `$share/{ShareName}/{Filter}`.
//!
//! All rules are stated over the UTF-8 bytes of a string.  Every character
//! the rules mention is ASCII, and in UTF-8 an ASCII byte only ever encodes
//! that ASCII character, so a rule on bytes is the same rule on characters.

use crate::error::Error;
use vstd::prelude::*;
use vstd::string::*;
use vstd::utf8::*;

verus! {

/// Maximum topic or filter length allowed on the wire (UTF-8 bytes).
pub const MAX_TOPIC_LEN: usize = 65_535;

/// The level separator `/`.
pub const SLASH: u8 = 0x2F;

/// The single-level wildcard `+`.
pub const PLUS: u8 = 0x2B;

/// The multi-level wildcard `#`.
pub const HASH: u8 = 0x23;

/// The null character.
pub const NUL: u8 = 0x00;

/// The `$` that starts system topics.
pub const DOLLAR: u8 = 0x24;

// ── Specification ────────────────────────────────────────────────────────────

/// The levels of a topic: the byte strings between the separators, in order.
/// An empty string has one empty level; `a/` has the levels `a` and ``.
pub open spec fn split_levels(s: Seq<u8>) -> Seq<Seq<u8>>
    decreases s.len(),
{
    if s.len() == 0 {
        seq![Seq::<u8>::empty()]
    } else {
        let prev = split_levels(s.drop_last());
        if s.last() == SLASH {
            prev.push(Seq::<u8>::empty())
        } else {
            prev.update(prev.len() - 1, prev.last().push(s.last()))
        }
    }
}

/// The level that consists of one `#`.
pub open spec fn hash_level() -> Seq<u8> {
    seq![HASH]
}

/// The level that consists of one `+`.
pub open spec fn plus_level() -> Seq<u8> {
    seq![PLUS]
}

/// Whether the filter levels `f` match the topic levels `t`: `#` matches any
/// rest (none included), `+` matches exactly one level, any other level
/// matches only itself.
pub open spec fn match_levels(f: Seq<Seq<u8>>, t: Seq<Seq<u8>>) -> bool
    decreases f.len(),
{
    if f.len() == 0 {
        t.len() == 0
    } else if f[0] == hash_level() {
        true
    } else if t.len() == 0 {
        false
    } else if f[0] == plus_level() || f[0] == t[0] {
        match_levels(f.drop_first(), t.drop_first())
    } else {
        false
    }
}

/// Whether a string starts with `$` (a system topic).
pub open spec fn starts_with_dollar(s: Seq<u8>) -> bool {
    s.len() > 0 && s[0] == DOLLAR
}

/// Whether the filter matches the topic.  A topic that starts with `$` is
/// matched only by a filter that starts with `$` too.
pub open spec fn spec_topic_matches(filter: Seq<u8>, topic: Seq<u8>) -> bool {
    if starts_with_dollar(topic) && !starts_with_dollar(filter) {
        false
    } else {
        match_levels(split_levels(filter), split_levels(topic))
    }
}

/// A valid publish topic: not empty, at most [`MAX_TOPIC_LEN`] bytes, and
/// free of `+`, `#` and the null character.
pub open spec fn valid_publish_topic(t: Seq<u8>) -> bool {
    &&& t.len() > 0
    &&& t.len() <= MAX_TOPIC_LEN
    &&& forall|i: int| 0 <= i < t.len() ==> t[i] != PLUS && t[i] != HASH && t[i] != NUL
}

/// One level of a filter is well formed: no null character, `#` only as a
/// whole level and only as the last one, `+` only as a whole level.
pub open spec fn valid_filter_level(l: Seq<u8>, is_last: bool) -> bool {
    &&& !l.contains(NUL)
    &&& l.contains(HASH) ==> (l == hash_level() && is_last)
    &&& l.contains(PLUS) ==> l == plus_level()
}

/// Every level of a filter is well formed.
pub open spec fn valid_filter_levels(levels: Seq<Seq<u8>>) -> bool {
    forall|i: int|
        0 <= i < levels.len() ==> valid_filter_level(#[trigger] levels[i], i == levels.len() - 1)
}

/// The bytes of `$share/`.
pub open spec fn share_prefix() -> Seq<u8> {
    seq![0x24u8, 0x73u8, 0x68u8, 0x61u8, 0x72u8, 0x65u8, 0x2Fu8]
}

/// Whether a filter starts with `$share/`.
pub open spec fn has_share_prefix(s: Seq<u8>) -> bool {
    s.len() >= 7 && s.take(7) == share_prefix()
}

/// `i` is the position of the first `/` in `s`.
pub open spec fn is_first_slash(s: Seq<u8>, i: int) -> bool {
    &&& 0 <= i < s.len()
    &&& s[i] == SLASH
    &&& forall|j: int| 0 <= j < i ==> s[j] != SLASH
}

/// The position of the first `/` in `s`, if there is one.
pub open spec fn first_slash(s: Seq<u8>) -> Option<int> {
    if exists|i: int| is_first_slash(s, i) {
        Some(choose|i: int| is_first_slash(s, i))
    } else {
        None
    }
}

/// The share name and the bare filter of `$share/{name}/{filter}`; `None`
/// when the filter lacks the prefix or the `/` after the name.
pub open spec fn shared_parts(s: Seq<u8>) -> Option<(Seq<u8>, Seq<u8>)> {
    if !has_share_prefix(s) {
        None
    } else {
        let rest = s.skip(7);
        match first_slash(rest) {
            Some(k) => Some((rest.take(k), rest.skip(k + 1))),
            None => None,
        }
    }
}

/// A share name is non-empty and free of `+` and `#` (it holds no `/` by
/// construction).
pub open spec fn valid_share_name(name: Seq<u8>) -> bool {
    name.len() > 0 && !name.contains(PLUS) && !name.contains(HASH) && !name.contains(SLASH)
}

/// A valid subscription filter: not empty, at most [`MAX_TOPIC_LEN`] bytes;
/// a shared filter needs a valid share name and a valid, non-empty bare
/// filter (it is treated as a regular filter), any
/// other filter must itself have well-formed levels.
pub open spec fn valid_subscription_filter(f: Seq<u8>) -> bool {
    &&& f.len() > 0
    &&& f.len() <= MAX_TOPIC_LEN
    &&& if has_share_prefix(f) {
        match shared_parts(f) {
            Some((name, bare)) => valid_share_name(name) && bare.len() > 0 && valid_filter_levels(
                split_levels(bare),
            ),
            None => false,
        }
    } else {
        valid_filter_levels(split_levels(f))
    }
}

// ── Lemmas ───────────────────────────────────────────────────────────────────

/// A string always has at least one level.
pub proof fn lemma_split_levels_nonempty(s: Seq<u8>)
    ensures
        split_levels(s).len() >= 1,
    decreases s.len(),
{
    if s.len() > 0 {
        lemma_split_levels_nonempty(s.drop_last());
    }
}

proof fn lemma_first_slash_unique(s: Seq<u8>, i: int)
    requires
        is_first_slash(s, i),
    ensures
        first_slash(s) == Some(i),
{
    let j = choose|j: int| is_first_slash(s, j);
    assert(is_first_slash(s, j));
    if j < i {
        assert(s[j] != SLASH);
    } else if i < j {
        assert(s[i] != SLASH);
    }
}

proof fn lemma_no_slash(s: Seq<u8>)
    requires
        forall|j: int| 0 <= j < s.len() ==> s[j] != SLASH,
    ensures
        first_slash(s) is None,
{
    if exists|i: int| is_first_slash(s, i) {
        let i = choose|i: int| is_first_slash(s, i);
        assert(s[i] == SLASH);
    }
}

/// A position that holds an ASCII byte, or the end, is a character boundary.
proof fn lemma_ascii_boundary(s: &str, mid: int)
    requires
        0 <= mid <= s.spec_bytes().len(),
        mid == s.spec_bytes().len() || s.spec_bytes()[mid] < 128,
    ensures
        is_char_boundary(s.spec_bytes(), mid),
{
    encode_utf8_valid_utf8(s@);
    if mid == s.spec_bytes().len() {
        is_char_boundary_start_end_of_seq(s.spec_bytes());
    } else {
        is_char_boundary_iff_not_is_continuation_byte(s.spec_bytes(), mid);
    }
}

// ── Executable helpers ───────────────────────────────────────────────────────

/// Split a string at a byte position that holds an ASCII byte (or the end).
fn split_at_ascii(s: &str, mid: usize) -> (r: (&str, &str))
    requires
        mid <= s.spec_bytes().len(),
        mid == s.spec_bytes().len() || s.spec_bytes()[mid as int] < 128,
    ensures
        r.0.spec_bytes() == s.spec_bytes().subrange(0, mid as int),
        r.1.spec_bytes() == s.spec_bytes().subrange(mid as int, s.spec_bytes().len() as int),
{
    proof {
        lemma_ascii_boundary(s, mid as int);
    }
    s.split_at(mid)
}

/// Drop the first character of a string whose first byte is ASCII.
fn drop_ascii_head(s: &str) -> (r: &str)
    requires
        s.spec_bytes().len() >= 1,
        s.spec_bytes()[0] < 128,
    ensures
        r.spec_bytes() == s.spec_bytes().skip(1),
{
    proof {
        let b = s.spec_bytes();
        encode_utf8_valid_utf8(s@);
        reveal_with_fuel(is_char_boundary, 2);
        assert(length_of_first_scalar(b) == 1);
        assert(is_char_boundary(b, 1));
    }
    let (_, rest) = s.split_at(1);
    assert(rest.spec_bytes() =~= s.spec_bytes().skip(1));
    rest
}

/// Whether two byte strings are equal.
pub fn bytes_eq(a: &[u8], b: &[u8]) -> (r: bool)
    ensures
        r == (a@ == b@),
{
    if a.len() != b.len() {
        return false;
    }
    let mut i: usize = 0;
    while i < a.len()
        invariant
            a@.len() == b@.len(),
            i <= a@.len(),
            forall|j: int| 0 <= j < i ==> a@[j] == b@[j],
        decreases a@.len() - i,
    {
        if a[i] != b[i] {
            return false;
        }
        i = i + 1;
    }
    assert(a@ =~= b@);
    true
}

/// Two strings with the same UTF-8 bytes are the same string.
pub proof fn lemma_utf8_injective(a: Seq<char>, b: Seq<char>)
    requires
        encode_utf8(a) == encode_utf8(b),
    ensures
        a == b,
{
    encode_utf8_decode_utf8(a);
    encode_utf8_decode_utf8(b);
}

/// Whether two strings are equal, compared by their UTF-8 bytes.
pub fn str_eq(a: &str, b: &str) -> (r: bool)
    ensures
        r == (a@ == b@),
{
    let r = bytes_eq(a.as_bytes(), b.as_bytes());
    proof {
        if r {
            lemma_utf8_injective(a@, b@);
        }
    }
    r
}

/// Whether a byte string contains a byte.
fn contains_byte(s: &[u8], x: u8) -> (r: bool)
    ensures
        r == s@.contains(x),
{
    let mut i: usize = 0;
    while i < s.len()
        invariant
            i <= s@.len(),
            forall|j: int| 0 <= j < i ==> s@[j] != x,
        decreases s@.len() - i,
    {
        if s[i] == x {
            assert(s@[i as int] == x);
            return true;
        }
        i = i + 1;
    }
    false
}

/// The position of the first `/` in a byte string.
fn find_slash(s: &[u8]) -> (r: Option<usize>)
    ensures
        match r {
            Some(i) => first_slash(s@) == Some(i as int),
            None => first_slash(s@) is None,
        },
{
    let mut i: usize = 0;
    while i < s.len()
        invariant
            i <= s@.len(),
            forall|j: int| 0 <= j < i ==> s@[j] != SLASH,
        decreases s@.len() - i,
    {
        if s[i] == SLASH {
            proof {
                lemma_first_slash_unique(s@, i as int);
            }
            return Some(i);
        }
        i = i + 1;
    }
    proof {
        lemma_no_slash(s@);
    }
    None
}

/// The views of a sequence of byte vectors.
pub open spec fn level_views(v: Seq<Vec<u8>>) -> Seq<Seq<u8>> {
    v.map_values(|x: Vec<u8>| x@)
}

/// Split a byte string into its levels.
pub fn split_levels_exec(s: &[u8]) -> (r: Vec<Vec<u8>>)
    ensures
        level_views(r@) == split_levels(s@),
{
    let mut done: Vec<Vec<u8>> = Vec::new();
    let mut cur: Vec<u8> = Vec::new();
    let mut i: usize = 0;
    assert(s@.take(0) =~= Seq::<u8>::empty());
    while i < s.len()
        invariant
            i <= s@.len(),
            level_views(done@).push(cur@) == split_levels(s@.take(i as int)),
        decreases s@.len() - i,
    {
        let b = s[i];
        proof {
            assert(s@.take(i + 1).drop_last() =~= s@.take(i as int));
            assert(s@.take(i + 1).last() == b);
        }
        if b == SLASH {
            let ghost old_done = level_views(done@);
            let ghost old_cur = cur@;
            done.push(cur);
            cur = Vec::new();
            proof {
                assert(level_views(done@) =~= old_done.push(old_cur));
                assert(level_views(done@).push(cur@) =~= old_done.push(old_cur).push(
                    Seq::<u8>::empty(),
                ));
            }
        } else {
            let ghost prev = level_views(done@).push(cur@);
            cur.push(b);
            proof {
                assert(level_views(done@).push(cur@) =~= prev.update(
                    prev.len() - 1,
                    prev.last().push(b),
                ));
            }
        }
        i = i + 1;
    }
    assert(s@.take(s@.len() as int) =~= s@);
    let ghost before = level_views(done@);
    let ghost last = cur@;
    done.push(cur);
    assert(level_views(done@) =~= before.push(last));
    done
}

/// Whether a level is exactly one given byte.
pub(crate) fn is_single(l: &Vec<u8>, x: u8) -> (r: bool)
    ensures
        r == (l@ == seq![x]),
{
    if l.len() == 1 && l[0] == x {
        assert(l@ =~= seq![x]);
        true
    } else {
        false
    }
}

/// An `InvalidTopic` error with the given message.
fn invalid_topic(msg: &str) -> (e: Error)
    ensures
        e matches Error::InvalidTopic(m) && m@ == msg@,
{
    Error::InvalidTopic(msg.to_owned())
}

// ── The messages of refused topics and filters ─────────────────────────────

/// A byte a publish topic must not hold.
pub open spec fn bad_topic_byte(c: u8) -> bool {
    c == PLUS || c == HASH || c == NUL
}

/// The position of the first byte a publish topic must not hold.
pub open spec fn first_bad_byte(t: Seq<u8>) -> int {
    choose|i: int|
        0 <= i < t.len() && bad_topic_byte(t[i]) && forall|j: int| 0 <= j < i ==> !bad_topic_byte(#[trigger] t[j])
}

/// The message a refused publish topic gets: for the first rule it breaks,
/// in the order empty, too long, then its first `+`, `#` or null byte.
pub open spec fn publish_topic_message(t: Seq<u8>) -> Seq<char> {
    if t.len() == 0 {
        "topic must not be empty"@
    } else if t.len() > MAX_TOPIC_LEN {
        "topic exceeds maximum length of 65535 bytes"@
    } else if t[first_bad_byte(t)] == PLUS {
        "publish topic must not contain wildcard '+'"@
    } else if t[first_bad_byte(t)] == HASH {
        "publish topic must not contain wildcard '#'"@
    } else {
        "topic must not contain null character"@
    }
}

/// The message for the first rule a filter level breaks, if any: a null
/// character, `#` not alone in its level, `#` not last, `+` not alone.
pub open spec fn level_message(l: Seq<u8>, is_last: bool) -> Option<Seq<char>> {
    if l.contains(NUL) {
        Some("topic filter must not contain null character"@)
    } else if l.contains(HASH) && l != hash_level() {
        Some("'#' must occupy an entire level by itself"@)
    } else if l.contains(HASH) && !is_last {
        Some("'#' must be the last level in a topic filter"@)
    } else if l.contains(PLUS) && l != plus_level() {
        Some("'+' must occupy an entire level by itself"@)
    } else {
        None
    }
}

/// The position of the first level that breaks a rule.
pub open spec fn first_bad_level(lv: Seq<Seq<u8>>) -> int {
    choose|i: int|
        0 <= i < lv.len() && level_message(lv[i], i == lv.len() - 1) is Some && forall|j: int|
            0 <= j < i ==> level_message(#[trigger] lv[j], j == lv.len() - 1) is None
}

/// The message of the first level of a filter that breaks a rule.
pub open spec fn levels_message(lv: Seq<Seq<u8>>) -> Seq<char> {
    level_message(lv[first_bad_level(lv)], first_bad_level(lv) == lv.len() - 1)->0
}

/// The message a refused subscription filter gets: for the first rule it
/// breaks, in the order empty, too long, then for `$share/` the form, the
/// share name and an empty bare filter, then the levels in order.
pub open spec fn filter_message(f: Seq<u8>) -> Seq<char> {
    if f.len() == 0 {
        "topic filter must not be empty"@
    } else if f.len() > MAX_TOPIC_LEN {
        "topic filter exceeds maximum length of 65535 bytes"@
    } else if has_share_prefix(f) {
        match shared_parts(f) {
            None => "shared subscription filter must be '$share/{name}/{filter}'"@,
            Some((name, bare)) => if name.len() == 0 {
                "share name in '$share/{name}/...' must not be empty"@
            } else if !valid_share_name(name) {
                "share name must not contain '+', '#', or '/'"@
            } else if bare.len() == 0 {
                "topic filter must not be empty"@
            } else {
                levels_message(split_levels(bare))
            },
        }
    } else {
        levels_message(split_levels(f))
    }
}

proof fn lemma_first_bad_byte(t: Seq<u8>, i: int)
    requires
        0 <= i < t.len(),
        bad_topic_byte(t[i]),
        forall|j: int| 0 <= j < i ==> !bad_topic_byte(#[trigger] t[j]),
    ensures
        first_bad_byte(t) == i,
{
    let k = first_bad_byte(t);
    assert(0 <= k < t.len() && bad_topic_byte(t[k]));
    if k < i {
        assert(!bad_topic_byte(t[k]));
    }
    if i < k {
        assert(!bad_topic_byte(t[i]));
    }
}

proof fn lemma_first_bad_level(lv: Seq<Seq<u8>>, i: int)
    requires
        0 <= i < lv.len(),
        level_message(lv[i], i == lv.len() - 1) is Some,
        forall|j: int| 0 <= j < i ==> level_message(#[trigger] lv[j], j == lv.len() - 1) is None,
    ensures
        first_bad_level(lv) == i,
        levels_message(lv) == level_message(lv[i], i == lv.len() - 1)->0,
{
    let k = first_bad_level(lv);
    assert(0 <= k < lv.len() && level_message(lv[k], k == lv.len() - 1) is Some);
    if k < i {
        assert(level_message(lv[k], k == lv.len() - 1) is None);
    }
    if i < k {
        assert(level_message(lv[i], i == lv.len() - 1) is None);
    }
}

// ── Public validators ────────────────────────────────────────────────────────

/// Validate a publish topic: it must not be empty, must not exceed
/// [`MAX_TOPIC_LEN`] bytes and must not contain `+`, `#` or a null character.
pub fn validate_publish_topic(topic: &str) -> (r: Result<(), Error>)
    ensures
        r is Ok <==> valid_publish_topic(topic.spec_bytes()),
        r matches Err(e) ==> e matches Error::InvalidTopic(m) && m@ == publish_topic_message(topic.spec_bytes()),
{
    let b = topic.as_bytes();
    if b.len() == 0 {
        return Err(invalid_topic("topic must not be empty"));
    }
    if b.len() > MAX_TOPIC_LEN {
        return Err(invalid_topic("topic exceeds maximum length of 65535 bytes"));
    }
    let mut i: usize = 0;
    while i < b.len()
        invariant
            b@ == topic.spec_bytes(),
            0 < b@.len() <= MAX_TOPIC_LEN,
            i <= b@.len(),
            forall|j: int| 0 <= j < i ==> b@[j] != PLUS && b@[j] != HASH && b@[j] != NUL,
        decreases b@.len() - i,
    {
        let c = b[i];
        proof {
            if bad_topic_byte(c) {
                lemma_first_bad_byte(b@, i as int);
            }
        }
        if c == PLUS {
            return Err(invalid_topic("publish topic must not contain wildcard '+'"));
        }
        if c == HASH {
            return Err(invalid_topic("publish topic must not contain wildcard '#'"));
        }
        if c == NUL {
            return Err(invalid_topic("topic must not contain null character"));
        }
        i = i + 1;
    }
    Ok(())
}

/// Check the levels of a (bare) filter.
fn validate_filter_chars(filter: &[u8]) -> (r: Result<(), Error>)
    ensures
        r is Ok <==> valid_filter_levels(split_levels(filter@)),
        r matches Err(e) ==> e matches Error::InvalidTopic(m) && m@ == levels_message(split_levels(filter@)),
{
    let levels = split_levels_exec(filter);
    let ghost lv = split_levels(filter@);
    proof {
        lemma_split_levels_nonempty(filter@);
    }
    let n = levels.len();
    let mut i: usize = 0;
    while i < n
        invariant
            n == levels@.len(),
            lv == split_levels(filter@),
            level_views(levels@) == lv,
            lv.len() >= 1,
            i <= n,
            forall|j: int| 0 <= j < i ==> valid_filter_level(lv[j], j == lv.len() - 1),
        decreases n - i,
    {
        let level = &levels[i];
        assert(level@ == lv[i as int]);
        proof {
            assert forall|j: int| 0 <= j < i implies level_message(#[trigger] lv[j], j == lv.len() - 1) is None by {
                assert(valid_filter_level(lv[j], j == lv.len() - 1));
            }
            if level_message(lv[i as int], i == lv.len() - 1) is Some {
                lemma_first_bad_level(lv, i as int);
            }
        }
        if contains_byte(level.as_slice(), NUL) {
            assert(!valid_filter_level(lv[i as int], i == lv.len() - 1));
            assert(!valid_filter_levels(lv));
            return Err(invalid_topic("topic filter must not contain null character"));
        }
        if contains_byte(level.as_slice(), HASH) {
            if !is_single(level, HASH) {
                assert(!valid_filter_level(lv[i as int], i == lv.len() - 1));
                assert(!valid_filter_levels(lv));
                return Err(invalid_topic("'#' must occupy an entire level by itself"));
            }
            if i != n - 1 {
                assert(!valid_filter_level(lv[i as int], i == lv.len() - 1));
                assert(!valid_filter_levels(lv));
                return Err(invalid_topic("'#' must be the last level in a topic filter"));
            }
        }
        if contains_byte(level.as_slice(), PLUS) && !is_single(level, PLUS) {
            assert(!valid_filter_level(lv[i as int], i == lv.len() - 1));
            assert(!valid_filter_levels(lv));
            return Err(invalid_topic("'+' must occupy an entire level by itself"));
        }
        i = i + 1;
    }
    Ok(())
}

/// Validate `$share/{ShareName}/{filter}` and return the bare filter portion.
fn validate_shared_filter(filter: &str) -> (r: Result<&str, Error>)
    requires
        has_share_prefix(filter.spec_bytes()),
    ensures
        match shared_parts(filter.spec_bytes()) {
            Some((name, bare)) => if valid_share_name(name) {
                r matches Ok(s) && s.spec_bytes() == bare
            } else if name.len() == 0 {
                r matches Err(Error::InvalidTopic(m)) && m@ == "share name in '$share/{name}/...' must not be empty"@
            } else {
                r matches Err(Error::InvalidTopic(m)) && m@ == "share name must not contain '+', '#', or '/'"@
            },
            None => r matches Err(Error::InvalidTopic(m)) && m@
                == "shared subscription filter must be '$share/{name}/{filter}'"@,
        },
{
    let ghost fb = filter.spec_bytes();
    assert(fb[6] == SLASH) by {
        assert(fb.take(7)[6] == share_prefix()[6]);
    }
    let (_, after) = split_at_ascii(filter, 6);
    let rest = drop_ascii_head(after);
    assert(rest.spec_bytes() =~= fb.skip(7));
    let rb = rest.as_bytes();
    let slash = match find_slash(rb) {
        Some(k) => k,
        None => {
            return Err(
                invalid_topic("shared subscription filter must be '$share/{name}/{filter}'"),
            );
        },
    };
    let (share_name, tail) = split_at_ascii(rest, slash);
    let nb = share_name.as_bytes();
    assert(nb@ =~= rb@.take(slash as int));
    if nb.len() == 0 {
        return Err(invalid_topic("share name in '$share/{name}/...' must not be empty"));
    }
    if contains_byte(nb, PLUS) || contains_byte(nb, HASH) || contains_byte(nb, SLASH) {
        return Err(invalid_topic("share name must not contain '+', '#', or '/'"));
    }
    let bare = drop_ascii_head(tail);
    assert(bare.spec_bytes() =~= rb@.skip(slash + 1));
    Ok(bare)
}

/// Validate a subscription topic filter, including the wildcard rules.  A
/// filter that starts with `$share/` has its share name validated and the
/// rest treated as a regular filter.
pub fn validate_subscription_filter(filter: &str) -> (r: Result<(), Error>)
    ensures
        r is Ok <==> valid_subscription_filter(filter.spec_bytes()),
        r matches Err(e) ==> e matches Error::InvalidTopic(m) && m@ == filter_message(filter.spec_bytes()),
{
    let b = filter.as_bytes();
    if b.len() == 0 {
        return Err(invalid_topic("topic filter must not be empty"));
    }
    if b.len() > MAX_TOPIC_LEN {
        return Err(invalid_topic("topic filter exceeds maximum length of 65535 bytes"));
    }
    if starts_with_share(b) {
        let bare = validate_shared_filter(filter)?;
        if bare.as_bytes().len() == 0 {
            return Err(invalid_topic("topic filter must not be empty"));
        }
        validate_filter_chars(bare.as_bytes())
    } else {
        validate_filter_chars(b)
    }
}

/// Whether the bytes start with `$share/`.
fn starts_with_share(b: &[u8]) -> (r: bool)
    ensures
        r == has_share_prefix(b@),
{
    if b.len() >= 7 && b[0] == 0x24 && b[1] == 0x73 && b[2] == 0x68 && b[3] == 0x61 && b[4]
        == 0x72 && b[5] == 0x65 && b[6] == 0x2F {
        assert(b@.take(7) =~= share_prefix());
        true
    } else {
        proof {
            if b@.len() >= 7 && b@.take(7) == share_prefix() {
                assert(b@[0] == b@.take(7)[0]);
                assert(b@[1] == b@.take(7)[1]);
                assert(b@[2] == b@.take(7)[2]);
                assert(b@[3] == b@.take(7)[3]);
                assert(b@[4] == b@.take(7)[4]);
                assert(b@[5] == b@.take(7)[5]);
                assert(b@[6] == b@.take(7)[6]);
            }
        }
        false
    }
}

/// Whether the filter levels match the topic levels.
fn match_filter(filter: &[u8], topic: &[u8]) -> (r: bool)
    ensures
        r == match_levels(split_levels(filter@), split_levels(topic@)),
{
    let f = split_levels_exec(filter);
    let t = split_levels_exec(topic);
    let ghost fl = split_levels(filter@);
    let ghost tl = split_levels(topic@);
    let mut i: usize = 0;
    assert(fl.skip(0) =~= fl);
    assert(tl.skip(0) =~= tl);
    loop
        invariant
            fl == split_levels(filter@),
            tl == split_levels(topic@),
            level_views(f@) == fl,
            level_views(t@) == tl,
            i <= fl.len(),
            i <= tl.len(),
            match_levels(fl, tl) == match_levels(fl.skip(i as int), tl.skip(i as int)),
        decreases fl.len() - i,
    {
        if i == f.len() {
            assert(fl.skip(i as int).len() == 0);
            return i == t.len();
        }
        assert(fl.skip(i as int)[0] == fl[i as int]);
        assert(f@[i as int]@ == fl[i as int]);
        if is_single(&f[i], HASH) {
            return true;
        }
        if i == t.len() {
            assert(tl.skip(i as int).len() == 0);
            return false;
        }
        assert(tl.skip(i as int)[0] == tl[i as int]);
        assert(t@[i as int]@ == tl[i as int]);
        if is_single(&f[i], PLUS) || bytes_eq(f[i].as_slice(), t[i].as_slice()) {
            assert(fl.skip(i as int).drop_first() =~= fl.skip(i + 1));
            assert(tl.skip(i as int).drop_first() =~= tl.skip(i + 1));
            i = i + 1;
        } else {
            return false;
        }
    }
}

/// Returns true if `filter` matches `topic`, handling `+` and `#` wildcards.
/// A topic starting with `$` is matched only by a filter starting with `$`.
/// `$share/` prefixes are not handled here: strip them before calling.
pub fn topic_matches(filter: &str, topic: &str) -> (r: bool)
    ensures
        r == spec_topic_matches(filter.spec_bytes(), topic.spec_bytes()),
{
    let fb = filter.as_bytes();
    let tb = topic.as_bytes();
    let topic_is_system = tb.len() > 0 && tb[0] == DOLLAR;
    let filter_is_system = fb.len() > 0 && fb[0] == DOLLAR;
    if topic_is_system && !filter_is_system {
        return false;
    }
    match_filter(fb, tb)
}

/// Strip the `$share/{name}/` prefix from a shared subscription filter,
/// returning `(share_name, bare_filter)`; `None` if it is not a shared
/// subscription.
pub fn parse_shared_subscription(filter: &str) -> (r: Option<(&str, &str)>)
    ensures
        match shared_parts(filter.spec_bytes()) {
            Some((name, bare)) => r matches Some((n, f)) && n.spec_bytes() == name
                && f.spec_bytes() == bare,
            None => r is None,
        },
{
    let b = filter.as_bytes();
    if !starts_with_share(b) {
        return None;
    }
    let ghost fb = filter.spec_bytes();
    assert(fb[6] == SLASH) by {
        assert(fb.take(7)[6] == share_prefix()[6]);
    }
    let (_, after) = split_at_ascii(filter, 6);
    let rest = drop_ascii_head(after);
    assert(rest.spec_bytes() =~= fb.skip(7));
    let rb = rest.as_bytes();
    let slash = find_slash(rb)?;
    let (name, tail) = split_at_ascii(rest, slash);
    let bare = drop_ascii_head(tail);
    assert(name.spec_bytes() =~= rb@.take(slash as int));
    assert(bare.spec_bytes() =~= rb@.skip(slash + 1));
    Some((name, bare))
}

} // verus!
