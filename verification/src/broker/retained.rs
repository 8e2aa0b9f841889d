//! Retained messages: the last retained message of each topic, sent to new
//! subscribers whose filter matches the topic.
//!
//! Times are readings of a monotonic clock in whole seconds, handed in by
//! the caller.

use crate::topic::{parse_shared_subscription, shared_parts, spec_topic_matches, str_eq, topic_matches};
use crate::QoS;
use vstd::prelude::*;
use vstd::string::*;
use vstd::utf8::*;

verus! {

/// A retained message.
#[derive(Debug)]
pub struct RetainedMessage {
    pub topic: String,
    pub payload: Vec<u8>,
    pub qos: QoS,
    /// When the message expires, if it does.
    pub expiry_time: Option<u64>,
}

/// The mathematical value of a [`RetainedMessage`].
pub struct RetainedView {
    pub topic: Seq<char>,
    pub payload: Seq<u8>,
    pub qos: QoS,
    pub expiry_time: Option<u64>,
}

impl View for RetainedMessage {
    type V = RetainedView;

    open spec fn view(&self) -> RetainedView {
        RetainedView {
            topic: self.topic@,
            payload: self.payload@,
            qos: self.qos,
            expiry_time: self.expiry_time,
        }
    }
}

impl Clone for RetainedMessage {
    fn clone(&self) -> (r: Self)
        ensures
            r@ == self@,
    {
        RetainedMessage {
            topic: self.topic.clone(),
            payload: self.payload.clone(),
            qos: self.qos,
            expiry_time: self.expiry_time,
        }
    }
}

/// Whether a retained message has expired at time `now`.
pub open spec fn expired(m: RetainedView, now: u64) -> bool {
    m.expiry_time matches Some(e) && now >= e
}

impl RetainedMessage {
    /// Whether the message has expired at time `now`.
    pub fn is_expired(&self, now: u64) -> (r: bool)
        ensures
            r == expired(self@, now),
    {
        match self.expiry_time {
            Some(expiry) => now >= expiry,
            None => false,
        }
    }
}

/// The views of a list of retained messages.
pub open spec fn retained_views(s: Seq<RetainedMessage>) -> Seq<RetainedView> {
    s.map_values(|m: RetainedMessage| m@)
}

/// The bare filter of a subscription filter: without `$share/{group}/`.
pub open spec fn bare_filter(f: Seq<u8>) -> Seq<u8> {
    match shared_parts(f) {
        Some((_, bare)) => bare,
        None => f,
    }
}

/// No topic occurs twice in the list.
pub open spec fn distinct_topics(s: Seq<RetainedView>) -> bool {
    forall|i: int, j: int| 0 <= i < s.len() && 0 <= j < s.len() && i != j ==> s[i].topic != s[j].topic
}

/// Whether a topic has a message in the list.
pub open spec fn has_topic(s: Seq<RetainedView>, t: Seq<char>) -> bool {
    exists|i: int| 0 <= i < s.len() && s[i].topic == t
}

/// The position of a topic's message in the list.
pub open spec fn topic_index(s: Seq<RetainedView>, t: Seq<char>) -> int {
    choose|i: int| 0 <= i < s.len() && s[i].topic == t
}

/// The list after retaining a message: it replaces its topic's message in
/// place, or is added at the end; an empty payload deletes the topic's
/// message instead.
pub open spec fn retain_in(s: Seq<RetainedView>, m: RetainedView) -> Seq<RetainedView> {
    if has_topic(s, m.topic) {
        if m.payload.len() == 0 {
            s.remove(topic_index(s, m.topic))
        } else {
            s.update(topic_index(s, m.topic), m)
        }
    } else if m.payload.len() == 0 {
        s
    } else {
        s.push(m)
    }
}

/// Whether a filter (without a `$share/{group}/` prefix) matches the
/// message's topic.
pub open spec fn matched_by(f: Seq<u8>) -> spec_fn(RetainedView) -> bool {
    |m: RetainedView| spec_topic_matches(f, encode_utf8(m.topic))
}

/// The retained message of each topic in the list.
pub open spec fn topic_map(s: Seq<RetainedView>) -> Map<Seq<char>, RetainedView> {
    Map::new(|t: Seq<char>| has_topic(s, t), |t: Seq<char>| s[topic_index(s, t)])
}

proof fn lemma_topic_index(s: Seq<RetainedView>, i: int)
    requires
        distinct_topics(s),
        0 <= i < s.len(),
    ensures
        has_topic(s, s[i].topic),
        topic_index(s, s[i].topic) == i,
{
    let j = topic_index(s, s[i].topic);
    assert(0 <= j < s.len() && s[j].topic == s[i].topic);
}

proof fn lemma_topic_map_update(s: Seq<RetainedView>, i: int, m: RetainedView)
    requires
        distinct_topics(s),
        0 <= i < s.len(),
        m.topic == s[i].topic,
    ensures
        distinct_topics(s.update(i, m)),
        topic_map(s.update(i, m)) == topic_map(s).insert(m.topic, m),
{
    let u = s.update(i, m);
    assert forall|t: Seq<char>| #[trigger] has_topic(u, t) == (has_topic(s, t) || t == m.topic) by {
        if has_topic(s, t) {
            let j = topic_index(s, t);
            assert(u[j].topic == t);
        }
        if has_topic(u, t) {
            let j = topic_index(u, t);
            assert(s[j].topic == t);
        }
        assert(u[i].topic == m.topic);
    }
    assert forall|t: Seq<char>| has_topic(u, t) implies #[trigger] u[topic_index(u, t)] == if t == m.topic {
        m
    } else {
        s[topic_index(s, t)]
    } by {
        let j = topic_index(u, t);
        if t == m.topic {
            lemma_topic_index(u, i);
        } else {
            assert(j != i);
            assert(s[j].topic == t);
            lemma_topic_index(s, j);
        }
    }
    assert(topic_map(u) =~= topic_map(s).insert(m.topic, m));
}

proof fn lemma_topic_map_push(s: Seq<RetainedView>, m: RetainedView)
    requires
        distinct_topics(s),
        !has_topic(s, m.topic),
    ensures
        distinct_topics(s.push(m)),
        topic_map(s.push(m)) == topic_map(s).insert(m.topic, m),
{
    let u = s.push(m);
    assert forall|i: int, j: int| 0 <= i < u.len() && 0 <= j < u.len() && i != j implies u[i].topic != u[j].topic by {
        if i < s.len() && j < s.len() {
        } else if i < s.len() {
            assert(s[i].topic != m.topic);
        } else {
            assert(s[j].topic != m.topic);
        }
    }
    assert forall|t: Seq<char>| #[trigger] has_topic(u, t) == (has_topic(s, t) || t == m.topic) by {
        if has_topic(s, t) {
            let j = topic_index(s, t);
            assert(u[j].topic == t);
        }
        if has_topic(u, t) {
            let j = topic_index(u, t);
            if j < s.len() {
                assert(s[j].topic == t);
            }
        }
        assert(u[s.len() as int].topic == m.topic);
    }
    assert forall|t: Seq<char>| has_topic(u, t) implies #[trigger] u[topic_index(u, t)] == if t == m.topic {
        m
    } else {
        s[topic_index(s, t)]
    } by {
        let j = topic_index(u, t);
        if t == m.topic {
            lemma_topic_index(u, s.len() as int);
        } else {
            assert(j < s.len());
            lemma_topic_index(s, j);
        }
    }
    assert(topic_map(u) =~= topic_map(s).insert(m.topic, m));
}

proof fn lemma_topic_map_remove(s: Seq<RetainedView>, i: int)
    requires
        distinct_topics(s),
        0 <= i < s.len(),
    ensures
        distinct_topics(s.remove(i)),
        topic_map(s.remove(i)) == topic_map(s).remove(s[i].topic),
{
    let u = s.remove(i);
    let t0 = s[i].topic;
    assert forall|a: int, b: int| 0 <= a < u.len() && 0 <= b < u.len() && a != b implies u[a].topic != u[b].topic by {
        let a2 = if a < i { a } else { a + 1 };
        let b2 = if b < i { b } else { b + 1 };
        assert(u[a] == s[a2] && u[b] == s[b2]);
    }
    assert forall|t: Seq<char>| #[trigger] has_topic(u, t) == (has_topic(s, t) && t != t0) by {
        if has_topic(u, t) {
            let j = topic_index(u, t);
            let j2 = if j < i { j } else { j + 1 };
            assert(u[j] == s[j2]);
            assert(j2 != i);
        }
        if has_topic(s, t) && t != t0 {
            let j = topic_index(s, t);
            assert(j != i);
            let j1 = if j < i { j } else { j - 1 };
            assert(u[j1] == s[j]);
        }
    }
    assert forall|t: Seq<char>| has_topic(u, t) implies #[trigger] u[topic_index(u, t)] == s[topic_index(s, t)] by {
        let j = topic_index(u, t);
        let j2 = if j < i { j } else { j + 1 };
        assert(u[j] == s[j2]);
        lemma_topic_index(s, j2);
    }
    assert(topic_map(u) =~= topic_map(s).remove(t0));
}

proof fn lemma_topic_map_absent(s: Seq<RetainedView>, t: Seq<char>)
    requires
        !has_topic(s, t),
    ensures
        topic_map(s) == topic_map(s).remove(t),
{
    assert(topic_map(s) =~= topic_map(s).remove(t));
}

/// The messages of a map that have not expired at time `now`.
pub open spec fn live_map(m: Map<Seq<char>, RetainedView>, now: u64) -> Map<Seq<char>, RetainedView> {
    Map::new(|t: Seq<char>| m.contains_key(t) && !expired(m[t], now), |t: Seq<char>| m[t])
}

/// Whether a message has not expired at time `now`.
pub open spec fn alive(now: u64) -> spec_fn(RetainedView) -> bool {
    |m: RetainedView| !expired(m, now)
}

proof fn lemma_filter_distinct(s: Seq<RetainedView>, p: spec_fn(RetainedView) -> bool)
    requires
        distinct_topics(s),
    ensures
        distinct_topics(s.filter(p)),
        forall|m: RetainedView| #[trigger] s.filter(p).contains(m) <==> s.contains(m) && p(m),
    decreases s.len(),
{
    broadcast use vstd::seq_lib::group_filter_ensures;
    reveal(Seq::filter);
    if s.len() > 0 {
        let d = s.drop_last();
        assert(distinct_topics(d));
        lemma_filter_distinct(d, p);
        let f = d.filter(p);
        assert forall|m: RetainedView| #[trigger] s.filter(p).contains(m) <==> s.contains(m) && p(m) by {
            if s.contains(m) && p(m) {
                let k = choose|k: int| 0 <= k < s.len() && s[k] == m;
                if k < d.len() {
                    assert(d[k] == m);
                    assert(d.contains(m));
                } else {
                    assert(s.last() == m);
                    assert(s.filter(p) == f.push(m));
                    assert(s.filter(p)[f.len() as int] == m);
                }
            }
            if s.filter(p).contains(m) {
                if p(s.last()) {
                    assert(s.filter(p) == f.push(s.last()));
                    let k = choose|k: int| 0 <= k < s.filter(p).len() && s.filter(p)[k] == m;
                    if k < f.len() {
                        assert(f[k] == m);
                        assert(f.contains(m));
                        let j = choose|j: int| 0 <= j < d.len() && d[j] == m;
                        assert(s[j] == m);
                    } else {
                        assert(s[s.len() - 1] == m);
                    }
                } else {
                    assert(s.filter(p) == f);
                    let j = choose|j: int| 0 <= j < d.len() && d[j] == m;
                    assert(s[j] == m);
                }
            }
        }
        if p(s.last()) {
            assert(s.filter(p) == f.push(s.last()));
            assert forall|i: int, j: int|
                0 <= i < f.push(s.last()).len() && 0 <= j < f.push(s.last()).len() && i != j
                    implies f.push(s.last())[i].topic != f.push(s.last())[j].topic by {
                let u = f.push(s.last());
                if i < f.len() && j < f.len() {
                } else {
                    let k = if i < f.len() { i } else { j };
                    assert(f.contains(f[k]));
                    let b = choose|b: int| 0 <= b < d.len() && d[b] == f[k];
                    assert(s[b] == f[k]);
                    assert(b != s.len() - 1);
                }
            }
        } else {
            assert(s.filter(p) == f);
        }
    }
}

proof fn lemma_topic_map_filter(s: Seq<RetainedView>, now: u64)
    requires
        distinct_topics(s),
    ensures
        distinct_topics(s.filter(alive(now))),
        topic_map(s.filter(alive(now))) == live_map(topic_map(s), now),
{
    let p = alive(now);
    let f = s.filter(p);
    lemma_filter_distinct(s, p);
    assert forall|t: Seq<char>| #[trigger] has_topic(f, t) == (has_topic(s, t) && !expired(s[topic_index(s, t)], now)) by {
        if has_topic(f, t) {
            let i = topic_index(f, t);
            assert(f.contains(f[i]));
            let j = choose|j: int| 0 <= j < s.len() && s[j] == f[i];
            lemma_topic_index(s, j);
        }
        if has_topic(s, t) && !expired(s[topic_index(s, t)], now) {
            let j = topic_index(s, t);
            assert(s.contains(s[j]));
            assert(f.contains(s[j]));
            let i = choose|i: int| 0 <= i < f.len() && f[i] == s[j];
        }
    }
    assert forall|t: Seq<char>| has_topic(f, t) implies #[trigger] f[topic_index(f, t)] == s[topic_index(s, t)] by {
        let i = topic_index(f, t);
        assert(f.contains(f[i]));
        let j = choose|j: int| 0 <= j < s.len() && s[j] == f[i];
        lemma_topic_index(s, j);
    }
    assert(topic_map(f) =~= live_map(topic_map(s), now));
}

/// The retained messages, one per topic.
pub struct RetainedStore {
    messages: Vec<RetainedMessage>,
}

impl RetainedStore {
    /// No topic holds two messages.
    #[verifier::type_invariant]
    spec fn inv(self) -> bool {
        distinct_topics(retained_views(self.messages@))
    }

    /// The retained messages in the order they were first retained.
    pub closed spec fn entries(&self) -> Seq<RetainedView> {
        retained_views(self.messages@)
    }

    /// The retained message of each topic.
    pub open spec fn messages(&self) -> Map<Seq<char>, RetainedView> {
        topic_map(self.entries())
    }

    /// A store with no messages.
    pub fn new() -> (r: Self)
        ensures
            r.entries() == Seq::<RetainedView>::empty(),
            r.messages() == Map::<Seq<char>, RetainedView>::empty(),
    {
        let r = RetainedStore { messages: Vec::new() };
        assert(r.entries() =~= Seq::<RetainedView>::empty());
        assert(r.messages() =~= Map::<Seq<char>, RetainedView>::empty());
        r
    }

    /// Retain a message for its topic, replacing the one before.  An empty
    /// payload deletes the topic's retained message instead.
    pub fn insert(&mut self, topic: String, payload: Vec<u8>, qos: QoS, expiry_secs: Option<u32>, now: u64)
        requires
            expiry_secs matches Some(s) ==> now + s <= u64::MAX,
        ensures
            final(self).entries() == retain_in(
                old(self).entries(),
                RetainedView {
                    topic: topic@,
                    payload: payload@,
                    qos,
                    expiry_time: match expiry_secs {
                        Some(s) => Some((now + s) as u64),
                        None => None,
                    },
                },
            ),
            payload@.len() == 0 ==> final(self).messages() == old(self).messages().remove(topic@),
            payload@.len() > 0 ==> final(self).messages() == old(self).messages().insert(
                topic@,
                RetainedView {
                    topic: topic@,
                    payload: payload@,
                    qos,
                    expiry_time: match expiry_secs {
                        Some(s) => Some((now + s) as u64),
                        None => None,
                    },
                },
            ),
    {
        proof {
            use_type_invariant(&*self);
        }
        let ghost sv = retained_views(self.messages@);
        let mut msgs: Vec<RetainedMessage> = Vec::new();
        std::mem::swap(&mut msgs, &mut self.messages);
        let mut found: Option<usize> = None;
        let mut i: usize = 0;
        while i < msgs.len()
            invariant
                i <= msgs@.len(),
                retained_views(msgs@) == sv,
                found is None ==> forall|j: int| 0 <= j < i ==> msgs@[j].topic@ != topic@,
                found matches Some(j) ==> j < msgs@.len() && msgs@[j as int].topic@ == topic@,
            decreases msgs@.len() - i,
        {
            if found.is_none() && str_eq(msgs[i].topic.as_str(), topic.as_str()) {
                found = Some(i);
            }
            i = i + 1;
        }
        proof {
            assert forall|j: int| 0 <= j < msgs@.len() implies #[trigger] sv[j] == msgs@[j]@ by {}
            if found is None {
                assert(!has_topic(sv, topic@));
            }
        }
        if payload.len() == 0 {
            match found {
                Some(j) => {
                    let _m = msgs.remove(j);
                    proof {
                        lemma_topic_map_remove(sv, j as int);
                        lemma_topic_index(sv, j as int);
                        assert(retained_views(msgs@) =~= sv.remove(j as int));
                    }
                },
                None => {
                    proof {
                        lemma_topic_map_absent(sv, topic@);
                    }
                },
            }
        } else {
            let expiry_time = match expiry_secs {
                Some(s) => Some(now + s as u64),
                None => None,
            };
            let m = RetainedMessage { topic, payload, qos, expiry_time };
            let ghost mv = m@;
            match found {
                Some(j) => {
                    msgs.set(j, m);
                    proof {
                        lemma_topic_map_update(sv, j as int, mv);
                        lemma_topic_index(sv, j as int);
                        assert(retained_views(msgs@) =~= sv.update(j as int, mv));
                    }
                },
                None => {
                    msgs.push(m);
                    proof {
                        lemma_topic_map_push(sv, mv);
                        assert(retained_views(msgs@) =~= sv.push(mv));
                    }
                },
            }
        }
        self.messages = msgs;
    }

    /// Drop the messages that have expired at time `now`, then return the
    /// retained messages whose topic the filter (without a `$share/{group}/`
    /// prefix) matches.
    pub fn get_matching(&mut self, filter: &str, now: u64) -> (r: Vec<RetainedMessage>)
        ensures
            final(self).entries() == old(self).entries().filter(alive(now)),
            retained_views(r@) == final(self).entries().filter(matched_by(bare_filter(encode_utf8(filter@)))),
            final(self).messages() == live_map(old(self).messages(), now),
            forall|m: RetainedView| #[trigger] retained_views(r@).contains(m) <==> exists|t: Seq<char>|
                #[trigger] final(self).messages().contains_key(t) && final(self).messages()[t] == m
                    && spec_topic_matches(bare_filter(encode_utf8(filter@)), encode_utf8(t)),
    {
        proof {
            use_type_invariant(&*self);
        }
        let ghost sv = retained_views(self.messages@);
        let mut msgs: Vec<RetainedMessage> = Vec::new();
        std::mem::swap(&mut msgs, &mut self.messages);
        let mut kept: Vec<RetainedMessage> = Vec::new();
        let mut i: usize = 0;
        while i < msgs.len()
            invariant
                i <= msgs@.len(),
                retained_views(msgs@) == sv,
                retained_views(kept@) == sv.take(i as int).filter(alive(now)),
            decreases msgs@.len() - i,
        {
            proof {
                broadcast use vstd::seq_lib::group_filter_ensures;
                reveal(Seq::filter);
                assert(sv.take(i + 1).drop_last() =~= sv.take(i as int));
                assert(sv.take(i + 1).last() == sv[i as int]);
                assert(sv[i as int] == msgs@[i as int]@);
            }
            if !msgs[i].is_expired(now) {
                let m = msgs[i].clone();
                let ghost before = retained_views(kept@);
                kept.push(m);
                assert(retained_views(kept@) =~= before.push(sv[i as int]));
            }
            i = i + 1;
        }
        assert(sv.take(i as int) =~= sv);
        proof {
            lemma_topic_map_filter(sv, now);
        }
        self.messages = kept;
        let bare = match parse_shared_subscription(filter) {
            Some((_, b)) => b,
            None => filter,
        };
        let ghost kv = retained_views(self.messages@);
        let mut out: Vec<RetainedMessage> = Vec::new();
        let mut j: usize = 0;
        while j < self.messages.len()
            invariant
                j <= kv.len(),
                kv == retained_views(self.messages@),
                retained_views(out@) == kv.take(j as int).filter(matched_by(bare.spec_bytes())),
                bare.spec_bytes() == bare_filter(encode_utf8(filter@)),
                forall|m: RetainedView| #[trigger] retained_views(out@).contains(m) <==> exists|k: int|
                    0 <= k < j && kv[k] == m && spec_topic_matches(bare.spec_bytes(), encode_utf8(m.topic)),
            decreases kv.len() - j,
        {
            let msg = &self.messages[j];
            assert(kv[j as int] == msg@);
            proof {
                reveal(Seq::filter);
                assert(kv.take(j + 1).drop_last() =~= kv.take(j as int));
                assert(kv.take(j + 1).last() == kv[j as int]);
            }
            if topic_matches(bare, msg.topic.as_str()) {
                let c = msg.clone();
                let ghost before = retained_views(out@);
                out.push(c);
                proof {
                    assert(retained_views(out@) =~= before.push(kv[j as int]));
                    assert forall|m: RetainedView| #[trigger] retained_views(out@).contains(m) <==> exists|k: int|
                        0 <= k < j + 1 && kv[k] == m && spec_topic_matches(bare.spec_bytes(), encode_utf8(m.topic)) by {
                        if retained_views(out@).contains(m) {
                            let x = choose|x: int| 0 <= x < retained_views(out@).len() && retained_views(out@)[x] == m;
                            if x < before.len() {
                                assert(before[x] == m);
                                assert(before.contains(m));
                            }
                        }
                        if exists|k: int| 0 <= k < j + 1 && kv[k] == m && spec_topic_matches(bare.spec_bytes(), encode_utf8(m.topic)) {
                            let k = choose|k: int| 0 <= k < j + 1 && kv[k] == m && spec_topic_matches(bare.spec_bytes(), encode_utf8(m.topic));
                            if k < j {
                                assert(exists|k2: int| 0 <= k2 < j && kv[k2] == m && spec_topic_matches(bare.spec_bytes(), encode_utf8(m.topic)));
                                assert(before.contains(m));
                                let x = choose|x: int| 0 <= x < before.len() && before[x] == m;
                                assert(retained_views(out@)[x] == m);
                            } else {
                                assert(retained_views(out@)[before.len() as int] == m);
                            }
                        }
                    }
                }
            } else {
                proof {
                    assert forall|m: RetainedView| #[trigger] retained_views(out@).contains(m) <==> exists|k: int|
                        0 <= k < j + 1 && kv[k] == m && spec_topic_matches(bare.spec_bytes(), encode_utf8(m.topic)) by {
                        if exists|k: int| 0 <= k < j + 1 && kv[k] == m && spec_topic_matches(bare.spec_bytes(), encode_utf8(m.topic)) {
                            let k = choose|k: int| 0 <= k < j + 1 && kv[k] == m && spec_topic_matches(bare.spec_bytes(), encode_utf8(m.topic));
                            assert(k != j);
                        }
                    }
                }
            }
            j = j + 1;
        }
        assert(kv.take(j as int) =~= kv);
        proof {
            let fm = self.messages();
            assert forall|m: RetainedView| #[trigger] retained_views(out@).contains(m) <==> exists|t: Seq<char>|
                #[trigger] fm.contains_key(t) && fm[t] == m
                    && spec_topic_matches(bare_filter(encode_utf8(filter@)), encode_utf8(t)) by {
                if retained_views(out@).contains(m) {
                    let k = choose|k: int| 0 <= k < j && kv[k] == m && spec_topic_matches(bare.spec_bytes(), encode_utf8(m.topic));
                    lemma_topic_index(kv, k);
                    assert(fm.contains_key(m.topic) && fm[m.topic] == m);
                }
                if exists|t: Seq<char>| #[trigger] fm.contains_key(t) && fm[t] == m
                    && spec_topic_matches(bare_filter(encode_utf8(filter@)), encode_utf8(t)) {
                    let t = choose|t: Seq<char>| #[trigger] fm.contains_key(t) && fm[t] == m
                        && spec_topic_matches(bare_filter(encode_utf8(filter@)), encode_utf8(t));
                    let k = topic_index(kv, t);
                    assert(kv[k] == m && m.topic == t);
                }
            }
        }
        out
    }
}

} // verus!
