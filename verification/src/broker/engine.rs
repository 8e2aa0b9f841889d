//! The broker's decisions: sessions, subscriptions, retained messages and
//! the routing of published messages.  Every handler takes the state and
//! one event and returns what has to be sent to which client; the I/O layer
//! owns the connections and does the sending.

use crate::broker::auth::{create_authenticator, opt_name, opt_secret, user_map, Authenticator, ConfiguredAuthenticator};
use crate::broker::config::{string_seq, user_pairs, AuthMode, Config};
use crate::broker::keyed::{
    has_key, key_map, keys_distinct, lemma_key_index, lemma_key_map_absent, lemma_key_map_empty,
    lemma_key_map_push, lemma_key_map_remove, lemma_key_map_update,
};
use crate::broker::retained::{
    alive, bare_filter, expired, matched_by, retain_in, retained_views, RetainedMessage, RetainedStore,
    RetainedView,
};
use crate::broker::session::{
    expires_after, filter_entries, message_views, next_id, pending_views, PendingPublish, PendingView,
    Session, SessionMessage, SessionMessageView, SessionModel,
};
use crate::broker::topic_trie::{
    filter_key, groups_view, lemma_matching_contains, path_matches, sub_views, GroupsView, Subscription,
    SubscriptionView, TopicTrie,
};
use crate::packet::subscribe::{
    filter_views, retain_handling_code, RetainHandling, SubscriptionFilter, SubscriptionFilterView,
};
use crate::topic::{spec_topic_matches, split_levels, starts_with_dollar, str_eq};
use crate::{qos_value, QoS};
use vstd::prelude::*;
use vstd::string::*;
use vstd::utf8::*;

verus! {

broadcast use vstd::std_specs::hash::group_hash_axioms;

/// A message the broker sends to a client's connection.
#[derive(Debug)]
pub enum BrokerToClientMessage {
    Publish(PendingPublish),
    PubRel(u16),
    /// The client connected again elsewhere: this connection ends.
    DisconnectGracefully,
}

/// The mathematical value of a [`BrokerToClientMessage`].
pub enum BrokerToClientView {
    Publish(PendingView),
    PubRel(u16),
    DisconnectGracefully,
}

impl View for BrokerToClientMessage {
    type V = BrokerToClientView;

    open spec fn view(&self) -> BrokerToClientView {
        match self {
            BrokerToClientMessage::Publish(p) => BrokerToClientView::Publish(p@),
            BrokerToClientMessage::PubRel(id) => BrokerToClientView::PubRel(*id),
            BrokerToClientMessage::DisconnectGracefully => BrokerToClientView::DisconnectGracefully,
        }
    }
}


/// The message a session's queued message is sent as.
pub open spec fn queued_to_client(m: SessionMessageView) -> BrokerToClientView {
    match m {
        SessionMessageView::Publish(p) => BrokerToClientView::Publish(p),
        SessionMessageView::PubRel(id) => BrokerToClientView::PubRel(id),
    }
}

/// The views of a list of messages to a client.
pub open spec fn client_message_views(s: Seq<BrokerToClientMessage>) -> Seq<BrokerToClientView> {
    s.map_values(|m: BrokerToClientMessage| m@)
}

/// The sessions keyed by client id.
pub open spec fn session_entries(s: Seq<Session>) -> Seq<(Seq<char>, SessionModel)> {
    s.map_values(|x: Session| (x.client_id@, x@))
}

/// The shared-subscription cursors keyed by (group, topic).
pub open spec fn cursor_entries(s: Seq<(String, String, usize)>) -> Seq<((Seq<char>, Seq<char>), usize)> {
    s.map_values(|x: (String, String, usize)| ((x.0@, x.1@), x.2))
}

/// The plain subscriptions of a trie, by (filter levels, client id).
pub type RegularMap = Map<(Seq<Seq<u8>>, Seq<char>), SubscriptionView>;

/// The shared subscriptions of a trie, by (filter levels, group, client id).
pub type SharedMap = Map<(Seq<Seq<u8>>, Seq<char>, Seq<char>), SubscriptionView>;

/// Whether the trie holds the client's subscription to the filter.
pub open spec fn trie_has(reg: RegularMap, sh: SharedMap, c: Seq<char>, f: Seq<char>) -> bool {
    match filter_key(encode_utf8(f)) {
        (q, None) => reg.contains_key((q, c)),
        (q, Some(g)) => sh.contains_key((q, g, c)),
    }
}

/// The trie without the client's subscription to the filter.
pub open spec fn trie_minus(reg: RegularMap, sh: SharedMap, c: Seq<char>, f: Seq<char>) -> (RegularMap, SharedMap) {
    match filter_key(encode_utf8(f)) {
        (q, None) => (reg.remove((q, c)), sh),
        (q, Some(g)) => (reg, sh.remove((q, g, c))),
    }
}

/// Removing the client's subscriptions to the filters one after another:
/// the trie after, and for each filter whether a subscription was removed.
pub open spec fn unsubscribe_all(reg: RegularMap, sh: SharedMap, c: Seq<char>, fs: Seq<Seq<char>>) -> (
    RegularMap,
    SharedMap,
    Seq<bool>,
)
    decreases fs.len(),
{
    if fs.len() == 0 {
        (reg, sh, Seq::empty())
    } else {
        let prev = unsubscribe_all(reg, sh, c, fs.drop_last());
        let next = trie_minus(prev.0, prev.1, c, fs.last());
        (next.0, next.1, prev.2.push(trie_has(prev.0, prev.1, c, fs.last())))
    }
}

/// The plain-subscription keys of a client's filters.
pub open spec fn regular_keys(c: Seq<char>, fs: Set<Seq<char>>) -> Set<(Seq<Seq<u8>>, Seq<char>)> {
    Set::new(
        |k: (Seq<Seq<u8>>, Seq<char>)|
            k.1 == c && exists|f: Seq<char>| #[trigger] fs.contains(f) && filter_key(encode_utf8(f)) == (k.0, None::<Seq<char>>),
    )
}

/// The shared-subscription keys of a client's filters.
pub open spec fn shared_keys(c: Seq<char>, fs: Set<Seq<char>>) -> Set<(Seq<Seq<u8>>, Seq<char>, Seq<char>)> {
    Set::new(
        |k: (Seq<Seq<u8>>, Seq<char>, Seq<char>)|
            k.2 == c && exists|f: Seq<char>| #[trigger] fs.contains(f) && filter_key(encode_utf8(f)) == (k.0, Some(k.1)),
    )
}

proof fn lemma_unsubscribe_all_keys(reg: RegularMap, sh: SharedMap, c: Seq<char>, fs: Seq<Seq<char>>)
    ensures
        unsubscribe_all(reg, sh, c, fs).0 == reg.remove_keys(regular_keys(c, fs.to_set())),
        unsubscribe_all(reg, sh, c, fs).1 == sh.remove_keys(shared_keys(c, fs.to_set())),
        unsubscribe_all(reg, sh, c, fs).2.len() == fs.len(),
    decreases fs.len(),
{
    if fs.len() == 0 {
        assert(fs.to_set() =~= Set::<Seq<char>>::empty());
        assert(regular_keys(c, fs.to_set()) =~= Set::empty());
        assert(shared_keys(c, fs.to_set()) =~= Set::empty());
        assert(reg.remove_keys(Set::empty()) =~= reg);
        assert(sh.remove_keys(Set::empty()) =~= sh);
    } else {
        let init = fs.drop_last();
        let f = fs.last();
        lemma_unsubscribe_all_keys(reg, sh, c, init);
        assert(fs =~= init.push(f));
        assert(fs.to_set() =~= init.to_set().insert(f)) by {
            assert forall|x: Seq<char>| fs.to_set().contains(x) implies init.to_set().insert(f).contains(x) by {
                let i = choose|i: int| 0 <= i < fs.len() && fs[i] == x;
                if i < init.len() {
                    assert(init[i] == x);
                }
            }
            assert forall|x: Seq<char>| init.to_set().insert(f).contains(x) implies fs.to_set().contains(x) by {
                if x == f {
                    assert(fs[fs.len() - 1] == x);
                } else {
                    let i = choose|i: int| 0 <= i < init.len() && init[i] == x;
                    assert(fs[i] == x);
                }
            }
        }
        let s0 = init.to_set();
        let s1 = fs.to_set();
        match filter_key(encode_utf8(f)) {
            (q, None) => {
                assert(regular_keys(c, s1) =~= regular_keys(c, s0).insert((q, c))) by {
                    assert forall|k: (Seq<Seq<u8>>, Seq<char>)| #[trigger] regular_keys(c, s1).contains(k) implies regular_keys(c, s0).insert((q, c)).contains(k) by {
                        let g = choose|g: Seq<char>| #[trigger] s1.contains(g) && filter_key(encode_utf8(g)) == (k.0, None::<Seq<char>>);
                        if g != f {
                            assert(s0.contains(g));
                        }
                    }
                    assert forall|k: (Seq<Seq<u8>>, Seq<char>)| #[trigger] regular_keys(c, s0).insert((q, c)).contains(k) implies regular_keys(c, s1).contains(k) by {
                        if k == (q, c) {
                            assert(s1.contains(f));
                        } else {
                            let g = choose|g: Seq<char>| #[trigger] s0.contains(g) && filter_key(encode_utf8(g)) == (k.0, None::<Seq<char>>);
                            assert(s1.contains(g));
                        }
                    }
                }
                assert(shared_keys(c, s1) =~= shared_keys(c, s0)) by {
                    assert forall|k: (Seq<Seq<u8>>, Seq<char>, Seq<char>)| #[trigger] shared_keys(c, s1).contains(k) implies shared_keys(c, s0).contains(k) by {
                        let g = choose|g: Seq<char>| #[trigger] s1.contains(g) && filter_key(encode_utf8(g)) == (k.0, Some(k.1));
                        if g == f {
                            assert(false);
                        }
                        assert(s0.contains(g));
                    }
                    assert forall|k: (Seq<Seq<u8>>, Seq<char>, Seq<char>)| #[trigger] shared_keys(c, s0).contains(k) implies shared_keys(c, s1).contains(k) by {
                        let g = choose|g: Seq<char>| #[trigger] s0.contains(g) && filter_key(encode_utf8(g)) == (k.0, Some(k.1));
                        assert(s1.contains(g));
                    }
                }
                assert(reg.remove_keys(regular_keys(c, s0)).remove((q, c)) =~= reg.remove_keys(regular_keys(c, s1)));
            },
            (q, Some(gn)) => {
                assert(shared_keys(c, s1) =~= shared_keys(c, s0).insert((q, gn, c))) by {
                    assert forall|k: (Seq<Seq<u8>>, Seq<char>, Seq<char>)| #[trigger] shared_keys(c, s1).contains(k) implies shared_keys(c, s0).insert((q, gn, c)).contains(k) by {
                        let g = choose|g: Seq<char>| #[trigger] s1.contains(g) && filter_key(encode_utf8(g)) == (k.0, Some(k.1));
                        if g != f {
                            assert(s0.contains(g));
                        }
                    }
                    assert forall|k: (Seq<Seq<u8>>, Seq<char>, Seq<char>)| #[trigger] shared_keys(c, s0).insert((q, gn, c)).contains(k) implies shared_keys(c, s1).contains(k) by {
                        if k == (q, gn, c) {
                            assert(s1.contains(f));
                        } else {
                            let g = choose|g: Seq<char>| #[trigger] s0.contains(g) && filter_key(encode_utf8(g)) == (k.0, Some(k.1));
                            assert(s1.contains(g));
                        }
                    }
                }
                assert(regular_keys(c, s1) =~= regular_keys(c, s0)) by {
                    assert forall|k: (Seq<Seq<u8>>, Seq<char>)| #[trigger] regular_keys(c, s1).contains(k) implies regular_keys(c, s0).contains(k) by {
                        let g = choose|g: Seq<char>| #[trigger] s1.contains(g) && filter_key(encode_utf8(g)) == (k.0, None::<Seq<char>>);
                        if g == f {
                            assert(false);
                        }
                        assert(s0.contains(g));
                    }
                    assert forall|k: (Seq<Seq<u8>>, Seq<char>)| #[trigger] regular_keys(c, s0).contains(k) implies regular_keys(c, s1).contains(k) by {
                        let g = choose|g: Seq<char>| #[trigger] s0.contains(g) && filter_key(encode_utf8(g)) == (k.0, None::<Seq<char>>);
                        assert(s1.contains(g));
                    }
                }
                assert(sh.remove_keys(shared_keys(c, s0)).remove((q, gn, c)) =~= sh.remove_keys(shared_keys(c, s1)));
            },
        }
    }
}

/// The filters of a subscription list.
pub open spec fn filter_seq(s: Seq<Subscription>) -> Seq<Seq<char>> {
    s.map_values(|x: Subscription| x.filter@)
}

/// Remove a client's subscriptions to the filters of a list from the trie.
fn remove_client_filters(trie: &mut TopicTrie, subs: &Vec<Subscription>, client_id: &str)
    ensures
        final(trie).regular() == old(trie).regular().remove_keys(
            regular_keys(client_id@, key_map(filter_entries(subs@)).dom()),
        ),
        final(trie).shared() == old(trie).shared().remove_keys(
            shared_keys(client_id@, key_map(filter_entries(subs@)).dom()),
        ),
{
    let ghost reg0 = trie.regular();
    let ghost sh0 = trie.shared();
    let ghost c = client_id@;
    let ghost fs = filter_seq(subs@);
    let mut i: usize = 0;
    while i < subs.len()
        invariant
            i <= subs@.len(),
            fs == filter_seq(subs@),
            c == client_id@,
            trie.regular() == unsubscribe_all(reg0, sh0, c, fs.take(i as int)).0,
            trie.shared() == unsubscribe_all(reg0, sh0, c, fs.take(i as int)).1,
        decreases subs@.len() - i,
    {
        let ghost before = (trie.regular(), trie.shared());
        let _removed = trie.remove(subs[i].filter.as_str(), client_id);
        proof {
            assert(fs.take(i + 1).drop_last() =~= fs.take(i as int));
            assert(fs.take(i + 1).last() == subs@[i as int].filter@);
        }
        i = i + 1;
    }
    proof {
        assert(fs.take(i as int) =~= fs);
        lemma_unsubscribe_all_keys(reg0, sh0, c, fs);
        assert(fs.to_set() =~= key_map(filter_entries(subs@)).dom()) by {
            let e = filter_entries(subs@);
            assert forall|x: Seq<char>| fs.to_set().contains(x) implies key_map(e).dom().contains(x) by {
                let j = choose|j: int| 0 <= j < fs.len() && fs[j] == x;
                assert(e[j].0 == x);
            }
            assert forall|x: Seq<char>| key_map(e).dom().contains(x) implies fs.to_set().contains(x) by {
                let j = choose|j: int| 0 <= j < e.len() && e[j].0 == x;
                assert(fs[j] == x);
            }
        }
    }
}

/// Where the client's session is in the list, if it has one.
fn find_session(sessions: &Vec<Session>, client_id: &str) -> (r: Option<usize>)
    requires
        keys_distinct(session_entries(sessions@)),
    ensures
        match r {
            Some(i) => i < sessions@.len() && sessions@[i as int].client_id@ == client_id@
                && key_map(session_entries(sessions@)).contains_key(client_id@)
                && key_map(session_entries(sessions@))[client_id@] == sessions@[i as int]@,
            None => !key_map(session_entries(sessions@)).contains_key(client_id@),
        },
{
    let ghost e = session_entries(sessions@);
    let mut i: usize = 0;
    while i < sessions.len()
        invariant
            i <= sessions@.len(),
            e == session_entries(sessions@),
            keys_distinct(e),
            forall|j: int| 0 <= j < i ==> sessions@[j].client_id@ != client_id@,
        decreases sessions@.len() - i,
    {
        if str_eq(sessions[i].client_id.as_str(), client_id) {
            proof {
                assert(e[i as int] == (sessions@[i as int].client_id@, sessions@[i as int]@));
                lemma_key_index(e, i as int);
            }
            return Some(i);
        }
        i = i + 1;
    }
    proof {
        assert(!has_key(e, client_id@)) by {
            if has_key(e, client_id@) {
                let j = choose|j: int| 0 <= j < e.len() && e[j].0 == client_id@;
                assert(e[j].0 == sessions@[j].client_id@);
            }
        }
    }
    None
}

/// A fresh session's model.
pub open spec fn fresh_session(c: Seq<char>, clean: bool, expiry: Option<u32>) -> SessionModel {
    SessionModel {
        client_id: c,
        clean_session: clean,
        is_connected: false,
        subscriptions: Map::empty(),
        offline_queue: Seq::empty(),
        inflight_qos1: Map::empty(),
        inflight_qos2: Map::empty(),
        inflight_pubrel: Map::empty(),
        next_packet_id: 1,
        session_expiry_interval: expiry,
        session_expiry_time: None,
    }
}

/// The lower of two QoS levels.
pub open spec fn min_qos(a: QoS, b: QoS) -> QoS {
    if qos_value(a) <= qos_value(b) {
        a
    } else {
        b
    }
}

/// The lower of two QoS levels.
fn lower_qos(a: QoS, b: QoS) -> (r: QoS)
    ensures
        r == min_qos(a, b),
{
    if a.as_u8() <= b.as_u8() {
        a
    } else {
        b
    }
}

/// The subscription a SUBSCRIBE filter makes for a client.
pub open spec fn subscription_of(c: Seq<char>, f: SubscriptionFilterView, sid: Option<u32>) -> SubscriptionView {
    SubscriptionView {
        client_id: c,
        filter: f.topic_filter,
        qos: f.qos,
        no_local: f.no_local,
        retain_as_published: f.retain_as_published,
        retain_handling: retain_handling_code(f.retain_handling),
        subscription_identifier: sid,
    }
}

/// The trie with a subscription added, or put in place of the client's
/// subscription under the same key.
pub open spec fn trie_plus(reg: RegularMap, sh: SharedMap, x: SubscriptionView) -> (RegularMap, SharedMap) {
    match filter_key(encode_utf8(x.filter)) {
        (q, None) => (reg.insert((q, x.client_id), x), sh),
        (q, Some(g)) => (reg, sh.insert((q, g, x.client_id), x)),
    }
}

/// The PUBLISH of a retained message for a subscription of QoS `fq`.
pub open spec fn retained_publish(m: RetainedView, pid: u16, fq: QoS, sid: Option<u32>) -> PendingView {
    PendingView {
        packet_id: pid,
        topic: m.topic,
        payload: m.payload,
        qos: min_qos(m.qos, fq),
        retain: true,
        subscription_identifier: sid,
        dup: false,
    }
}

/// A session's outgoing side while retained messages are sent: the next
/// packet identifier, the QoS 1 messages in flight, and what was sent.
pub struct DeliveryState {
    pub next: u16,
    pub inflight: Map<u16, PendingView>,
    pub sent: Seq<BrokerToClientView>,
}

/// Sending retained messages one after another.  Each takes a packet
/// identifier; only a connected client is sent them, and a message above
/// QoS 0 is then kept in flight.
pub open spec fn send_retained(d: DeliveryState, ms: Seq<RetainedView>, fq: QoS, sid: Option<u32>, connected: bool) -> DeliveryState
    decreases ms.len(),
{
    if ms.len() == 0 {
        d
    } else {
        let prev = send_retained(d, ms.drop_last(), fq, sid, connected);
        let p = retained_publish(ms.last(), prev.next, fq, sid);
        DeliveryState {
            next: next_id(prev.next),
            inflight: if connected && p.qos != QoS::AtMostOnce {
                prev.inflight.insert(prev.next, p)
            } else {
                prev.inflight
            },
            sent: if connected {
                prev.sent.push(BrokerToClientView::Publish(p))
            } else {
                prev.sent
            },
        }
    }
}

/// What SUBSCRIBE changes: the trie, the session's subscriptions by
/// filter, the retained messages, and the session's outgoing side.
pub struct SubscribeState {
    pub reg: RegularMap,
    pub sh: SharedMap,
    pub subs: Map<Seq<char>, SubscriptionView>,
    pub retained: Seq<RetainedView>,
    pub delivery: DeliveryState,
}

/// Subscribing a client to the filters one after another.  Each filter
/// files its subscription, expired retained messages are dropped, and the
/// retained messages it matches are sent, unless the filter asks for none,
/// or asks for them only on a new subscription and the session already has
/// one to that filter.
pub open spec fn subscribe_all(
    st: SubscribeState,
    c: Seq<char>,
    fs: Seq<SubscriptionFilterView>,
    sid: Option<u32>,
    now: u64,
    connected: bool,
) -> SubscribeState
    decreases fs.len(),
{
    if fs.len() == 0 {
        st
    } else {
        let prev = subscribe_all(st, c, fs.drop_last(), sid, now, connected);
        let f = fs.last();
        let x = subscription_of(c, f, sid);
        let t = trie_plus(prev.reg, prev.sh, x);
        let live = prev.retained.filter(alive(now));
        let ms = live.filter(matched_by(bare_filter(encode_utf8(f.topic_filter))));
        SubscribeState {
            reg: t.0,
            sh: t.1,
            subs: prev.subs.insert(f.topic_filter, x),
            retained: live,
            delivery: if f.retain_handling == RetainHandling::DoNotSend || (f.retain_handling
                == RetainHandling::SendOnNewSubscription && prev.subs.contains_key(f.topic_filter)) {
                prev.delivery
            } else {
                send_retained(prev.delivery, ms, f.qos, sid, connected)
            },
        }
    }
}

proof fn lemma_send_retained_sent(d: DeliveryState, ms: Seq<RetainedView>, fq: QoS, sid: Option<u32>)
    ensures
        send_retained(d, ms, fq, sid, true).sent.len() == d.sent.len() + ms.len(),
        forall|j: int| 0 <= j < d.sent.len() ==> #[trigger] send_retained(d, ms, fq, sid, true).sent[j] == d.sent[j],
        forall|j: int|
            0 <= j < ms.len() ==> (#[trigger] send_retained(d, ms, fq, sid, true).sent[d.sent.len() + j] matches BrokerToClientView::Publish(v)
                && v == retained_publish(ms[j], v.packet_id, fq, sid)),
    decreases ms.len(),
{
    if ms.len() > 0 {
        lemma_send_retained_sent(d, ms.drop_last(), fq, sid);
        let prev = send_retained(d, ms.drop_last(), fq, sid, true);
        let r = send_retained(d, ms, fq, sid, true);
        assert forall|j: int| 0 <= j < ms.len() implies (#[trigger] r.sent[d.sent.len() + j] matches BrokerToClientView::Publish(v)
            && v == retained_publish(ms[j], v.packet_id, fq, sid)) by {
            if j < ms.len() - 1 {
                assert(r.sent[d.sent.len() + j] == prev.sent[d.sent.len() + j]);
                assert(ms.drop_last()[j] == ms[j]);
            }
        }
    }
}

/// A retained message reaches a new subscriber: subscribing a connected
/// client with a filter that matches the topic of a retained message that
/// has not expired sends that message, flagged retained, at the lower of
/// the two QoS levels, when the filter asks for retained messages on every
/// subscription, or only on a new one and the session has none to it yet.
pub proof fn lemma_retained_reaches_subscriber(
    st: SubscribeState,
    c: Seq<char>,
    f: SubscriptionFilterView,
    sid: Option<u32>,
    now: u64,
    m: RetainedView,
)
    requires
        st.retained.contains(m),
        !expired(m, now),
        spec_topic_matches(bare_filter(encode_utf8(f.topic_filter)), encode_utf8(m.topic)),
        f.retain_handling == RetainHandling::SendOnSubscribe || (f.retain_handling
            == RetainHandling::SendOnNewSubscription && !st.subs.contains_key(f.topic_filter)),
    ensures
        ({
            let r = subscribe_all(st, c, seq![f], sid, now, true);
            exists|i: int|
                0 <= i < r.delivery.sent.len() && (#[trigger] r.delivery.sent[i] matches BrokerToClientView::Publish(v)
                    && v.topic == m.topic && v.payload == m.payload && v.qos == min_qos(m.qos, f.qos) && v.retain)
        }),
{
    broadcast use vstd::seq_lib::group_filter_ensures;
    let fs = seq![f];
    assert(fs.drop_last() =~= Seq::<SubscriptionFilterView>::empty());
    assert(fs.last() == f);
    assert(subscribe_all(st, c, fs.drop_last(), sid, now, true) == st);
    let live = st.retained.filter(alive(now));
    let i0 = choose|i: int| 0 <= i < st.retained.len() && st.retained[i] == m;
    assert(alive(now)(st.retained[i0]));
    assert(live.contains(m));
    let ms = live.filter(matched_by(bare_filter(encode_utf8(f.topic_filter))));
    let i1 = choose|i: int| 0 <= i < live.len() && live[i] == m;
    assert(matched_by(bare_filter(encode_utf8(f.topic_filter)))(live[i1]));
    assert(ms.contains(m));
    let j = choose|j: int| 0 <= j < ms.len() && ms[j] == m;
    lemma_send_retained_sent(st.delivery, ms, f.qos, sid);
    let r = subscribe_all(st, c, fs, sid, now, true);
    assert(r.delivery == send_retained(st.delivery, ms, f.qos, sid, true));
    let k = st.delivery.sent.len() + j;
    assert(r.delivery.sent[k] matches BrokerToClientView::Publish(v) && v == retained_publish(ms[j], v.packet_id, f.qos, sid));
}

/// SendOnNewSubscription: subscribing again to a filter the session
/// already has sends no retained messages.
pub proof fn lemma_no_resend_on_repeated_subscription(
    st: SubscribeState,
    c: Seq<char>,
    f: SubscriptionFilterView,
    sid: Option<u32>,
    now: u64,
    connected: bool,
)
    requires
        f.retain_handling == RetainHandling::SendOnNewSubscription,
        st.subs.contains_key(f.topic_filter),
    ensures
        subscribe_all(st, c, seq![f], sid, now, connected).delivery == st.delivery,
{
    let fs = seq![f];
    assert(fs.drop_last() =~= Seq::<SubscriptionFilterView>::empty());
    assert(fs.last() == f);
    assert(subscribe_all(st, c, fs.drop_last(), sid, now, connected) == st);
}

/// Send retained messages to a session (see [`send_retained`]).
fn send_retained_exec(
    s: &mut Session,
    retained: &Vec<RetainedMessage>,
    fq: QoS,
    sid: Option<u32>,
    connected: bool,
    sent: &mut Vec<BrokerToClientMessage>,
)
    ensures
        ({
            let d = send_retained(
                DeliveryState {
                    next: old(s).next_packet_id,
                    inflight: old(s)@.inflight_qos1,
                    sent: client_message_views(old(sent)@),
                },
                retained_views(retained@),
                fq,
                sid,
                connected,
            );
            &&& final(s)@ == (SessionModel { next_packet_id: d.next, inflight_qos1: d.inflight, ..old(s)@ })
            &&& client_message_views(final(sent)@) == d.sent
        }),
        final(s).client_id == old(s).client_id,
        final(s).subscriptions == old(s).subscriptions,
        old(s).next_packet_id != 0 ==> final(s).next_packet_id != 0,
{
    let ghost rv = retained_views(retained@);
    let ghost nz = s.next_packet_id != 0;
    let ghost d0 = DeliveryState {
        next: s.next_packet_id,
        inflight: s@.inflight_qos1,
        sent: client_message_views(sent@),
    };
    let ghost s0 = s@;
    let ghost cid = s.client_id;
    let ghost subs0 = s.subscriptions;
    let mut k: usize = 0;
    while k < retained.len()
        invariant
            k <= retained@.len(),
            rv == retained_views(retained@),
            s.client_id == cid,
            s.subscriptions == subs0,
            nz ==> s.next_packet_id != 0,
            ({
                let d = send_retained(d0, rv.take(k as int), fq, sid, connected);
                &&& s@ == (SessionModel { next_packet_id: d.next, inflight_qos1: d.inflight, ..s0 })
                &&& client_message_views(sent@) == d.sent
            }),
        decreases retained@.len() - k,
    {
        proof {
            assert(rv.take(k + 1).drop_last() =~= rv.take(k as int));
            assert(rv.take(k + 1).last() == rv[k as int]);
        }
        let m = &retained[k];
        assert(m@ == rv[k as int]);
        let pid = s.get_next_packet_id();
        let q = lower_qos(m.qos, fq);
        let p = PendingPublish {
            packet_id: pid,
            topic: m.topic.clone(),
            payload: m.payload.clone(),
            qos: q,
            retain: true,
            subscription_identifier: sid,
            dup: false,
        };
        if connected {
            if q.as_u8() != 0 {
                let ghost m0 = s.inflight_qos1@;
                let c = p.clone();
                s.inflight_qos1.insert(pid, c);
                proof {
                    assert(pending_views(s.inflight_qos1@) =~= pending_views(m0).insert(pid, p@));
                }
            }
            let ghost before = client_message_views(sent@);
            sent.push(BrokerToClientMessage::Publish(p));
            proof {
                assert(client_message_views(sent@) =~= before.push(BrokerToClientView::Publish(p@)));
            }
        }
        k = k + 1;
    }
    assert(rv.take(k as int) =~= rv);
}

/// Byte-wise lexicographic order, the order of `str`.
pub open spec fn bytes_lt(a: Seq<u8>, b: Seq<u8>) -> bool
    decreases a.len(),
{
    if a.len() == 0 {
        b.len() > 0
    } else if b.len() == 0 {
        false
    } else if a[0] != b[0] {
        a[0] < b[0]
    } else {
        bytes_lt(a.skip(1), b.skip(1))
    }
}

/// Whether `x`'s client id comes before `y`'s.
pub open spec fn client_lt(x: SubscriptionView, y: SubscriptionView) -> bool {
    bytes_lt(encode_utf8(x.client_id), encode_utf8(y.client_id))
}

/// A list sorted by client id with `x` added after every member whose
/// client id does not come after it.
pub open spec fn insert_by_client(s: Seq<SubscriptionView>, x: SubscriptionView) -> Seq<SubscriptionView>
    decreases s.len(),
{
    if s.len() == 0 {
        seq![x]
    } else if client_lt(x, s.last()) {
        insert_by_client(s.drop_last(), x).push(s.last())
    } else {
        s.push(x)
    }
}

/// The list sorted by client id, members with equal ids keeping their
/// order (a stable sort).
pub open spec fn sort_by_client(s: Seq<SubscriptionView>) -> Seq<SubscriptionView>
    decreases s.len(),
{
    if s.len() == 0 {
        s
    } else {
        insert_by_client(sort_by_client(s.drop_last()), s.last())
    }
}

/// Whether `a` comes before `b` byte-wise.
fn str_lt(a: &str, b: &str) -> (r: bool)
    ensures
        r == bytes_lt(a.spec_bytes(), b.spec_bytes()),
{
    let x = a.as_bytes();
    let y = b.as_bytes();
    let ghost sa = a.spec_bytes();
    let ghost sb = b.spec_bytes();
    let mut i: usize = 0;
    assert(sa.skip(0) =~= sa && sb.skip(0) =~= sb);
    while i < x.len() && i < y.len()
        invariant
            x@ == sa,
            y@ == sb,
            sa == a.spec_bytes(),
            sb == b.spec_bytes(),
            i <= sa.len(),
            i <= sb.len(),
            bytes_lt(sa, sb) == bytes_lt(sa.skip(i as int), sb.skip(i as int)),
        decreases sa.len() - i,
    {
        proof {
            assert(sa.skip(i as int)[0] == sa[i as int]);
            assert(sb.skip(i as int)[0] == sb[i as int]);
        }
        if x[i] != y[i] {
            assert(sa.skip(i as int).len() > 0 && sb.skip(i as int).len() > 0);
            assert(bytes_lt(sa.skip(i as int), sb.skip(i as int)) == (sa[i as int] < sb[i as int]));
            return x[i] < y[i];
        }
        proof {
            assert(sa.skip(i as int).skip(1) =~= sa.skip(i + 1));
            assert(sb.skip(i as int).skip(1) =~= sb.skip(i + 1));
        }
        i = i + 1;
    }
    assert(bytes_lt(sa.skip(i as int), sb.skip(i as int)) == (i == sa.len() && i < sb.len()));
    i == x.len() && i < y.len()
}

proof fn lemma_insert_by_client(s: Seq<SubscriptionView>, x: SubscriptionView, j: int)
    requires
        0 <= j <= s.len(),
        forall|k: int| j <= k < s.len() ==> client_lt(x, #[trigger] s[k]),
        j == 0 || !client_lt(x, s[j - 1]),
    ensures
        insert_by_client(s, x) == s.insert(j, x),
    decreases s.len(),
{
    if s.len() == 0 {
        assert(s.insert(j, x) =~= seq![x]);
    } else if j == s.len() {
        assert(s.insert(j, x) =~= s.push(x));
    } else {
        assert(client_lt(x, s[s.len() - 1]));
        lemma_insert_by_client(s.drop_last(), x, j);
        assert(s.drop_last().insert(j, x).push(s.last()) =~= s.insert(j, x));
    }
}

/// Sort subscriptions by client id, stably.
fn sort_subscriptions(v: &Vec<Subscription>) -> (r: Vec<Subscription>)
    ensures
        sub_views(r@) == sort_by_client(sub_views(v@)),
{
    let ghost sv = sub_views(v@);
    let mut out: Vec<Subscription> = Vec::new();
    let mut i: usize = 0;
    while i < v.len()
        invariant
            i <= v@.len(),
            sv == sub_views(v@),
            sub_views(out@) == sort_by_client(sv.take(i as int)),
        decreases v@.len() - i,
    {
        let x = v[i].clone();
        let ghost ov = sub_views(out@);
        let mut j: usize = out.len();
        while j > 0 && str_lt(x.client_id.as_str(), out[j - 1].client_id.as_str())
            invariant
                j <= out@.len(),
                ov == sub_views(out@),
                forall|k: int| j <= k < ov.len() ==> client_lt(x@, #[trigger] ov[k]),
            decreases j,
        {
            j = j - 1;
        }
        proof {
            lemma_insert_by_client(ov, x@, j as int);
            assert(sv.take(i + 1).drop_last() =~= sv.take(i as int));
            assert(sv.take(i + 1).last() == x@);
        }
        out.insert(j, x);
        assert(sub_views(out@) =~= ov.insert(j as int, x@));
        i = i + 1;
    }
    assert(sv.take(i as int) =~= sv);
    out
}

proof fn lemma_sort_len(s: Seq<SubscriptionView>)
    ensures
        sort_by_client(s).len() == s.len(),
    decreases s.len(),
{
    if s.len() > 0 {
        lemma_sort_len(s.drop_last());
        lemma_insert_len(sort_by_client(s.drop_last()), s.last());
    }
}

proof fn lemma_insert_len(s: Seq<SubscriptionView>, x: SubscriptionView)
    ensures
        insert_by_client(s, x).len() == s.len() + 1,
    decreases s.len(),
{
    if s.len() > 0 && client_lt(x, s.last()) {
        lemma_insert_len(s.drop_last(), x);
    }
}

/// The round-robin state of shared subscriptions: the cursors by (group,
/// topic), and the members chosen so far.
pub struct ShareState {
    pub cursors: Map<(Seq<char>, Seq<char>), usize>,
    pub chosen: Seq<SubscriptionView>,
}

/// Choosing one member of each matching group, in turn: the members sorted
/// by client id, the one at the group's cursor (modulo their number) is
/// chosen, and the cursor moves on by one.
pub open spec fn pick_shared(st: ShareState, topic: Seq<char>, gs: GroupsView) -> ShareState
    decreases gs.len(),
{
    if gs.len() == 0 {
        st
    } else {
        let prev = pick_shared(st, topic, gs.drop_last());
        let g = gs.last().0;
        let members = gs.last().1;
        if members.len() == 0 {
            prev
        } else {
            let key = (g, topic);
            let cur: int = if prev.cursors.contains_key(key) {
                prev.cursors[key] as int
            } else {
                0
            };
            ShareState {
                cursors: prev.cursors.insert(key, ((cur + 1) % (members.len() as int)) as usize),
                chosen: prev.chosen.push(sort_by_client(members)[cur % (members.len() as int)]),
            }
        }
    }
}

/// The cursor a group's round robin starts from for a topic.
pub open spec fn start_cursor(cursors: Map<(Seq<char>, Seq<char>), usize>, g: Seq<char>, topic: Seq<char>) -> int {
    if cursors.contains_key((g, topic)) {
        cursors[(g, topic)] as int
    } else {
        0
    }
}

/// `k` successive publications to a topic whose one matching shared group
/// is `(g, members)`: the cursors after them, and the member each chose.
pub open spec fn repeated_picks(
    cursors: Map<(Seq<char>, Seq<char>), usize>,
    topic: Seq<char>,
    g: Seq<char>,
    members: Seq<SubscriptionView>,
    k: nat,
) -> ShareState
    decreases k,
{
    if k == 0 {
        ShareState { cursors, chosen: Seq::empty() }
    } else {
        pick_shared(repeated_picks(cursors, topic, g, members, (k - 1) as nat), topic, seq![(g, members)])
    }
}

/// Round robin: the `i`-th of successive publications to a shared group's
/// topic goes to the member at position `(start + i) mod n` of the `n`
/// members sorted by client id.
pub proof fn lemma_round_robin_order(
    cursors: Map<(Seq<char>, Seq<char>), usize>,
    topic: Seq<char>,
    g: Seq<char>,
    members: Seq<SubscriptionView>,
    k: nat,
)
    requires
        0 < members.len() <= usize::MAX,
    ensures
        repeated_picks(cursors, topic, g, members, k).chosen.len() == k,
        forall|i: int|
            0 <= i < k ==> #[trigger] repeated_picks(cursors, topic, g, members, k).chosen[i] == sort_by_client(
                members,
            )[(start_cursor(cursors, g, topic) + i) % (members.len() as int)],
        k > 0 ==> repeated_picks(cursors, topic, g, members, k).cursors.contains_key((g, topic))
            && repeated_picks(cursors, topic, g, members, k).cursors[(g, topic)] as int == (start_cursor(
            cursors,
            g,
            topic,
        ) + k) % (members.len() as int),
    decreases k,
{
    let n = members.len() as int;
    let c0 = start_cursor(cursors, g, topic);
    if k > 0 {
        lemma_round_robin_order(cursors, topic, g, members, (k - 1) as nat);
        let prev = repeated_picks(cursors, topic, g, members, (k - 1) as nat);
        let gs = seq![(g, members)];
        assert(gs.drop_last() =~= Seq::<(Seq<char>, Seq<SubscriptionView>)>::empty());
        assert(gs.last() == (g, members));
        let cur = start_cursor(prev.cursors, g, topic);
        if k == 1 {
            assert(prev.cursors == cursors);
            assert(cur == c0);
        } else {
            assert(cur == (c0 + k - 1) % n);
            vstd::arithmetic::div_mod::lemma_mod_bound(c0 + k - 1, n);
            vstd::arithmetic::div_mod::lemma_mod_twice(c0 + k - 1, n);
        }
        assert(cur % n == (c0 + k - 1) % n) by {
            vstd::arithmetic::div_mod::lemma_mod_twice(c0 + k - 1, n);
        }
        assert((cur + 1) % n == (c0 + k) % n) by {
            vstd::arithmetic::div_mod::lemma_add_mod_noop(cur, 1, n);
            vstd::arithmetic::div_mod::lemma_add_mod_noop(c0 + k - 1, 1, n);
            vstd::arithmetic::div_mod::lemma_mod_twice(c0 + k - 1, n);
        }
        vstd::arithmetic::div_mod::lemma_mod_bound(cur + 1, n);
        assert((((cur + 1) % n) as usize) as int == (cur + 1) % n);
        assert(pick_shared(prev, topic, gs.drop_last()) == prev);
        let now_st = repeated_picks(cursors, topic, g, members, k);
        assert(now_st == ShareState {
            cursors: prev.cursors.insert((g, topic), ((cur + 1) % n) as usize),
            chosen: prev.chosen.push(sort_by_client(members)[cur % n]),
        });
        assert forall|i: int| 0 <= i < k implies #[trigger] now_st.chosen[i] == sort_by_client(members)[(c0 + i) % n] by {
            if i < k - 1 {
                assert(now_st.chosen[i] == prev.chosen[i]);
            }
        }
    }
}

proof fn lemma_insert_contains(s: Seq<SubscriptionView>, y: SubscriptionView, z: SubscriptionView)
    ensures
        insert_by_client(s, y).contains(z) <==> (s.contains(z) || z == y),
    decreases s.len(),
{
    if s.len() == 0 {
        assert(insert_by_client(s, y) =~= seq![y]);
        assert(seq![y][0] == y);
    } else if client_lt(y, s.last()) {
        lemma_insert_contains(s.drop_last(), y, z);
        let t = insert_by_client(s.drop_last(), y);
        assert(s =~= s.drop_last().push(s.last()));
        if t.push(s.last()).contains(z) {
            let i = choose|i: int| 0 <= i < t.push(s.last()).len() && t.push(s.last())[i] == z;
            if i < t.len() {
                assert(t[i] == z);
                assert(t.contains(z));
            } else {
                assert(s[s.len() - 1] == z);
            }
        }
        if s.contains(z) {
            let i = choose|i: int| 0 <= i < s.len() && s[i] == z;
            if i < s.len() - 1 {
                assert(s.drop_last()[i] == z);
                assert(t.contains(z));
                let j = choose|j: int| 0 <= j < t.len() && t[j] == z;
                assert(t.push(s.last())[j] == z);
            } else {
                assert(t.push(s.last())[t.len() as int] == z);
            }
        }
        if z == y {
            assert(t.contains(z));
            let j = choose|j: int| 0 <= j < t.len() && t[j] == z;
            assert(t.push(s.last())[j] == z);
        }
    } else {
        if s.push(y).contains(z) {
            let i = choose|i: int| 0 <= i < s.push(y).len() && s.push(y)[i] == z;
            if i < s.len() {
                assert(s[i] == z);
            }
        }
        if s.contains(z) {
            let i = choose|i: int| 0 <= i < s.len() && s[i] == z;
            assert(s.push(y)[i] == z);
        }
        if z == y {
            assert(s.push(y)[s.len() as int] == z);
        }
    }
}

proof fn lemma_sort_contains(s: Seq<SubscriptionView>, z: SubscriptionView)
    ensures
        sort_by_client(s).contains(z) <==> s.contains(z),
    decreases s.len(),
{
    if s.len() > 0 {
        lemma_sort_contains(s.drop_last(), z);
        lemma_insert_contains(sort_by_client(s.drop_last()), s.last(), z);
        assert(s =~= s.drop_last().push(s.last()));
        if s.contains(z) {
            let i = choose|i: int| 0 <= i < s.len() && s[i] == z;
            if i < s.len() - 1 {
                assert(s.drop_last()[i] == z);
            }
        }
        if s.drop_last().contains(z) {
            let i = choose|i: int| 0 <= i < s.drop_last().len() && s.drop_last()[i] == z;
            assert(s[i] == z);
        }
    }
}

/// Round robin is fair: of any `n` successive publications to a shared
/// group of `n` members, every member receives one.
pub proof fn lemma_round_robin_fair(
    cursors: Map<(Seq<char>, Seq<char>), usize>,
    topic: Seq<char>,
    g: Seq<char>,
    members: Seq<SubscriptionView>,
    x: SubscriptionView,
)
    requires
        members.contains(x),
        members.len() <= usize::MAX,
    ensures
        repeated_picks(cursors, topic, g, members, members.len()).chosen.contains(x),
{
    let n = members.len() as int;
    let c0 = start_cursor(cursors, g, topic);
    lemma_round_robin_order(cursors, topic, g, members, members.len());
    lemma_sort_contains(members, x);
    lemma_sort_len(members);
    let sorted = sort_by_client(members);
    let j = choose|j: int| 0 <= j < sorted.len() && sorted[j] == x;
    let i = (j - c0) % n;
    vstd::arithmetic::div_mod::lemma_mod_bound(j - c0, n);
    assert((c0 + i) % n == j) by {
        vstd::arithmetic::div_mod::lemma_add_mod_noop_right(c0, j - c0, n);
        vstd::arithmetic::div_mod::lemma_small_mod(j as nat, n as nat);
    }
    let chosen = repeated_picks(cursors, topic, g, members, members.len()).chosen;
    assert(chosen[i] == x);
}

/// Where the cursor of (group, topic) is in the list, if there is one.
fn find_cursor(cursors: &Vec<(String, String, usize)>, group: &str, topic: &str) -> (r: Option<usize>)
    requires
        keys_distinct(cursor_entries(cursors@)),
    ensures
        match r {
            Some(i) => i < cursors@.len() && cursors@[i as int].0@ == group@ && cursors@[i as int].1@ == topic@
                && key_map(cursor_entries(cursors@)).contains_key((group@, topic@))
                && key_map(cursor_entries(cursors@))[(group@, topic@)] == cursors@[i as int].2,
            None => !key_map(cursor_entries(cursors@)).contains_key((group@, topic@))
                && !has_key(cursor_entries(cursors@), (group@, topic@)),
        },
{
    let ghost e = cursor_entries(cursors@);
    let mut i: usize = 0;
    while i < cursors.len()
        invariant
            i <= cursors@.len(),
            e == cursor_entries(cursors@),
            keys_distinct(e),
            forall|j: int| 0 <= j < i ==> (cursors@[j].0@, cursors@[j].1@) != (group@, topic@),
        decreases cursors@.len() - i,
    {
        if str_eq(cursors[i].0.as_str(), group) && str_eq(cursors[i].1.as_str(), topic) {
            proof {
                assert(e[i as int] == ((cursors@[i as int].0@, cursors@[i as int].1@), cursors@[i as int].2));
                lemma_key_index(e, i as int);
            }
            return Some(i);
        }
        i = i + 1;
    }
    proof {
        assert(!has_key(e, (group@, topic@))) by {
            if has_key(e, (group@, topic@)) {
                let j = choose|j: int| 0 <= j < e.len() && e[j].0 == (group@, topic@);
                assert(e[j].0 == (cursors@[j].0@, cursors@[j].1@));
            }
        }
    }
    None
}

/// Choose one member of each group (see [`pick_shared`]).
fn pick_shared_exec(
    cursors: &mut Vec<(String, String, usize)>,
    topic: &str,
    groups: &Vec<(String, Vec<Subscription>)>,
    chosen: &mut Vec<Subscription>,
)
    requires
        keys_distinct(cursor_entries(old(cursors)@)),
    ensures
        keys_distinct(cursor_entries(final(cursors)@)),
        ({
            let st = pick_shared(
                ShareState { cursors: key_map(cursor_entries(old(cursors)@)), chosen: sub_views(old(chosen)@) },
                topic@,
                groups_view(groups@),
            );
            &&& key_map(cursor_entries(final(cursors)@)) == st.cursors
            &&& sub_views(final(chosen)@) == st.chosen
        }),
{
    let ghost gv = groups_view(groups@);
    let ghost st0 = ShareState { cursors: key_map(cursor_entries(cursors@)), chosen: sub_views(chosen@) };
    let mut k: usize = 0;
    assert(gv.take(0) =~= Seq::<(Seq<char>, Seq<SubscriptionView>)>::empty());
    while k < groups.len()
        invariant
            k <= groups@.len(),
            gv == groups_view(groups@),
            keys_distinct(cursor_entries(cursors@)),
            ({
                let st = pick_shared(st0, topic@, gv.take(k as int));
                &&& key_map(cursor_entries(cursors@)) == st.cursors
                &&& sub_views(chosen@) == st.chosen
            }),
        decreases groups@.len() - k,
    {
        proof {
            assert(gv.take(k + 1).drop_last() =~= gv.take(k as int));
            assert(gv.take(k + 1).last() == gv[k as int]);
        }
        let name = &groups[k].0;
        let members = &groups[k].1;
        assert(gv[k as int] == (name@, sub_views(members@)));
        let n = members.len();
        if n > 0 {
            let sorted = sort_subscriptions(members);
            proof {
                lemma_sort_len(sub_views(members@));
            }
            let ghost ce = cursor_entries(cursors@);
            let found = find_cursor(cursors, name.as_str(), topic);
            let cur: usize = match found {
                Some(i) => cursors[i].2,
                None => 0,
            };
            let idx = cur % n;
            let next = (idx + 1) % n;
            proof {
                vstd::arithmetic::div_mod::lemma_add_mod_noop(cur as int, 1, n as int);
                if n > 1 {
                    vstd::arithmetic::div_mod::lemma_small_mod(1, n as nat);
                }
                assert(next as int == (cur as int + 1) % (n as int));
            }
            let pick = sorted[idx].clone();
            let ghost before = sub_views(chosen@);
            chosen.push(pick);
            assert(sub_views(chosen@) =~= before.push(sub_views(sorted@)[idx as int]));
            match found {
                Some(i) => {
                    let entry = (cursors[i].0.clone(), cursors[i].1.clone(), next);
                    cursors.set(i, entry);
                    proof {
                        assert(cursor_entries(cursors@) =~= ce.update(i as int, ((name@, topic@), next)));
                        lemma_key_map_update(ce, i as int, ((name@, topic@), next));
                    }
                },
                None => {
                    cursors.push((name.clone(), topic.to_owned(), next));
                    proof {
                        assert(cursor_entries(cursors@) =~= ce.push(((name@, topic@), next)));
                        lemma_key_map_push(ce, ((name@, topic@), next));
                    }
                },
            }
        }
        k = k + 1;
    }
    assert(gv.take(k as int) =~= gv);
}

/// The routing of a PUBLISH so far: sessions, deliveries to connected
/// clients, and the subscriptions that owe an acknowledgement.
pub struct RouteState {
    pub sessions: Map<Seq<char>, SessionModel>,
    pub out: Seq<(Seq<char>, BrokerToClientView)>,
    pub acks: Seq<SubscriptionView>,
}

/// Routing a published message to one subscription.  A no-local
/// subscription of the publisher, or one without a session, gets nothing.
/// The message goes at the lower of the two QoS levels, above QoS 0 with
/// the session's next packet identifier (and owes an acknowledgement).  A
/// connected client is sent it and keeps it in flight by QoS; a
/// disconnected persistent session queues it.
pub open spec fn route_one(
    st: RouteState,
    publisher: Seq<char>,
    topic: Seq<char>,
    payload: Seq<u8>,
    qos: QoS,
    retain: bool,
    x: SubscriptionView,
) -> RouteState {
    let c = x.client_id;
    if (x.no_local && c == publisher) || !st.sessions.contains_key(c) {
        st
    } else {
        let s = st.sessions[c];
        let dq = min_qos(qos, x.qos);
        let queued = dq != QoS::AtMostOnce;
        let pid: u16 = if queued {
            s.next_packet_id
        } else {
            0
        };
        let p = PendingView {
            packet_id: pid,
            topic,
            payload,
            qos: dq,
            retain: x.retain_as_published && retain,
            subscription_identifier: x.subscription_identifier,
            dup: false,
        };
        let s1 = SessionModel {
            next_packet_id: if queued {
                next_id(s.next_packet_id)
            } else {
                s.next_packet_id
            },
            ..s
        };
        let s2 = if s.is_connected {
            SessionModel {
                inflight_qos1: if dq == QoS::AtLeastOnce {
                    s1.inflight_qos1.insert(pid, p)
                } else {
                    s1.inflight_qos1
                },
                inflight_qos2: if dq == QoS::ExactlyOnce {
                    s1.inflight_qos2.insert(pid, p)
                } else {
                    s1.inflight_qos2
                },
                ..s1
            }
        } else if !s.clean_session {
            SessionModel { offline_queue: s1.offline_queue.push(SessionMessageView::Publish(p)), ..s1 }
        } else {
            s1
        };
        RouteState {
            sessions: st.sessions.insert(c, s2),
            out: if s.is_connected {
                st.out.push((c, BrokerToClientView::Publish(p)))
            } else {
                st.out
            },
            acks: if queued {
                st.acks.push(x)
            } else {
                st.acks
            },
        }
    }
}

/// Routing a published message to the subscriptions one after another.
pub open spec fn route_all(
    st: RouteState,
    publisher: Seq<char>,
    topic: Seq<char>,
    payload: Seq<u8>,
    qos: QoS,
    retain: bool,
    xs: Seq<SubscriptionView>,
) -> RouteState
    decreases xs.len(),
{
    if xs.len() == 0 {
        st
    } else {
        route_one(route_all(st, publisher, topic, payload, qos, retain, xs.drop_last()), publisher, topic, payload, qos, retain, xs.last())
    }
}

/// A subscription with the no-local option gets nothing of what its own
/// client publishes.
pub proof fn lemma_no_local(
    st: RouteState,
    topic: Seq<char>,
    payload: Seq<u8>,
    qos: QoS,
    retain: bool,
    x: SubscriptionView,
)
    requires
        x.no_local,
    ensures
        route_one(st, x.client_id, topic, payload, qos, retain, x) == st,
{
}

/// A persistent session whose client is away keeps what is published for
/// it: the message is queued, nothing is sent, and the next CONNECT hands
/// the queue out (see [`Broker::handle_connect`]).
pub proof fn lemma_offline_publish_queued(
    st: RouteState,
    publisher: Seq<char>,
    topic: Seq<char>,
    payload: Seq<u8>,
    qos: QoS,
    retain: bool,
    x: SubscriptionView,
)
    requires
        st.sessions.contains_key(x.client_id),
        !st.sessions[x.client_id].is_connected,
        !st.sessions[x.client_id].clean_session,
        !(x.no_local && x.client_id == publisher),
    ensures
        ({
            let r = route_one(st, publisher, topic, payload, qos, retain, x);
            let s = st.sessions[x.client_id];
            let dq = min_qos(qos, x.qos);
            &&& r.out == st.out
            &&& r.sessions[x.client_id].offline_queue == s.offline_queue.push(
                SessionMessageView::Publish(
                    PendingView {
                        packet_id: if dq == QoS::AtMostOnce {
                            0
                        } else {
                            s.next_packet_id
                        },
                        topic,
                        payload,
                        qos: dq,
                        retain: x.retain_as_published && retain,
                        subscription_identifier: x.subscription_identifier,
                        dup: false,
                    },
                ),
            )
        }),
{
}

/// A connected subscriber is sent what is published for it, at once: on
/// the topic, with the payload, at the lower of the two QoS levels, above
/// QoS 0 with its session's next packet identifier, and with the RETAIN flag
/// only where the subscription asks for retain-as-published and the
/// message was published retained, as in the offline queue.  Nothing else is
/// sent.
pub proof fn lemma_connected_delivery(
    st: RouteState,
    publisher: Seq<char>,
    topic: Seq<char>,
    payload: Seq<u8>,
    qos: QoS,
    retain: bool,
    x: SubscriptionView,
)
    requires
        st.sessions.contains_key(x.client_id),
        st.sessions[x.client_id].is_connected,
        !(x.no_local && x.client_id == publisher),
    ensures
        ({
            let r = route_one(st, publisher, topic, payload, qos, retain, x);
            let s = st.sessions[x.client_id];
            let dq = min_qos(qos, x.qos);
            r.out == st.out.push(
                (
                    x.client_id,
                    BrokerToClientView::Publish(
                        PendingView {
                            packet_id: if dq == QoS::AtMostOnce {
                                0
                            } else {
                                s.next_packet_id
                            },
                            topic,
                            payload,
                            qos: dq,
                            retain: x.retain_as_published && retain,
                            subscription_identifier: x.subscription_identifier,
                            dup: false,
                        },
                    ),
                ),
            )
        }),
{
}

proof fn lemma_route_all_keeps(
    st: RouteState,
    publisher: Seq<char>,
    topic: Seq<char>,
    payload: Seq<u8>,
    qos: QoS,
    retain: bool,
    xs: Seq<SubscriptionView>,
)
    ensures
        ({
            let r = route_all(st, publisher, topic, payload, qos, retain, xs);
            &&& r.out.len() >= st.out.len()
            &&& forall|i: int| 0 <= i < st.out.len() ==> #[trigger] r.out[i] == st.out[i]
            &&& forall|c: Seq<char>| #[trigger] st.sessions.contains_key(c) ==> r.sessions.contains_key(c)
                && r.sessions[c].is_connected == st.sessions[c].is_connected
        }),
    decreases xs.len(),
{
    if xs.len() > 0 {
        lemma_route_all_keeps(st, publisher, topic, payload, qos, retain, xs.drop_last());
    }
}

proof fn lemma_route_all_split(
    st: RouteState,
    publisher: Seq<char>,
    topic: Seq<char>,
    payload: Seq<u8>,
    qos: QoS,
    retain: bool,
    a: Seq<SubscriptionView>,
    b: Seq<SubscriptionView>,
)
    ensures
        route_all(st, publisher, topic, payload, qos, retain, a + b) == route_all(
            route_all(st, publisher, topic, payload, qos, retain, a),
            publisher,
            topic,
            payload,
            qos,
            retain,
            b,
        ),
    decreases b.len(),
{
    if b.len() == 0 {
        assert(a + b =~= a);
    } else {
        lemma_route_all_split(st, publisher, topic, payload, qos, retain, a, b.drop_last());
        assert((a + b).drop_last() =~= a + b.drop_last());
        assert((a + b).last() == b.last());
    }
}

/// A subscriber gets what is published to its filter: a connected client
/// whose plain subscription's filter matches the topic is sent the message,
/// on the topic, with its payload, at the lower of the two QoS levels, and
/// retained only where the subscription keeps RETAIN as published and the
/// message was published retained; unless the subscription is no-local and the client published it.
pub proof fn lemma_subscriber_receives(
    trie: TopicTrie,
    sessions: Map<Seq<char>, SessionModel>,
    cursors: Map<(Seq<char>, Seq<char>), usize>,
    publisher: Seq<char>,
    topic: Seq<char>,
    payload: Seq<u8>,
    qos: QoS,
    retain: bool,
    p: Seq<Seq<u8>>,
    c: Seq<char>,
)
    requires
        trie.regular().contains_key((p, c)),
        path_matches(p, split_levels(encode_utf8(topic)), starts_with_dollar(encode_utf8(topic))),
        sessions.contains_key(c),
        sessions[c].is_connected,
        !(trie.regular()[(p, c)].no_local && c == publisher),
    ensures
        ({
            let x = trie.regular()[(p, c)];
            let ps = pick_shared(ShareState { cursors, chosen: Seq::empty() }, topic, trie.matching_groups(topic));
            let rs = route_all(
                RouteState { sessions, out: Seq::empty(), acks: Seq::empty() },
                publisher,
                topic,
                payload,
                qos,
                retain,
                trie.matching(topic) + ps.chosen,
            );
            exists|i: int|
                0 <= i < rs.out.len() && (#[trigger] rs.out[i]).0 == c && (rs.out[i].1 matches BrokerToClientView::Publish(v)
                    && v.topic == topic && v.payload == payload && v.qos == min_qos(qos, x.qos)
                    && v.retain == (x.retain_as_published && retain))
        }),
{
    lemma_matching_contains(trie, p, c, topic);
    let x = trie.regular()[(p, c)];
    let ps = pick_shared(ShareState { cursors, chosen: Seq::empty() }, topic, trie.matching_groups(topic));
    let xs = trie.matching(topic) + ps.chosen;
    let st = RouteState { sessions, out: Seq::empty(), acks: Seq::empty() };
    let j = choose|j: int| 0 <= j < trie.matching(topic).len() && trie.matching(topic)[j] == x;
    assert(xs[j] == x);
    let before = xs.take(j);
    let after = xs.skip(j + 1);
    assert(xs =~= before.push(x) + after);
    lemma_route_all_split(st, publisher, topic, payload, qos, retain, before.push(x), after);
    let mid = route_all(st, publisher, topic, payload, qos, retain, before);
    lemma_route_all_keeps(st, publisher, topic, payload, qos, retain, before);
    assert(before.push(x).drop_last() =~= before);
    let one = route_all(st, publisher, topic, payload, qos, retain, before.push(x));
    assert(one == route_one(mid, publisher, topic, payload, qos, retain, x));
    let k = mid.out.len() as int;
    assert(one.out[k].0 == c);
    lemma_route_all_keeps(one, publisher, topic, payload, qos, retain, after);
    let rs = route_all(one, publisher, topic, payload, qos, retain, after);
    assert(rs.out[k] == one.out[k]);
}

/// Whether every PUBLISH among the deliveries carries a non-zero packet
/// identifier exactly when it goes above QoS 0.
pub open spec fn ids_fit_qos(out: Seq<(Seq<char>, BrokerToClientView)>) -> bool {
    forall|i: int|
        0 <= i < out.len() ==> ((#[trigger] out[i]).1 matches BrokerToClientView::Publish(v) ==> (v.packet_id
            != 0 <==> v.qos != QoS::AtMostOnce))
}

/// Routed messages above QoS 0 carry a non-zero packet identifier and QoS 0
/// messages carry none, as long as the sessions' next identifiers are
/// non-zero (which every handler of [`Broker`] finds them to be).
pub proof fn lemma_routed_ids_nonzero(
    st: RouteState,
    publisher: Seq<char>,
    topic: Seq<char>,
    payload: Seq<u8>,
    qos: QoS,
    retain: bool,
    xs: Seq<SubscriptionView>,
)
    requires
        ids_nonzero(st.sessions),
        ids_fit_qos(st.out),
    ensures
        ids_nonzero(route_all(st, publisher, topic, payload, qos, retain, xs).sessions),
        ids_fit_qos(route_all(st, publisher, topic, payload, qos, retain, xs).out),
    decreases xs.len(),
{
    if xs.len() > 0 {
        lemma_routed_ids_nonzero(st, publisher, topic, payload, qos, retain, xs.drop_last());
        let prev = route_all(st, publisher, topic, payload, qos, retain, xs.drop_last());
        let r = route_one(prev, publisher, topic, payload, qos, retain, xs.last());
        let c = xs.last().client_id;
        if prev.sessions.contains_key(c) {
            assert(prev.sessions[c].next_packet_id != 0);
        }
        assert forall|d: Seq<char>| #[trigger] r.sessions.contains_key(d) implies r.sessions[d].next_packet_id != 0 by {
            if d != c {
                assert(prev.sessions.contains_key(d));
            }
        }
        assert forall|i: int| 0 <= i < r.out.len() implies ((#[trigger] r.out[i]).1 matches BrokerToClientView::Publish(v) ==> (v.packet_id
            != 0 <==> v.qos != QoS::AtMostOnce)) by {
            if i < prev.out.len() {
                assert(r.out[i] == prev.out[i]);
            }
        }
    }
}

/// The views of a list of (client id, message) deliveries.
pub open spec fn delivery_views(s: Seq<(String, BrokerToClientMessage)>) -> Seq<(Seq<char>, BrokerToClientView)> {
    s.map_values(|d: (String, BrokerToClientMessage)| (d.0@, d.1@))
}

/// Route a published message to one subscription (see [`route_one`]).
fn deliver_one(
    sessions: &mut Vec<Session>,
    publisher: &str,
    topic: &str,
    payload: &Vec<u8>,
    qos: QoS,
    retain: bool,
    x: &Subscription,
    out: &mut Vec<(String, BrokerToClientMessage)>,
    acks: &mut Vec<Subscription>,
)
    requires
        keys_distinct(session_entries(old(sessions)@)),
    ensures
        keys_distinct(session_entries(final(sessions)@)),
        final(sessions)@.len() == old(sessions)@.len(),
        forall|j: int| 0 <= j < old(sessions)@.len() ==> (#[trigger] final(sessions)@[j]).subscriptions == old(sessions)@[j].subscriptions,
        ids_nonzero_seq(old(sessions)@) ==> ids_nonzero_seq(final(sessions)@),
        ({
            let st = route_one(
                RouteState {
                    sessions: key_map(session_entries(old(sessions)@)),
                    out: delivery_views(old(out)@),
                    acks: sub_views(old(acks)@),
                },
                publisher@,
                topic@,
                payload@,
                qos,
                retain,
                x@,
            );
            &&& key_map(session_entries(final(sessions)@)) == st.sessions
            &&& delivery_views(final(out)@) == st.out
            &&& sub_views(final(acks)@) == st.acks
        }),
{
    if x.no_local && str_eq(x.client_id.as_str(), publisher) {
        return;
    }
    let dq = lower_qos(qos, x.qos);
    let ghost e = session_entries(sessions@);
    let ghost old_sessions = sessions@;
    let found = find_session(sessions, x.client_id.as_str());
    let i = match found {
        Some(i) => i,
        None => {
            return;
        },
    };
    let mut s = sessions.remove(i);
    let ghost s0 = s@;
    let queued = dq.as_u8() != 0;
    let pid: u16 = if queued {
        s.get_next_packet_id()
    } else {
        0
    };
    let p = PendingPublish {
        packet_id: pid,
        topic: topic.to_owned(),
        payload: payload.clone(),
        qos: dq,
        retain: x.retain_as_published && retain,
        subscription_identifier: x.subscription_identifier,
        dup: false,
    };
    let ghost pv = p@;
    if queued {
        let ghost before = sub_views(acks@);
        acks.push(x.clone());
        assert(sub_views(acks@) =~= before.push(x@));
    }
    if s.is_connected {
        if dq.as_u8() == 1 {
            let ghost m0 = s.inflight_qos1@;
            s.inflight_qos1.insert(pid, p.clone());
            assert(pending_views(s.inflight_qos1@) =~= pending_views(m0).insert(pid, pv));
        } else if dq.as_u8() == 2 {
            let ghost m0 = s.inflight_qos2@;
            s.inflight_qos2.insert(pid, p.clone());
            assert(pending_views(s.inflight_qos2@) =~= pending_views(m0).insert(pid, pv));
        }
        let ghost before = delivery_views(out@);
        out.push((x.client_id.clone(), BrokerToClientMessage::Publish(p)));
        assert(delivery_views(out@) =~= before.push((x@.client_id, BrokerToClientView::Publish(pv))));
    } else if !s.clean_session {
        let ghost q0 = s.offline_queue@;
        s.offline_queue.push(SessionMessage::Publish(p));
        assert(message_views(s.offline_queue@) =~= message_views(q0).push(SessionMessageView::Publish(pv)));
    }
    sessions.insert(i, s);
    proof {
        assert(session_entries(sessions@) =~= e.update(i as int, (x@.client_id, s@)));
        lemma_key_map_update(e, i as int, (x@.client_id, s@));
        assert(sessions@[i as int] == s);
        assert forall|j: int| 0 <= j < old_sessions.len() implies (#[trigger] sessions@[j]).subscriptions == old_sessions[j].subscriptions by {
            if j != i {
                assert(sessions@[j] == old_sessions[j]);
            }
        }
        if ids_nonzero_seq(old_sessions) {
            assert(old_sessions[i as int].next_packet_id != 0);
            assert forall|j: int| 0 <= j < sessions@.len() implies (#[trigger] sessions@[j]).next_packet_id != 0 by {
                if j != i {
                    assert(sessions@[j] == old_sessions[j]);
                }
            }
        }
    }
}

/// What PUBLISH asks of the I/O layer.
#[derive(Debug)]
pub struct PublishOutcome {
    /// Messages for connected subscribers, by client id, in order.
    pub deliveries: Vec<(String, BrokerToClientMessage)>,
    /// The subscriptions the message goes to above QoS 0, if any.
    pub acks: Option<Vec<Subscription>>,
}

/// Every session's next packet identifier is non-zero.
pub open spec fn ids_nonzero(m: Map<Seq<char>, SessionModel>) -> bool {
    forall|c: Seq<char>| #[trigger] m.contains_key(c) ==> m[c].next_packet_id != 0
}

/// Every session in the list has a non-zero next packet identifier.
pub open spec fn ids_nonzero_seq(s: Seq<Session>) -> bool {
    forall|i: int| 0 <= i < s.len() ==> (#[trigger] s[i]).next_packet_id != 0
}

proof fn lemma_ids_nonzero_map(s: Seq<Session>)
    requires
        ids_nonzero_seq(s),
    ensures
        ids_nonzero(key_map(session_entries(s))),
{
    let e = session_entries(s);
    assert forall|c: Seq<char>| #[trigger] key_map(e).contains_key(c) implies key_map(e)[c].next_packet_id != 0 by {
        let k = crate::broker::keyed::key_index(e, c);
        assert(0 <= k < e.len() && e[k].1 == s[k]@);
    }
}

/// Whether the expiry time a disconnect at `now` starts for the client's
/// session fits the clock.
pub open spec fn expiry_fits(m: Map<Seq<char>, SessionModel>, c: Seq<char>, now: u64) -> bool {
    m.contains_key(c) && expires_after(m[c].session_expiry_interval) ==> now + m[c].session_expiry_interval->0
        <= u64::MAX
}

/// What CONNECT of client `c` does, from broker `o` to broker `n`, with
/// the outcome's flags and queued messages.  An earlier connection of the
/// client is evicted.  A clean start drops the old session and its
/// subscriptions; otherwise the old session carries over.  The session is
/// marked connected and the messages queued for it are handed out.
pub open spec fn connect_step(
    o: Broker,
    n: Broker,
    c: Seq<char>,
    clean_session: bool,
    session_expiry_interval: Option<u32>,
    evicted: bool,
    session_present: bool,
    queued: Seq<BrokerToClientView>,
) -> bool {
    let os = o.sessions();
    let base = if clean_session || !os.contains_key(c) {
        fresh_session(c, clean_session, session_expiry_interval)
    } else {
        os[c]
    };
    &&& evicted == (os.contains_key(c) && os[c].is_connected)
    &&& session_present == (os.contains_key(c) && !clean_session)
    &&& queued == base.offline_queue.map_values(|m: SessionMessageView| queued_to_client(m))
    &&& n.sessions() == os.insert(
        c,
        SessionModel { is_connected: true, session_expiry_time: None, offline_queue: Seq::empty(), ..base },
    )
    &&& if clean_session && os.contains_key(c) {
        &&& n.trie().regular() == o.trie().regular().remove_keys(regular_keys(c, os[c].subscriptions.dom()))
        &&& n.trie().shared() == o.trie().shared().remove_keys(shared_keys(c, os[c].subscriptions.dom()))
    } else {
        n.trie() == o.trie()
    }
    &&& n.retained() == o.retained()
    &&& n.retained_entries() == o.retained_entries()
    &&& n.cursors() == o.cursors()
    &&& n.authenticator() == o.authenticator()
    &&& n.config() == o.config()
}

/// What CONNECT asks of the I/O layer.
#[derive(Debug)]
pub struct ConnectOutcome {
    /// The client was connected already: its earlier connection ends.
    pub evicted: bool,
    /// The session carries over from before (CONNACK's Session Present).
    pub session_present: bool,
    /// Messages kept while the client was away, to send now, in order.
    pub queued: Vec<BrokerToClientMessage>,
}

/// The MQTT broker's state.  A client is connected exactly when its
/// session is marked connected; the I/O layer keeps the connections.
pub struct Broker {
    config: Config,
    topic_trie: TopicTrie,
    retained_store: RetainedStore,
    sessions: Vec<Session>,
    /// Round-robin cursors of shared subscriptions by (group, topic).
    shared_cursors: Vec<(String, String, usize)>,
    auth: ConfiguredAuthenticator,
}

impl Broker {
    /// No client has two sessions, no session two subscriptions to one
    /// filter, no (group, topic) two cursors.
    #[verifier::type_invariant]
    spec fn inv(self) -> bool {
        &&& keys_distinct(session_entries(self.sessions@))
        &&& forall|i: int| 0 <= i < self.sessions@.len() ==> keys_distinct(filter_entries(#[trigger] self.sessions@[i].subscriptions@))
        &&& keys_distinct(cursor_entries(self.shared_cursors@))
        &&& ids_nonzero_seq(self.sessions@)
    }

    /// The sessions by client id.
    pub closed spec fn sessions(&self) -> Map<Seq<char>, SessionModel> {
        key_map(session_entries(self.sessions@))
    }

    /// The subscription trie.
    pub closed spec fn trie(&self) -> TopicTrie {
        self.topic_trie
    }

    /// The retained messages by topic.
    pub closed spec fn retained(&self) -> Map<Seq<char>, RetainedView> {
        self.retained_store.messages()
    }

    /// The retained messages in the order they were first retained.
    pub closed spec fn retained_entries(&self) -> Seq<RetainedView> {
        self.retained_store.entries()
    }

    /// The shared-subscription cursors by (group, topic).
    pub closed spec fn cursors(&self) -> Map<(Seq<char>, Seq<char>), usize> {
        key_map(cursor_entries(self.shared_cursors@))
    }

    /// The configuration the broker was made with.
    pub closed spec fn config(&self) -> Config {
        self.config
    }

    /// The authenticator of the configuration.
    pub closed spec fn authenticator(&self) -> ConfiguredAuthenticator {
        self.auth
    }

    /// A broker with no sessions, subscriptions or retained messages, and
    /// the authenticator the configuration selects.
    pub fn new(config: Config) -> (r: Self)
        ensures
            r.sessions() == Map::<Seq<char>, SessionModel>::empty(),
            r.trie().regular() == RegularMap::empty(),
            r.trie().shared() == SharedMap::empty(),
            r.retained() == Map::<Seq<char>, RetainedView>::empty(),
            r.cursors() == Map::<(Seq<char>, Seq<char>), usize>::empty(),
            r.config() == config,
            config.auth_mode == AuthMode::Anonymous ==> r.authenticator() is Anonymous,
            config.auth_mode == AuthMode::Basic ==> (r.authenticator() matches ConfiguredAuthenticator::Basic(b)
                && b.passwords() == user_map(user_pairs(config.users@))),
            config.auth_mode == AuthMode::Token ==> (r.authenticator() matches ConfiguredAuthenticator::Token(t)
                && t.token_set() == string_seq(config.tokens@).to_set()),
    {
        let auth = create_authenticator(&config);
        let sessions: Vec<Session> = Vec::new();
        let shared_cursors: Vec<(String, String, usize)> = Vec::new();
        proof {
            lemma_key_map_empty(session_entries(sessions@));
            lemma_key_map_empty(cursor_entries(shared_cursors@));
        }
        Broker {
            config,
            topic_trie: TopicTrie::new(),
            retained_store: RetainedStore::new(),
            sessions,
            shared_cursors,
            auth,
        }
    }

    /// The authenticator that checks CONNECT's credentials.
    pub fn auth_manager(&self) -> (r: &ConfiguredAuthenticator)
        ensures
            *r == self.authenticator(),
    {
        &self.auth
    }

    /// PUBACK from a client: its QoS 1 message with that identifier is done.
    pub fn handle_puback(&mut self, client_id: &str, packet_id: u16)
        ensures
            ids_nonzero(old(self).sessions()),
            final(self).sessions() == if old(self).sessions().contains_key(client_id@) {
                old(self).sessions().insert(
                    client_id@,
                    SessionModel {
                        inflight_qos1: old(self).sessions()[client_id@].inflight_qos1.remove(packet_id),
                        ..old(self).sessions()[client_id@]
                    },
                )
            } else {
                old(self).sessions()
            },
            final(self).trie() == old(self).trie(),
            final(self).retained() == old(self).retained(),
            final(self).cursors() == old(self).cursors(),
    {
        proof {
            use_type_invariant(&*self);
            lemma_ids_nonzero_map(self.sessions@);
        }
        let mut sessions: Vec<Session> = Vec::new();
        std::mem::swap(&mut sessions, &mut self.sessions);
        let ghost e = session_entries(sessions@);
        if let Some(i) = find_session(&sessions, client_id) {
            let mut s = sessions.remove(i);
            let ghost before = s@;
            s.inflight_qos1.remove(&packet_id);
            proof {
                assert(pending_views(s.inflight_qos1@) =~= before.inflight_qos1.remove(packet_id));
            }
            sessions.insert(i, s);
            proof {
                assert(session_entries(sessions@) =~= e.update(i as int, (client_id@, s@)));
                lemma_key_map_update(e, i as int, (client_id@, s@));
                assert(sessions@[i as int] == s);
            }
        }
        self.sessions = sessions;
    }

    /// PUBCOMP from a client: its QoS 2 message with that identifier is done.
    pub fn handle_pubcomp(&mut self, client_id: &str, packet_id: u16)
        ensures
            ids_nonzero(old(self).sessions()),
            final(self).sessions() == if old(self).sessions().contains_key(client_id@) {
                old(self).sessions().insert(
                    client_id@,
                    SessionModel {
                        inflight_pubrel: old(self).sessions()[client_id@].inflight_pubrel.remove(packet_id),
                        ..old(self).sessions()[client_id@]
                    },
                )
            } else {
                old(self).sessions()
            },
            final(self).trie() == old(self).trie(),
            final(self).retained() == old(self).retained(),
            final(self).cursors() == old(self).cursors(),
    {
        proof {
            use_type_invariant(&*self);
            lemma_ids_nonzero_map(self.sessions@);
        }
        let mut sessions: Vec<Session> = Vec::new();
        std::mem::swap(&mut sessions, &mut self.sessions);
        let ghost e = session_entries(sessions@);
        if let Some(i) = find_session(&sessions, client_id) {
            let mut s = sessions.remove(i);
            s.inflight_pubrel.remove(&packet_id);
            sessions.insert(i, s);
            proof {
                assert(session_entries(sessions@) =~= e.update(i as int, (client_id@, s@)));
                lemma_key_map_update(e, i as int, (client_id@, s@));
                assert(sessions@[i as int] == s);
            }
        }
        self.sessions = sessions;
    }

    /// PUBREC from a client at time `now`: a QoS 2 message with that
    /// identifier moves on to waiting for PUBCOMP, and PUBREL is sent if the
    /// client is connected.
    pub fn handle_pubrec(&mut self, client_id: &str, packet_id: u16, now: u64) -> (r: Option<BrokerToClientMessage>)
        ensures
            ids_nonzero(old(self).sessions()),
            ({
                let old_s = old(self).sessions();
                let c = client_id@;
                if old_s.contains_key(c) && old_s[c].inflight_qos2.contains_key(packet_id) {
                    &&& final(self).sessions() == old_s.insert(
                        c,
                        SessionModel {
                            inflight_qos2: old_s[c].inflight_qos2.remove(packet_id),
                            inflight_pubrel: old_s[c].inflight_pubrel.insert(packet_id, now),
                            ..old_s[c]
                        },
                    )
                    &&& if old_s[c].is_connected {
                        r matches Some(m) && m@ == BrokerToClientView::PubRel(packet_id)
                    } else {
                        r is None
                    }
                } else {
                    final(self).sessions() == old_s && r is None
                }
            }),
            final(self).trie() == old(self).trie(),
            final(self).retained() == old(self).retained(),
            final(self).cursors() == old(self).cursors(),
    {
        proof {
            use_type_invariant(&*self);
            lemma_ids_nonzero_map(self.sessions@);
        }
        let mut sessions: Vec<Session> = Vec::new();
        std::mem::swap(&mut sessions, &mut self.sessions);
        let ghost e = session_entries(sessions@);
        let mut out: Option<BrokerToClientMessage> = None;
        if let Some(i) = find_session(&sessions, client_id) {
            let mut s = sessions.remove(i);
            let ghost before = s@;
            let ghost m0 = s.inflight_qos2@;
            let removed = s.inflight_qos2.remove(&packet_id);
            if removed.is_some() {
                s.inflight_pubrel.insert(packet_id, now);
                if s.is_connected {
                    out = Some(BrokerToClientMessage::PubRel(packet_id));
                }
                proof {
                    assert(pending_views(s.inflight_qos2@) =~= before.inflight_qos2.remove(packet_id));
                }
            } else {
                proof {
                    assert(s.inflight_qos2@ =~= m0);
                    assert(s@ == before);
                }
            }
            sessions.insert(i, s);
            proof {
                assert(session_entries(sessions@) =~= e.update(i as int, (client_id@, s@)));
                lemma_key_map_update(e, i as int, (client_id@, s@));
                assert(sessions@[i as int] == s);
                if removed.is_none() {
                    assert(e.update(i as int, (client_id@, s@)) =~= e);
                }
            }
        }
        self.sessions = sessions;
        out
    }

    /// Whether the client's session expiry time at `now` fits the clock:
    /// always, unless the session has an interval that starts a clock and
    /// `now` plus it overflows.
    pub fn disconnect_time_fits(&self, client_id: &str, now: u64) -> (r: bool)
        ensures
            r == expiry_fits(self.sessions(), client_id@, now),
    {
        proof {
            use_type_invariant(self);
        }
        match find_session(&self.sessions, client_id) {
            None => true,
            Some(i) => match self.sessions[i].session_expiry_interval {
                Some(secs) => if secs > 0 && secs != 0xFFFF_FFFF {
                    now <= u64::MAX - secs as u64
                } else {
                    true
                },
                None => true,
            },
        }
    }

    /// The client went away at time `now`.  Its session is marked
    /// disconnected; a clean session, or one with expiry interval 0, ends at
    /// once together with its subscriptions.
    pub fn handle_disconnect(&mut self, client_id: &str, now: u64)
        requires
            expiry_fits(old(self).sessions(), client_id@, now),
        ensures
            ids_nonzero(old(self).sessions()),
            ({
                let o = old(self).sessions();
                let c = client_id@;
                if !o.contains_key(c) {
                    final(self).sessions() == o && final(self).trie() == old(self).trie()
                } else if o[c].clean_session || o[c].session_expiry_interval == Some(0u32) {
                    &&& final(self).sessions() == o.remove(c)
                    &&& final(self).trie().regular() == old(self).trie().regular().remove_keys(
                        regular_keys(c, o[c].subscriptions.dom()),
                    )
                    &&& final(self).trie().shared() == old(self).trie().shared().remove_keys(
                        shared_keys(c, o[c].subscriptions.dom()),
                    )
                } else {
                    &&& final(self).sessions() == o.insert(
                        c,
                        SessionModel {
                            is_connected: false,
                            session_expiry_time: if expires_after(o[c].session_expiry_interval) {
                                Some((now + o[c].session_expiry_interval->0) as u64)
                            } else {
                                o[c].session_expiry_time
                            },
                            ..o[c]
                        },
                    )
                    &&& final(self).trie() == old(self).trie()
                }
            }),
            final(self).retained() == old(self).retained(),
            final(self).cursors() == old(self).cursors(),
    {
        proof {
            use_type_invariant(&*self);
            lemma_ids_nonzero_map(self.sessions@);
        }
        let mut sessions: Vec<Session> = Vec::new();
        std::mem::swap(&mut sessions, &mut self.sessions);
        let ghost e = session_entries(sessions@);
        let ghost old_sessions = sessions@;
        if let Some(i) = find_session(&sessions, client_id) {
            let mut s = sessions.remove(i);
            proof {
                assert(keys_distinct(filter_entries(old_sessions[i as int].subscriptions@)));
            }
            s.mark_disconnected(now);
            let ends = s.clean_session || match s.session_expiry_interval {
                Some(secs) => secs == 0,
                None => false,
            };
            if ends {
                let mut trie = TopicTrie::new();
                std::mem::swap(&mut trie, &mut self.topic_trie);
                remove_client_filters(&mut trie, &s.subscriptions, client_id);
                self.topic_trie = trie;
                proof {
                    assert(session_entries(sessions@) =~= e.remove(i as int));
                    lemma_key_map_remove(e, i as int);
                    assert forall|j: int| 0 <= j < sessions@.len() implies keys_distinct(
                        filter_entries(#[trigger] sessions@[j].subscriptions@),
                    ) by {
                        let j2 = if j < i { j } else { j + 1 };
                        assert(sessions@[j] == old_sessions[j2]);
                    }
                }
            } else {
                sessions.insert(i, s);
                proof {
                    assert(session_entries(sessions@) =~= e.update(i as int, (client_id@, s@)));
                    lemma_key_map_update(e, i as int, (client_id@, s@));
                    assert(sessions@[i as int] == s);
                    assert forall|j: int| 0 <= j < sessions@.len() implies keys_distinct(
                        filter_entries(#[trigger] sessions@[j].subscriptions@),
                    ) by {
                        if j != i {
                            assert(sessions@[j] == old_sessions[j]);
                        }
                    }
                }
            }
        }
        self.sessions = sessions;
    }

    /// CONNECT from a client (see [`connect_step`]).
    pub fn handle_connect(&mut self, client_id: String, clean_session: bool, session_expiry_interval: Option<u32>) -> (r: ConnectOutcome)
        ensures
            ids_nonzero(old(self).sessions()),
            connect_step(
                *old(self),
                *final(self),
                client_id@,
                clean_session,
                session_expiry_interval,
                r.evicted,
                r.session_present,
                client_message_views(r.queued@),
            ),
    {
        proof {
            use_type_invariant(&*self);
            lemma_ids_nonzero_map(self.sessions@);
        }
        let mut sessions: Vec<Session> = Vec::new();
        std::mem::swap(&mut sessions, &mut self.sessions);
        let ghost e = session_entries(sessions@);
        let ghost old_sessions = sessions@;
        let ghost c = client_id@;
        let found = find_session(&sessions, client_id.as_str());
        let evicted: bool;
        let session_present: bool;
        let mut s = match found {
            Some(i) => {
                let old_s = sessions.remove(i);
                proof {
                    assert(keys_distinct(filter_entries(old_sessions[i as int].subscriptions@)));
                    assert(session_entries(sessions@) =~= e.remove(i as int));
                    lemma_key_map_remove(e, i as int);
                    assert forall|j: int| 0 <= j < sessions@.len() implies keys_distinct(
                        filter_entries(#[trigger] sessions@[j].subscriptions@),
                    ) by {
                        let j2 = if j < i { j } else { j + 1 };
                        assert(sessions@[j] == old_sessions[j2]);
                    }
                }
                evicted = old_s.is_connected;
                session_present = !clean_session;
                if clean_session {
                    let mut trie = TopicTrie::new();
                    std::mem::swap(&mut trie, &mut self.topic_trie);
                    remove_client_filters(&mut trie, &old_s.subscriptions, client_id.as_str());
                    self.topic_trie = trie;
                    Session::new(client_id.clone(), clean_session, session_expiry_interval)
                } else {
                    old_s
                }
            },
            None => {
                evicted = false;
                session_present = false;
                Session::new(client_id.clone(), clean_session, session_expiry_interval)
            },
        };
        let ghost base = s@;
        proof {
            if clean_session || found is None {
                lemma_key_map_empty(filter_entries(s.subscriptions@));
                assert(message_views(s.offline_queue@) =~= Seq::<SessionMessageView>::empty());
                assert(pending_views(s.inflight_qos1@) =~= Map::<u16, PendingView>::empty());
                assert(pending_views(s.inflight_qos2@) =~= Map::<u16, PendingView>::empty());
                assert(base == fresh_session(c, clean_session, session_expiry_interval));
            }
        }
        s.mark_connected();
        let mut queue: Vec<SessionMessage> = Vec::new();
        std::mem::swap(&mut queue, &mut s.offline_queue);
        let queued = to_client_messages(&queue);
        proof {
            assert(message_views(s.offline_queue@) =~= Seq::<SessionMessageView>::empty());
            assert(!key_map(session_entries(sessions@)).contains_key(c));
            assert(!has_key(session_entries(sessions@), c));
        }
        let ghost e1 = session_entries(sessions@);
        sessions.push(s);
        proof {
            assert(session_entries(sessions@) =~= e1.push((c, s@)));
            lemma_key_map_push(e1, (c, s@));
            assert forall|j: int| 0 <= j < sessions@.len() implies keys_distinct(
                filter_entries(#[trigger] sessions@[j].subscriptions@),
            ) by {
                if j == sessions@.len() - 1 {
                    assert(sessions@[j] == s);
                }
            }
            assert(key_map(e1) == key_map(e).remove(c)) by {
                if found is None {
                    lemma_key_map_absent(e, c);
                }
            }
            assert(key_map(e).remove(c).insert(c, s@) =~= key_map(e).insert(c, s@));
        }
        self.sessions = sessions;
        ConnectOutcome { evicted, session_present, queued }
    }

    /// CONNECT with credentials: refused, with nothing changed, when the
    /// authenticator does not accept them; otherwise as
    /// [`Broker::handle_connect`].
    pub fn handle_connect_with_credentials(
        &mut self,
        client_id: String,
        clean_session: bool,
        session_expiry_interval: Option<u32>,
        username: Option<&str>,
        password: Option<&[u8]>,
    ) -> (r: Option<ConnectOutcome>)
        ensures
            ids_nonzero(old(self).sessions()),
            match r {
                None => !old(self).authenticator().accepts(opt_name(username), opt_secret(password))
                    && *final(self) == *old(self),
                Some(out) => old(self).authenticator().accepts(opt_name(username), opt_secret(password))
                    && connect_step(
                    *old(self),
                    *final(self),
                    client_id@,
                    clean_session,
                    session_expiry_interval,
                    out.evicted,
                    out.session_present,
                    client_message_views(out.queued@),
                ),
            },
    {
        proof {
            use_type_invariant(&*self);
            lemma_ids_nonzero_map(self.sessions@);
        }
        if !self.auth.authenticate(username, password) {
            return None;
        }
        Some(self.handle_connect(client_id, clean_session, session_expiry_interval))
    }

    /// UNSUBSCRIBE from a client: each filter's subscription is removed,
    /// with whether there was one.  Without a session nothing is removed.
    pub fn handle_unsubscribe(&mut self, client_id: &str, filters: Vec<String>) -> (r: Vec<bool>)
        ensures
            ids_nonzero(old(self).sessions()),
            ({
                let o = old(self).sessions();
                let c = client_id@;
                let fs = string_seq(filters@);
                if !o.contains_key(c) {
                    &&& r@ == Seq::new(fs.len(), |i: int| false)
                    &&& final(self).sessions() == o
                    &&& final(self).trie() == old(self).trie()
                } else {
                    &&& (final(self).trie().regular(), final(self).trie().shared(), r@) == unsubscribe_all(
                        old(self).trie().regular(),
                        old(self).trie().shared(),
                        c,
                        fs,
                    )
                    &&& final(self).sessions() == o.insert(
                        c,
                        SessionModel { subscriptions: o[c].subscriptions.remove_keys(fs.to_set()), ..o[c] },
                    )
                }
            }),
            final(self).retained() == old(self).retained(),
            final(self).cursors() == old(self).cursors(),
    {
        proof {
            use_type_invariant(&*self);
            lemma_ids_nonzero_map(self.sessions@);
        }
        let ghost fs = string_seq(filters@);
        let ghost c = client_id@;
        let mut results: Vec<bool> = Vec::new();
        let mut sessions: Vec<Session> = Vec::new();
        std::mem::swap(&mut sessions, &mut self.sessions);
        let ghost e = session_entries(sessions@);
        let ghost old_sessions = sessions@;
        match find_session(&sessions, client_id) {
            None => {
                let mut i: usize = 0;
                while i < filters.len()
                    invariant
                        i <= filters@.len(),
                        results@ == Seq::new(i as nat, |k: int| false),
                    decreases filters@.len() - i,
                {
                    results.push(false);
                    assert(results@ =~= Seq::new((i + 1) as nat, |k: int| false));
                    i = i + 1;
                }
                assert(fs.len() == filters@.len());
            },
            Some(si) => {
                let mut s = sessions.remove(si);
                let ghost s0 = s@;
                let mut trie = TopicTrie::new();
                std::mem::swap(&mut trie, &mut self.topic_trie);
                let ghost reg0 = trie.regular();
                let ghost sh0 = trie.shared();
                proof {
                    assert(keys_distinct(filter_entries(old_sessions[si as int].subscriptions@)));
                    assert(s.client_id@ == c);
                    assert(fs.take(0).to_set() =~= Set::<Seq<char>>::empty());
                    assert(s0.subscriptions.remove_keys(Set::empty()) =~= s0.subscriptions);
                }
                let mut i: usize = 0;
                while i < filters.len()
                    invariant
                        i <= filters@.len(),
                        fs == string_seq(filters@),
                        c == client_id@,
                        keys_distinct(filter_entries(s.subscriptions@)),
                        s.client_id@ == c,
                        s@ == (SessionModel { subscriptions: s0.subscriptions.remove_keys(fs.take(i as int).to_set()), ..s0 }),
                        (trie.regular(), trie.shared(), results@) == unsubscribe_all(reg0, sh0, c, fs.take(i as int)),
                    decreases filters@.len() - i,
                {
                    let removed = trie.remove(filters[i].as_str(), client_id);
                    results.push(removed);
                    let ghost sub_before = s.subscriptions@;
                    if let Some(j) = find_filter(&s.subscriptions, filters[i].as_str()) {
                        s.subscriptions.remove(j);
                        proof {
                            assert(filter_entries(s.subscriptions@) =~= filter_entries(sub_before).remove(j as int));
                            lemma_key_map_remove(filter_entries(sub_before), j as int);
                        }
                    } else {
                        proof {
                            lemma_key_map_absent(filter_entries(sub_before), filters@[i as int]@);
                        }
                    }
                    proof {
                        let f = filters@[i as int]@;
                        assert(fs.take(i + 1) =~= fs.take(i as int).push(f));
                        fs.take(i as int).lemma_push_to_set_commute(f);
                        assert(s0.subscriptions.remove_keys(fs.take(i as int).to_set()).remove(f) =~= s0.subscriptions.remove_keys(fs.take(i + 1).to_set()));
                        assert(fs.take(i + 1).drop_last() =~= fs.take(i as int));
                    }
                    i = i + 1;
                }
                proof {
                    assert(fs.take(i as int) =~= fs);
                }
                self.topic_trie = trie;
                sessions.insert(si, s);
                proof {
                    assert(session_entries(sessions@) =~= e.update(si as int, (c, s@)));
                    lemma_key_map_update(e, si as int, (c, s@));
                    assert(sessions@[si as int] == s);
                    assert forall|j: int| 0 <= j < sessions@.len() implies keys_distinct(
                        filter_entries(#[trigger] sessions@[j].subscriptions@),
                    ) by {
                        if j != si {
                            assert(sessions@[j] == old_sessions[j]);
                        }
                    }
                }
            },
        }
        self.sessions = sessions;
        results
    }

    /// SUBSCRIBE from a client at time `now`: each filter's subscription is
    /// filed (replacing an earlier one to the same filter) and granted the
    /// QoS asked for, and the retained messages it matches are sent unless
    /// it asks for none (see [`subscribe_all`]).  Without a session nothing
    /// changes and every filter is answered with QoS 0.
    pub fn handle_subscribe(
        &mut self,
        client_id: &str,
        filters: Vec<SubscriptionFilter>,
        subscription_identifier: Option<u32>,
        now: u64,
    ) -> (r: (Vec<QoS>, Vec<BrokerToClientMessage>))
        ensures
            ids_nonzero(old(self).sessions()),
            ({
                let o = old(self).sessions();
                let c = client_id@;
                let fs = filter_views(filters@);
                if !o.contains_key(c) {
                    &&& r.0@ == Seq::new(fs.len(), |i: int| QoS::AtMostOnce)
                    &&& r.1@.len() == 0
                    &&& final(self).sessions() == o
                    &&& final(self).trie() == old(self).trie()
                    &&& final(self).retained_entries() == old(self).retained_entries()
                } else {
                    let st = subscribe_all(
                        SubscribeState {
                            reg: old(self).trie().regular(),
                            sh: old(self).trie().shared(),
                            subs: o[c].subscriptions,
                            retained: old(self).retained_entries(),
                            delivery: DeliveryState {
                                next: o[c].next_packet_id,
                                inflight: o[c].inflight_qos1,
                                sent: Seq::empty(),
                            },
                        },
                        c,
                        fs,
                        subscription_identifier,
                        now,
                        o[c].is_connected,
                    );
                    &&& r.0@ == fs.map_values(|f: SubscriptionFilterView| f.qos)
                    &&& client_message_views(r.1@) == st.delivery.sent
                    &&& final(self).trie().regular() == st.reg
                    &&& final(self).trie().shared() == st.sh
                    &&& final(self).retained_entries() == st.retained
                    &&& final(self).sessions() == o.insert(
                        c,
                        SessionModel {
                            subscriptions: st.subs,
                            next_packet_id: st.delivery.next,
                            inflight_qos1: st.delivery.inflight,
                            ..o[c]
                        },
                    )
                }
            }),
            final(self).cursors() == old(self).cursors(),
    {
        proof {
            use_type_invariant(&*self);
            lemma_ids_nonzero_map(self.sessions@);
        }
        let ghost fs = filter_views(filters@);
        let ghost c = client_id@;
        let mut qoses: Vec<QoS> = Vec::new();
        let mut sent: Vec<BrokerToClientMessage> = Vec::new();
        let mut sessions: Vec<Session> = Vec::new();
        std::mem::swap(&mut sessions, &mut self.sessions);
        let ghost e = session_entries(sessions@);
        let ghost old_sessions = sessions@;
        match find_session(&sessions, client_id) {
            None => {
                let mut i: usize = 0;
                while i < filters.len()
                    invariant
                        i <= filters@.len(),
                        qoses@ == Seq::new(i as nat, |k: int| QoS::AtMostOnce),
                    decreases filters@.len() - i,
                {
                    qoses.push(QoS::AtMostOnce);
                    assert(qoses@ =~= Seq::new((i + 1) as nat, |k: int| QoS::AtMostOnce));
                    i = i + 1;
                }
                assert(fs.len() == filters@.len());
            },
            Some(si) => {
                let mut s = sessions.remove(si);
                let ghost s0 = s@;
                let connected = s.is_connected;
                let mut trie = TopicTrie::new();
                std::mem::swap(&mut trie, &mut self.topic_trie);
                let mut store = RetainedStore::new();
                std::mem::swap(&mut store, &mut self.retained_store);
                let ghost st0 = SubscribeState {
                    reg: trie.regular(),
                    sh: trie.shared(),
                    subs: s0.subscriptions,
                    retained: store.entries(),
                    delivery: DeliveryState { next: s0.next_packet_id, inflight: s0.inflight_qos1, sent: Seq::empty() },
                };
                proof {
                    assert(keys_distinct(filter_entries(old_sessions[si as int].subscriptions@)));
                    assert(s.client_id@ == c);
                    assert(s == old_sessions[si as int]);
                    assert(client_message_views(sent@) =~= Seq::<BrokerToClientView>::empty());
                    assert(fs.take(0) =~= Seq::<SubscriptionFilterView>::empty());
                }
                let mut i: usize = 0;
                while i < filters.len()
                    invariant
                        i <= filters@.len(),
                        fs == filter_views(filters@),
                        c == client_id@,
                        s.client_id@ == c,
                        s.next_packet_id != 0,
                        connected == s0.is_connected,
                        keys_distinct(filter_entries(s.subscriptions@)),
                        qoses@ == fs.take(i as int).map_values(|f: SubscriptionFilterView| f.qos),
                        ({
                            let st = subscribe_all(st0, c, fs.take(i as int), subscription_identifier, now, connected);
                            &&& trie.regular() == st.reg
                            &&& trie.shared() == st.sh
                            &&& store.entries() == st.retained
                            &&& client_message_views(sent@) == st.delivery.sent
                            &&& s@ == (SessionModel {
                                subscriptions: st.subs,
                                next_packet_id: st.delivery.next,
                                inflight_qos1: st.delivery.inflight,
                                ..s0
                            })
                        }),
                    decreases filters@.len() - i,
                {
                    let f = &filters[i];
                    proof {
                        assert(fs.take(i + 1).drop_last() =~= fs.take(i as int));
                        assert(fs.take(i + 1).last() == f@);
                    }
                    let sub = Subscription {
                        client_id: client_id.to_owned(),
                        filter: f.topic_filter.clone(),
                        qos: f.qos,
                        no_local: f.no_local,
                        retain_as_published: f.retain_as_published,
                        retain_handling: f.retain_handling.as_u8(),
                        subscription_identifier,
                    };
                    let ghost x = sub@;
                    assert(x == subscription_of(c, f@, subscription_identifier));
                    trie.insert(sub.clone());
                    let ghost subs_before = s.subscriptions@;
                    let mut existed = false;
                    match find_filter(&s.subscriptions, f.topic_filter.as_str()) {
                        Some(j) => {
                            existed = true;
                            s.subscriptions.set(j, sub);
                            proof {
                                assert(filter_entries(s.subscriptions@) =~= filter_entries(subs_before).update(j as int, (f@.topic_filter, x)));
                                lemma_key_map_update(filter_entries(subs_before), j as int, (f@.topic_filter, x));
                            }
                        },
                        None => {
                            s.subscriptions.push(sub);
                            proof {
                                assert(filter_entries(s.subscriptions@) =~= filter_entries(subs_before).push((f@.topic_filter, x)));
                                lemma_key_map_push(filter_entries(subs_before), (f@.topic_filter, x));
                            }
                        },
                    }
                    qoses.push(f.qos);
                    let retained = store.get_matching(f.topic_filter.as_str(), now);
                    let send = match f.retain_handling {
                        RetainHandling::DoNotSend => false,
                        RetainHandling::SendOnNewSubscription => !existed,
                        RetainHandling::SendOnSubscribe => true,
                    };
                    if send {
                        send_retained_exec(&mut s, &retained, f.qos, subscription_identifier, connected, &mut sent);
                    }
                    proof {
                        assert(qoses@ =~= fs.take(i + 1).map_values(|f: SubscriptionFilterView| f.qos));
                    }
                    i = i + 1;
                }
                proof {
                    assert(fs.take(i as int) =~= fs);
                }
                self.topic_trie = trie;
                self.retained_store = store;
                sessions.insert(si, s);
                proof {
                    assert(session_entries(sessions@) =~= e.update(si as int, (c, s@)));
                    lemma_key_map_update(e, si as int, (c, s@));
                    assert(sessions@[si as int] == s);
                    assert forall|j: int| 0 <= j < sessions@.len() implies keys_distinct(
                        filter_entries(#[trigger] sessions@[j].subscriptions@),
                    ) by {
                        if j != si {
                            assert(sessions@[j] == old_sessions[j]);
                        }
                    }
                    assert forall|j: int| 0 <= j < sessions@.len() implies (#[trigger] sessions@[j]).next_packet_id != 0 by {
                        if j != si {
                            assert(sessions@[j] == old_sessions[j]);
                        }
                    }
                }
            },
        }
        self.sessions = sessions;
        (qoses, sent)
    }

    /// PUBLISH from a client at time `now`.  A retained message is kept
    /// for its topic (see [`retain_in`]).  The message then goes to every
    /// plain subscription whose filter matches the topic and to one member
    /// of each matching shared group, chosen round-robin (see
    /// [`pick_shared`] and [`route_all`]).
    pub fn handle_publish(
        &mut self,
        publisher_client_id: &str,
        topic: String,
        payload: Vec<u8>,
        qos: QoS,
        retain: bool,
        expiry_secs: Option<u32>,
        now: u64,
    ) -> (r: PublishOutcome)
        requires
            expiry_secs matches Some(s) ==> now + s <= u64::MAX,
        ensures
            ids_nonzero(old(self).sessions()),
            final(self).retained_entries() == if retain {
                retain_in(
                    old(self).retained_entries(),
                    RetainedView {
                        topic: topic@,
                        payload: payload@,
                        qos,
                        expiry_time: match expiry_secs {
                            Some(s) => Some((now + s) as u64),
                            None => None,
                        },
                    },
                )
            } else {
                old(self).retained_entries()
            },
            final(self).trie() == old(self).trie(),
            ({
                let ps = pick_shared(
                    ShareState { cursors: old(self).cursors(), chosen: Seq::empty() },
                    topic@,
                    old(self).trie().matching_groups(topic@),
                );
                let rs = route_all(
                    RouteState { sessions: old(self).sessions(), out: Seq::empty(), acks: Seq::empty() },
                    publisher_client_id@,
                    topic@,
                    payload@,
                    qos,
                    retain,
                    old(self).trie().matching(topic@) + ps.chosen,
                );
                &&& final(self).cursors() == ps.cursors
                &&& final(self).sessions() == rs.sessions
                &&& delivery_views(r.deliveries@) == rs.out
                &&& match r.acks {
                    None => rs.acks.len() == 0,
                    Some(v) => rs.acks.len() > 0 && sub_views(v@) == rs.acks,
                }
            }),
    {
        proof {
            use_type_invariant(&*self);
            lemma_ids_nonzero_map(self.sessions@);
        }
        if retain {
            let mut store = RetainedStore::new();
            std::mem::swap(&mut store, &mut self.retained_store);
            store.insert(topic.clone(), payload.clone(), qos, expiry_secs, now);
            self.retained_store = store;
        }
        let (regular, groups) = self.topic_trie.matches(topic.as_str());
        let mut cursors: Vec<(String, String, usize)> = Vec::new();
        std::mem::swap(&mut cursors, &mut self.shared_cursors);
        let mut chosen: Vec<Subscription> = Vec::new();
        assert(sub_views(chosen@) =~= Seq::<SubscriptionView>::empty());
        pick_shared_exec(&mut cursors, topic.as_str(), &groups, &mut chosen);
        self.shared_cursors = cursors;
        let mut targets = regular;
        let ghost tv0 = sub_views(targets@);
        let mut k: usize = 0;
        while k < chosen.len()
            invariant
                k <= chosen@.len(),
                sub_views(targets@) == tv0 + sub_views(chosen@).take(k as int),
            decreases chosen@.len() - k,
        {
            let ghost before = sub_views(targets@);
            targets.push(chosen[k].clone());
            assert(sub_views(targets@) =~= before.push(chosen@[k as int]@));
            assert(sub_views(chosen@).take(k + 1) =~= sub_views(chosen@).take(k as int).push(chosen@[k as int]@));
            assert(tv0 + sub_views(chosen@).take(k + 1) =~= (tv0 + sub_views(chosen@).take(k as int)).push(chosen@[k as int]@));
            k = k + 1;
        }
        assert(sub_views(chosen@).take(k as int) =~= sub_views(chosen@));
        let ghost tv = sub_views(targets@);
        let mut sessions: Vec<Session> = Vec::new();
        std::mem::swap(&mut sessions, &mut self.sessions);
        let ghost old_sessions = sessions@;
        let ghost rs0 = RouteState { sessions: key_map(session_entries(sessions@)), out: Seq::empty(), acks: Seq::empty() };
        let mut out: Vec<(String, BrokerToClientMessage)> = Vec::new();
        let mut acks: Vec<Subscription> = Vec::new();
        assert(delivery_views(out@) =~= Seq::<(Seq<char>, BrokerToClientView)>::empty());
        assert(sub_views(acks@) =~= Seq::<SubscriptionView>::empty());
        assert(tv.take(0) =~= Seq::<SubscriptionView>::empty());
        let mut i: usize = 0;
        while i < targets.len()
            invariant
                i <= targets@.len(),
                tv == sub_views(targets@),
                keys_distinct(session_entries(sessions@)),
                ids_nonzero_seq(sessions@),
                sessions@.len() == old_sessions.len(),
                forall|j: int| 0 <= j < old_sessions.len() ==> (#[trigger] sessions@[j]).subscriptions == old_sessions[j].subscriptions,
                ({
                    let st = route_all(rs0, publisher_client_id@, topic@, payload@, qos, retain, tv.take(i as int));
                    &&& key_map(session_entries(sessions@)) == st.sessions
                    &&& delivery_views(out@) == st.out
                    &&& sub_views(acks@) == st.acks
                }),
            decreases targets@.len() - i,
        {
            proof {
                assert(tv.take(i + 1).drop_last() =~= tv.take(i as int));
                assert(tv.take(i + 1).last() == targets@[i as int]@);
            }
            let ghost prev = sessions@;
            deliver_one(&mut sessions, publisher_client_id, topic.as_str(), &payload, qos, retain, &targets[i], &mut out, &mut acks);
            proof {
                assert forall|j: int| 0 <= j < old_sessions.len() implies (#[trigger] sessions@[j]).subscriptions == old_sessions[j].subscriptions by {
                    assert(sessions@[j].subscriptions == prev[j].subscriptions);
                }
            }
            i = i + 1;
        }
        proof {
            assert(tv.take(i as int) =~= tv);
            assert forall|j: int| 0 <= j < sessions@.len() implies keys_distinct(
                filter_entries(#[trigger] sessions@[j].subscriptions@),
            ) by {
                assert(sessions@[j].subscriptions == old_sessions[j].subscriptions);
            }
        }
        self.sessions = sessions;
        let acks_out = if acks.len() == 0 {
            None
        } else {
            Some(acks)
        };
        PublishOutcome { deliveries: out, acks: acks_out }
    }
}

/// The messages to send for a session's queue, in order.
fn to_client_messages(queue: &Vec<SessionMessage>) -> (r: Vec<BrokerToClientMessage>)
    ensures
        client_message_views(r@) == message_views(queue@).map_values(|m: SessionMessageView| queued_to_client(m)),
{
    let mut out: Vec<BrokerToClientMessage> = Vec::new();
    let mut i: usize = 0;
    while i < queue.len()
        invariant
            i <= queue@.len(),
            client_message_views(out@) == message_views(queue@).take(i as int).map_values(
                |m: SessionMessageView| queued_to_client(m),
            ),
        decreases queue@.len() - i,
    {
        let m = match &queue[i] {
            SessionMessage::Publish(p) => BrokerToClientMessage::Publish(p.clone()),
            SessionMessage::PubRel(id) => BrokerToClientMessage::PubRel(*id),
        };
        let ghost before = client_message_views(out@);
        out.push(m);
        proof {
            assert(client_message_views(out@) =~= before.push(m@));
            assert(message_views(queue@).take(i + 1) =~= message_views(queue@).take(i as int).push(queue@[i as int]@));
            assert(client_message_views(out@) =~= message_views(queue@).take(i + 1).map_values(
                |m: SessionMessageView| queued_to_client(m),
            ));
        }
        i = i + 1;
    }
    assert(message_views(queue@).take(i as int) =~= message_views(queue@));
    out
}

/// Where the subscription to a filter is in the list, if there is one.
fn find_filter(subs: &Vec<Subscription>, filter: &str) -> (r: Option<usize>)
    requires
        keys_distinct(filter_entries(subs@)),
    ensures
        match r {
            Some(i) => i < subs@.len() && subs@[i as int].filter@ == filter@
                && key_map(filter_entries(subs@)).contains_key(filter@)
                && key_map(filter_entries(subs@))[filter@] == subs@[i as int]@,
            None => !key_map(filter_entries(subs@)).contains_key(filter@) && !has_key(filter_entries(subs@), filter@),
        },
{
    let ghost e = filter_entries(subs@);
    let mut i: usize = 0;
    while i < subs.len()
        invariant
            i <= subs@.len(),
            e == filter_entries(subs@),
            keys_distinct(e),
            forall|j: int| 0 <= j < i ==> subs@[j].filter@ != filter@,
        decreases subs@.len() - i,
    {
        if str_eq(subs[i].filter.as_str(), filter) {
            proof {
                assert(e[i as int] == (subs@[i as int].filter@, subs@[i as int]@));
                lemma_key_index(e, i as int);
            }
            return Some(i);
        }
        i = i + 1;
    }
    proof {
        assert(!has_key(e, filter@)) by {
            if has_key(e, filter@) {
                let j = choose|j: int| 0 <= j < e.len() && e[j].0 == filter@;
                assert(e[j].0 == subs@[j].filter@);
            }
        }
    }
    None
}

} // verus!
