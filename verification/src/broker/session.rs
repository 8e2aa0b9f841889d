//! Client sessions: subscriptions, messages queued while the client is
//! away, messages in flight, packet identifiers and session expiry.
//!
//! Times are readings of a monotonic clock in whole seconds, handed in by
//! the caller.

use crate::broker::keyed::key_map;
use crate::broker::topic_trie::{Subscription, SubscriptionView};
use crate::QoS;
use std::collections::HashMap;
use vstd::prelude::*;

verus! {

broadcast use vstd::std_specs::hash::group_hash_axioms;

/// An outgoing PUBLISH that is queued or awaits acknowledgement.
#[derive(Debug)]
pub struct PendingPublish {
    pub packet_id: u16,
    pub topic: String,
    pub payload: Vec<u8>,
    pub qos: QoS,
    pub retain: bool,
    pub subscription_identifier: Option<u32>,
    pub dup: bool,
}

/// The mathematical value of a [`PendingPublish`].
pub struct PendingView {
    pub packet_id: u16,
    pub topic: Seq<char>,
    pub payload: Seq<u8>,
    pub qos: QoS,
    pub retain: bool,
    pub subscription_identifier: Option<u32>,
    pub dup: bool,
}

impl View for PendingPublish {
    type V = PendingView;

    open spec fn view(&self) -> PendingView {
        PendingView {
            packet_id: self.packet_id,
            topic: self.topic@,
            payload: self.payload@,
            qos: self.qos,
            retain: self.retain,
            subscription_identifier: self.subscription_identifier,
            dup: self.dup,
        }
    }
}

impl Clone for PendingPublish {
    fn clone(&self) -> (r: Self)
        ensures
            r@ == self@,
    {
        PendingPublish {
            packet_id: self.packet_id,
            topic: self.topic.clone(),
            payload: self.payload.clone(),
            qos: self.qos,
            retain: self.retain,
            subscription_identifier: self.subscription_identifier,
            dup: self.dup,
        }
    }
}

/// A message kept for a client that is not connected.
#[derive(Debug)]
pub enum SessionMessage {
    Publish(PendingPublish),
    PubRel(u16),
}

/// The mathematical value of a [`SessionMessage`].
pub enum SessionMessageView {
    Publish(PendingView),
    PubRel(u16),
}

impl View for SessionMessage {
    type V = SessionMessageView;

    open spec fn view(&self) -> SessionMessageView {
        match self {
            SessionMessage::Publish(p) => SessionMessageView::Publish(p@),
            SessionMessage::PubRel(id) => SessionMessageView::PubRel(*id),
        }
    }
}

/// The views of a list of queued messages.
pub open spec fn message_views(s: Seq<SessionMessage>) -> Seq<SessionMessageView> {
    s.map_values(|m: SessionMessage| m@)
}

/// The identifier that follows `id`: identifiers count up to 65535 and
/// wrap to 1, never to 0.
pub open spec fn next_id(id: u16) -> u16 {
    if id == u16::MAX {
        1
    } else {
        (id + 1) as u16
    }
}

/// Whether a session expiry interval starts an expiry clock on disconnect:
/// 0 ends the session at once and 0xFFFFFFFF keeps it forever.
pub open spec fn expires_after(interval: Option<u32>) -> bool {
    match interval {
        Some(secs) => secs > 0 && secs != 0xFFFF_FFFF,
        None => false,
    }
}

/// A client's session.
pub struct Session {
    pub client_id: String,
    pub clean_session: bool,
    pub is_connected: bool,
    /// The client's subscriptions, at most one per topic filter.
    pub subscriptions: Vec<Subscription>,
    /// QoS 1 and 2 messages (and PUBRELs) kept while the client is away.
    pub offline_queue: Vec<SessionMessage>,
    /// QoS 1 messages sent and not yet acknowledged, by packet identifier.
    pub inflight_qos1: HashMap<u16, PendingPublish>,
    /// QoS 2 messages sent and not yet received (PUBREC), by packet identifier.
    pub inflight_qos2: HashMap<u16, PendingPublish>,
    /// PUBRELs sent and not yet completed, with the time they were sent.
    pub inflight_pubrel: HashMap<u16, u64>,
    /// The next outgoing packet identifier.
    pub next_packet_id: u16,
    pub session_expiry_interval: Option<u32>,
    /// When a disconnected session expires.
    pub session_expiry_time: Option<u64>,
}

/// A subscription list keyed by topic filter.
pub open spec fn filter_entries(s: Seq<Subscription>) -> Seq<(Seq<char>, SubscriptionView)> {
    s.map_values(|x: Subscription| (x.filter@, x@))
}

/// The views of a map of pending messages.
pub open spec fn pending_views(m: Map<u16, PendingPublish>) -> Map<u16, PendingView> {
    m.map_values(|p: PendingPublish| p@)
}

/// The mathematical value of a [`Session`].
pub struct SessionModel {
    pub client_id: Seq<char>,
    pub clean_session: bool,
    pub is_connected: bool,
    /// The subscriptions by topic filter.
    pub subscriptions: Map<Seq<char>, SubscriptionView>,
    pub offline_queue: Seq<SessionMessageView>,
    pub inflight_qos1: Map<u16, PendingView>,
    pub inflight_qos2: Map<u16, PendingView>,
    pub inflight_pubrel: Map<u16, u64>,
    pub next_packet_id: u16,
    pub session_expiry_interval: Option<u32>,
    pub session_expiry_time: Option<u64>,
}

impl View for Session {
    type V = SessionModel;

    open spec fn view(&self) -> SessionModel {
        SessionModel {
            client_id: self.client_id@,
            clean_session: self.clean_session,
            is_connected: self.is_connected,
            subscriptions: key_map(filter_entries(self.subscriptions@)),
            offline_queue: message_views(self.offline_queue@),
            inflight_qos1: pending_views(self.inflight_qos1@),
            inflight_qos2: pending_views(self.inflight_qos2@),
            inflight_pubrel: self.inflight_pubrel@,
            next_packet_id: self.next_packet_id,
            session_expiry_interval: self.session_expiry_interval,
            session_expiry_time: self.session_expiry_time,
        }
    }
}

impl Session {
    /// A new, disconnected session with nothing in it.
    pub fn new(client_id: String, clean_session: bool, session_expiry_interval: Option<u32>) -> (r: Self)
        ensures
            r.client_id@ == client_id@,
            r.clean_session == clean_session,
            !r.is_connected,
            r.subscriptions@.len() == 0,
            r.offline_queue@.len() == 0,
            r.inflight_qos1@ == Map::<u16, PendingPublish>::empty(),
            r.inflight_qos2@ == Map::<u16, PendingPublish>::empty(),
            r.inflight_pubrel@ == Map::<u16, u64>::empty(),
            r.next_packet_id == 1,
            r.session_expiry_interval == session_expiry_interval,
            r.session_expiry_time is None,
    {
        Session {
            client_id,
            clean_session,
            is_connected: false,
            subscriptions: Vec::new(),
            offline_queue: Vec::new(),
            inflight_qos1: HashMap::new(),
            inflight_qos2: HashMap::new(),
            inflight_pubrel: HashMap::new(),
            next_packet_id: 1,
            session_expiry_interval,
            session_expiry_time: None,
        }
    }

    /// Hand out the next packet identifier: 1, 2, ... 65535, then 1 again.
    pub fn get_next_packet_id(&mut self) -> (r: u16)
        ensures
            r == old(self).next_packet_id,
            final(self).next_packet_id == next_id(old(self).next_packet_id),
            old(self).next_packet_id != 0 ==> r != 0 && final(self).next_packet_id != 0,
            final(self).client_id == old(self).client_id,
            final(self).clean_session == old(self).clean_session,
            final(self).is_connected == old(self).is_connected,
            final(self).subscriptions == old(self).subscriptions,
            final(self).offline_queue == old(self).offline_queue,
            final(self).inflight_qos1 == old(self).inflight_qos1,
            final(self).inflight_qos2 == old(self).inflight_qos2,
            final(self).inflight_pubrel == old(self).inflight_pubrel,
            final(self).session_expiry_interval == old(self).session_expiry_interval,
            final(self).session_expiry_time == old(self).session_expiry_time,
    {
        let id = self.next_packet_id;
        if self.next_packet_id == u16::MAX {
            self.next_packet_id = 1;
        } else {
            self.next_packet_id = self.next_packet_id + 1;
        }
        id
    }

    /// Whether the session has expired at time `now`: only a disconnected
    /// session with an expiry time at or before `now` has.
    pub fn is_expired(&self, now: u64) -> (r: bool)
        ensures
            r == (!self.is_connected && (self.session_expiry_time matches Some(e) && now >= e)),
    {
        if self.is_connected {
            return false;
        }
        match self.session_expiry_time {
            Some(expiry) => now >= expiry,
            None => false,
        }
    }

    /// The client went away at time `now`: the expiry clock starts when the
    /// expiry interval asks for one.
    pub fn mark_disconnected(&mut self, now: u64)
        requires
            expires_after(old(self).session_expiry_interval) ==> now + old(self).session_expiry_interval->0
                <= u64::MAX,
        ensures
            !final(self).is_connected,
            final(self).session_expiry_time == if expires_after(
                old(self).session_expiry_interval,
            ) {
                Some((now + old(self).session_expiry_interval->0) as u64)
            } else {
                old(self).session_expiry_time
            },
            final(self).client_id == old(self).client_id,
            final(self).clean_session == old(self).clean_session,
            final(self).subscriptions == old(self).subscriptions,
            final(self).offline_queue == old(self).offline_queue,
            final(self).inflight_qos1 == old(self).inflight_qos1,
            final(self).inflight_qos2 == old(self).inflight_qos2,
            final(self).inflight_pubrel == old(self).inflight_pubrel,
            final(self).next_packet_id == old(self).next_packet_id,
            final(self).session_expiry_interval == old(self).session_expiry_interval,
    {
        self.is_connected = false;
        if let Some(secs) = self.session_expiry_interval {
            if secs > 0 && secs != 0xFFFF_FFFF {
                self.session_expiry_time = Some(now + secs as u64);
            }
        }
    }

    /// The client is back: the session no longer expires.
    pub fn mark_connected(&mut self)
        ensures
            final(self).is_connected,
            final(self).session_expiry_time is None,
            final(self).client_id == old(self).client_id,
            final(self).clean_session == old(self).clean_session,
            final(self).subscriptions == old(self).subscriptions,
            final(self).offline_queue == old(self).offline_queue,
            final(self).inflight_qos1 == old(self).inflight_qos1,
            final(self).inflight_qos2 == old(self).inflight_qos2,
            final(self).inflight_pubrel == old(self).inflight_pubrel,
            final(self).next_packet_id == old(self).next_packet_id,
            final(self).session_expiry_interval == old(self).session_expiry_interval,
    {
        self.is_connected = true;
        self.session_expiry_time = None;
    }
}

/// Packet identifiers handed out one after another are never 0 and do not
/// repeat before 65535 of them have been handed out.
pub proof fn lemma_packet_ids_cycle(id: u16, k: nat)
    requires
        id != 0,
        0 < k < 65535,
    ensures
        next_ids(id, k) != 0,
        next_ids(id, k) != id,
    decreases k,
{
    if k > 1 {
        lemma_packet_ids_cycle(id, (k - 1) as nat);
    }
    lemma_next_ids_value(id, k);
}

/// The identifier after `k` steps from `id`.
pub open spec fn next_ids(id: u16, k: nat) -> u16
    decreases k,
{
    if k == 0 {
        id
    } else {
        next_id(next_ids(id, (k - 1) as nat))
    }
}

proof fn lemma_next_ids_value(id: u16, k: nat)
    requires
        id != 0,
        k < 65535,
    ensures
        next_ids(id, k) == ((id - 1 + k) % 65535 + 1) as u16,
    decreases k,
{
    if k > 0 {
        lemma_next_ids_value(id, (k - 1) as nat);
    }
}

} // verus!
