//! The subscription trie: subscriptions filed under the levels of their
//! topic filters, with `+` and `#` levels kept apart from the exact ones,
//! so that the subscriptions matching a topic are found by walking the
//! topic's levels.

use crate::properties::opt_str;
use crate::topic::{
    bytes_eq, str_eq, hash_level, is_single, level_views, parse_shared_subscription, plus_level,
    lemma_split_levels_nonempty, match_levels, shared_parts, spec_topic_matches, split_levels,
    split_levels_exec, starts_with_dollar, valid_filter_level, valid_filter_levels, DOLLAR, HASH,
    PLUS, SLASH,
};
use crate::QoS;
use vstd::prelude::*;
use vstd::string::*;
use vstd::utf8::*;

verus! {

/// One client's subscription to a topic filter.
#[derive(Debug)]
pub struct Subscription {
    pub client_id: String,
    pub filter: String,
    pub qos: QoS,
    /// MQTT 5.0: do not deliver the client's own messages back to it.
    pub no_local: bool,
    /// MQTT 5.0: keep the RETAIN flag of forwarded messages.
    pub retain_as_published: bool,
    /// MQTT 5.0: the retain handling option, by its wire number.
    pub retain_handling: u8,
    /// MQTT 5.0: the subscription identifier given with SUBSCRIBE.
    pub subscription_identifier: Option<u32>,
}

/// The mathematical value of a [`Subscription`].
pub struct SubscriptionView {
    pub client_id: Seq<char>,
    pub filter: Seq<char>,
    pub qos: QoS,
    pub no_local: bool,
    pub retain_as_published: bool,
    pub retain_handling: u8,
    pub subscription_identifier: Option<u32>,
}

impl View for Subscription {
    type V = SubscriptionView;

    open spec fn view(&self) -> SubscriptionView {
        SubscriptionView {
            client_id: self.client_id@,
            filter: self.filter@,
            qos: self.qos,
            no_local: self.no_local,
            retain_as_published: self.retain_as_published,
            retain_handling: self.retain_handling,
            subscription_identifier: self.subscription_identifier,
        }
    }
}

impl Clone for Subscription {
    fn clone(&self) -> (r: Self)
        ensures
            r@ == self@,
    {
        Subscription {
            client_id: self.client_id.clone(),
            filter: self.filter.clone(),
            qos: self.qos,
            no_local: self.no_local,
            retain_as_published: self.retain_as_published,
            retain_handling: self.retain_handling,
            subscription_identifier: self.subscription_identifier,
        }
    }
}

/// The characters of an optional group name.
pub open spec fn opt_group(o: Option<&str>) -> Option<Seq<char>> {
    match o {
        Some(g) => Some(g@),
        None => None,
    }
}

/// The views of a list of subscriptions.
pub open spec fn sub_views(s: Seq<Subscription>) -> Seq<SubscriptionView> {
    s.map_values(|x: Subscription| x@)
}

// ── Lists of subscriptions keyed by client ───────────────────────────────────

/// Whether a client has a subscription in the list.
pub open spec fn has_client(s: Seq<SubscriptionView>, c: Seq<char>) -> bool {
    exists|i: int| 0 <= i < s.len() && s[i].client_id == c
}

/// The position of a client's subscription in the list.
pub open spec fn client_index(s: Seq<SubscriptionView>, c: Seq<char>) -> int {
    choose|i: int| 0 <= i < s.len() && s[i].client_id == c
}

/// A client's subscription in the list.
pub open spec fn find_client(s: Seq<SubscriptionView>, c: Seq<char>) -> Option<SubscriptionView> {
    if has_client(s, c) {
        Some(s[client_index(s, c)])
    } else {
        None
    }
}

/// No client has two subscriptions in the list.
pub open spec fn distinct_clients(s: Seq<SubscriptionView>) -> bool {
    forall|i: int, j: int| 0 <= i < s.len() && 0 <= j < s.len() && i != j ==> s[i].client_id != s[j].client_id
}

/// The list with `x` in place of its client's subscription, or added.
pub open spec fn upsert(s: Seq<SubscriptionView>, x: SubscriptionView) -> Seq<SubscriptionView> {
    if has_client(s, x.client_id) {
        s.update(client_index(s, x.client_id), x)
    } else {
        s.push(x)
    }
}

/// The list without the client's subscription.
pub open spec fn remove_client(s: Seq<SubscriptionView>, c: Seq<char>) -> Seq<SubscriptionView> {
    if has_client(s, c) {
        s.remove(client_index(s, c))
    } else {
        s
    }
}

/// The groups of shared subscriptions: group name and members.
pub type GroupsView = Seq<(Seq<char>, Seq<SubscriptionView>)>;

/// Whether a group exists.
pub open spec fn has_group(gs: GroupsView, g: Seq<char>) -> bool {
    exists|i: int| 0 <= i < gs.len() && gs[i].0 == g
}

/// The position of a group.
pub open spec fn group_index(gs: GroupsView, g: Seq<char>) -> int {
    choose|i: int| 0 <= i < gs.len() && gs[i].0 == g
}

/// The members of a group (empty when there is no such group).
pub open spec fn group_members(gs: GroupsView, g: Seq<char>) -> Seq<SubscriptionView> {
    if has_group(gs, g) {
        gs[group_index(gs, g)].1
    } else {
        Seq::empty()
    }
}

/// Groups with distinct names, each non-empty with distinct clients.
pub open spec fn groups_wf(gs: GroupsView) -> bool {
    &&& forall|i: int, j: int| 0 <= i < gs.len() && 0 <= j < gs.len() && i != j ==> gs[i].0 != gs[j].0
    &&& forall|i: int| 0 <= i < gs.len() ==> distinct_clients(#[trigger] gs[i].1) && gs[i].1.len() > 0
}

/// The groups after `x` joins group `g` (created when missing).
pub open spec fn group_upsert(gs: GroupsView, g: Seq<char>, x: SubscriptionView) -> GroupsView {
    if has_group(gs, g) {
        gs.update(group_index(gs, g), (g, upsert(gs[group_index(gs, g)].1, x)))
    } else {
        gs.push((g, seq![x]))
    }
}

/// The groups after client `c` leaves group `g`; a group left empty is
/// dropped.
pub open spec fn group_remove(gs: GroupsView, g: Seq<char>, c: Seq<char>) -> GroupsView {
    if has_group(gs, g) {
        let m = remove_client(gs[group_index(gs, g)].1, c);
        if m.len() == 0 {
            gs.remove(group_index(gs, g))
        } else {
            gs.update(group_index(gs, g), (g, m))
        }
    } else {
        gs
    }
}

// ── The trie ─────────────────────────────────────────────────────────────────

struct TrieNode {
    /// Children for exact levels, by the bytes of the level.
    children: Vec<(Vec<u8>, TrieNode)>,
    /// The child for the `+` level.
    plus_child: Option<Box<TrieNode>>,
    /// The child for the `#` level.
    hash_child: Option<Box<TrieNode>>,
    /// The subscriptions whose filter ends here, one per client.
    subscriptions: Vec<Subscription>,
    /// The shared subscriptions whose bare filter ends here, by group.
    shared_subscriptions: Vec<(String, Vec<Subscription>)>,
}

/// The views of groups of shared subscriptions.
pub open spec fn groups_view(v: Seq<(String, Vec<Subscription>)>) -> GroupsView {
    v.map_values(|g: (String, Vec<Subscription>)| (g.0@, sub_views(g.1@)))
}

/// The exact child for a level: the first child filed under it.
spec fn child_for(cs: Seq<(Vec<u8>, TrieNode)>, l: Seq<u8>) -> Option<TrieNode>
    decreases cs.len(),
{
    if cs.len() == 0 {
        None
    } else if cs[0].0@ == l {
        Some(cs[0].1)
    } else {
        child_for(cs.drop_first(), l)
    }
}

/// The child a filter level leads to: `+` and `#` have their own children.
spec fn step(n: TrieNode, l: Seq<u8>) -> Option<TrieNode> {
    if l == plus_level() {
        match n.plus_child {
            Some(b) => Some(*b),
            None => None,
        }
    } else if l == hash_level() {
        match n.hash_child {
            Some(b) => Some(*b),
            None => None,
        }
    } else {
        child_for(n.children@, l)
    }
}

/// The node a path of filter levels leads to.
spec fn reach(n: TrieNode, p: Seq<Seq<u8>>) -> Option<TrieNode>
    decreases p.len(),
{
    if p.len() == 0 {
        Some(n)
    } else {
        match step(n, p[0]) {
            Some(c) => reach(c, p.drop_first()),
            None => None,
        }
    }
}

/// The subscriptions filed under a path.
spec fn subs_at(n: TrieNode, p: Seq<Seq<u8>>) -> Seq<SubscriptionView> {
    match reach(n, p) {
        Some(m) => sub_views(m.subscriptions@),
        None => Seq::empty(),
    }
}

/// The shared subscription groups filed under a path.
spec fn groups_at(n: TrieNode, p: Seq<Seq<u8>>) -> GroupsView {
    match reach(n, p) {
        Some(m) => groups_view(m.shared_subscriptions@),
        None => Seq::empty(),
    }
}

/// Whether a path of filter levels matches the levels of a topic, as the
/// trie is walked: `#` matches whatever is left (nothing included) and
/// nothing may follow it, `+` matches one level, other levels match only
/// themselves; at the first level of a system topic (`sys_first`) neither
/// wildcard matches.
pub open spec fn path_matches(p: Seq<Seq<u8>>, t: Seq<Seq<u8>>, sys_first: bool) -> bool
    decreases p.len(),
{
    if p.len() == 0 {
        t.len() == 0
    } else if p[0] == hash_level() {
        p.len() == 1 && !sys_first
    } else if p[0] == plus_level() {
        t.len() > 0 && !sys_first && path_matches(p.drop_first(), t.drop_first(), false)
    } else {
        t.len() > 0 && p[0] == t[0] && path_matches(p.drop_first(), t.drop_first(), false)
    }
}

/// An index of subscriptions by topic filter.
pub struct TopicTrie {
    root: TrieNode,
}

impl TopicTrie {
    /// The plain subscriptions, by (levels of the filter, client).
    pub closed spec fn regular(&self) -> Map<(Seq<Seq<u8>>, Seq<char>), SubscriptionView> {
        Map::new(
            |k: (Seq<Seq<u8>>, Seq<char>)| has_client(subs_at(self.root, k.0), k.1),
            |k: (Seq<Seq<u8>>, Seq<char>)| find_client(subs_at(self.root, k.0), k.1)->0,
        )
    }

    /// The shared subscriptions, by (levels of the bare filter, group,
    /// client).
    pub closed spec fn shared(&self) -> Map<(Seq<Seq<u8>>, Seq<char>, Seq<char>), SubscriptionView> {
        Map::new(
            |k: (Seq<Seq<u8>>, Seq<char>, Seq<char>)| has_client(
                group_members(groups_at(self.root, k.0), k.1),
                k.2,
            ),
            |k: (Seq<Seq<u8>>, Seq<char>, Seq<char>)| find_client(
                group_members(groups_at(self.root, k.0), k.1),
                k.2,
            )->0,
        )
    }

    /// Every node holds at most one subscription per client and well-formed
    /// groups.
    #[verifier::type_invariant]
    spec fn inv(self) -> bool {
        node_wf(self.root)
    }
}

// ── Lemmas on lists keyed by client ──────────────────────────────────────────

proof fn lemma_client_index(s: Seq<SubscriptionView>, i: int)
    requires
        distinct_clients(s),
        0 <= i < s.len(),
    ensures
        has_client(s, s[i].client_id),
        client_index(s, s[i].client_id) == i,
        find_client(s, s[i].client_id) == Some(s[i]),
{
    let j = client_index(s, s[i].client_id);
    assert(0 <= j < s.len() && s[j].client_id == s[i].client_id);
}

proof fn lemma_upsert(s: Seq<SubscriptionView>, x: SubscriptionView)
    requires
        distinct_clients(s),
    ensures
        distinct_clients(upsert(s, x)),
        upsert(s, x).len() > 0,
        forall|c: Seq<char>|
            #![trigger find_client(upsert(s, x), c)]
            #![trigger has_client(upsert(s, x), c)]
            (has_client(upsert(s, x), c) == (has_client(s, c) || c == x.client_id)) && find_client(
                upsert(s, x),
                c,
            ) == if c == x.client_id {
                Some(x)
            } else {
                find_client(s, c)
            },
{
    let u = upsert(s, x);
    if has_client(s, x.client_id) {
        let k = client_index(s, x.client_id);
        assert(u == s.update(k, x));
    }
    assert forall|c: Seq<char>|
        (has_client(u, c) == (has_client(s, c) || c == x.client_id)) && find_client(u, c) == if c
            == x.client_id {
            Some(x)
        } else {
            find_client(s, c)
        } by {
        if has_client(u, c) {
            let j = client_index(u, c);
            if c != x.client_id {
                assert(s[j] == u[j]);
                assert(has_client(s, c));
            }
        }
        if has_client(s, c) {
            let j = client_index(s, c);
            if c != x.client_id {
                assert(u[j] == s[j]);
                assert(has_client(u, c));
            }
        }
        if c == x.client_id {
            if has_client(s, x.client_id) {
                let k = client_index(s, x.client_id);
                assert(u[k] == x);
            } else {
                assert(u[s.len() as int] == x);
            }
            assert(has_client(u, c));
            lemma_client_index(u, client_index(u, c));
        } else if has_client(s, c) {
            let j = client_index(s, c);
            lemma_client_index(s, j);
            assert(u[j] == s[j]);
            lemma_client_index(u, j);
        }
    }
}

proof fn lemma_remove_client(s: Seq<SubscriptionView>, c: Seq<char>)
    requires
        distinct_clients(s),
    ensures
        distinct_clients(remove_client(s, c)),
        remove_client(s, c).len() == if has_client(s, c) {
            s.len() - 1
        } else {
            s.len() as int
        },
        forall|d: Seq<char>|
            #![trigger find_client(remove_client(s, c), d)]
            #![trigger has_client(remove_client(s, c), d)]
            (has_client(remove_client(s, c), d) == (has_client(s, d) && d != c)) && find_client(
                remove_client(s, c),
                d,
            ) == if d == c {
                None
            } else {
                find_client(s, d)
            },
{
    let r = remove_client(s, c);
    if has_client(s, c) {
        let k = client_index(s, c);
        assert(r == s.remove(k));
        assert forall|i: int, j: int|
            0 <= i < r.len() && 0 <= j < r.len() && i != j implies r[i].client_id
            != r[j].client_id by {
            let i2 = if i < k {
                i
            } else {
                i + 1
            };
            let j2 = if j < k {
                j
            } else {
                j + 1
            };
            assert(r[i] == s[i2] && r[j] == s[j2]);
        }
        assert forall|d: Seq<char>|
            (has_client(r, d) == (has_client(s, d) && d != c)) && find_client(r, d) == if d == c {
                None
            } else {
                find_client(s, d)
            } by {
            if has_client(r, d) {
                let j = client_index(r, d);
                let j2 = if j < k {
                    j
                } else {
                    j + 1
                };
                assert(r[j] == s[j2]);
                assert(has_client(s, d));
                if d == c {
                    assert(j2 != k);
                    assert(false);
                }
                lemma_client_index(r, j);
                lemma_client_index(s, j2);
            }
            if has_client(s, d) && d != c {
                let j = client_index(s, d);
                assert(j != k);
                let j1 = if j < k {
                    j
                } else {
                    j - 1
                };
                assert(r[j1] == s[j]);
                assert(has_client(r, d));
            }
        }
    }
}

// ── Lemmas on the trie ───────────────────────────────────────────────────────

/// A node with no children and no subscriptions.
spec fn empty_node(n: TrieNode) -> bool {
    &&& n.children@.len() == 0
    &&& n.plus_child is None
    &&& n.hash_child is None
    &&& n.subscriptions@.len() == 0
    &&& n.shared_subscriptions@.len() == 0
}

proof fn lemma_empty_node(n: TrieNode, p: Seq<Seq<u8>>)
    requires
        empty_node(n),
    ensures
        subs_at(n, p) == Seq::<SubscriptionView>::empty(),
        groups_at(n, p) == Seq::<(Seq<char>, Seq<SubscriptionView>)>::empty(),
{
    if p.len() == 0 {
        assert(sub_views(n.subscriptions@) =~= Seq::<SubscriptionView>::empty());
        assert(groups_view(n.shared_subscriptions@) =~= Seq::<(Seq<char>, Seq<SubscriptionView>)>::empty());
    } else {
        assert(step(n, p[0]) is None);
    }
}

/// Two nodes whose children lead alike reach alike below themselves.
proof fn lemma_same_steps(a: TrieNode, b: TrieNode, p: Seq<Seq<u8>>)
    requires
        p.len() > 0,
        step(a, p[0]) == step(b, p[0]),
    ensures
        subs_at(a, p) == subs_at(b, p),
        groups_at(a, p) == groups_at(b, p),
{
}

/// Below a node, a path goes through the child of its first level.
proof fn lemma_reach_child(n: TrieNode, c: TrieNode, p: Seq<Seq<u8>>)
    requires
        p.len() > 0,
        step(n, p[0]) == Some(c),
    ensures
        subs_at(n, p) == subs_at(c, p.drop_first()),
        groups_at(n, p) == groups_at(c, p.drop_first()),
{
}

proof fn lemma_reach_missing(n: TrieNode, p: Seq<Seq<u8>>)
    requires
        p.len() > 0,
        step(n, p[0]) is None,
    ensures
        subs_at(n, p) == Seq::<SubscriptionView>::empty(),
        groups_at(n, p) == Seq::<(Seq<char>, Seq<SubscriptionView>)>::empty(),
{
}

/// The first child filed under a level.
proof fn lemma_child_for_found(cs: Seq<(Vec<u8>, TrieNode)>, l: Seq<u8>, i: int)
    requires
        0 <= i < cs.len(),
        cs[i].0@ == l,
        forall|j: int| 0 <= j < i ==> cs[j].0@ != l,
    ensures
        child_for(cs, l) == Some(cs[i].1),
    decreases i,
{
    if i > 0 {
        lemma_child_for_found(cs.drop_first(), l, i - 1);
    }
}

proof fn lemma_child_for_none(cs: Seq<(Vec<u8>, TrieNode)>, l: Seq<u8>)
    requires
        forall|j: int| 0 <= j < cs.len() ==> cs[j].0@ != l,
    ensures
        child_for(cs, l) is None,
    decreases cs.len(),
{
    if cs.len() > 0 {
        lemma_child_for_none(cs.drop_first(), l);
    }
}

/// Replacing the first child under a level changes what that level leads
/// to, and nothing else.
proof fn lemma_child_for_update(
    cs: Seq<(Vec<u8>, TrieNode)>,
    i: int,
    c: TrieNode,
    l: Seq<u8>,
)
    requires
        0 <= i < cs.len(),
        forall|j: int| 0 <= j < i ==> cs[j].0@ != cs[i].0@,
    ensures
        child_for(cs.update(i, (cs[i].0, c)), l) == if l == cs[i].0@ {
            Some(c)
        } else {
            child_for(cs, l)
        },
    decreases i,
{
    let u = cs.update(i, (cs[i].0, c));
    if i == 0 {
        assert(u.drop_first() =~= cs.drop_first());
    } else {
        assert(u.drop_first() =~= cs.drop_first().update(i - 1, (cs[i].0, c)));
        lemma_child_for_update(cs.drop_first(), i - 1, c, l);
    }
}

/// Adding a child under a new level: that level leads to it, the others
/// lead where they did.
proof fn lemma_child_for_push(cs: Seq<(Vec<u8>, TrieNode)>, k: Vec<u8>, c: TrieNode, l: Seq<u8>)
    requires
        forall|j: int| 0 <= j < cs.len() ==> cs[j].0@ != k@,
    ensures
        child_for(cs.push((k, c)), l) == if l == k@ {
            Some(c)
        } else {
            child_for(cs, l)
        },
    decreases cs.len(),
{
    let u = cs.push((k, c));
    if cs.len() == 0 {
        assert(u.drop_first() =~= Seq::<(Vec<u8>, TrieNode)>::empty());
    } else {
        assert(u.drop_first() =~= cs.drop_first().push((k, c)));
        lemma_child_for_push(cs.drop_first(), k, c, l);
    }
}

/// A path equals another with the same first level exactly when the rests
/// are equal.
proof fn lemma_path_cons(p: Seq<Seq<u8>>, q: Seq<Seq<u8>>)
    requires
        p.len() > 0,
        q.len() > 0,
        p[0] == q[0],
    ensures
        (p == q) == (p.drop_first() == q.drop_first()),
{
    if p.drop_first() == q.drop_first() {
        assert(p.drop_first().len() == q.drop_first().len());
        assert(p.len() == q.len());
        assert(p =~= q) by {
            assert forall|i: int| 0 <= i < p.len() implies p[i] == q[i] by {
                if i > 0 {
                    assert(p[i] == p.drop_first()[i - 1]);
                    assert(q[i] == q.drop_first()[i - 1]);
                }
            }
        }
    }
}

/// Every node below holds at most one subscription per client and
/// well-formed groups.
spec fn node_wf(n: TrieNode) -> bool {
    forall|p: Seq<Seq<u8>>|
        distinct_clients(#[trigger] subs_at(n, p)) && groups_wf(groups_at(n, p))
}

proof fn lemma_child_wf(n: TrieNode, l: Seq<u8>, c: TrieNode)
    requires
        node_wf(n),
        step(n, l) == Some(c),
    ensures
        node_wf(c),
{
    assert forall|p: Seq<Seq<u8>>|
        distinct_clients(#[trigger] subs_at(c, p)) && groups_wf(groups_at(c, p)) by {
        let pp = seq![l] + p;
        assert(pp.drop_first() =~= p);
        lemma_reach_child(n, c, pp);
        assert(distinct_clients(subs_at(n, pp)) && groups_wf(groups_at(n, pp)));
    }
}

proof fn lemma_empty_wf(n: TrieNode)
    requires
        empty_node(n),
    ensures
        node_wf(n),
{
    assert forall|p: Seq<Seq<u8>>|
        distinct_clients(#[trigger] subs_at(n, p)) && groups_wf(groups_at(n, p)) by {
        lemma_empty_node(n, p);
    }
}

/// What filing `x` under path `q` (in group `g`, when given) does to the
/// node: exactly that list of the path changes.
spec fn inserted(
    old: TrieNode,
    new: TrieNode,
    q: Seq<Seq<u8>>,
    g: Option<Seq<char>>,
    x: SubscriptionView,
) -> bool {
    &&& forall|p: Seq<Seq<u8>>|
        #[trigger] subs_at(new, p) == if p == q && g is None {
            upsert(subs_at(old, p), x)
        } else {
            subs_at(old, p)
        }
    &&& forall|p: Seq<Seq<u8>>|
        #[trigger] groups_at(new, p) == if p == q && g is Some {
            group_upsert(groups_at(old, p), g->0, x)
        } else {
            groups_at(old, p)
        }
}

/// When one child of a node changes, what changed below the child is what
/// changed below the node.
proof fn lemma_inserted_child(
    old: TrieNode,
    new: TrieNode,
    c0: TrieNode,
    c1: TrieNode,
    q: Seq<Seq<u8>>,
    g: Option<Seq<char>>,
    x: SubscriptionView,
)
    requires
        q.len() > 0,
        forall|l: Seq<u8>| l != q[0] ==> #[trigger] step(new, l) == step(old, l),
        step(new, q[0]) == Some(c1),
        step(old, q[0]) == Some(c0) || (step(old, q[0]) is None && empty_node(c0)),
        new.subscriptions == old.subscriptions,
        new.shared_subscriptions == old.shared_subscriptions,
        inserted(c0, c1, q.drop_first(), g, x),
    ensures
        inserted(old, new, q, g, x),
{
    assert forall|p: Seq<Seq<u8>>|
        #[trigger] subs_at(new, p) == (if p == q && g is None {
            upsert(subs_at(old, p), x)
        } else {
            subs_at(old, p)
        }) && groups_at(new, p) == (if p == q && g is Some {
            group_upsert(groups_at(old, p), g->0, x)
        } else {
            groups_at(old, p)
        }) by {
        if p.len() == 0 {
            assert(p != q);
        } else if p[0] == q[0] {
            lemma_path_cons(p, q);
            lemma_reach_child(new, c1, p);
            if step(old, q[0]) is None {
                lemma_reach_missing(old, p);
                lemma_empty_node(c0, p.drop_first());
            } else {
                lemma_reach_child(old, c0, p);
            }
            assert(subs_at(c1, p.drop_first()) == (if p.drop_first() == q.drop_first() && g is None {
                upsert(subs_at(c0, p.drop_first()), x)
            } else {
                subs_at(c0, p.drop_first())
            }));
            assert(groups_at(c1, p.drop_first()) == (if p.drop_first() == q.drop_first() && g is Some {
                group_upsert(groups_at(c0, p.drop_first()), g->0, x)
            } else {
                groups_at(c0, p.drop_first())
            }));
        } else {
            assert(p != q);
            assert(step(new, p[0]) == step(old, p[0]));
            lemma_same_steps(new, old, p);
        }
    }
    assert forall|p: Seq<Seq<u8>>|
        #[trigger] groups_at(new, p) == (if p == q && g is Some {
            group_upsert(groups_at(old, p), g->0, x)
        } else {
            groups_at(old, p)
        }) by {
        assert(subs_at(new, p) == subs_at(new, p));
    }
}

impl TrieNode {
    /// A node with no children and no subscriptions.
    fn new() -> (r: Self)
        ensures
            empty_node(r),
    {
        TrieNode {
            children: Vec::new(),
            plus_child: None,
            hash_child: None,
            subscriptions: Vec::new(),
            shared_subscriptions: Vec::new(),
        }
    }
}

/// The position of a client's subscription in a list.
fn find_sub(v: &Vec<Subscription>, cid: &str) -> (r: Option<usize>)
    ensures
        match r {
            Some(i) => i < v@.len() && v@[i as int].client_id@ == cid@,
            None => !has_client(sub_views(v@), cid@),
        },
{
    let mut i: usize = 0;
    while i < v.len()
        invariant
            i <= v@.len(),
            forall|j: int| 0 <= j < i ==> v@[j].client_id@ != cid@,
        decreases v@.len() - i,
    {
        if str_eq(v[i].client_id.as_str(), cid) {
            return Some(i);
        }
        i = i + 1;
    }
    assert forall|j: int| 0 <= j < sub_views(v@).len() implies sub_views(v@)[j].client_id != cid@ by {
        assert(sub_views(v@)[j] == v@[j]@);
    }
    None
}

/// Put a subscription in place of its client's one, or add it.
fn upsert_sub(v: &mut Vec<Subscription>, s: Subscription)
    requires
        distinct_clients(sub_views(old(v)@)),
    ensures
        sub_views(final(v)@) == upsert(sub_views(old(v)@), s@),
{
    let ghost sv = s@;
    match find_sub(v, s.client_id.as_str()) {
        Some(i) => {
            proof {
                assert(sub_views(v@)[i as int] == v@[i as int]@);
                lemma_client_index(sub_views(v@), i as int);
            }
            v.set(i, s);
            assert(sub_views(v@) =~= sub_views(old(v)@).update(i as int, sv));
        },
        None => {
            v.push(s);
            assert(sub_views(v@) =~= sub_views(old(v)@).push(sv));
        },
    }
}

/// The position of a group in a list of groups.
fn find_group(gs: &Vec<(String, Vec<Subscription>)>, name: &str) -> (r: Option<usize>)
    ensures
        match r {
            Some(i) => i < gs@.len() && gs@[i as int].0@ == name@,
            None => !has_group(groups_view(gs@), name@),
        },
{
    let mut i: usize = 0;
    while i < gs.len()
        invariant
            i <= gs@.len(),
            forall|j: int| 0 <= j < i ==> gs@[j].0@ != name@,
        decreases gs@.len() - i,
    {
        if str_eq(gs[i].0.as_str(), name) {
            return Some(i);
        }
        i = i + 1;
    }
    assert forall|j: int| 0 <= j < groups_view(gs@).len() implies groups_view(gs@)[j].0 != name@ by {
        assert(groups_view(gs@)[j].0 == gs@[j].0@);
    }
    None
}

proof fn lemma_group_index(gs: GroupsView, i: int)
    requires
        groups_wf(gs),
        0 <= i < gs.len(),
    ensures
        has_group(gs, gs[i].0),
        group_index(gs, gs[i].0) == i,
{
    let j = group_index(gs, gs[i].0);
    assert(0 <= j < gs.len() && gs[j].0 == gs[i].0);
}

/// Add a subscription to a group, creating the group when missing.
fn upsert_group(gs: &mut Vec<(String, Vec<Subscription>)>, name: String, s: Subscription)
    requires
        groups_wf(groups_view(old(gs)@)),
    ensures
        groups_view(final(gs)@) == group_upsert(groups_view(old(gs)@), name@, s@),
{
    let ghost gv = groups_view(gs@);
    let ghost sv = s@;
    let ghost nv = name@;
    match find_group(gs, name.as_str()) {
        Some(i) => {
            proof {
                assert(gv[i as int] == (gs@[i as int].0@, sub_views(gs@[i as int].1@)));
                lemma_group_index(gv, i as int);
                assert(distinct_clients(gv[i as int].1));
            }
            let (n, mut members) = gs.remove(i);
            upsert_sub(&mut members, s);
            gs.insert(i, (n, members));
            assert(groups_view(gs@) =~= gv.update(i as int, (nv, upsert(gv[i as int].1, sv))));
        },
        None => {
            let mut members: Vec<Subscription> = Vec::new();
            members.push(s);
            assert(sub_views(members@) =~= seq![sv]);
            gs.push((name, members));
            assert(groups_view(gs@) =~= gv.push((nv, seq![sv])));
        },
    }
}

/// The first exact child filed under a level.
fn find_child(cs: &Vec<(Vec<u8>, TrieNode)>, l: &Vec<u8>) -> (r: Option<usize>)
    ensures
        match r {
            Some(i) => i < cs@.len() && cs@[i as int].0@ == l@ && forall|j: int|
                0 <= j < i ==> cs@[j].0@ != l@,
            None => forall|j: int| 0 <= j < cs@.len() ==> cs@[j].0@ != l@,
        },
{
    let mut i: usize = 0;
    while i < cs.len()
        invariant
            i <= cs@.len(),
            forall|j: int| 0 <= j < i ==> cs@[j].0@ != l@,
        decreases cs@.len() - i,
    {
        if bytes_eq(cs[i].0.as_slice(), l.as_slice()) {
            return Some(i);
        }
        i = i + 1;
    }
    None
}

/// File a subscription (in a group, when given) under the levels from
/// `idx` on, creating the nodes on the way.
fn insert_at(
    node: &mut TrieNode,
    levels: &Vec<Vec<u8>>,
    idx: usize,
    sub: Subscription,
    group: Option<String>,
)
    requires
        idx <= levels@.len(),
        node_wf(*old(node)),
    ensures
        inserted(
            *old(node),
            *final(node),
            level_views(levels@).skip(idx as int),
            opt_str(group),
            sub@,
        ),
    decreases levels@.len() - idx,
{
    let ghost q = level_views(levels@).skip(idx as int);
    let ghost g = opt_str(group);
    let ghost x = sub@;
    if idx == levels.len() {
        assert(q.len() == 0);
        proof {
            let n0 = *old(node);
            assert(node_wf(n0));
            assert(distinct_clients(subs_at(n0, q)));
            assert(groups_wf(groups_at(n0, q)));
            assert(subs_at(n0, q) == sub_views(n0.subscriptions@));
            assert(groups_at(n0, q) == groups_view(n0.shared_subscriptions@));
        }
        match group {
            None => upsert_sub(&mut node.subscriptions, sub),
            Some(name) => upsert_group(&mut node.shared_subscriptions, name, sub),
        }
        proof {
            assert forall|p: Seq<Seq<u8>>|
                #[trigger] subs_at(*node, p) == (if p == q && g is None {
                    upsert(subs_at(*old(node), p), x)
                } else {
                    subs_at(*old(node), p)
                }) && groups_at(*node, p) == (if p == q && g is Some {
                    group_upsert(groups_at(*old(node), p), g->0, x)
                } else {
                    groups_at(*old(node), p)
                }) by {
                if p.len() > 0 {
                    assert(p != q);
                    lemma_same_steps(*node, *old(node), p);
                } else {
                    assert(p =~= q);
                }
            }
            assert forall|p: Seq<Seq<u8>>|
                #[trigger] groups_at(*node, p) == (if p == q && g is Some {
                    group_upsert(groups_at(*old(node), p), g->0, x)
                } else {
                    groups_at(*old(node), p)
                }) by {
                assert(subs_at(*node, p) == subs_at(*node, p));
            }
        }
        return;
    }
    let level = &levels[idx];
    assert(q[0] == level@ && q.drop_first() =~= level_views(levels@).skip(idx + 1));
    if is_single(level, PLUS) {
        let mut c = match node.plus_child.take() {
            Some(b) => b,
            None => Box::new(TrieNode::new()),
        };
        let ghost c0 = *c;
        proof {
            if old(node).plus_child is Some {
                lemma_child_wf(*old(node), q[0], c0);
            } else {
                lemma_empty_wf(c0);
            }
        }
        insert_at(&mut *c, levels, idx + 1, sub, group);
        node.plus_child = Some(c);
        proof {
            lemma_inserted_child(*old(node), *node, c0, *c, q, g, x);
        }
    } else if is_single(level, HASH) {
        let mut c = match node.hash_child.take() {
            Some(b) => b,
            None => Box::new(TrieNode::new()),
        };
        let ghost c0 = *c;
        proof {
            if old(node).hash_child is Some {
                lemma_child_wf(*old(node), q[0], c0);
            } else {
                lemma_empty_wf(c0);
            }
        }
        insert_at(&mut *c, levels, idx + 1, sub, group);
        node.hash_child = Some(c);
        proof {
            lemma_inserted_child(*old(node), *node, c0, *c, q, g, x);
        }
    } else {
        match find_child(&node.children, level) {
            Some(i) => {
                let ghost cs = node.children@;
                proof {
                    lemma_child_for_found(cs, level@, i as int);
                    lemma_child_wf(*old(node), q[0], cs[i as int].1);
                }
                let (k, mut c) = node.children.remove(i);
                let ghost c0 = c;
                insert_at(&mut c, levels, idx + 1, sub, group);
                let ghost c1 = c;
                node.children.insert(i, (k, c));
                proof {
                    assert(node.children@ =~= cs.update(i as int, (cs[i as int].0, c1)));
                    assert forall|l: Seq<u8>| #[trigger] child_for(node.children@, l) == if l
                        == level@ {
                        Some(c1)
                    } else {
                        child_for(cs, l)
                    } by {
                        lemma_child_for_update(cs, i as int, c1, l);
                    }
                    lemma_inserted_child(*old(node), *node, c0, c1, q, g, x);
                }
            },
            None => {
                let ghost cs = node.children@;
                let mut c = TrieNode::new();
                let ghost c0 = c;
                proof {
                    lemma_child_for_none(cs, level@);
                    lemma_empty_wf(c0);
                }
                insert_at(&mut c, levels, idx + 1, sub, group);
                let ghost c1 = c;
                let key = level.clone();
                node.children.push((key, c));
                proof {
                    assert forall|l: Seq<u8>| #[trigger] child_for(node.children@, l) == if l
                        == level@ {
                        Some(c1)
                    } else {
                        child_for(cs, l)
                    } by {
                        lemma_child_for_push(cs, key, c1, l);
                    }
                    lemma_inserted_child(*old(node), *node, c0, c1, q, g, x);
                }
            },
        }
    }
}

/// What taking client `c` out of the list under path `q` (out of group
/// `g`, when given) does to the node: exactly that list changes.
spec fn removed(old: TrieNode, new: TrieNode, q: Seq<Seq<u8>>, g: Option<Seq<char>>, c: Seq<char>) -> bool {
    &&& forall|p: Seq<Seq<u8>>|
        #[trigger] subs_at(new, p) == if p == q && g is None {
            remove_client(subs_at(old, p), c)
        } else {
            subs_at(old, p)
        }
    &&& forall|p: Seq<Seq<u8>>|
        #[trigger] groups_at(new, p) == if p == q && g is Some {
            group_remove(groups_at(old, p), g->0, c)
        } else {
            groups_at(old, p)
        }
}

/// Whether client `c` is filed under path `q` (in group `g`, when given).
spec fn filed(n: TrieNode, q: Seq<Seq<u8>>, g: Option<Seq<char>>, c: Seq<char>) -> bool {
    match g {
        None => has_client(subs_at(n, q), c),
        Some(g) => has_client(group_members(groups_at(n, q), g), c),
    }
}

proof fn lemma_removed_child(
    old: TrieNode,
    new: TrieNode,
    c0: TrieNode,
    c1: TrieNode,
    q: Seq<Seq<u8>>,
    g: Option<Seq<char>>,
    c: Seq<char>,
)
    requires
        q.len() > 0,
        forall|l: Seq<u8>| l != q[0] ==> #[trigger] step(new, l) == step(old, l),
        step(new, q[0]) == Some(c1),
        step(old, q[0]) == Some(c0),
        new.subscriptions == old.subscriptions,
        new.shared_subscriptions == old.shared_subscriptions,
        removed(c0, c1, q.drop_first(), g, c),
    ensures
        removed(old, new, q, g, c),
        filed(old, q, g, c) == filed(c0, q.drop_first(), g, c),
{
    lemma_reach_child(old, c0, q);
    assert forall|p: Seq<Seq<u8>>|
        #[trigger] subs_at(new, p) == (if p == q && g is None {
            remove_client(subs_at(old, p), c)
        } else {
            subs_at(old, p)
        }) && groups_at(new, p) == (if p == q && g is Some {
            group_remove(groups_at(old, p), g->0, c)
        } else {
            groups_at(old, p)
        }) by {
        if p.len() == 0 {
            assert(p != q);
        } else if p[0] == q[0] {
            lemma_path_cons(p, q);
            lemma_reach_child(new, c1, p);
            lemma_reach_child(old, c0, p);
            assert(subs_at(c1, p.drop_first()) == (if p.drop_first() == q.drop_first() && g is None {
                remove_client(subs_at(c0, p.drop_first()), c)
            } else {
                subs_at(c0, p.drop_first())
            }));
            assert(groups_at(c1, p.drop_first()) == (if p.drop_first() == q.drop_first() && g is Some {
                group_remove(groups_at(c0, p.drop_first()), g->0, c)
            } else {
                groups_at(c0, p.drop_first())
            }));
        } else {
            assert(p != q);
            assert(step(new, p[0]) == step(old, p[0]));
            lemma_same_steps(new, old, p);
        }
    }
    assert forall|p: Seq<Seq<u8>>|
        #[trigger] groups_at(new, p) == (if p == q && g is Some {
            group_remove(groups_at(old, p), g->0, c)
        } else {
            groups_at(old, p)
        }) by {
        assert(subs_at(new, p) == subs_at(new, p));
    }
}

proof fn lemma_removed_missing(n: TrieNode, q: Seq<Seq<u8>>, g: Option<Seq<char>>, c: Seq<char>)
    requires
        q.len() > 0,
        step(n, q[0]) is None,
    ensures
        removed(n, n, q, g, c),
        !filed(n, q, g, c),
{
    lemma_reach_missing(n, q);
    assert(remove_client(Seq::<SubscriptionView>::empty(), c) == Seq::<SubscriptionView>::empty());
    assert(!has_group(Seq::<(Seq<char>, Seq<SubscriptionView>)>::empty(), g->0));
}

/// Take a client's subscription out of a list.
fn remove_sub(v: &mut Vec<Subscription>, cid: &str) -> (r: bool)
    requires
        distinct_clients(sub_views(old(v)@)),
    ensures
        sub_views(final(v)@) == remove_client(sub_views(old(v)@), cid@),
        r == has_client(sub_views(old(v)@), cid@),
{
    match find_sub(v, cid) {
        Some(i) => {
            proof {
                assert(sub_views(v@)[i as int] == v@[i as int]@);
                lemma_client_index(sub_views(v@), i as int);
            }
            let _s = v.remove(i);
            assert(sub_views(v@) =~= sub_views(old(v)@).remove(i as int));
            true
        },
        None => false,
    }
}

/// Take a client out of a group; a group left empty is dropped.
fn remove_from_group(gs: &mut Vec<(String, Vec<Subscription>)>, name: &str, cid: &str) -> (r: bool)
    requires
        groups_wf(groups_view(old(gs)@)),
    ensures
        groups_view(final(gs)@) == group_remove(groups_view(old(gs)@), name@, cid@),
        r == has_client(group_members(groups_view(old(gs)@), name@), cid@),
{
    let ghost gv = groups_view(gs@);
    match find_group(gs, name) {
        Some(i) => {
            proof {
                assert(gv[i as int] == (gs@[i as int].0@, sub_views(gs@[i as int].1@)));
                lemma_group_index(gv, i as int);
                assert(distinct_clients(gv[i as int].1));
            }
            let (n, mut members) = gs.remove(i);
            let ghost nv = n@;
            let removed = remove_sub(&mut members, cid);
            proof {
                lemma_remove_client(gv[i as int].1, cid@);
            }
            if members.len() == 0 {
                assert(groups_view(gs@) =~= gv.remove(i as int));
            } else {
                gs.insert(i, (n, members));
                assert(groups_view(gs@) =~= gv.update(
                    i as int,
                    (nv, remove_client(gv[i as int].1, cid@)),
                ));
            }
            removed
        },
        None => {
            assert(!has_client(Seq::<SubscriptionView>::empty(), cid@));
            false
        },
    }
}

/// Take a client's subscription (in a group, when given) out from under
/// the levels from `idx` on.  Nodes are never created or dropped.
fn remove_at(
    node: &mut TrieNode,
    levels: &Vec<Vec<u8>>,
    idx: usize,
    cid: &str,
    group: Option<&str>,
) -> (r: bool)
    requires
        idx <= levels@.len(),
        node_wf(*old(node)),
    ensures
        removed(
            *old(node),
            *final(node),
            level_views(levels@).skip(idx as int),
            opt_group(group),
            cid@,
        ),
        r == filed(*old(node), level_views(levels@).skip(idx as int), opt_group(group), cid@),
    decreases levels@.len() - idx,
{
    let ghost q = level_views(levels@).skip(idx as int);
    let ghost g = opt_group(group);
    let ghost c = cid@;
    if idx == levels.len() {
        assert(q.len() == 0);
        proof {
            let n0 = *old(node);
            assert(node_wf(n0));
            assert(distinct_clients(subs_at(n0, q)));
            assert(groups_wf(groups_at(n0, q)));
            assert(subs_at(n0, q) == sub_views(n0.subscriptions@));
            assert(groups_at(n0, q) == groups_view(n0.shared_subscriptions@));
        }
        let r = match group {
            None => remove_sub(&mut node.subscriptions, cid),
            Some(name) => remove_from_group(&mut node.shared_subscriptions, name, cid),
        };
        proof {
            assert forall|p: Seq<Seq<u8>>|
                #[trigger] subs_at(*node, p) == (if p == q && g is None {
                    remove_client(subs_at(*old(node), p), c)
                } else {
                    subs_at(*old(node), p)
                }) && groups_at(*node, p) == (if p == q && g is Some {
                    group_remove(groups_at(*old(node), p), g->0, c)
                } else {
                    groups_at(*old(node), p)
                }) by {
                if p.len() > 0 {
                    assert(p != q);
                    lemma_same_steps(*node, *old(node), p);
                } else {
                    assert(p =~= q);
                }
            }
            assert forall|p: Seq<Seq<u8>>|
                #[trigger] groups_at(*node, p) == (if p == q && g is Some {
                    group_remove(groups_at(*old(node), p), g->0, c)
                } else {
                    groups_at(*old(node), p)
                }) by {
                assert(subs_at(*node, p) == subs_at(*node, p));
            }
        }
        return r;
    }
    let level = &levels[idx];
    assert(q[0] == level@ && q.drop_first() =~= level_views(levels@).skip(idx + 1));
    if is_single(level, PLUS) {
        match node.plus_child.take() {
            Some(mut b) => {
                let ghost c0 = *b;
                proof {
                    lemma_child_wf(*old(node), q[0], c0);
                }
                let r = remove_at(&mut *b, levels, idx + 1, cid, group);
                let ghost c1 = *b;
                node.plus_child = Some(b);
                proof {
                    lemma_removed_child(*old(node), *node, c0, c1, q, g, c);
                }
                r
            },
            None => {
                proof {
                    lemma_removed_missing(*old(node), q, g, c);
                }
                false
            },
        }
    } else if is_single(level, HASH) {
        match node.hash_child.take() {
            Some(mut b) => {
                let ghost c0 = *b;
                proof {
                    lemma_child_wf(*old(node), q[0], c0);
                }
                let r = remove_at(&mut *b, levels, idx + 1, cid, group);
                let ghost c1 = *b;
                node.hash_child = Some(b);
                proof {
                    lemma_removed_child(*old(node), *node, c0, c1, q, g, c);
                }
                r
            },
            None => {
                proof {
                    lemma_removed_missing(*old(node), q, g, c);
                }
                false
            },
        }
    } else {
        match find_child(&node.children, level) {
            Some(i) => {
                let ghost cs = node.children@;
                proof {
                    lemma_child_for_found(cs, level@, i as int);
                    lemma_child_wf(*old(node), q[0], cs[i as int].1);
                }
                let (k, mut ch) = node.children.remove(i);
                let ghost c0 = ch;
                let r = remove_at(&mut ch, levels, idx + 1, cid, group);
                let ghost c1 = ch;
                node.children.insert(i, (k, ch));
                proof {
                    assert(node.children@ =~= cs.update(i as int, (cs[i as int].0, c1)));
                    assert forall|l: Seq<u8>| #[trigger] child_for(node.children@, l) == if l
                        == level@ {
                        Some(c1)
                    } else {
                        child_for(cs, l)
                    } by {
                        lemma_child_for_update(cs, i as int, c1, l);
                    }
                    lemma_removed_child(*old(node), *node, c0, c1, q, g, c);
                }
                r
            },
            None => {
                proof {
                    lemma_child_for_none(node.children@, level@);
                    lemma_removed_missing(*old(node), q, g, c);
                }
                false
            },
        }
    }
}

// ── Matching ─────────────────────────────────────────────────────────────────

/// Whether a topic level is a wildcard.
pub open spec fn is_wild(l: Seq<u8>) -> bool {
    l == plus_level() || l == hash_level()
}

/// The subscriptions the walk for topic levels `t` collects below a node,
/// in the order it visits them: those under the `#` child, then those of
/// the node itself when no level is left, else those found through the
/// exact child and then through the `+` child.
spec fn match_subs(n: TrieNode, t: Seq<Seq<u8>>, sf: bool) -> Seq<SubscriptionView>
    decreases t.len(),
{
    (match n.hash_child {
        Some(h) => if !sf {
            sub_views(h.subscriptions@)
        } else {
            Seq::empty()
        },
        None => Seq::empty(),
    }) + if t.len() == 0 {
        sub_views(n.subscriptions@)
    } else {
        (if !is_wild(t[0]) {
            match child_for(n.children@, t[0]) {
                Some(c) => match_subs(c, t.drop_first(), false),
                None => Seq::empty(),
            }
        } else {
            Seq::empty()
        }) + match n.plus_child {
            Some(pc) => if !sf {
                match_subs(*pc, t.drop_first(), false)
            } else {
                Seq::empty()
            },
            None => Seq::empty(),
        }
    }
}

/// The groups the same walk collects, in visiting order.
spec fn match_groups(n: TrieNode, t: Seq<Seq<u8>>, sf: bool) -> GroupsView
    decreases t.len(),
{
    (match n.hash_child {
        Some(h) => if !sf {
            groups_view(h.shared_subscriptions@)
        } else {
            Seq::empty()
        },
        None => Seq::empty(),
    }) + if t.len() == 0 {
        groups_view(n.shared_subscriptions@)
    } else {
        (if !is_wild(t[0]) {
            match child_for(n.children@, t[0]) {
                Some(c) => match_groups(c, t.drop_first(), false),
                None => Seq::empty(),
            }
        } else {
            Seq::empty()
        }) + match n.plus_child {
            Some(pc) => if !sf {
                match_groups(*pc, t.drop_first(), false)
            } else {
                Seq::empty()
            },
            None => Seq::empty(),
        }
    }
}

/// What the walk collects under the `#` child of a node.
spec fn hash_subs(n: TrieNode, sf: bool) -> Seq<SubscriptionView> {
    match n.hash_child {
        Some(h) => if !sf {
            sub_views(h.subscriptions@)
        } else {
            Seq::empty()
        },
        None => Seq::empty(),
    }
}

spec fn hash_groups(n: TrieNode, sf: bool) -> GroupsView {
    match n.hash_child {
        Some(h) => if !sf {
            groups_view(h.shared_subscriptions@)
        } else {
            Seq::empty()
        },
        None => Seq::empty(),
    }
}

/// What the walk collects through the exact child for the next level.
spec fn exact_subs(n: TrieNode, t: Seq<Seq<u8>>) -> Seq<SubscriptionView> {
    if !is_wild(t[0]) {
        match child_for(n.children@, t[0]) {
            Some(c) => match_subs(c, t.drop_first(), false),
            None => Seq::empty(),
        }
    } else {
        Seq::empty()
    }
}

spec fn exact_groups(n: TrieNode, t: Seq<Seq<u8>>) -> GroupsView {
    if !is_wild(t[0]) {
        match child_for(n.children@, t[0]) {
            Some(c) => match_groups(c, t.drop_first(), false),
            None => Seq::empty(),
        }
    } else {
        Seq::empty()
    }
}

/// What the walk collects through the `+` child.
spec fn plus_subs(n: TrieNode, t: Seq<Seq<u8>>, sf: bool) -> Seq<SubscriptionView> {
    match n.plus_child {
        Some(pc) => if !sf {
            match_subs(*pc, t.drop_first(), false)
        } else {
            Seq::empty()
        },
        None => Seq::empty(),
    }
}

spec fn plus_groups(n: TrieNode, t: Seq<Seq<u8>>, sf: bool) -> GroupsView {
    match n.plus_child {
        Some(pc) => if !sf {
            match_groups(*pc, t.drop_first(), false)
        } else {
            Seq::empty()
        },
        None => Seq::empty(),
    }
}

/// Group names occur at most once.
pub open spec fn names_distinct(gs: GroupsView) -> bool {
    forall|i: int, j: int| 0 <= i < gs.len() && 0 <= j < gs.len() && i != j ==> gs[i].0 != gs[j].0
}

/// Whether group `g` of the list holds `s`.
pub open spec fn group_has(gs: GroupsView, g: Seq<char>, s: SubscriptionView) -> bool {
    exists|i: int| 0 <= i < gs.len() && gs[i].0 == g && gs[i].1.contains(s)
}

/// Adding a group's members to the collected groups: appended to the
/// group of that name, or added as a new group.
pub open spec fn merge_group(out: GroupsView, e: (Seq<char>, Seq<SubscriptionView>)) -> GroupsView {
    if has_group(out, e.0) {
        out.update(group_index(out, e.0), (e.0, out[group_index(out, e.0)].1 + e.1))
    } else {
        out.push(e)
    }
}

/// Adding a list of groups, one after another.
pub open spec fn merge_groups(out: GroupsView, gs: GroupsView) -> GroupsView
    decreases gs.len(),
{
    if gs.len() == 0 {
        out
    } else {
        merge_groups(merge_group(out, gs[0]), gs.drop_first())
    }
}

proof fn lemma_merge_group(out: GroupsView, e: (Seq<char>, Seq<SubscriptionView>))
    requires
        names_distinct(out),
    ensures
        names_distinct(merge_group(out, e)),
        forall|g: Seq<char>| #[trigger]
            has_group(merge_group(out, e), g) == (has_group(out, g) || g == e.0),
        forall|g: Seq<char>, s: SubscriptionView| #[trigger]
            group_has(merge_group(out, e), g, s) == (group_has(out, g, s) || (g == e.0
                && e.1.contains(s))),
{
    let m = merge_group(out, e);
    if has_group(out, e.0) {
        let k = group_index(out, e.0);
        assert forall|g: Seq<char>| #[trigger] has_group(m, g) == (has_group(out, g) || g == e.0) by {
            if has_group(out, g) {
                let j = group_index(out, g);
                assert(m[j].0 == out[j].0);
            }
            if has_group(m, g) {
                let j = group_index(m, g);
                assert(m[j].0 == out[j].0);
            }
        }
        assert forall|g: Seq<char>, s: SubscriptionView| #[trigger] group_has(m, g, s) == (
        group_has(out, g, s) || (g == e.0 && e.1.contains(s))) by {
            if group_has(m, g, s) {
                let j = choose|j: int| 0 <= j < m.len() && m[j].0 == g && m[j].1.contains(s);
                if j != k {
                    assert(m[j] == out[j]);
                } else {
                    let x = choose|x: int| 0 <= x < m[j].1.len() && m[j].1[x] == s;
                    if x < out[k].1.len() {
                        assert(out[k].1[x] == s);
                        assert(out[k].1.contains(s));
                    } else {
                        assert(e.1[x - out[k].1.len()] == s);
                        assert(e.1.contains(s));
                    }
                }
            }
            if group_has(out, g, s) {
                let j = choose|j: int| 0 <= j < out.len() && out[j].0 == g && out[j].1.contains(s);
                let x = choose|x: int| 0 <= x < out[j].1.len() && out[j].1[x] == s;
                assert(m[j].1[x] == s);
                assert(m[j].1.contains(s));
            }
            if g == e.0 && e.1.contains(s) {
                let x = choose|x: int| 0 <= x < e.1.len() && e.1[x] == s;
                assert(m[k].1[out[k].1.len() + x] == s);
                assert(m[k].1.contains(s));
            }
        }
    } else {
        assert forall|g: Seq<char>| #[trigger] has_group(m, g) == (has_group(out, g) || g == e.0) by {
            if has_group(out, g) {
                let j = group_index(out, g);
                assert(m[j].0 == out[j].0);
            }
            if g == e.0 {
                assert(m[out.len() as int].0 == g);
            }
            if has_group(m, g) {
                let j = group_index(m, g);
                if j < out.len() {
                    assert(m[j].0 == out[j].0);
                }
            }
        }
        assert forall|g: Seq<char>, s: SubscriptionView| #[trigger] group_has(m, g, s) == (
        group_has(out, g, s) || (g == e.0 && e.1.contains(s))) by {
            if group_has(m, g, s) {
                let j = choose|j: int| 0 <= j < m.len() && m[j].0 == g && m[j].1.contains(s);
                if j < out.len() {
                    assert(m[j] == out[j]);
                }
            }
            if group_has(out, g, s) {
                let j = choose|j: int| 0 <= j < out.len() && out[j].0 == g && out[j].1.contains(s);
                assert(m[j] == out[j]);
            }
            if g == e.0 && e.1.contains(s) {
                assert(m[out.len() as int] == e);
            }
        }
    }
}

proof fn lemma_merge_groups(out: GroupsView, gs: GroupsView)
    requires
        names_distinct(out),
    ensures
        names_distinct(merge_groups(out, gs)),
        forall|g: Seq<char>| #[trigger]
            has_group(merge_groups(out, gs), g) == (has_group(out, g) || has_group(gs, g)),
        forall|g: Seq<char>, s: SubscriptionView| #[trigger]
            group_has(merge_groups(out, gs), g, s) == (group_has(out, g, s) || group_has(gs, g, s)),
    decreases gs.len(),
{
    if gs.len() > 0 {
        let m = merge_group(out, gs[0]);
        lemma_merge_group(out, gs[0]);
        lemma_merge_groups(m, gs.drop_first());
        let r = merge_groups(out, gs);
        assert forall|g: Seq<char>| #[trigger] has_group(r, g) == (has_group(out, g) || has_group(gs, g)) by {
            if has_group(gs.drop_first(), g) {
                let j = group_index(gs.drop_first(), g);
                assert(gs[j + 1].0 == g);
            }
            if has_group(gs, g) {
                let j = group_index(gs, g);
                if j > 0 {
                    assert(gs.drop_first()[j - 1].0 == g);
                }
            }
            assert(has_group(m, g) == (has_group(out, g) || g == gs[0].0));
        }
        assert forall|g: Seq<char>, s: SubscriptionView| #[trigger] group_has(r, g, s) == (
        group_has(out, g, s) || group_has(gs, g, s)) by {
            if group_has(gs.drop_first(), g, s) {
                let j = choose|j: int|
                    0 <= j < gs.drop_first().len() && gs.drop_first()[j].0 == g
                        && gs.drop_first()[j].1.contains(s);
                assert(gs[j + 1] == gs.drop_first()[j]);
            }
            if group_has(gs, g, s) {
                let j = choose|j: int| 0 <= j < gs.len() && gs[j].0 == g && gs[j].1.contains(s);
                if j > 0 {
                    assert(gs.drop_first()[j - 1] == gs[j]);
                }
            }
            assert(group_has(m, g, s) == (group_has(out, g, s) || (g == gs[0].0 && gs[0].1.contains(s))));
        }
    }
}

proof fn lemma_merge_groups_append(out: GroupsView, a: GroupsView, b: GroupsView)
    ensures
        merge_groups(out, a + b) == merge_groups(merge_groups(out, a), b),
    decreases a.len(),
{
    if a.len() == 0 {
        assert(a + b =~= b);
    } else {
        assert((a + b).drop_first() =~= a.drop_first() + b);
        assert((a + b)[0] == a[0]);
        lemma_merge_groups_append(merge_group(out, a[0]), a.drop_first(), b);
    }
}

/// Copy a list of subscriptions.
fn clone_subs(v: &Vec<Subscription>) -> (r: Vec<Subscription>)
    ensures
        sub_views(r@) == sub_views(v@),
{
    let mut r: Vec<Subscription> = Vec::new();
    append_subs(&mut r, v);
    assert(sub_views(r@) =~= sub_views(v@));
    r
}

/// Append copies of subscriptions.
fn append_subs(out: &mut Vec<Subscription>, v: &Vec<Subscription>)
    ensures
        sub_views(final(out)@) == sub_views(old(out)@) + sub_views(v@),
{
    let mut i: usize = 0;
    while i < v.len()
        invariant
            i <= v@.len(),
            sub_views(out@) == sub_views(old(out)@) + sub_views(v@.take(i as int)),
        decreases v@.len() - i,
    {
        let s = v[i].clone();
        let ghost before = sub_views(out@);
        out.push(s);
        i = i + 1;
        assert(sub_views(v@.take(i as int)) =~= sub_views(v@.take(i - 1)).push(v@[i - 1]@));
        assert(sub_views(out@) =~= before.push(v@[i - 1]@));
        assert(sub_views(out@) =~= sub_views(old(out)@) + sub_views(v@.take(i as int)));
    }
    assert(v@.take(i as int) =~= v@);
}

/// Merge one group into the collected groups.
fn merge_one(out: &mut Vec<(String, Vec<Subscription>)>, e: &(String, Vec<Subscription>))
    requires
        names_distinct(groups_view(old(out)@)),
    ensures
        groups_view(final(out)@) == merge_group(groups_view(old(out)@), (e.0@, sub_views(e.1@))),
{
    let ghost gv = groups_view(out@);
    let ghost ev = (e.0@, sub_views(e.1@));
    match find_group(out, e.0.as_str()) {
        Some(j) => {
            proof {
                assert(gv[j as int].0 == e.0@);
                let k = group_index(gv, e.0@);
                assert(gv[k].0 == e.0@);
            }
            let (n, mut members) = out.remove(j);
            append_subs(&mut members, &e.1);
            out.insert(j, (n, members));
            assert(groups_view(out@) =~= gv.update(j as int, (ev.0, gv[j as int].1 + ev.1)));
        },
        None => {
            let name = e.0.clone();
            let members = clone_subs(&e.1);
            out.push((name, members));
            assert(groups_view(out@) =~= gv.push(ev));
        },
    }
}

/// Merge a node's groups into the collected groups.
fn merge_all(out: &mut Vec<(String, Vec<Subscription>)>, gs: &Vec<(String, Vec<Subscription>)>)
    requires
        names_distinct(groups_view(old(out)@)),
    ensures
        groups_view(final(out)@) == merge_groups(groups_view(old(out)@), groups_view(gs@)),
        names_distinct(groups_view(final(out)@)),
{
    let mut i: usize = 0;
    let ghost o0 = groups_view(out@);
    assert(groups_view(gs@).skip(0) =~= groups_view(gs@));
    while i < gs.len()
        invariant
            i <= gs@.len(),
            names_distinct(groups_view(out@)),
            merge_groups(o0, groups_view(gs@)) == merge_groups(
                groups_view(out@),
                groups_view(gs@).skip(i as int),
            ),
        decreases gs@.len() - i,
    {
        let ghost before = groups_view(out@);
        proof {
            lemma_merge_group(before, groups_view(gs@)[i as int]);
        }
        merge_one(out, &gs[i]);
        proof {
            assert(groups_view(gs@)[i as int] == (gs@[i as int].0@, sub_views(gs@[i as int].1@)));
            assert(groups_view(gs@).skip(i as int).drop_first() =~= groups_view(gs@).skip(i + 1));
            assert(groups_view(gs@).skip(i as int)[0] == groups_view(gs@)[i as int]);
        }
        i = i + 1;
    }
    assert(groups_view(gs@).skip(i as int) =~= Seq::<(Seq<char>, Seq<SubscriptionView>)>::empty());
    assert(groups_view(gs@).skip(0) =~= groups_view(gs@));
}

/// Collect what the walk for the levels from `idx` on finds below a node.
fn match_node(
    node: &TrieNode,
    levels: &Vec<Vec<u8>>,
    idx: usize,
    is_system: bool,
    out: &mut Vec<Subscription>,
    shared_out: &mut Vec<(String, Vec<Subscription>)>,
)
    requires
        idx <= levels@.len(),
        names_distinct(groups_view(old(shared_out)@)),
    ensures
        sub_views(final(out)@) == sub_views(old(out)@) + match_subs(
            *node,
            level_views(levels@).skip(idx as int),
            is_system && idx == 0,
        ),
        groups_view(final(shared_out)@) == merge_groups(
            groups_view(old(shared_out)@),
            match_groups(*node, level_views(levels@).skip(idx as int), is_system && idx == 0),
        ),
        names_distinct(groups_view(final(shared_out)@)),
    decreases levels@.len() - idx,
{
    let ghost t = level_views(levels@).skip(idx as int);
    let ghost sf = is_system && idx == 0;
    let ghost o0 = sub_views(out@);
    let ghost g0 = groups_view(shared_out@);
    let ghost hs = hash_subs(*node, sf);
    let ghost hg = hash_groups(*node, sf);
    // `#` matches everything that is left, but not the first level of a
    // system topic.
    match &node.hash_child {
        Some(h) => {
            if !(is_system && idx == 0) {
                append_subs(out, &h.subscriptions);
                merge_all(shared_out, &h.shared_subscriptions);
            } else {
                assert(sub_views(out@) =~= o0 + hs);
                assert(merge_groups(g0, hg) == g0);
            }
        },
        None => {
            assert(sub_views(out@) =~= o0 + hs);
            assert(merge_groups(g0, hg) == g0);
        },
    }
    assert(sub_views(out@) == o0 + hs);
    assert(groups_view(shared_out@) == merge_groups(g0, hg));
    let ghost o1 = sub_views(out@);
    let ghost g1 = groups_view(shared_out@);
    if idx == levels.len() {
        assert(t.len() == 0);
        append_subs(out, &node.subscriptions);
        merge_all(shared_out, &node.shared_subscriptions);
        proof {
            assert(sub_views(out@) =~= o0 + match_subs(*node, t, sf));
            lemma_merge_groups_append(g0, hg, groups_view(node.shared_subscriptions@));
        }
        return;
    }
    let level = &levels[idx];
    assert(t[0] == level@ && t.drop_first() =~= level_views(levels@).skip(idx + 1));
    let ghost es = exact_subs(*node, t);
    let ghost eg = exact_groups(*node, t);
    // An exact child (wildcard levels of a topic have none).
    if !is_single(level, PLUS) && !is_single(level, HASH) {
        match find_child(&node.children, level) {
            Some(i) => {
                proof {
                    lemma_child_for_found(node.children@, level@, i as int);
                }
                match_node(&node.children[i].1, levels, idx + 1, is_system, out, shared_out);
            },
            None => {
                proof {
                    lemma_child_for_none(node.children@, level@);
                }
                assert(sub_views(out@) =~= o1 + es);
                assert(merge_groups(g1, eg) == g1);
            },
        }
    } else {
        assert(sub_views(out@) =~= o1 + es);
        assert(merge_groups(g1, eg) == g1);
    }
    let ghost o2 = sub_views(out@);
    let ghost g2 = groups_view(shared_out@);
    assert(o2 == o1 + es);
    assert(g2 == merge_groups(g1, eg));
    let ghost ps = plus_subs(*node, t, sf);
    let ghost pg = plus_groups(*node, t, sf);
    // `+` matches this one level, but not the first level of a system topic.
    match &node.plus_child {
        Some(pc) => {
            if !(is_system && idx == 0) {
                match_node(pc, levels, idx + 1, is_system, out, shared_out);
            } else {
                assert(sub_views(out@) =~= o2 + ps);
                assert(merge_groups(g2, pg) == g2);
            }
        },
        None => {
            assert(sub_views(out@) =~= o2 + ps);
            assert(merge_groups(g2, pg) == g2);
        },
    }
    proof {
        assert(match_subs(*node, t, sf) == hs + (es + ps));
        assert(sub_views(out@) =~= o0 + match_subs(*node, t, sf));
        assert(match_groups(*node, t, sf) == hg + (eg + pg));
        lemma_merge_groups_append(g0, hg, eg + pg);
        lemma_merge_groups_append(merge_groups(g0, hg), eg, pg);
    }
}

/// The two wildcard levels differ.
proof fn lemma_wildcards_differ()
    ensures
        plus_level() != hash_level(),
{
    assert(plus_level()[0] != hash_level()[0]);
}

/// Whether the walk for `t` below `n` reaches a path where `s` is filed.
spec fn found_sub(n: TrieNode, t: Seq<Seq<u8>>, sf: bool, s: SubscriptionView) -> bool {
    exists|p: Seq<Seq<u8>>| path_matches(p, t, sf) && #[trigger] subs_at(n, p).contains(s)
}

/// Whether the walk for `t` below `n` reaches a path where group `g` holds
/// `s`.
spec fn found_member(n: TrieNode, t: Seq<Seq<u8>>, sf: bool, g: Seq<char>, s: SubscriptionView) -> bool {
    exists|p: Seq<Seq<u8>>| path_matches(p, t, sf) && #[trigger] group_has(groups_at(n, p), g, s)
}

/// Whether the walk for `t` below `n` reaches a path where group `g` exists.
spec fn found_group(n: TrieNode, t: Seq<Seq<u8>>, sf: bool, g: Seq<char>) -> bool {
    exists|p: Seq<Seq<u8>>| path_matches(p, t, sf) && #[trigger] has_group(groups_at(n, p), g)
}

proof fn lemma_contains_concat(a: Seq<SubscriptionView>, b: Seq<SubscriptionView>, s: SubscriptionView)
    ensures
        (a + b).contains(s) == (a.contains(s) || b.contains(s)),
{
    if (a + b).contains(s) {
        let k = choose|k: int| 0 <= k < (a + b).len() && (a + b)[k] == s;
        if k < a.len() {
            assert(a[k] == s);
        } else {
            assert(b[k - a.len()] == s);
        }
    }
    if a.contains(s) {
        let k = choose|k: int| 0 <= k < a.len() && a[k] == s;
        assert((a + b)[k] == s);
    }
    if b.contains(s) {
        let k = choose|k: int| 0 <= k < b.len() && b[k] == s;
        assert((a + b)[a.len() + k] == s);
    }
}

proof fn lemma_groups_concat(a: GroupsView, b: GroupsView, g: Seq<char>, s: SubscriptionView)
    ensures
        group_has(a + b, g, s) == (group_has(a, g, s) || group_has(b, g, s)),
        has_group(a + b, g) == (has_group(a, g) || has_group(b, g)),
{
    let c = a + b;
    if group_has(c, g, s) {
        let k = choose|k: int| 0 <= k < c.len() && c[k].0 == g && c[k].1.contains(s);
        if k < a.len() {
            assert(a[k] == c[k]);
        } else {
            assert(b[k - a.len()] == c[k]);
        }
    }
    if group_has(a, g, s) {
        let k = choose|k: int| 0 <= k < a.len() && a[k].0 == g && a[k].1.contains(s);
        assert(c[k] == a[k]);
    }
    if group_has(b, g, s) {
        let k = choose|k: int| 0 <= k < b.len() && b[k].0 == g && b[k].1.contains(s);
        assert(c[a.len() + k] == b[k]);
    }
    if has_group(c, g) {
        let k = group_index(c, g);
        if k < a.len() {
            assert(a[k] == c[k]);
        } else {
            assert(b[k - a.len()] == c[k]);
        }
    }
    if has_group(a, g) {
        let k = group_index(a, g);
        assert(c[k] == a[k]);
    }
    if has_group(b, g) {
        let k = group_index(b, g);
        assert(c[a.len() + k] == b[k]);
    }
}

proof fn lemma_cons_path(l: Seq<u8>, q: Seq<Seq<u8>>)
    ensures
        (seq![l] + q).len() > 0,
        (seq![l] + q)[0] == l,
        (seq![l] + q).drop_first() == q,
{
    assert((seq![l] + q).drop_first() =~= q);
}

/// The walk collects exactly what is filed under the paths that match.
proof fn lemma_match_subs(n: TrieNode, t: Seq<Seq<u8>>, sf: bool, s: SubscriptionView)
    ensures
        match_subs(n, t, sf).contains(s) == found_sub(n, t, sf, s),
    decreases t.len(),
{
    lemma_wildcards_differ();
    let hs = hash_subs(n, sf);
    let hp = seq![hash_level()];
    lemma_cons_path(hash_level(), Seq::empty());
    assert(hp =~= seq![hash_level()] + Seq::<Seq<u8>>::empty());
    // The `#` child: the path `#`.
    if n.hash_child is Some && !sf {
        let h = *n.hash_child->0;
        assert(path_matches(hp, t, sf));
        lemma_reach_child(n, h, hp);
        assert(subs_at(h, Seq::<Seq<u8>>::empty()) == sub_views(h.subscriptions@));
        assert(subs_at(n, hp) == hs);
    }
    if t.len() == 0 {
        assert(match_subs(n, t, sf) == hs + sub_views(n.subscriptions@));
        lemma_contains_concat(hs, sub_views(n.subscriptions@), s);
        if hs.contains(s) {
            assert(path_matches(hp, t, sf) && subs_at(n, hp).contains(s));
        }
        if sub_views(n.subscriptions@).contains(s) {
            let e = Seq::<Seq<u8>>::empty();
            assert(path_matches(e, t, sf) && subs_at(n, e).contains(s));
        }
        if found_sub(n, t, sf, s) {
            let p = choose|p: Seq<Seq<u8>>| path_matches(p, t, sf) && #[trigger] subs_at(n, p).contains(s);
            if p.len() > 0 {
                assert(p[0] == hash_level() && p.len() == 1);
                assert(p =~= hp);
            }
        }
    } else {
        let es = exact_subs(n, t);
        let ps = plus_subs(n, t, sf);
        assert(match_subs(n, t, sf) == hs + (es + ps));
        lemma_contains_concat(hs, es + ps, s);
        lemma_contains_concat(es, ps, s);
        let t2 = t.drop_first();
        if hs.contains(s) {
            assert(path_matches(hp, t, sf) && subs_at(n, hp).contains(s));
        }
        if es.contains(s) {
            let c = child_for(n.children@, t[0])->0;
            lemma_match_subs(c, t2, false, s);
            let q = choose|q: Seq<Seq<u8>>| path_matches(q, t2, false) && #[trigger] subs_at(c, q).contains(s);
            let p = seq![t[0]] + q;
            lemma_cons_path(t[0], q);
            lemma_reach_child(n, c, p);
            assert(path_matches(p, t, sf) && subs_at(n, p).contains(s));
        }
        if ps.contains(s) {
            assert(n.plus_child is Some && !sf);
            let c = *n.plus_child->0;
            lemma_match_subs(c, t2, false, s);
            let q = choose|q: Seq<Seq<u8>>| path_matches(q, t2, false) && #[trigger] subs_at(c, q).contains(s);
            let p = seq![plus_level()] + q;
            lemma_cons_path(plus_level(), q);
            lemma_reach_child(n, c, p);
            assert(path_matches(p, t, sf));
            assert(subs_at(n, p).contains(s));
        }
        if found_sub(n, t, sf, s) {
            let p = choose|p: Seq<Seq<u8>>| path_matches(p, t, sf) && #[trigger] subs_at(n, p).contains(s);
            assert(p.len() > 0);
            let q = p.drop_first();
            if p[0] == hash_level() {
                assert(p =~= hp);
            } else if p[0] == plus_level() {
                match n.plus_child {
                    Some(b) => {
                        lemma_reach_child(n, *b, p);
                        lemma_match_subs(*b, t2, false, s);
                        assert(path_matches(q, t2, false) && subs_at(*b, q).contains(s));
                    },
                    None => {
                        lemma_reach_missing(n, p);
                    },
                }
            } else {
                assert(!is_wild(t[0]));
                match child_for(n.children@, t[0]) {
                    Some(c) => {
                        lemma_reach_child(n, c, p);
                        lemma_match_subs(c, t2, false, s);
                        assert(path_matches(q, t2, false) && subs_at(c, q).contains(s));
                    },
                    None => {
                        lemma_reach_missing(n, p);
                    },
                }
            }
        }
    }
}

/// The walk collects exactly the groups filed under the paths that match.
proof fn lemma_match_groups(n: TrieNode, t: Seq<Seq<u8>>, sf: bool, g: Seq<char>, s: SubscriptionView)
    ensures
        group_has(match_groups(n, t, sf), g, s) == found_member(n, t, sf, g, s),
        has_group(match_groups(n, t, sf), g) == found_group(n, t, sf, g),
    decreases t.len(),
{
    lemma_wildcards_differ();
    let hg = hash_groups(n, sf);
    let hp = seq![hash_level()];
    lemma_cons_path(hash_level(), Seq::empty());
    assert(hp =~= seq![hash_level()] + Seq::<Seq<u8>>::empty());
    if n.hash_child is Some && !sf {
        let h = *n.hash_child->0;
        assert(path_matches(hp, t, sf));
        lemma_reach_child(n, h, hp);
        assert(groups_at(h, Seq::<Seq<u8>>::empty()) == groups_view(h.shared_subscriptions@));
        assert(groups_at(n, hp) == hg);
    }
    if t.len() == 0 {
        let own = groups_view(n.shared_subscriptions@);
        let e = Seq::<Seq<u8>>::empty();
        assert(match_groups(n, t, sf) == hg + own);
        lemma_groups_concat(hg, own, g, s);
        assert(groups_at(n, e) == own);
        if group_has(hg, g, s) || has_group(hg, g) {
            assert(path_matches(hp, t, sf));
            assert(group_has(groups_at(n, hp), g, s) == group_has(hg, g, s));
        }
        if group_has(own, g, s) || has_group(own, g) {
            assert(path_matches(e, t, sf));
        }
        if found_member(n, t, sf, g, s) {
            let p = choose|p: Seq<Seq<u8>>| path_matches(p, t, sf) && #[trigger] group_has(groups_at(n, p), g, s);
            if p.len() > 0 {
                assert(p =~= hp);
            } else {
                assert(p =~= e);
            }
        }
        if found_group(n, t, sf, g) {
            let p = choose|p: Seq<Seq<u8>>| path_matches(p, t, sf) && #[trigger] has_group(groups_at(n, p), g);
            if p.len() > 0 {
                assert(p =~= hp);
            } else {
                assert(p =~= e);
            }
        }
    } else {
        let eg = exact_groups(n, t);
        let pg = plus_groups(n, t, sf);
        assert(match_groups(n, t, sf) == hg + (eg + pg));
        lemma_groups_concat(hg, eg + pg, g, s);
        lemma_groups_concat(eg, pg, g, s);
        let t2 = t.drop_first();
        if group_has(hg, g, s) || has_group(hg, g) {
            assert(path_matches(hp, t, sf));
        }
        if group_has(eg, g, s) || has_group(eg, g) {
            let c = child_for(n.children@, t[0])->0;
            lemma_match_groups(c, t2, false, g, s);
            if group_has(eg, g, s) {
                let q = choose|q: Seq<Seq<u8>>| path_matches(q, t2, false) && #[trigger] group_has(groups_at(c, q), g, s);
                let p = seq![t[0]] + q;
                lemma_cons_path(t[0], q);
                lemma_reach_child(n, c, p);
                assert(path_matches(p, t, sf) && group_has(groups_at(n, p), g, s));
            }
            if has_group(eg, g) {
                let q = choose|q: Seq<Seq<u8>>| path_matches(q, t2, false) && #[trigger] has_group(groups_at(c, q), g);
                let p = seq![t[0]] + q;
                lemma_cons_path(t[0], q);
                lemma_reach_child(n, c, p);
                assert(path_matches(p, t, sf) && has_group(groups_at(n, p), g));
            }
        }
        if group_has(pg, g, s) || has_group(pg, g) {
            assert(n.plus_child is Some && !sf);
            let c = *n.plus_child->0;
            lemma_match_groups(c, t2, false, g, s);
            if group_has(pg, g, s) {
                let q = choose|q: Seq<Seq<u8>>| path_matches(q, t2, false) && #[trigger] group_has(groups_at(c, q), g, s);
                let p = seq![plus_level()] + q;
                lemma_cons_path(plus_level(), q);
                lemma_reach_child(n, c, p);
                assert(path_matches(p, t, sf));
                assert(group_has(groups_at(n, p), g, s));
            }
            if has_group(pg, g) {
                let q = choose|q: Seq<Seq<u8>>| path_matches(q, t2, false) && #[trigger] has_group(groups_at(c, q), g);
                let p = seq![plus_level()] + q;
                lemma_cons_path(plus_level(), q);
                lemma_reach_child(n, c, p);
                assert(path_matches(p, t, sf));
                assert(has_group(groups_at(n, p), g));
            }
        }
        if found_member(n, t, sf, g, s) {
            let p = choose|p: Seq<Seq<u8>>| path_matches(p, t, sf) && #[trigger] group_has(groups_at(n, p), g, s);
            assert(p.len() > 0);
            let q = p.drop_first();
            if p[0] == hash_level() {
                assert(p =~= hp);
            } else if p[0] == plus_level() {
                match n.plus_child {
                    Some(b) => {
                        lemma_reach_child(n, *b, p);
                        lemma_match_groups(*b, t2, false, g, s);
                        assert(path_matches(q, t2, false) && group_has(groups_at(*b, q), g, s));
                    },
                    None => {
                        lemma_reach_missing(n, p);
                    },
                }
            } else {
                match child_for(n.children@, t[0]) {
                    Some(c) => {
                        lemma_reach_child(n, c, p);
                        lemma_match_groups(c, t2, false, g, s);
                        assert(path_matches(q, t2, false) && group_has(groups_at(c, q), g, s));
                    },
                    None => {
                        lemma_reach_missing(n, p);
                    },
                }
            }
        }
        if found_group(n, t, sf, g) {
            let p = choose|p: Seq<Seq<u8>>| path_matches(p, t, sf) && #[trigger] has_group(groups_at(n, p), g);
            assert(p.len() > 0);
            let q = p.drop_first();
            if p[0] == hash_level() {
                assert(p =~= hp);
            } else if p[0] == plus_level() {
                match n.plus_child {
                    Some(b) => {
                        lemma_reach_child(n, *b, p);
                        lemma_match_groups(*b, t2, false, g, s);
                        assert(path_matches(q, t2, false) && has_group(groups_at(*b, q), g));
                    },
                    None => {
                        lemma_reach_missing(n, p);
                    },
                }
            } else {
                match child_for(n.children@, t[0]) {
                    Some(c) => {
                        lemma_reach_child(n, c, p);
                        lemma_match_groups(c, t2, false, g, s);
                        assert(path_matches(q, t2, false) && has_group(groups_at(c, q), g));
                    },
                    None => {
                        lemma_reach_missing(n, p);
                    },
                }
            }
        }
    }
}

// ── Lemmas on groups ─────────────────────────────────────────────────────────

proof fn lemma_members_at(gs: GroupsView, i: int)
    requires
        groups_wf(gs),
        0 <= i < gs.len(),
    ensures
        group_members(gs, gs[i].0) == gs[i].1,
{
    lemma_group_index(gs, i);
}

proof fn lemma_group_upsert(gs: GroupsView, g: Seq<char>, x: SubscriptionView)
    requires
        groups_wf(gs),
    ensures
        groups_wf(group_upsert(gs, g, x)),
        forall|h: Seq<char>| #[trigger]
            group_members(group_upsert(gs, g, x), h) == if h == g {
                upsert(group_members(gs, g), x)
            } else {
                group_members(gs, h)
            },
{
    let u = group_upsert(gs, g, x);
    if has_group(gs, g) {
        let k = group_index(gs, g);
        lemma_upsert(gs[k].1, x);
        assert(u == gs.update(k, (g, upsert(gs[k].1, x))));
        assert(groups_wf(u)) by {
            assert forall|i: int| 0 <= i < u.len() implies distinct_clients(#[trigger] u[i].1)
                && u[i].1.len() > 0 by {
                if i != k {
                    assert(u[i] == gs[i]);
                }
            }
        }
        assert forall|h: Seq<char>| #[trigger] group_members(u, h) == if h == g {
            upsert(group_members(gs, g), x)
        } else {
            group_members(gs, h)
        } by {
            lemma_members_at(u, k);
            if h != g {
                if has_group(gs, h) {
                    let j = group_index(gs, h);
                    assert(u[j] == gs[j]);
                    lemma_members_at(u, j);
                } else {
                    if has_group(u, h) {
                        let j = group_index(u, h);
                        assert(j != k);
                        assert(u[j] == gs[j]);
                    }
                }
            }
        }
    } else {
        assert(u == gs.push((g, seq![x])));
        assert(distinct_clients(seq![x]));
        assert(groups_wf(u)) by {
            assert forall|i: int, j: int|
                0 <= i < u.len() && 0 <= j < u.len() && i != j implies u[i].0 != u[j].0 by {
                if i < gs.len() && j < gs.len() {
                } else if i < gs.len() {
                    assert(gs[i].0 != g);
                } else {
                    assert(gs[j].0 != g);
                }
            }
            assert forall|i: int| 0 <= i < u.len() implies distinct_clients(#[trigger] u[i].1)
                && u[i].1.len() > 0 by {
                if i < gs.len() {
                    assert(u[i] == gs[i]);
                }
            }
        }
        assert(upsert(Seq::<SubscriptionView>::empty(), x) =~= seq![x]);
        assert forall|h: Seq<char>| #[trigger] group_members(u, h) == if h == g {
            upsert(group_members(gs, g), x)
        } else {
            group_members(gs, h)
        } by {
            lemma_members_at(u, gs.len() as int);
            if h != g {
                if has_group(gs, h) {
                    let j = group_index(gs, h);
                    assert(u[j] == gs[j]);
                    lemma_members_at(u, j);
                } else if has_group(u, h) {
                    let j = group_index(u, h);
                    assert(u[j] == gs[j]);
                }
            }
        }
    }
}

proof fn lemma_group_remove(gs: GroupsView, g: Seq<char>, c: Seq<char>)
    requires
        groups_wf(gs),
    ensures
        groups_wf(group_remove(gs, g, c)),
        forall|h: Seq<char>| #[trigger]
            group_members(group_remove(gs, g, c), h) == if h == g {
                remove_client(group_members(gs, g), c)
            } else {
                group_members(gs, h)
            },
{
    let u = group_remove(gs, g, c);
    if has_group(gs, g) {
        let k = group_index(gs, g);
        let m = remove_client(gs[k].1, c);
        lemma_remove_client(gs[k].1, c);
        if m.len() == 0 {
            assert(u == gs.remove(k));
            assert(groups_wf(u)) by {
                assert forall|i: int, j: int|
                    0 <= i < u.len() && 0 <= j < u.len() && i != j implies u[i].0 != u[j].0 by {
                    let i2 = if i < k {
                        i
                    } else {
                        i + 1
                    };
                    let j2 = if j < k {
                        j
                    } else {
                        j + 1
                    };
                    assert(u[i] == gs[i2] && u[j] == gs[j2]);
                }
                assert forall|i: int| 0 <= i < u.len() implies distinct_clients(#[trigger] u[i].1)
                    && u[i].1.len() > 0 by {
                    let i2 = if i < k {
                        i
                    } else {
                        i + 1
                    };
                    assert(u[i] == gs[i2]);
                }
            }
            assert forall|h: Seq<char>| #[trigger] group_members(u, h) == if h == g {
                remove_client(group_members(gs, g), c)
            } else {
                group_members(gs, h)
            } by {
                if h == g {
                    if has_group(u, h) {
                        let j = group_index(u, h);
                        let j2 = if j < k {
                            j
                        } else {
                            j + 1
                        };
                        assert(u[j] == gs[j2]);
                    }
                    assert(m =~= Seq::<SubscriptionView>::empty());
                } else {
                    if has_group(gs, h) {
                        let j = group_index(gs, h);
                        assert(j != k);
                        let j1 = if j < k {
                            j
                        } else {
                            j - 1
                        };
                        assert(u[j1] == gs[j]);
                        lemma_members_at(u, j1);
                    } else if has_group(u, h) {
                        let j = group_index(u, h);
                        let j2 = if j < k {
                            j
                        } else {
                            j + 1
                        };
                        assert(u[j] == gs[j2]);
                    }
                }
            }
        } else {
            assert(u == gs.update(k, (g, m)));
            assert(groups_wf(u)) by {
                assert forall|i: int| 0 <= i < u.len() implies distinct_clients(#[trigger] u[i].1)
                    && u[i].1.len() > 0 by {
                    if i != k {
                        assert(u[i] == gs[i]);
                    }
                }
            }
            assert forall|h: Seq<char>| #[trigger] group_members(u, h) == if h == g {
                remove_client(group_members(gs, g), c)
            } else {
                group_members(gs, h)
            } by {
                lemma_members_at(u, k);
                if h != g {
                    if has_group(gs, h) {
                        let j = group_index(gs, h);
                        assert(u[j] == gs[j]);
                        lemma_members_at(u, j);
                    } else if has_group(u, h) {
                        let j = group_index(u, h);
                        assert(u[j] == gs[j]);
                    }
                }
            }
        }
    } else {
        assert(remove_client(Seq::<SubscriptionView>::empty(), c) == Seq::<SubscriptionView>::empty());
    }
}

// ── The trie's operations ───────────────────────────────────────────────────

/// Every plain subscription filed under levels that match a topic is among
/// the trie's matches for the topic, and it is the client's own.
pub proof fn lemma_matching_contains(trie: TopicTrie, p: Seq<Seq<u8>>, c: Seq<char>, topic: Seq<char>)
    requires
        trie.regular().contains_key((p, c)),
        path_matches(p, split_levels(encode_utf8(topic)), starts_with_dollar(encode_utf8(topic))),
    ensures
        trie.regular()[(p, c)].client_id == c,
        trie.matching(topic).contains(trie.regular()[(p, c)]),
{
    let l = subs_at(trie.root, p);
    let i = client_index(l, c);
    assert(0 <= i < l.len() && l[i].client_id == c);
    let s = l[i];
    assert(trie.regular()[(p, c)] == s);
    assert(l.contains(s));
    let t = split_levels(encode_utf8(topic));
    let sf = starts_with_dollar(encode_utf8(topic));
    assert(found_sub(trie.root, t, sf, s));
    lemma_match_subs(trie.root, t, sf, s);
    lemma_dedup(trie.walked(topic));
}

/// The key a subscription is filed under: the levels of its filter and
/// its client, or for `$share/{group}/{filter}` the levels of the bare
/// filter, the group and the client.
pub open spec fn filter_key(filter: Seq<u8>) -> (Seq<Seq<u8>>, Option<Seq<char>>) {
    match shared_parts(filter) {
        Some((name, bare)) => (split_levels(bare), Some(decode_utf8(name))),
        None => (split_levels(filter), None),
    }
}

proof fn lemma_regular_after(
    old: TrieNode,
    new: TrieNode,
    q: Seq<Seq<u8>>,
    c: Seq<char>,
    f: spec_fn(Seq<SubscriptionView>) -> Seq<SubscriptionView>,
)
    requires
        forall|p: Seq<Seq<u8>>| #[trigger] subs_at(new, p) == if p == q {
            f(subs_at(old, p))
        } else {
            subs_at(old, p)
        },
    ensures
        forall|p: Seq<Seq<u8>>, d: Seq<char>| p != q ==> (#[trigger] has_client(subs_at(new, p), d)
            == has_client(subs_at(old, p), d) && find_client(subs_at(new, p), d) == find_client(
            subs_at(old, p),
            d,
        )),
{
    assert forall|p: Seq<Seq<u8>>, d: Seq<char>| p != q implies (#[trigger] has_client(
        subs_at(new, p),
        d,
    ) == has_client(subs_at(old, p), d) && find_client(subs_at(new, p), d) == find_client(
        subs_at(old, p),
        d,
    )) by {
        assert(subs_at(new, p) == subs_at(old, p));
    }
}

impl TopicTrie {
    /// An empty trie.
    pub fn new() -> (r: Self)
        ensures
            r.regular() == Map::<(Seq<Seq<u8>>, Seq<char>), SubscriptionView>::empty(),
            r.shared() == Map::<(Seq<Seq<u8>>, Seq<char>, Seq<char>), SubscriptionView>::empty(),
    {
        let root = TrieNode::new();
        proof {
            lemma_empty_wf(root);
            assert forall|p: Seq<Seq<u8>>| #[trigger] subs_at(root, p) == Seq::<SubscriptionView>::empty() && groups_at(root, p) == Seq::<(Seq<char>, Seq<SubscriptionView>)>::empty() by {
                lemma_empty_node(root, p);
            }
        }
        let r = TopicTrie { root };
        assert(r.regular() =~= Map::<(Seq<Seq<u8>>, Seq<char>), SubscriptionView>::empty());
        assert(r.shared() =~= Map::<(Seq<Seq<u8>>, Seq<char>, Seq<char>), SubscriptionView>::empty());
        r
    }

    /// Insert or update a subscription: it replaces the client's earlier
    /// subscription under the same key.
    pub fn insert(&mut self, sub: Subscription)
        ensures
            filter_key(encode_utf8(sub.filter@)) matches (q, None) ==> final(self).regular()
                == old(self).regular().insert((q, sub.client_id@), sub@) && final(self).shared()
                == old(self).shared(),
            filter_key(encode_utf8(sub.filter@)) matches (q, Some(g)) ==> final(self).shared()
                == old(self).shared().insert((q, g, sub.client_id@), sub@) && final(self).regular()
                == old(self).regular(),
    {
        proof {
            use_type_invariant(&*self);
        }
        let ghost x = sub@;
        let ghost key = filter_key(encode_utf8(sub.filter@));
        let filter = sub.filter.clone();
        let (levels, group): (Vec<Vec<u8>>, Option<String>) = match parse_shared_subscription(filter.as_str()) {
            Some((name, bare)) => {
                proof {
                    encode_utf8_decode_utf8(name@);
                }
                (split_levels_exec(bare.as_bytes()), Some(name.to_owned()))
            },
            None => (split_levels_exec(filter.as_str().as_bytes()), None),
        };
        assert(level_views(levels@).skip(0) =~= level_views(levels@));
        assert(level_views(levels@) == key.0 && opt_str(group) == key.1);
        let mut root = TrieNode::new();
        proof {
            lemma_empty_wf(root);
        }
        std::mem::swap(&mut root, &mut self.root);
        let ghost r0 = root;
        insert_at(&mut root, &levels, 0, sub, group);
        let ghost r1 = root;
        proof {
            let q = key.0;
            assert forall|p: Seq<Seq<u8>>|
                distinct_clients(#[trigger] subs_at(r1, p)) && groups_wf(groups_at(r1, p)) by {
                assert(distinct_clients(subs_at(r0, p)));
                assert(groups_wf(groups_at(r0, p)));
                lemma_upsert(subs_at(r0, p), x);
                lemma_group_upsert(groups_at(r0, p), x.client_id, x);
                if key.1 is Some {
                    lemma_group_upsert(groups_at(r0, p), key.1->0, x);
                }
            }
        }
        self.root = root;
        proof {
            let q = key.0;
            let o = TopicTrie { root: r0 };
            assert(o.regular() == old(self).regular());
            assert(o.shared() == old(self).shared());
            assert(distinct_clients(subs_at(r0, q)));
            assert(groups_wf(groups_at(r0, q)));
            lemma_upsert(subs_at(r0, q), x);
            lemma_group_upsert(groups_at(r0, q), x.client_id, x);
            if key.1 is None {
                lemma_regular_after(r0, r1, q, x.client_id, |s: Seq<SubscriptionView>| upsert(s, x));
                assert(self.regular() =~= old(self).regular().insert((q, x.client_id), x));
                assert(self.shared() =~= old(self).shared());
            } else {
                let g = key.1->0;
                lemma_group_upsert(groups_at(r0, q), g, x);
                assert forall|p: Seq<Seq<u8>>| #[trigger] subs_at(r1, p) == subs_at(r0, p) by {}
                assert(self.regular() =~= old(self).regular());
                assert forall|k: (Seq<Seq<u8>>, Seq<char>, Seq<char>)| #[trigger] self.shared().contains_key(k) == old(self).shared().insert((q, g, x.client_id), x).contains_key(k) by {
                    assert(groups_at(r1, k.0) == if k.0 == q {
                        group_upsert(groups_at(r0, k.0), g, x)
                    } else {
                        groups_at(r0, k.0)
                    });
                    if k.0 == q {
                        lemma_group_upsert(groups_at(r0, k.0), g, x);
                        assert(distinct_clients(group_members(groups_at(r0, q), k.1))) by {
                            if has_group(groups_at(r0, q), k.1) {
                                let j = group_index(groups_at(r0, q), k.1);
                                assert(distinct_clients(groups_at(r0, q)[j].1));
                            }
                        }
                        if k.1 == g {
                            lemma_upsert(group_members(groups_at(r0, q), g), x);
                        }
                    }
                }
                assert(self.shared() =~= old(self).shared().insert((q, g, x.client_id), x)) by {
                    assert forall|k: (Seq<Seq<u8>>, Seq<char>, Seq<char>)| #[trigger] self.shared().contains_key(k) implies self.shared()[k] == old(self).shared().insert((q, g, x.client_id), x)[k] by {
                        if k.0 == q {
                            lemma_group_upsert(groups_at(r0, k.0), g, x);
                            assert(distinct_clients(group_members(groups_at(r0, q), k.1))) by {
                                if has_group(groups_at(r0, q), k.1) {
                                    let j = group_index(groups_at(r0, q), k.1);
                                    assert(distinct_clients(groups_at(r0, q)[j].1));
                                }
                            }
                            if k.1 == g {
                                lemma_upsert(group_members(groups_at(r0, q), g), x);
                            }
                        }
                    }
                }
            }
        }
    }

    /// Remove a client's subscription to a filter; whether there was one.
    pub fn remove(&mut self, filter: &str, client_id: &str) -> (r: bool)
        ensures
            filter_key(encode_utf8(filter@)) matches (q, None) ==> r == old(
                self,
            ).regular().contains_key((q, client_id@)) && final(self).regular() == old(
                self,
            ).regular().remove((q, client_id@)) && final(self).shared() == old(self).shared(),
            filter_key(encode_utf8(filter@)) matches (q, Some(g)) ==> r == old(
                self,
            ).shared().contains_key((q, g, client_id@)) && final(self).shared() == old(
                self,
            ).shared().remove((q, g, client_id@)) && final(self).regular() == old(self).regular(),
    {
        proof {
            use_type_invariant(&*self);
        }
        let ghost key = filter_key(encode_utf8(filter@));
        let ghost c = client_id@;
        let (levels, group): (Vec<Vec<u8>>, Option<&str>) = match parse_shared_subscription(filter) {
            Some((name, bare)) => {
                proof {
                    encode_utf8_decode_utf8(name@);
                }
                (split_levels_exec(bare.as_bytes()), Some(name))
            },
            None => (split_levels_exec(filter.as_bytes()), None),
        };
        assert(level_views(levels@).skip(0) =~= level_views(levels@));
        assert(level_views(levels@) == key.0 && opt_group(group) == key.1);
        let mut root = TrieNode::new();
        proof {
            lemma_empty_wf(root);
        }
        std::mem::swap(&mut root, &mut self.root);
        let ghost r0 = root;
        let r = remove_at(&mut root, &levels, 0, client_id, group);
        let ghost r1 = root;
        proof {
            assert forall|p: Seq<Seq<u8>>|
                distinct_clients(#[trigger] subs_at(r1, p)) && groups_wf(groups_at(r1, p)) by {
                assert(distinct_clients(subs_at(r0, p)));
                assert(groups_wf(groups_at(r0, p)));
                lemma_remove_client(subs_at(r0, p), c);
                if key.1 is Some {
                    lemma_group_remove(groups_at(r0, p), key.1->0, c);
                }
            }
        }
        self.root = root;
        proof {
            let q = key.0;
            let o = TopicTrie { root: r0 };
            assert(o.regular() == old(self).regular());
            assert(o.shared() == old(self).shared());
            assert(distinct_clients(subs_at(r0, q)));
            assert(groups_wf(groups_at(r0, q)));
            if key.1 is None {
                lemma_remove_client(subs_at(r0, q), c);
                lemma_regular_after(r0, r1, q, c, |s: Seq<SubscriptionView>| remove_client(s, c));
                assert(self.regular() =~= old(self).regular().remove((q, c)));
                assert(self.shared() =~= old(self).shared());
            } else {
                let g = key.1->0;
                assert forall|p: Seq<Seq<u8>>| #[trigger] subs_at(r1, p) == subs_at(r0, p) by {}
                assert(self.regular() =~= old(self).regular());
                assert forall|k: (Seq<Seq<u8>>, Seq<char>, Seq<char>)| #[trigger] self.shared().contains_key(k) == old(self).shared().remove((q, g, c)).contains_key(k) by {
                    if k.0 == q {
                        lemma_group_remove(groups_at(r0, k.0), g, c);
                        assert(distinct_clients(group_members(groups_at(r0, q), k.1))) by {
                            if has_group(groups_at(r0, q), k.1) {
                                let j = group_index(groups_at(r0, q), k.1);
                                assert(distinct_clients(groups_at(r0, q)[j].1));
                            }
                        }
                        if k.1 == g {
                            lemma_remove_client(group_members(groups_at(r0, q), g), c);
                        }
                    }
                }
                assert(self.shared() =~= old(self).shared().remove((q, g, c))) by {
                    assert forall|k: (Seq<Seq<u8>>, Seq<char>, Seq<char>)| #[trigger] self.shared().contains_key(k) implies self.shared()[k] == old(self).shared().remove((q, g, c))[k] by {
                        if k.0 == q {
                            lemma_group_remove(groups_at(r0, k.0), g, c);
                            assert(distinct_clients(group_members(groups_at(r0, q), k.1))) by {
                                if has_group(groups_at(r0, q), k.1) {
                                    let j = group_index(groups_at(r0, q), k.1);
                                    assert(distinct_clients(groups_at(r0, q)[j].1));
                                }
                            }
                            if k.1 == g {
                                lemma_remove_client(group_members(groups_at(r0, q), g), c);
                            }
                        }
                    }
                }
            }
        }
        r
    }

    /// The plain subscriptions the walk for a topic collects, in order.
    closed spec fn walked(&self, topic: Seq<char>) -> Seq<SubscriptionView> {
        match_subs(self.root, split_levels(encode_utf8(topic)), starts_with_dollar(encode_utf8(topic)))
    }

    /// The groups of shared subscriptions the walk for a topic collects.
    closed spec fn walked_groups(&self, topic: Seq<char>) -> GroupsView {
        merge_groups(
            Seq::empty(),
            match_groups(self.root, split_levels(encode_utf8(topic)), starts_with_dollar(encode_utf8(topic))),
        )
    }

    /// The plain subscriptions whose filter matches a topic, each once, in
    /// the order the trie finds them.
    pub closed spec fn matching(&self, topic: Seq<char>) -> Seq<SubscriptionView> {
        dedup_views(self.walked(topic))
    }

    /// The groups of shared subscriptions whose filter matches a topic,
    /// each once with its matching members (each once), in the order the
    /// trie finds them.
    pub closed spec fn matching_groups(&self, topic: Seq<char>) -> GroupsView {
        dedup_groups(self.walked_groups(topic))
    }

    /// The subscriptions whose filter matches a topic: the plain ones, and
    /// the shared ones by group; each group, and each subscription, once.
    pub fn matches(&self, topic: &str) -> (r: (Vec<Subscription>, Vec<(String, Vec<Subscription>)>))
        ensures
            sub_views(r.0@) == self.matching(topic@),
            groups_view(r.1@) == self.matching_groups(topic@),
            sub_views(r.0@).no_duplicates(),
            forall|i: int| 0 <= i < r.1@.len() ==> (#[trigger] groups_view(r.1@)[i]).1.no_duplicates(),
            forall|s: SubscriptionView| #[trigger]
                sub_views(r.0@).contains(s) <==> exists|p: Seq<Seq<u8>>, c: Seq<char>|
                    #[trigger] self.regular().contains_key((p, c)) && self.regular()[(p, c)] == s
                        && path_matches(
                        p,
                        split_levels(encode_utf8(topic@)),
                        starts_with_dollar(encode_utf8(topic@)),
                    ),
            names_distinct(groups_view(r.1@)),
            forall|g: Seq<char>, s: SubscriptionView| #[trigger]
                group_has(groups_view(r.1@), g, s) <==> exists|p: Seq<Seq<u8>>, c: Seq<char>|
                    #[trigger] self.shared().contains_key((p, g, c)) && self.shared()[(p, g, c)]
                        == s && path_matches(
                        p,
                        split_levels(encode_utf8(topic@)),
                        starts_with_dollar(encode_utf8(topic@)),
                    ),
            forall|g: Seq<char>| #[trigger]
                has_group(groups_view(r.1@), g) <==> exists|p: Seq<Seq<u8>>, c: Seq<char>|
                    #[trigger] self.shared().contains_key((p, g, c)) && path_matches(
                        p,
                        split_levels(encode_utf8(topic@)),
                        starts_with_dollar(encode_utf8(topic@)),
                    ),
    {
        let (subs, shared) = self.walk(topic);
        let r0 = dedup_subs(&subs);
        let r1 = dedup_groups_exec(&shared);
        proof {
            let gv = groups_view(shared@);
            lemma_dedup(sub_views(subs@));
            assert(groups_view(r1@).len() == gv.len());
            assert forall|i: int| 0 <= i < r1@.len() implies (#[trigger] groups_view(r1@)[i]).1.no_duplicates() by {
                assert(groups_view(r1@)[i] == dedup_groups(gv)[i]);
                lemma_dedup(gv[i].1);
            }
            assert forall|g: Seq<char>, x: SubscriptionView| #[trigger]
                group_has(groups_view(r1@), g, x) == group_has(gv, g, x) by {
                if group_has(groups_view(r1@), g, x) {
                    let i = choose|i: int| 0 <= i < groups_view(r1@).len() && groups_view(r1@)[i].0 == g
                        && groups_view(r1@)[i].1.contains(x);
                    assert(groups_view(r1@)[i] == dedup_groups(gv)[i]);
                    lemma_dedup(gv[i].1);
                }
                if group_has(gv, g, x) {
                    let i = choose|i: int| 0 <= i < gv.len() && gv[i].0 == g && gv[i].1.contains(x);
                    assert(groups_view(r1@)[i] == dedup_groups(gv)[i]);
                    lemma_dedup(gv[i].1);
                    assert(groups_view(r1@)[i].1.contains(x));
                }
            }
            assert forall|g: Seq<char>| #[trigger] has_group(groups_view(r1@), g) == has_group(gv, g) by {
                if has_group(gv, g) {
                    let i = choose|i: int| 0 <= i < gv.len() && gv[i].0 == g;
                    assert(groups_view(r1@)[i] == dedup_groups(gv)[i]);
                    assert(groups_view(r1@)[i].0 == g);
                }
                if has_group(groups_view(r1@), g) {
                    let i = choose|i: int| 0 <= i < groups_view(r1@).len() && groups_view(r1@)[i].0 == g;
                    assert(groups_view(r1@)[i] == dedup_groups(gv)[i]);
                    assert(gv[i].0 == g);
                }
            }
            assert forall|a: int, b: int| 0 <= a < groups_view(r1@).len() && 0 <= b < groups_view(r1@).len() && a != b
                implies groups_view(r1@)[a].0 != groups_view(r1@)[b].0 by {
                assert(groups_view(r1@)[a] == dedup_groups(gv)[a]);
                assert(groups_view(r1@)[b] == dedup_groups(gv)[b]);
            }
            assert(names_distinct(groups_view(r1@)));
        }
        (r0, r1)
    }

    /// The walk of the trie for a topic.
    fn walk(&self, topic: &str) -> (r: (Vec<Subscription>, Vec<(String, Vec<Subscription>)>))
        ensures
            sub_views(r.0@) == self.walked(topic@),
            groups_view(r.1@) == self.walked_groups(topic@),
            forall|s: SubscriptionView| #[trigger]
                sub_views(r.0@).contains(s) <==> exists|p: Seq<Seq<u8>>, c: Seq<char>|
                    #[trigger] self.regular().contains_key((p, c)) && self.regular()[(p, c)] == s
                        && path_matches(
                        p,
                        split_levels(encode_utf8(topic@)),
                        starts_with_dollar(encode_utf8(topic@)),
                    ),
            names_distinct(groups_view(r.1@)),
            forall|g: Seq<char>, s: SubscriptionView| #[trigger]
                group_has(groups_view(r.1@), g, s) <==> exists|p: Seq<Seq<u8>>, c: Seq<char>|
                    #[trigger] self.shared().contains_key((p, g, c)) && self.shared()[(p, g, c)]
                        == s && path_matches(
                        p,
                        split_levels(encode_utf8(topic@)),
                        starts_with_dollar(encode_utf8(topic@)),
                    ),
            forall|g: Seq<char>| #[trigger]
                has_group(groups_view(r.1@), g) <==> exists|p: Seq<Seq<u8>>, c: Seq<char>|
                    #[trigger] self.shared().contains_key((p, g, c)) && path_matches(
                        p,
                        split_levels(encode_utf8(topic@)),
                        starts_with_dollar(encode_utf8(topic@)),
                    ),
    {
        proof {
            use_type_invariant(self);
        }
        let tb = topic.as_bytes();
        let levels = split_levels_exec(tb);
        let is_system = tb.len() > 0 && tb[0] == DOLLAR;
        let mut subs: Vec<Subscription> = Vec::new();
        let mut shared: Vec<(String, Vec<Subscription>)> = Vec::new();
        assert(names_distinct(groups_view(shared@)));
        assert(groups_view(shared@) =~= Seq::<(Seq<char>, Seq<SubscriptionView>)>::empty());
        match_node(&self.root, &levels, 0, is_system, &mut subs, &mut shared);
        proof {
            let t = split_levels(encode_utf8(topic@));
            let sys = starts_with_dollar(encode_utf8(topic@));
            let root = self.root;
            assert(level_views(levels@).skip(0) =~= t);
            assert(sub_views(subs@) =~= match_subs(root, t, sys));
            let mg = match_groups(root, t, sys);
            assert(groups_view(shared@) == merge_groups(Seq::empty(), mg));
            lemma_merge_groups(Seq::empty(), mg);
            assert forall|s: SubscriptionView| #[trigger]
                sub_views(subs@).contains(s) <==> exists|p: Seq<Seq<u8>>, c: Seq<char>|
                    #[trigger] self.regular().contains_key((p, c)) && self.regular()[(p, c)] == s
                        && path_matches(p, t, sys) by {
                lemma_match_subs(root, t, sys, s);
                if found_sub(root, t, sys, s) {
                    let p = choose|p: Seq<Seq<u8>>| path_matches(p, t, sys) && #[trigger] subs_at(root, p).contains(s);
                    let l = subs_at(root, p);
                    let i = choose|i: int| 0 <= i < l.len() && l[i] == s;
                    assert(distinct_clients(l));
                    lemma_client_index(l, i);
                    assert(self.regular().contains_key((p, s.client_id)));
                }
                if exists|p: Seq<Seq<u8>>, c: Seq<char>|
                    #[trigger] self.regular().contains_key((p, c)) && self.regular()[(p, c)] == s
                        && path_matches(p, t, sys) {
                    let (p, c) = choose|p: Seq<Seq<u8>>, c: Seq<char>|
                        #[trigger] self.regular().contains_key((p, c)) && self.regular()[(p, c)] == s
                            && path_matches(p, t, sys);
                    let l = subs_at(root, p);
                    let i = client_index(l, c);
                    assert(l[i] == s);
                    assert(l.contains(s));
                    assert(path_matches(p, t, sys) && subs_at(root, p).contains(s));
                }
            }
            assert forall|g: Seq<char>, s: SubscriptionView| #[trigger]
                group_has(groups_view(shared@), g, s) <==> exists|p: Seq<Seq<u8>>, c: Seq<char>|
                    #[trigger] self.shared().contains_key((p, g, c)) && self.shared()[(p, g, c)]
                        == s && path_matches(p, t, sys) by {
                lemma_match_groups(root, t, sys, g, s);
                assert(!group_has(Seq::<(Seq<char>, Seq<SubscriptionView>)>::empty(), g, s));
                assert(group_has(groups_view(shared@), g, s) == group_has(mg, g, s));
                if found_member(root, t, sys, g, s) {
                    let p = choose|p: Seq<Seq<u8>>| path_matches(p, t, sys) && #[trigger] group_has(groups_at(root, p), g, s);
                    let gs = groups_at(root, p);
                    assert(distinct_clients(subs_at(root, p)));
                    assert(groups_wf(gs));
                    let j = choose|j: int| 0 <= j < gs.len() && gs[j].0 == g && gs[j].1.contains(s);
                    lemma_members_at(gs, j);
                    let l = gs[j].1;
                    let i = choose|i: int| 0 <= i < l.len() && l[i] == s;
                    assert(distinct_clients(l));
                    lemma_client_index(l, i);
                    assert(self.shared().contains_key((p, g, s.client_id)));
                }
                if exists|p: Seq<Seq<u8>>, c: Seq<char>|
                    #[trigger] self.shared().contains_key((p, g, c)) && self.shared()[(p, g, c)]
                        == s && path_matches(p, t, sys) {
                    let (p, c) = choose|p: Seq<Seq<u8>>, c: Seq<char>|
                        #[trigger] self.shared().contains_key((p, g, c)) && self.shared()[(p, g, c)]
                            == s && path_matches(p, t, sys);
                    let gs = groups_at(root, p);
                    let l = group_members(gs, g);
                    assert(has_group(gs, g));
                    let j = group_index(gs, g);
                    let i = client_index(l, c);
                    assert(l[i] == s);
                    assert(gs[j].1.contains(s));
                    assert(group_has(gs, g, s));
                    assert(path_matches(p, t, sys) && group_has(groups_at(root, p), g, s));
                }
            }
            assert forall|g: Seq<char>| #[trigger]
                has_group(groups_view(shared@), g) <==> exists|p: Seq<Seq<u8>>, c: Seq<char>|
                    #[trigger] self.shared().contains_key((p, g, c)) && path_matches(p, t, sys) by {
                lemma_match_groups(root, t, sys, g, arbitrary());
                assert(!has_group(Seq::<(Seq<char>, Seq<SubscriptionView>)>::empty(), g));
                assert(has_group(groups_view(shared@), g) == has_group(mg, g));
                if found_group(root, t, sys, g) {
                    let p = choose|p: Seq<Seq<u8>>| path_matches(p, t, sys) && #[trigger] has_group(groups_at(root, p), g);
                    let gs = groups_at(root, p);
                    assert(distinct_clients(subs_at(root, p)));
                    assert(groups_wf(gs));
                    let j = group_index(gs, g);
                    lemma_members_at(gs, j);
                    let l = gs[j].1;
                    assert(l.len() > 0);
                    assert(has_client(l, l[0].client_id));
                    assert(self.shared().contains_key((p, g, l[0].client_id)));
                }
                if exists|p: Seq<Seq<u8>>, c: Seq<char>|
                    #[trigger] self.shared().contains_key((p, g, c)) && path_matches(p, t, sys) {
                    let (p, c) = choose|p: Seq<Seq<u8>>, c: Seq<char>|
                        #[trigger] self.shared().contains_key((p, g, c)) && path_matches(p, t, sys);
                    let gs = groups_at(root, p);
                    assert(has_group(gs, g));
                    assert(path_matches(p, t, sys) && has_group(groups_at(root, p), g));
                }
            }
        }
        (subs, shared)
    }
}

// ── Each subscription once ──────────────────────────────────────────────────

/// The list without repeats: each element kept where it first occurs.
pub open spec fn dedup_views(s: Seq<SubscriptionView>) -> Seq<SubscriptionView>
    decreases s.len(),
{
    if s.len() == 0 {
        s
    } else {
        let d = dedup_views(s.drop_last());
        if d.contains(s.last()) {
            d
        } else {
            d.push(s.last())
        }
    }
}

/// The groups with each group's members without repeats.
pub open spec fn dedup_groups(gs: GroupsView) -> GroupsView {
    gs.map_values(|e: (Seq<char>, Seq<SubscriptionView>)| (e.0, dedup_views(e.1)))
}

proof fn lemma_dedup(s: Seq<SubscriptionView>)
    ensures
        dedup_views(s).no_duplicates(),
        forall|x: SubscriptionView| #[trigger] dedup_views(s).contains(x) == s.contains(x),
    decreases s.len(),
{
    if s.len() > 0 {
        let init = s.drop_last();
        lemma_dedup(init);
        let d = dedup_views(init);
        assert(s =~= init.push(s.last()));
        assert forall|x: SubscriptionView| #[trigger] dedup_views(s).contains(x) == s.contains(x) by {
            if s.contains(x) {
                let i = choose|i: int| 0 <= i < s.len() && s[i] == x;
                if i < init.len() {
                    assert(init[i] == x);
                    assert(init.contains(x));
                }
            }
            if init.contains(x) {
                let i = choose|i: int| 0 <= i < init.len() && init[i] == x;
                assert(s[i] == x);
            }
            if !d.contains(s.last()) {
                let e = d.push(s.last());
                if e.contains(x) {
                    let i = choose|i: int| 0 <= i < e.len() && e[i] == x;
                    if i < d.len() {
                        assert(d[i] == x);
                    }
                }
                if d.contains(x) {
                    let i = choose|i: int| 0 <= i < d.len() && d[i] == x;
                    assert(e[i] == x);
                }
                assert(e[d.len() as int] == s.last());
            }
            assert(s[s.len() - 1] == s.last());
        }
    }
}

/// Whether two subscriptions are the same in every field.
fn same_subscription(a: &Subscription, b: &Subscription) -> (r: bool)
    ensures
        r == (a@ == b@),
{
    let ids = match (a.subscription_identifier, b.subscription_identifier) {
        (Some(x), Some(y)) => x == y,
        (None, None) => true,
        _ => false,
    };
    str_eq(a.client_id.as_str(), b.client_id.as_str()) && str_eq(a.filter.as_str(), b.filter.as_str())
        && a.qos == b.qos && a.no_local == b.no_local && a.retain_as_published == b.retain_as_published
        && a.retain_handling == b.retain_handling && ids
}

/// The subscriptions without repeats (see [`dedup_views`]).
fn dedup_subs(v: &Vec<Subscription>) -> (r: Vec<Subscription>)
    ensures
        sub_views(r@) == dedup_views(sub_views(v@)),
{
    let ghost sv = sub_views(v@);
    let mut out: Vec<Subscription> = Vec::new();
    let mut i: usize = 0;
    assert(sv.take(0) =~= Seq::<SubscriptionView>::empty());
    while i < v.len()
        invariant
            i <= v@.len(),
            sv == sub_views(v@),
            sub_views(out@) == dedup_views(sv.take(i as int)),
        decreases v@.len() - i,
    {
        proof {
            assert(sv.take(i + 1).drop_last() =~= sv.take(i as int));
            assert(sv.take(i + 1).last() == v@[i as int]@);
        }
        let mut seen = false;
        let mut j: usize = 0;
        while j < out.len()
            invariant
                i < v@.len(),
                j <= out@.len(),
                seen == sub_views(out@).take(j as int).contains(v@[i as int]@),
            decreases out@.len() - j,
        {
            proof {
                assert(sub_views(out@).take(j + 1) =~= sub_views(out@).take(j as int).push(out@[j as int]@));
            }
            if same_subscription(&out[j], &v[i]) {
                seen = true;
            }
            proof {
                let x = v@[i as int]@;
                let t = sub_views(out@).take(j as int);
                let t1 = t.push(out@[j as int]@);
                if t1.contains(x) {
                    let k = choose|k: int| 0 <= k < t1.len() && t1[k] == x;
                    if k < t.len() {
                        assert(t[k] == x);
                    }
                }
                if t.contains(x) {
                    let k = choose|k: int| 0 <= k < t.len() && t[k] == x;
                    assert(t1[k] == x);
                }
                if out@[j as int]@ == x {
                    assert(t1[t.len() as int] == x);
                }
            }
            j = j + 1;
        }
        assert(sub_views(out@).take(j as int) =~= sub_views(out@));
        if !seen {
            let ghost before = sub_views(out@);
            out.push(v[i].clone());
            assert(sub_views(out@) =~= before.push(v@[i as int]@));
        }
        i = i + 1;
    }
    assert(sv.take(i as int) =~= sv);
    out
}

/// The groups with each group's members without repeats.
fn dedup_groups_exec(gs: &Vec<(String, Vec<Subscription>)>) -> (r: Vec<(String, Vec<Subscription>)>)
    ensures
        groups_view(r@) == dedup_groups(groups_view(gs@)),
{
    let ghost gv = groups_view(gs@);
    let mut out: Vec<(String, Vec<Subscription>)> = Vec::new();
    let mut i: usize = 0;
    while i < gs.len()
        invariant
            i <= gs@.len(),
            gv == groups_view(gs@),
            groups_view(out@) == dedup_groups(gv.take(i as int)),
        decreases gs@.len() - i,
    {
        let members = dedup_subs(&gs[i].1);
        let ghost before = groups_view(out@);
        out.push((gs[i].0.clone(), members));
        assert(groups_view(out@) =~= before.push((gv[i as int].0, dedup_views(gv[i as int].1))));
        assert(dedup_groups(gv.take(i + 1)) =~= dedup_groups(gv.take(i as int)).push(
            (gv[i as int].0, dedup_views(gv[i as int].1)),
        ));
        i = i + 1;
    }
    assert(gv.take(i as int) =~= gv);
    out
}

// ── The trie matches as topic filters do ────────────────────────────────────

proof fn lemma_first_level_slash(s: Seq<u8>)
    requires
        s.len() > 0,
        s[0] == SLASH,
    ensures
        split_levels(s).len() >= 2,
        split_levels(s)[0].len() == 0,
    decreases s.len(),
{
    let prev = split_levels(s.drop_last());
    lemma_split_levels_nonempty(s.drop_last());
    if s.len() == 1 {
        assert(s.drop_last().len() == 0);
        assert(s.last() == SLASH);
    } else {
        assert(s.drop_last()[0] == SLASH);
        lemma_first_level_slash(s.drop_last());
    }
}

proof fn lemma_first_level(s: Seq<u8>)
    requires
        s.len() > 0,
        s[0] != SLASH,
    ensures
        split_levels(s)[0].len() > 0,
        split_levels(s)[0][0] == s[0],
    decreases s.len(),
{
    let prev = split_levels(s.drop_last());
    lemma_split_levels_nonempty(s.drop_last());
    if s.len() == 1 {
        assert(s.drop_last().len() == 0);
        assert(prev == seq![Seq::<u8>::empty()]);
        assert(s.last() == s[0]);
    } else {
        assert(s.drop_last()[0] == s[0]);
        lemma_first_level(s.drop_last());
        if s.last() != SLASH && prev.len() == 1 {
            assert(split_levels(s)[0] == prev[0].push(s.last()));
        }
    }
}

proof fn lemma_valid_levels_rest(f: Seq<Seq<u8>>)
    requires
        f.len() > 0,
        valid_filter_levels(f),
    ensures
        valid_filter_levels(f.drop_first()),
{
    assert forall|i: int| 0 <= i < f.drop_first().len() implies valid_filter_level(
        #[trigger] f.drop_first()[i],
        i == f.drop_first().len() - 1,
    ) by {
        assert(f.drop_first()[i] == f[i + 1]);
        assert(valid_filter_level(f[i + 1], i + 1 == f.len() - 1));
    }
}

proof fn lemma_path_matches_levels(f: Seq<Seq<u8>>, t: Seq<Seq<u8>>)
    requires
        valid_filter_levels(f),
    ensures
        path_matches(f, t, false) == match_levels(f, t),
    decreases f.len(),
{
    if f.len() > 0 {
        assert(valid_filter_level(f[0], 0 == f.len() - 1));
        if f[0] == hash_level() {
            assert(f[0].contains(HASH)) by {
                assert(f[0][0] == HASH);
            }
        } else {
            lemma_valid_levels_rest(f);
            lemma_path_matches_levels(f.drop_first(), t.drop_first());
        }
    }
}

/// For any well-formed filter (or bare filter of a shared one), the trie's
/// matching agrees with [`crate::topic::topic_matches`]: the filter levels
/// match the topic levels exactly when the filter matches the topic.
pub proof fn lemma_trie_matches_like_topic_matches(f: Seq<u8>, t: Seq<u8>)
    requires
        valid_filter_levels(split_levels(f)),
    ensures
        path_matches(split_levels(f), split_levels(t), starts_with_dollar(t)) == spec_topic_matches(
            f,
            t,
        ),
{
    lemma_wildcards_differ();
    let fl = split_levels(f);
    let tl = split_levels(t);
    lemma_split_levels_nonempty(f);
    lemma_split_levels_nonempty(t);
    lemma_path_matches_levels(fl, tl);
    if starts_with_dollar(t) {
        lemma_first_level(t);
        let t0 = tl[0];
        assert(t0[0] == DOLLAR);
        if starts_with_dollar(f) {
            lemma_first_level(f);
            assert(fl[0][0] == DOLLAR);
            assert(fl[0] != hash_level()) by {
                assert(hash_level()[0] == HASH);
            }
            assert(fl[0] != plus_level()) by {
                assert(plus_level()[0] == PLUS);
            }
        } else {
            if fl[0] != hash_level() && fl[0] != plus_level() {
                if f.len() > 0 && f[0] != SLASH {
                    lemma_first_level(f);
                    assert(fl[0][0] != t0[0]);
                } else if f.len() > 0 {
                    lemma_first_level_slash(f);
                } else {
                    assert(fl == seq![Seq::<u8>::empty()]);
                }
                assert(fl[0] != t0);
            }
        }
    }
}

} // verus!
