//! MQTT 5.0 topic aliases: a per-connection table from alias number to
//! topic name.

use std::collections::HashMap;
use vstd::prelude::*;

verus! {

broadcast use vstd::std_specs::hash::group_hash_axioms;

/// The topic aliases a client registered, up to a negotiated maximum.
pub struct TopicAliasMap {
    max_aliases: u16,
    alias_to_topic: HashMap<u16, String>,
}

impl TopicAliasMap {
    /// The registered aliases and their topics.
    pub closed spec fn aliases(&self) -> Map<u16, Seq<char>> {
        self.alias_to_topic@.map_values(|t: String| t@)
    }

    /// The largest alias that may be registered.
    pub closed spec fn max(&self) -> u16 {
        self.max_aliases
    }

    /// An empty table that accepts aliases 1 to `max_aliases`.
    pub fn new(max_aliases: u16) -> (r: Self)
        ensures
            r.aliases() == Map::<u16, Seq<char>>::empty(),
            r.max() == max_aliases,
    {
        let r = Self { max_aliases, alias_to_topic: HashMap::new() };
        assert(r.aliases() =~= Map::<u16, Seq<char>>::empty());
        r
    }

    /// The topic registered for an alias.
    pub fn get(&self, alias: u16) -> (r: Option<&str>)
        ensures
            match r {
                Some(t) => self.aliases().contains_key(alias) && t@ == self.aliases()[alias],
                None => !self.aliases().contains_key(alias),
            },
    {
        match self.alias_to_topic.get(&alias) {
            Some(t) => Some(t.as_str()),
            None => None,
        }
    }

    /// Register (or re-register) an alias.  Alias 0 and aliases above the
    /// maximum are refused: the table is left as it is and `false` returned.
    pub fn insert(&mut self, alias: u16, topic: String) -> (r: bool)
        ensures
            r == (alias != 0 && alias <= old(self).max()),
            final(self).max() == old(self).max(),
            r ==> final(self).aliases() == old(self).aliases().insert(alias, topic@),
            !r ==> final(self).aliases() == old(self).aliases(),
    {
        if alias == 0 || alias > self.max_aliases {
            return false;
        }
        let ghost t = topic@;
        self.alias_to_topic.insert(alias, topic);
        assert(self.aliases() =~= old(self).aliases().insert(alias, t));
        true
    }
}

} // verus!
