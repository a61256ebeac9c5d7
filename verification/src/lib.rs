//! Chat-ingestion core: a word-matching pattern engine, a pattern registry,
//! an IRC-style protocol client modeled as a state machine, command dispatch,
//! and the SQL shapes of the persisted message store.

use crate::match_pattern::{find_word, MatchPattern};
use vstd::prelude::*;

pub mod dispatch;
pub mod match_pattern;
pub mod network;
pub mod protocol;
pub mod storage;
pub mod twitch;
pub mod strutil;

verus! {

/// An inbound chat event handed from the protocol client to the dispatcher.
#[derive(Debug)]
pub enum TwitchEvent {
    Message(String),
}

/// The pattern registry: named patterns plus one designated active pattern.
///
/// Names are unique; the active reference, when set, always points at a
/// registered pattern. The first registration ever becomes active even
/// without asking; a later one becomes active only when it asks.
#[derive(Debug)]
pub struct PatternStorage {
    names: Vec<String>,
    patterns: Vec<MatchPattern>,
    active: Option<usize>,
}

impl PatternStorage {
    /// The views of the registered names, in registration order.
    pub closed spec fn spec_names(self) -> Seq<Seq<char>> {
        crate::strutil::views_of(self.names@)
    }

    /// The registered patterns, in registration order.
    pub closed spec fn spec_patterns(self) -> Seq<MatchPattern> {
        self.patterns@
    }

    /// The position of the active pattern, if one is set.
    pub closed spec fn spec_active(self) -> Option<usize> {
        self.active
    }

    /// Names unique, the active reference in range, every pattern well-formed.
    pub closed spec fn wf(self) -> bool {
        &&& self.names@.len() == self.patterns@.len()
        &&& forall|i: int, j: int|
            0 <= i < j < self.spec_names().len() ==> self.spec_names()[i] != self.spec_names()[j]
        &&& match self.active {
            Some(a) => a < self.patterns@.len(),
            None => true,
        }
        &&& forall|i: int| 0 <= i < self.patterns@.len() ==> (#[trigger] self.patterns@[i]).wf()
    }

    /// An empty registry with no active pattern.
    pub fn new() -> (s: Self)
        ensures
            s.wf(),
            s.spec_names() == Seq::<Seq<char>>::empty(),
            s.spec_patterns() == Seq::<MatchPattern>::empty(),
            s.spec_active() is None,
    {
        let s = PatternStorage { names: Vec::new(), patterns: Vec::new(), active: None };
        proof {
            assert(s.spec_names() =~= Seq::<Seq<char>>::empty());
        }
        s
    }

    /// Registers a pattern under a new name; fails without mutating anything
    /// when the name is taken. The pattern becomes active when no pattern is
    /// active yet or when `new_default` asks for it.
    pub fn add(&mut self, n: String, p: MatchPattern, new_default: bool) -> (r: Result<(), ()>)
        requires
            old(self).wf(),
            p.wf(),
        ensures
            final(self).wf(),
            find_word(old(self).spec_names(), n@) != -1 ==> r is Err && *final(self) == *old(
                self,
            ),
            find_word(old(self).spec_names(), n@) == -1 ==> {
                &&& r is Ok
                &&& final(self).spec_names() == old(self).spec_names().push(n@)
                &&& final(self).spec_patterns() == old(self).spec_patterns().push(p)
                &&& final(self).spec_active() == (if old(self).spec_active() is None
                    || new_default {
                    Some(old(self).spec_patterns().len() as usize)
                } else {
                    old(self).spec_active()
                })
            },
    {
        proof {
            crate::match_pattern::lemma_find_word(self.spec_names(), n@);
        }
        if self.contains_name(n.as_str()) {
            return Err(());
        }
        if self.active.is_none() || new_default {
            self.active = Some(self.patterns.len());
        }
        proof {
            crate::strutil::lemma_views_push(self.names@, n);
        }
        self.names.push(n);
        self.patterns.push(p);
        Ok(())
    }

    /// Whether a pattern is registered under this name.
    pub fn contains_name(&self, n: &str) -> (r: bool)
        ensures
            r == (find_word(self.spec_names(), n@) != -1),
    {
        proof {
            crate::match_pattern::lemma_find_word(self.spec_names(), n@);
        }
        let k = self.names.len();
        let mut i: usize = 0;
        while i < k
            invariant
                k == self.names@.len(),
                i <= k,
                forall|j: int| 0 <= j < i ==> self.spec_names()[j] != n@,
            decreases k - i,
        {
            if crate::strutil::str_eq(self.names[i].as_str(), n) {
                proof {
                    assert(self.spec_names()[i as int] == n@);
                    crate::match_pattern::lemma_find_word(self.spec_names(), n@);
                }
                return true;
            }
            proof {
                assert(self.spec_names()[i as int] == self.names@[i as int]@);
            }
            i = i + 1;
        }
        proof {
            crate::match_pattern::lemma_find_word(self.spec_names(), n@);
        }
        false
    }

    /// The active pattern, if one is set.
    pub fn default_pattern(&self) -> (r: Option<&MatchPattern>)
        requires
            self.wf(),
        ensures
            match (r, self.spec_active()) {
                (Some(p), Some(i)) => *p == self.spec_patterns()[i as int] && p.wf(),
                (None, None) => true,
                _ => false,
            },
    {
        match self.active {
            Some(i) => Some(&self.patterns[i]),
            None => None,
        }
    }
}

impl Default for PatternStorage {
    /// An empty registry, as [`PatternStorage::new`] builds it.
    fn default() -> (s: Self)
        ensures
            s.wf(),
            s.spec_names() == Seq::<Seq<char>>::empty(),
            s.spec_patterns() == Seq::<MatchPattern>::empty(),
            s.spec_active() is None,
    {
        PatternStorage::new()
    }
}

} // verus!
