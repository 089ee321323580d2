//! A record of how often and how recently each key was used.
//!
//! A key is known by its hash. For each hash the record holds how many times
//! it was added, and the number of the last addition, counted from one.
use vstd::prelude::*;
use vstd::std_specs::hash::DefaultHasherAdditionalSpecFns;
use std::collections::hash_map::DefaultHasher;
use std::collections::HashMap;
use std::hash::{Hash, Hasher};

verus! {

/// The record, as a mathematical value.
pub struct RecentUseView {
    /// For each hash, how many times it was added.
    pub long_term: Map<usize, usize>,
    /// For each hash, the number of its last addition.
    pub short_term: Map<usize, usize>,
    /// How many additions there were.
    pub short_term_queries: usize,
}

impl RecentUseView {
    /// The record before anything was added.
    pub open spec fn empty() -> RecentUseView {
        RecentUseView { long_term: Map::empty(), short_term: Map::empty(), short_term_queries: 0 }
    }

    /// How many times the hash was added.
    pub open spec fn freq(self, key: usize) -> usize {
        if self.long_term.contains_key(key) {
            self.long_term[key]
        } else {
            0
        }
    }

    /// The number of the hash's last addition, and 0 where it was never
    /// added.
    pub open spec fn recent(self, key: usize) -> usize {
        if self.short_term.contains_key(key) {
            self.short_term[key]
        } else {
            0
        }
    }

    /// No hash was added more often than there were additions.
    pub open spec fn wf(self) -> bool {
        forall|key: usize| #[trigger]
            self.long_term.contains_key(key) ==> self.long_term[key] <= self.short_term_queries
    }

    /// The record after one more addition of the hash.
    pub open spec fn added(self, key: usize) -> RecentUseView {
        RecentUseView {
            long_term: self.long_term.insert(key, (self.freq(key) + 1) as usize),
            short_term: self.short_term.insert(key, (self.short_term_queries + 1) as usize),
            short_term_queries: (self.short_term_queries + 1) as usize,
        }
    }
}

/// A record of how often and how recently each key was used.
#[derive(Debug)]
pub struct RecentUseStorage {
    long_term: HashMap<usize, usize>,
    short_term: HashMap<usize, usize>,
    short_term_queries: usize,
}

impl View for RecentUseStorage {
    type V = RecentUseView;

    closed spec fn view(&self) -> RecentUseView {
        RecentUseView {
            long_term: self.long_term@,
            short_term: self.short_term@,
            short_term_queries: self.short_term_queries,
        }
    }
}

impl RecentUseStorage {
    /// No hash was added more often than there were additions.
    #[verifier::type_invariant]
    spec fn well_formed(self) -> bool {
        self@.wf()
    }
}

/// The hash that a new default hasher gives after these writes, cut to the
/// width of `usize`.
pub open spec fn key_after(writes: Seq<Seq<u8>>) -> usize {
    DefaultHasher::spec_finish(writes) as usize
}

/// `Hash::hash`: feeds the key to the hasher. What the hasher holds
/// afterwards is up to the key's own implementation of `Hash`, so nothing is
/// said of it.
#[verifier::external_body]
fn feed<K: Hash>(exec: &K, hasher: &mut DefaultHasher) {
    exec.hash(hasher);
}

/// The hash under which a key is recorded: what a new default hasher gives
/// once the key was fed to it, cut to the width of `usize`. The key's own
/// implementation of `Hash` decides what is written to the hasher.
pub fn key_of<K: Hash>(exec: &K) -> (key: usize)
    ensures
        exists|writes: Seq<Seq<u8>>| key == #[trigger] key_after(writes),
{
    let mut hasher = DefaultHasher::new();
    feed(exec, &mut hasher);
    let digest: u64 = hasher.finish();
    #[verifier::truncate]
    let key: usize = digest as usize;
    assert(key == key_after(hasher@));
    key
}

impl RecentUseStorage {
    /// The record before anything was added.
    pub fn new() -> (s: Self)
        ensures
            s@ == RecentUseView::empty(),
            s@.wf(),
    {
        Self { long_term: HashMap::new(), short_term: HashMap::new(), short_term_queries: 0 }
    }

    /// Records one more use of the hash.
    pub fn add_key(&mut self, key: usize)
        requires
            old(self)@.short_term_queries < usize::MAX,
        ensures
            final(self)@ == old(self)@.added(key),
            final(self)@.wf(),
    {
        proof {
            use_type_invariant(&*self);
        }
        let count: usize = match self.long_term.get(&key) {
            Some(count) => *count,
            None => 0,
        };
        assert(count == old(self)@.freq(key));
        assert(count <= old(self)@.short_term_queries) by {
            if old(self)@.long_term.contains_key(key) {
                assert(old(self)@.long_term[key] <= old(self)@.short_term_queries);
            }
        }
        let mut long_term: HashMap<usize, usize> = HashMap::new();
        let mut short_term: HashMap<usize, usize> = HashMap::new();
        std::mem::swap(&mut long_term, &mut self.long_term);
        std::mem::swap(&mut short_term, &mut self.short_term);
        let queries: usize = self.short_term_queries + 1;
        long_term.insert(key, count + 1);
        short_term.insert(key, queries);
        assert forall|k: usize| #[trigger] long_term@.contains_key(k) implies long_term@[k]
            <= queries by {
            if k != key {
                assert(old(self)@.long_term.contains_key(k));
            }
        }
        self.short_term_queries = queries;
        self.long_term = long_term;
        self.short_term = short_term;
    }

    /// The number of the last addition of the hash, and 0 where it was never
    /// added.
    pub fn recent_of(&self, key: usize) -> (n: usize)
        ensures
            n == self@.recent(key),
    {
        match self.short_term.get(&key) {
            Some(n) => *n,
            None => 0,
        }
    }

    /// How many times the hash was added.
    pub fn freq_of(&self, key: usize) -> (n: usize)
        ensures
            n == self@.freq(key),
    {
        match self.long_term.get(&key) {
            Some(n) => *n,
            None => 0,
        }
    }

    /// Records one more use of the key, under its hash.
    pub fn add<K: Hash>(&mut self, exec: &K)
        requires
            old(self)@.short_term_queries < usize::MAX,
        ensures
            exists|key: usize| final(self)@ == old(self)@.added(key),
            final(self)@.wf(),
    {
        let key: usize = key_of(exec);
        self.add_key(key);
    }

    /// The number of the last addition of the key, and 0 where it was never
    /// added. The key is looked up under its hash.
    pub fn get_recent<K: Hash>(&self, exec: &K) -> (n: usize)
        ensures
            exists|key: usize| n == self@.recent(key),
    {
        let key: usize = key_of(exec);
        self.recent_of(key)
    }

    /// How many times the key was added. The key is looked up under its hash.
    pub fn get_freq<K: Hash>(&self, exec: &K) -> (n: usize)
        ensures
            exists|key: usize| n == self@.freq(key),
    {
        let key: usize = key_of(exec);
        self.freq_of(key)
    }

    /// The record that holds these counts. No count may be larger than the
    /// number of additions.
    pub fn from_parts(
        long_term: HashMap<usize, usize>,
        short_term: HashMap<usize, usize>,
        short_term_queries: usize,
    ) -> (s: Self)
        requires
            forall|key: usize| #[trigger]
                long_term@.contains_key(key) ==> long_term@[key] <= short_term_queries,
        ensures
            s@ == (RecentUseView {
                long_term: long_term@,
                short_term: short_term@,
                short_term_queries,
            }),
            s@.wf(),
    {
        Self { long_term, short_term, short_term_queries }
    }

    /// For each hash, how many times it was added.
    pub fn long_term(&self) -> (r: &HashMap<usize, usize>)
        ensures
            r@ == self@.long_term,
    {
        &self.long_term
    }

    /// For each hash, the number of its last addition.
    pub fn short_term(&self) -> (r: &HashMap<usize, usize>)
        ensures
            r@ == self@.short_term,
    {
        &self.short_term
    }

    /// How many additions there were.
    pub fn short_term_queries(&self) -> (r: usize)
        ensures
            r == self@.short_term_queries,
    {
        self.short_term_queries
    }
}

} // verus!
