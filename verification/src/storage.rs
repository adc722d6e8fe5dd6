//! The storage capability the decommitter consumes, and an in-memory
//! implementation of it.

use vstd::prelude::*;
use crate::kv::key_absent;
use crate::word::Word;

verus! {

/// Fetches raw bytecode bytes for a code hash; absence means the hash is
/// unknown. Storage content is immutable from this core's perspective: a
/// load never changes it.
pub trait Storage: Sized {
    /// The factory dependencies the storage holds: code hash to raw bytes.
    spec fn deps(&self) -> Map<Word, Seq<u8>>;

    /// Fetch raw bytecode bytes for a hash; `None` when unknown.
    fn load_factory_dep(&mut self, hash: Word) -> (r: Option<Vec<u8>>)
        ensures
            final(self).deps() == old(self).deps(),
            match r {
                Some(v) => old(self).deps().contains_key(hash) && v@ == old(self).deps()[hash],
                None => !old(self).deps().contains_key(hash),
            },
    ;
}

/// The map denoted by stored (hash, bytes) pairs, earlier entries shadowing
/// later ones.
pub open spec fn front_wins_deps(s: Seq<(Word, Vec<u8>)>) -> Map<Word, Seq<u8>>
    decreases s.len(),
{
    if s.len() == 0 {
        Map::empty()
    } else {
        front_wins_deps(s.skip(1)).insert(s[0].0, s[0].1@)
    }
}

proof fn lemma_front_wins_contains(s: Seq<(Word, Vec<u8>)>, k: Word)
    ensures
        front_wins_deps(s).contains_key(k) <==> exists|i: int| 0 <= i < s.len() && s[i].0 == k,
    decreases s.len(),
{
    if s.len() == 0 {
    } else {
        lemma_front_wins_contains(s.skip(1), k);
        if s[0].0 == k {
        } else {
            if front_wins_deps(s).contains_key(k) {
                let i = choose|i: int| 0 <= i < s.skip(1).len() && s.skip(1)[i].0 == k;
                assert(s[i + 1].0 == k);
            }
            if exists|i: int| 0 <= i < s.len() && s[i].0 == k {
                let i = choose|i: int| 0 <= i < s.len() && s[i].0 == k;
                assert(i > 0);
                assert(s.skip(1)[i - 1].0 == k);
            }
        }
    }
}

proof fn lemma_front_wins_first_match(s: Seq<(Word, Vec<u8>)>, i: int)
    requires
        0 <= i < s.len(),
        key_absent(s.take(i), s[i].0),
    ensures
        front_wins_deps(s).contains_key(s[i].0),
        front_wins_deps(s)[s[i].0] == s[i].1@,
    decreases s.len(),
{
    if i == 0 {
    } else {
        assert(s.take(i)[0] == s[0]);
        assert(s[0].0 != s[i].0);
        assert(s.skip(1)[i - 1] == s[i]);
        assert forall|j: int| 0 <= j < i - 1 implies #[trigger] s.skip(1).take(i - 1)[j].0
            != s[i].0 by {
            assert(s.take(i)[j + 1] == s[j + 1]);
            assert(s.take(i)[j + 1].0 != s[i].0);
        }
        assert(key_absent(s.skip(1).take(i - 1), s.skip(1)[i - 1].0));
        lemma_front_wins_first_match(s.skip(1), i - 1);
    }
}

/// An in-memory storage: factory dependencies held as (hash, bytes) pairs,
/// the most recently inserted pair for a hash taking precedence.
pub struct InMemoryStorage {
    factory_deps: Vec<(Word, Vec<u8>)>,
}

fn clone_bytes(v: &Vec<u8>) -> (r: Vec<u8>)
    ensures
        r@ == v@,
{
    let mut r: Vec<u8> = Vec::new();
    let mut i: usize = 0;
    while i < v.len()
        invariant
            i <= v@.len(),
            r@.len() == i,
            forall|k: int| 0 <= k < i ==> r@[k] == v@[k],
        decreases v@.len() - i,
    {
        r.push(v[i]);
        i += 1;
    }
    proof {
        assert(r@ =~= v@);
    }
    r
}

impl InMemoryStorage {
    /// An empty storage.
    pub fn new() -> (r: Self)
        ensures
            r.deps() == Map::<Word, Seq<u8>>::empty(),
    {
        InMemoryStorage { factory_deps: Vec::new() }
    }

    /// Makes `bytes` the factory dependency of `hash`, shadowing any earlier
    /// one.
    pub fn insert_factory_dep(&mut self, hash: Word, bytes: Vec<u8>)
        ensures
            final(self).deps() == old(self).deps().insert(hash, bytes@),
    {
        let ghost s0 = self.factory_deps@;
        self.factory_deps.insert(0, (hash, bytes));
        proof {
            assert(self.factory_deps@.skip(1) =~= s0);
            assert(self.factory_deps@[0] == (hash, bytes));
        }
    }
}

impl Storage for InMemoryStorage {
    closed spec fn deps(&self) -> Map<Word, Seq<u8>> {
        front_wins_deps(self.factory_deps@)
    }

    fn load_factory_dep(&mut self, hash: Word) -> (r: Option<Vec<u8>>) {
        let mut i: usize = 0;
        while i < self.factory_deps.len()
            invariant
                i <= self.factory_deps@.len(),
                forall|j: int| 0 <= j < i ==> self.factory_deps@[j].0 != hash,
            decreases self.factory_deps@.len() - i,
        {
            if self.factory_deps[i].0 == hash {
                proof {
                    assert(key_absent(self.factory_deps@.take(i as int), hash));
                    lemma_front_wins_first_match(self.factory_deps@, i as int);
                }
                return Some(clone_bytes(&self.factory_deps[i].1));
            }
            i += 1;
        }
        proof {
            lemma_front_wins_contains(self.factory_deps@, hash);
            if self.deps().contains_key(hash) {
                let w = choose|j: int|
                    0 <= j < self.factory_deps@.len() && self.factory_deps@[j].0 == hash;
                assert(self.factory_deps@[w].0 != hash);
            }
        }
        None
    }
}

} // verus!
