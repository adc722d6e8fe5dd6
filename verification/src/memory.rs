//! The word-oriented memory model: pages of 32-byte words, the
//! code-specialized write used to populate decommitted pages, and the
//! word-range read that the page byte extractor consumes.

use vstd::prelude::*;
use crate::kv::{assoc_map, key_absent, lemma_assoc_at, lemma_assoc_contains, lemma_assoc_push,
    lemma_assoc_update, unique_keys};
use crate::timestamps::Timestamp;
use crate::word::{Word, word_zero};

verus! {

/// Identifier of one addressable page in the VM's word-oriented memory.
#[derive(Clone, Copy, Debug, PartialEq, Eq, Structural)]
pub struct MemoryPage(pub u32);

/// Word index within a page.
#[derive(Clone, Copy, Debug, PartialEq, Eq, Structural)]
pub struct MemoryIndex(pub u32);

/// A (page, word index) pair.
#[derive(Clone, Copy, Debug, PartialEq, Eq, Structural)]
pub struct MemoryLocation {
    pub page: MemoryPage,
    pub index: MemoryIndex,
}

/// One word write or read issued against the memory.
#[derive(Clone, Copy, Debug, PartialEq, Eq, Structural)]
pub struct MemoryQuery {
    pub timestamp: Timestamp,
    pub location: MemoryLocation,
    pub value: Word,
    pub value_is_pointer: bool,
    pub rw_flag: bool,
}

pub const INITIAL_TIMESTAMP: u32 = 1024;
pub const INITIAL_MEMORY_COUNTER: u32 = 2048;
pub const INITIAL_CALLDATA_PAGE: u32 = 7;
pub const INITIAL_BASE_PAGE: u32 = 8;
pub const ENTRY_POINT_PAGE: u32 = INITIAL_BASE_PAGE;

/// The code page derived from a base page.
pub fn code_page_candidate_from_base(base: MemoryPage) -> (r: MemoryPage)
    ensures
        r == base,
{
    MemoryPage(base.0)
}

/// The stack page derived from a base page.
pub fn stack_page_from_base(base: MemoryPage) -> (r: MemoryPage)
    requires
        base.0 + 1 <= u32::MAX,
    ensures
        r.0 == base.0 + 1,
{
    MemoryPage(base.0 + 1)
}

/// The heap page derived from a base page.
pub fn heap_page_from_base(base: MemoryPage) -> (r: MemoryPage)
    requires
        base.0 + 2 <= u32::MAX,
    ensures
        r.0 == base.0 + 2,
{
    MemoryPage(base.0 + 2)
}

/// The auxiliary heap page derived from a base page.
pub fn aux_heap_page_from_base(base: MemoryPage) -> (r: MemoryPage)
    requires
        base.0 + 3 <= u32::MAX,
    ensures
        r.0 == base.0 + 3,
{
    MemoryPage(base.0 + 3)
}

/// An in-memory word-oriented memory: sparse pages of 32-byte words.
/// Cells never written read as zero.
pub struct SimpleMemory {
    pages: Vec<(u32, Vec<Word>)>,
}

impl SimpleMemory {
    /// The stored (page id, words) entries.
    pub closed spec fn page_entries(&self) -> Seq<(u32, Vec<Word>)> {
        self.pages@
    }

    /// Well-formedness: each page id is stored at most once.
    pub open spec fn wf(&self) -> bool {
        unique_keys(self.page_entries())
    }

    /// The stored pages as a map.
    pub open spec fn pages_map(&self) -> Map<u32, Vec<Word>> {
        assoc_map(self.page_entries())
    }

    /// The words a page holds; absent pages are empty.
    pub open spec fn page_words(&self, page: u32) -> Seq<Word> {
        if self.pages_map().contains_key(page) {
            self.pages_map()[page]@
        } else {
            Seq::empty()
        }
    }

    /// Word `i` of a page; cells never written read as zero.
    pub open spec fn word_at(&self, page: u32, i: int) -> Word {
        if 0 <= i < self.page_words(page).len() {
            self.page_words(page)[i]
        } else {
            word_zero()
        }
    }

    /// An empty memory: every cell of every page reads as zero.
    pub fn new() -> (r: Self)
        ensures
            r.wf(),
            forall|p: u32, i: int| r.word_at(p, i) == word_zero(),
    {
        let r = SimpleMemory { pages: Vec::new() };
        proof {
            assert forall|p: u32, i: int| r.word_at(p, i) == word_zero() by {
                assert(!r.pages_map().contains_key(p));
            }
        }
        r
    }

    fn find_page(&self, page: u32) -> (r: Option<usize>)
        ensures
            match r {
                Some(i) => i < self.page_entries().len() && self.page_entries()[i as int].0 == page,
                None => key_absent(self.page_entries(), page),
            },
    {
        let mut i: usize = 0;
        while i < self.pages.len()
            invariant
                i <= self.pages@.len(),
                forall|j: int| 0 <= j < i ==> self.pages@[j].0 != page,
            decreases self.pages@.len() - i,
        {
            if self.pages[i].0 == page {
                return Some(i);
            }
            i += 1;
        }
        None
    }

    /// Code-specialized word write used exclusively for populating freshly
    /// decommitted pages; only writes are modeled, so `rw_flag` must be set.
    /// The cell named by the query's location takes the query's value and
    /// every other cell of the memory is untouched.
    pub fn specialized_code_query(&mut self, monotonic_cycle_counter: u32, query: MemoryQuery)
        requires
            old(self).wf(),
            query.rw_flag,
        ensures
            final(self).wf(),
            final(self).word_at(query.location.page.0, query.location.index.0 as int)
                == query.value,
            forall|p: u32, i: int|
                !(p == query.location.page.0 && i == query.location.index.0 as int)
                    ==> final(self).word_at(p, i) == old(self).word_at(p, i),
    {
        let _ = monotonic_cycle_counter;
        let page = query.location.page.0;
        let index = query.location.index.0 as usize;
        let ghost s0 = self.pages@;
        let idx_opt = self.find_page(page);
        match idx_opt {
            Some(k) => {
                proof {
                    lemma_assoc_at(s0, k as int);
                }
                let pair = self.pages.remove(k);
                let mut pv = pair.1;
                let ghost pv0 = pv@;
                while pv.len() <= index
                    invariant
                        pv@.len() >= pv0.len(),
                        forall|j: int| 0 <= j < pv0.len() ==> pv@[j] == pv0[j],
                        forall|j: int| pv0.len() <= j < pv@.len() ==> pv@[j] == word_zero(),
                    decreases index + 1 - pv@.len(),
                {
                    pv.push(Word::zero());
                }
                let ghost pvx = pv@;
                let _old_word = pv.remove(index);
                pv.insert(index, query.value);
                proof {
                    assert(pv@ =~= pvx.update(index as int, query.value));
                }
                self.pages.insert(k, (page, pv));
                proof {
                    assert(self.pages@ =~= s0.update(k as int, (page, pv)));
                    assert((page, pv) == (s0[k as int].0, pv));
                    lemma_assoc_update(s0, k as int, pv);
                    let m0 = assoc_map(s0);
                    assert(self.pages_map() == m0.insert(page, pv));
                    assert(self.page_words(page) == pv@);
                    assert(old(self).page_words(page) == pv0);
                    assert(self.word_at(page, index as int) == query.value);
                    assert forall|p: u32, i: int|
                        !(p == page && i == index as int)
                            implies self.word_at(p, i) == old(self).word_at(p, i) by {
                        if p == page {
                            if 0 <= i < pv0.len() {
                                assert(pv@[i] == pv0[i]);
                            } else if 0 <= i < pv@.len() {
                                assert(pv@[i] == word_zero());
                            }
                        } else {
                            assert(self.pages_map().contains_key(p) == m0.contains_key(p));
                            if m0.contains_key(p) {
                                assert(self.pages_map()[p] == m0[p]);
                            }
                        }
                    }
                }
            },
            None => {
                proof {
                    lemma_assoc_contains(s0, page);
                    if assoc_map(s0).contains_key(page) {
                        let w = choose|i: int| 0 <= i < s0.len() && s0[i].0 == page;
                        assert(s0[w].0 != page);
                    }
                }
                let mut pv: Vec<Word> = Vec::new();
                while pv.len() < index
                    invariant
                        pv@.len() <= index,
                        forall|j: int| 0 <= j < pv@.len() ==> pv@[j] == word_zero(),
                    decreases index - pv@.len(),
                {
                    pv.push(Word::zero());
                }
                pv.push(query.value);
                self.pages.push((page, pv));
                proof {
                    lemma_assoc_push(s0, page, pv);
                    assert forall|a: int, b: int|
                        0 <= a < b < self.pages@.len() implies
                        self.pages@[a].0 != self.pages@[b].0 by {
                        if b < s0.len() {
                            assert(s0[a].0 != s0[b].0);
                        } else {
                            assert(self.pages@[b].0 == page);
                            assert(s0[a].0 != page);
                        }
                    }
                    let m0 = assoc_map(s0);
                    assert(self.pages_map() == m0.insert(page, pv));
                    assert(!old(self).pages_map().contains_key(page));
                    assert(self.page_words(page) == pv@);
                    assert(self.word_at(page, index as int) == query.value);
                    assert forall|p: u32, i: int|
                        !(p == page && i == index as int)
                            implies self.word_at(p, i) == old(self).word_at(p, i) by {
                        if p == page {
                            assert(old(self).word_at(p, i) == word_zero());
                            if 0 <= i < pv@.len() {
                                assert(pv@[i] == word_zero());
                            }
                        } else {
                            assert(self.pages_map().contains_key(p) == m0.contains_key(p));
                            if m0.contains_key(p) {
                                assert(self.pages_map()[p] == m0[p]);
                            }
                        }
                    }
                }
            },
        }
    }

    /// Word-range read of a page: the words at indices `from..to`, cells
    /// never written reading as zero.
    pub fn dump_page_content_as_u256_words(&self, page: u32, from: u32, to: u32) -> (r: Vec<Word>)
        requires
            self.wf(),
            from <= to,
        ensures
            r@.len() == to - from,
            forall|i: int| 0 <= i < r@.len() ==> r@[i] == self.word_at(page, from + i),
    {
        let idx_opt = self.find_page(page);
        let mut r: Vec<Word> = Vec::new();
        match idx_opt {
            Some(k) => {
                proof {
                    lemma_assoc_at(self.page_entries(), k as int);
                    assert(self.page_words(page) == self.page_entries()[k as int].1@);
                }
                let mut w: u32 = from;
                while w < to
                    invariant
                        from <= w <= to,
                        r@.len() == w - from,
                        self.wf(),
                        k < self.page_entries().len(),
                        self.page_entries()[k as int].0 == page,
                        self.page_words(page) == self.page_entries()[k as int].1@,
                        forall|i: int| 0 <= i < r@.len() ==> r@[i] == self.word_at(page, from + i),
                    decreases to - w,
                {
                    let wi = w as usize;
                    if wi < self.pages[k].1.len() {
                        r.push(self.pages[k].1[wi]);
                    } else {
                        r.push(Word::zero());
                    }
                    w += 1;
                }
            },
            None => {
                proof {
                    lemma_assoc_contains(self.page_entries(), page);
                    if self.pages_map().contains_key(page) {
                        let w = choose|i: int|
                            0 <= i < self.page_entries().len()
                                && self.page_entries()[i].0 == page;
                        assert(self.page_entries()[w].0 != page);
                    }
                }
                let mut w: u32 = from;
                while w < to
                    invariant
                        from <= w <= to,
                        r@.len() == w - from,
                        !self.pages_map().contains_key(page),
                        forall|i: int| 0 <= i < r@.len() ==> r@[i] == self.word_at(page, from + i),
                    decreases to - w,
                {
                    r.push(Word::zero());
                    w += 1;
                }
            },
        }
        r
    }
}

} // verus!
