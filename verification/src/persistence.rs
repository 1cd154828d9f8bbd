//! Persistence model: tab metadata and per-tab word caches.
//!
//! `ProgramState` is the durable metadata record (one `SavedTab` per reader
//! tab); `CacheStore` models the keyed store that holds each tab's word
//! sequence under its cache identifier. `ProgramState::collect` reads the
//! live registry and `ProgramState::restore` rebuilds one, skipping tabs
//! whose cache entry is missing; orphaned cache entries are removed by
//! `CacheStore::cleanup_orphan_caches`. The embedding reads and writes the
//! actual files or browser storage and hands the plain records to and from
//! this module.

use vstd::prelude::*;

use crate::content::{clamped_index, Content};
use crate::playback::{adjusted_wpm, clamp_wpm, WPM_MAX, WPM_MIN};
use crate::tabs::{Tab, TabId, TabManager};
use crate::text::{Word, WordView};

verus! {

/// Durable record of one reader tab.
pub struct SavedTab {
    pub name: String,
    pub file_path: Option<String>,
    pub font_name: String,
    pub font_size_tenths: u32,
    pub wpm: u32,
    pub content_cache_id: String,
    pub current_index: usize,
    pub is_active: bool,
}

/// Durable record of the whole registry, written atomically as one unit.
pub struct ProgramState {
    pub tabs: Vec<SavedTab>,
}

/// One cached word sequence, keyed by its content cache identifier.
pub struct CacheEntry {
    pub cache_id: String,
    pub words: Vec<Word>,
}

/// Keyed store of cached word sequences; identifiers are unique.
pub struct CacheStore {
    pub entries: Vec<CacheEntry>,
}

/// True when the store holds an entry for `id`.
pub open spec fn cache_has(s: Seq<CacheEntry>, id: Seq<char>) -> bool {
    exists|i: int| 0 <= i < s.len() && (#[trigger] s[i]).cache_id@ == id
}

/// Position of the first entry for `id`, or -1 if there is none.
pub open spec fn cache_position(s: Seq<CacheEntry>, id: Seq<char>) -> int
    decreases s.len(),
{
    if s.len() == 0 {
        -1
    } else if s[0].cache_id@ == id {
        0
    } else {
        let rest = cache_position(s.drop_first(), id);
        if rest < 0 {
            -1
        } else {
            rest + 1
        }
    }
}

/// The cached word sequence stored under `id`.
pub open spec fn cache_words(s: Seq<CacheEntry>, id: Seq<char>) -> Seq<WordView> {
    s[cache_position(s, id)].words.deep_view()
}

/// Links `cache_position` to membership: a non-negative position is in
/// range and holds the identifier, and everything before it does not.
pub proof fn lemma_cache_position(s: Seq<CacheEntry>, id: Seq<char>)
    ensures
        cache_has(s, id) <==> cache_position(s, id) >= 0,
        cache_position(s, id) >= 0 ==> cache_position(s, id) < s.len() && s[cache_position(
            s,
            id,
        )].cache_id@ == id,
        forall|j: int| 0 <= j < cache_position(s, id) ==> (#[trigger] s[j]).cache_id@ != id,
    decreases s.len(),
{
    if s.len() > 0 {
        lemma_cache_position(s.drop_first(), id);
        assert(forall|j: int| 1 <= j < s.len() ==> #[trigger] s[j] == s.drop_first()[j - 1]);
        if s[0].cache_id@ != id && cache_has(s, id) {
            let w = choose|i: int| 0 <= i < s.len() && (#[trigger] s[i]).cache_id@ == id;
            assert(s.drop_first()[w - 1].cache_id@ == id);
        }
    }
}

/// `cache_position` returns the first index holding the identifier.
pub proof fn lemma_cache_position_first(s: Seq<CacheEntry>, id: Seq<char>, i: int)
    requires
        0 <= i < s.len(),
        s[i].cache_id@ == id,
        forall|j: int| 0 <= j < i ==> (#[trigger] s[j]).cache_id@ != id,
    ensures
        cache_position(s, id) == i,
        cache_has(s, id),
    decreases i,
{
    if i > 0 {
        assert(forall|j: int| 1 <= j < s.len() ==> #[trigger] s[j] == s.drop_first()[j - 1]);
        lemma_cache_position_first(s.drop_first(), id, i - 1);
    }
}

/// True when some identifier in `ids` reads `id`.
pub open spec fn ids_contain(ids: Seq<String>, id: Seq<char>) -> bool {
    exists|i: int| 0 <= i < ids.len() && (#[trigger] ids[i])@ == id
}

impl CacheStore {
    /// Store invariant: one entry per identifier.
    pub open spec fn wf(&self) -> bool {
        forall|i: int, j: int|
            0 <= i < j < self.entries@.len() ==> (#[trigger] self.entries@[i]).cache_id@ != (
            #[trigger] self.entries@[j]).cache_id@
    }

    pub fn new() -> (s: CacheStore)
        ensures
            s.wf(),
            s.entries@.len() == 0,
    {
        CacheStore { entries: Vec::new() }
    }

    /// Position of the entry for `cache_id`, if present.
    fn position_of(&self, cache_id: &String) -> (r: Option<usize>)
        ensures
            (r is Some) <==> cache_has(self.entries@, cache_id@),
            r matches Some(i) ==> i == cache_position(self.entries@, cache_id@),
    {
        let n = self.entries.len();
        let mut i: usize = 0;
        while i < n
            invariant
                i <= n,
                n == self.entries@.len(),
                forall|j: int| 0 <= j < i ==> (#[trigger] self.entries@[j]).cache_id@ != cache_id@,
            decreases n - i,
        {
            if self.entries[i].cache_id == *cache_id {
                proof {
                    lemma_cache_position_first(self.entries@, cache_id@, i as int);
                }
                return Some(i);
            }
            i = i + 1;
        }
        proof {
            lemma_cache_position(self.entries@, cache_id@);
        }
        None
    }

    /// Writes (or overwrites) the cached word sequence for `cache_id`.
    pub fn write_word_cache(&mut self, cache_id: &String, words: Vec<Word>)
        requires
            old(self).wf(),
        ensures
            final(self).wf(),
            cache_has(final(self).entries@, cache_id@),
            cache_words(final(self).entries@, cache_id@) == words.deep_view(),
            forall|k: Seq<char>|
                k != cache_id@ ==> (#[trigger] cache_has(final(self).entries@, k) <==> cache_has(
                    old(self).entries@,
                    k,
                )),
            forall|k: Seq<char>|
                k != cache_id@ && cache_has(old(self).entries@, k) ==> #[trigger] cache_words(
                    final(self).entries@,
                    k,
                ) == cache_words(old(self).entries@, k),
    {
        proof {
            lemma_cache_position(self.entries@, cache_id@);
        }
        let entry = CacheEntry { cache_id: cache_id.clone(), words };
        match self.position_of(cache_id) {
            Some(pos) => {
                let ghost before = self.entries@;
                let _ = self.entries.remove(pos);
                self.entries.insert(pos, entry);
                proof {
                    let after = self.entries@;
                    assert(after =~= before.update(pos as int, entry));
                    assert forall|k: Seq<char>| cache_has(after, k) implies (k == cache_id@
                        || cache_has(before, k)) by {
                        let w = choose|i: int|
                            0 <= i < after.len() && (#[trigger] after[i]).cache_id@ == k;
                        if w != pos {
                            assert(before[w].cache_id@ == k);
                        }
                    }
                    assert forall|k: Seq<char>| k != cache_id@ && cache_has(before, k) implies
                        cache_has(after, k) && cache_words(after, k) == cache_words(before, k) by {
                        lemma_cache_position(before, k);
                        let p = cache_position(before, k);
                        assert(after[p].cache_id@ == k);
                        lemma_cache_position_first(after, k, p);
                    }
                    lemma_cache_position_first(after, cache_id@, pos as int);
                }
            },
            None => {
                let ghost before = self.entries@;
                self.entries.push(entry);
                proof {
                    let after = self.entries@;
                    let n = before.len() as int;
                    assert(after[n].cache_id@ == cache_id@);
                    assert forall|k: Seq<char>| k != cache_id@ && cache_has(before, k) implies
                        cache_has(after, k) && cache_words(after, k) == cache_words(before, k) by {
                        lemma_cache_position(before, k);
                        let p = cache_position(before, k);
                        assert(after[p].cache_id@ == k);
                        lemma_cache_position_first(after, k, p);
                    }
                    assert forall|k: Seq<char>| k != cache_id@ && cache_has(after, k) implies
                        cache_has(before, k) by {
                        let w = choose|i: int|
                            0 <= i < after.len() && (#[trigger] after[i]).cache_id@ == k;
                        assert(before[w].cache_id@ == k);
                    }
                    assert forall|i: int| 0 <= i < n implies (#[trigger] after[i]).cache_id@
                        != cache_id@ by {
                        assert(before[i].cache_id@ != cache_id@);
                    }
                    lemma_cache_position_first(after, cache_id@, n);
                }
            },
        }
    }

    /// Retrieves a copy of the cached word sequence for `cache_id`.
    pub fn load_word_cache(&self, cache_id: &String) -> (r: Option<Vec<Word>>)
        ensures
            (r is Some) <==> cache_has(self.entries@, cache_id@),
            r matches Some(w) ==> w.deep_view() == cache_words(self.entries@, cache_id@),
    {
        match self.position_of(cache_id) {
            Some(pos) => {
                proof {
                    lemma_cache_position(self.entries@, cache_id@);
                }
                let words = self.entries[pos].words.clone();
                proof {
                    let stored = self.entries@[pos as int].words;
                    assert forall|i: int| 0 <= i < words@.len() implies words@[i] == stored@[i] by {
                        assert(vstd::pervasive::cloned::<Word>(stored@[i], words@[i]));
                    }
                    assert(words.deep_view() =~= stored.deep_view());
                }
                Some(words)
            },
            None => None,
        }
    }

    /// Removes the entry for `cache_id`; removing an absent entry is not an
    /// error.
    pub fn delete_word_cache(&mut self, cache_id: &String)
        requires
            old(self).wf(),
        ensures
            final(self).wf(),
            !cache_has(final(self).entries@, cache_id@),
            forall|k: Seq<char>|
                k != cache_id@ ==> (#[trigger] cache_has(final(self).entries@, k) <==> cache_has(
                    old(self).entries@,
                    k,
                )),
            forall|k: Seq<char>|
                k != cache_id@ && cache_has(old(self).entries@, k) ==> #[trigger] cache_words(
                    final(self).entries@,
                    k,
                ) == cache_words(old(self).entries@, k),
    {
        match self.position_of(cache_id) {
            Some(pos) => {
                proof {
                    lemma_cache_position(self.entries@, cache_id@);
                }
                let ghost before = self.entries@;
                let _ = self.entries.remove(pos);
                proof {
                    let after = self.entries@;
                    let posi = pos as int;
                    assert(forall|j: int| 0 <= j < posi ==> after[j] == before[j]);
                    assert(forall|j: int|
                        posi <= j < after.len() ==> #[trigger] after[j] == before[j + 1]);
                    assert forall|k: Seq<char>| cache_has(after, k) implies k != cache_id@
                        && cache_has(before, k) by {
                        let w = choose|i: int|
                            0 <= i < after.len() && (#[trigger] after[i]).cache_id@ == k;
                        if w < posi {
                            assert(before[w].cache_id@ == k);
                        } else {
                            assert(before[w + 1].cache_id@ == k);
                        }
                    }
                    assert forall|k: Seq<char>| k != cache_id@ && cache_has(before, k) implies
                        cache_has(after, k) && cache_words(after, k) == cache_words(before, k) by {
                        lemma_cache_position(before, k);
                        let p = cache_position(before, k);
                        if p < posi {
                            assert(after[p].cache_id@ == k);
                            lemma_cache_position_first(after, k, p);
                        } else {
                            assert(after[p - 1].cache_id@ == k);
                            assert forall|j: int| 0 <= j < p - 1 implies (
                            #[trigger] after[j]).cache_id@ != k by {
                                if j < posi {
                                    assert(before[j].cache_id@ != k);
                                } else {
                                    assert(before[j + 1].cache_id@ != k);
                                }
                            }
                            lemma_cache_position_first(after, k, p - 1);
                        }
                    }
                }
            },
            None => {
                proof {
                    lemma_cache_position(self.entries@, cache_id@);
                }
            },
        }
    }

    /// Removes every entry whose identifier is not in `valid_ids`, bounding
    /// storage growth from tabs whose close-time deletion was interrupted.
    #[verifier::rlimit(50)]
    pub fn cleanup_orphan_caches(&mut self, valid_ids: &Vec<String>)
        requires
            old(self).wf(),
        ensures
            final(self).wf(),
            forall|k: Seq<char>|
                #[trigger] cache_has(final(self).entries@, k) <==> cache_has(old(self).entries@, k)
                    && ids_contain(valid_ids@, k),
            forall|k: Seq<char>|
                cache_has(final(self).entries@, k) ==> #[trigger] cache_words(
                    final(self).entries@,
                    k,
                ) == cache_words(old(self).entries@, k),
    {
        let n = self.entries.len();
        let mut kept: Vec<CacheEntry> = Vec::new();
        let mut i: usize = 0;
        while i < n
            invariant
                i <= n,
                n == self.entries@.len(),
                self.entries@ == old(self).entries@,
                old(self).wf(),
                forall|a: int, b: int|
                    0 <= a < b < kept@.len() ==> (#[trigger] kept@[a]).cache_id@ != (
                    #[trigger] kept@[b]).cache_id@,
                forall|a: int|
                    0 <= a < kept@.len() ==> exists|b: int|
                        0 <= b < i && (#[trigger] kept@[a]).cache_id@ == self.entries@[b].cache_id@
                            && kept@[a].words.deep_view() == self.entries@[b].words.deep_view(),
                forall|b: int|
                    0 <= b < i && ids_contain(valid_ids@, (#[trigger] self.entries@[b]).cache_id@)
                        ==> exists|a: int|
                        0 <= a < kept@.len() && (#[trigger] kept@[a]).cache_id@
                            == self.entries@[b].cache_id@,
                forall|a: int|
                    0 <= a < kept@.len() ==> ids_contain(
                        valid_ids@,
                        (#[trigger] kept@[a]).cache_id@,
                    ),
            decreases n - i,
        {
            if Self::ids_contain_exec(valid_ids, &self.entries[i].cache_id) {
                let ghost kept_before = kept@;
                let entry_id = self.entries[i].cache_id.clone();
                let entry_words = self.entries[i].words.clone();
                kept.push(CacheEntry { cache_id: entry_id, words: entry_words });
                proof {
                    let stored = self.entries@[i as int].words;
                    let pushed = kept@.last().words;
                    assert forall|q: int| 0 <= q < pushed@.len() implies pushed@[q]
                        == stored@[q] by {
                        assert(vstd::pervasive::cloned::<Word>(stored@[q], pushed@[q]));
                    }
                    assert(pushed@ =~= stored@);
                    assert(pushed.deep_view() =~= stored.deep_view());
                    assert(kept@.last().cache_id@ == self.entries@[i as int].cache_id@);
                    assert forall|a: int| 0 <= a < kept@.len() implies exists|b: int|
                        0 <= b < i + 1 && (#[trigger] kept@[a]).cache_id@
                            == self.entries@[b].cache_id@ && kept@[a].words.deep_view()
                            == self.entries@[b].words.deep_view() by {
                        if a < kept_before.len() {
                            let b = choose|b: int|
                                0 <= b < i && (#[trigger] kept_before[a]).cache_id@
                                    == self.entries@[b].cache_id@ && kept_before[a].words.deep_view()
                                    == self.entries@[b].words.deep_view();
                            assert(kept@[a].cache_id@ == self.entries@[b].cache_id@
                                && kept@[a].words.deep_view() == self.entries@[b].words.deep_view());
                        } else {
                            assert(kept@[a].cache_id@ == self.entries@[i as int].cache_id@
                                && kept@[a].words.deep_view()
                                == self.entries@[i as int].words.deep_view());
                        }
                    }
                    assert forall|a: int, b: int| 0 <= a < b < kept@.len() implies (
                    #[trigger] kept@[a]).cache_id@ != (#[trigger] kept@[b]).cache_id@ by {
                        let sa = choose|s: int|
                            0 <= s < i + 1 && (#[trigger] kept@[a]).cache_id@
                                == self.entries@[s].cache_id@ && kept@[a].words.deep_view()
                                == self.entries@[s].words.deep_view();
                        let sb = choose|s: int|
                            0 <= s < i + 1 && (#[trigger] kept@[b]).cache_id@
                                == self.entries@[s].cache_id@ && kept@[b].words.deep_view()
                                == self.entries@[s].words.deep_view();
                        assert(self.entries@[sa].cache_id@ == kept@[a].cache_id@);
                        assert(self.entries@[sb].cache_id@ == kept@[b].cache_id@);
                    }
                    assert forall|b: int|
                        0 <= b < i + 1 && ids_contain(
                            valid_ids@,
                            (#[trigger] self.entries@[b]).cache_id@,
                        ) implies exists|a: int|
                        0 <= a < kept@.len() && (#[trigger] kept@[a]).cache_id@
                            == self.entries@[b].cache_id@ by {
                        if b < i {
                            let a = choose|a: int|
                                0 <= a < kept_before.len() && (#[trigger] kept_before[a]).cache_id@
                                    == self.entries@[b].cache_id@;
                            assert(kept@[a].cache_id@ == self.entries@[b].cache_id@);
                        } else {
                            assert(kept@[kept@.len() - 1].cache_id@ == self.entries@[b].cache_id@);
                        }
                    }
                }
            }
            i = i + 1;
        }
        let ghost before = self.entries@;
        self.entries = kept;
        proof {
            assert forall|k: Seq<char>| #[trigger] cache_has(self.entries@, k) implies cache_has(
                before,
                k,
            ) && ids_contain(valid_ids@, k) by {
                let a = choose|a: int|
                    0 <= a < self.entries@.len() && (#[trigger] self.entries@[a]).cache_id@ == k;
                let b = choose|b: int|
                    0 <= b < n && (#[trigger] self.entries@[a]).cache_id@ == before[b].cache_id@
                        && self.entries@[a].words.deep_view() == before[b].words.deep_view();
                assert(before[b].cache_id@ == k);
            }
            assert forall|k: Seq<char>| cache_has(before, k) && ids_contain(valid_ids@, k) implies
                cache_has(self.entries@, k) by {
                let b = choose|b: int| 0 <= b < n && (#[trigger] before[b]).cache_id@ == k;
                let a = choose|a: int|
                    0 <= a < self.entries@.len() && (#[trigger] self.entries@[a]).cache_id@
                        == before[b].cache_id@;
                assert(self.entries@[a].cache_id@ == k);
            }
            assert forall|k: Seq<char>| cache_has(self.entries@, k) implies #[trigger] cache_words(
                self.entries@,
                k,
            ) == cache_words(before, k) by {
                lemma_cache_position(self.entries@, k);
                lemma_cache_position(before, k);
                let a = cache_position(self.entries@, k);
                let b = choose|b: int|
                    0 <= b < n && (#[trigger] self.entries@[a]).cache_id@ == before[b].cache_id@
                        && self.entries@[a].words.deep_view() == before[b].words.deep_view();
                assert(before[b].cache_id@ == k);
                let p = cache_position(before, k);
                assert(before[p].cache_id@ == k);
            }
        }
    }

    /// True when `id` occurs among `ids`.
    fn ids_contain_exec(ids: &Vec<String>, id: &String) -> (r: bool)
        ensures
            r == ids_contain(ids@, id@),
    {
        let n = ids.len();
        let mut i: usize = 0;
        while i < n
            invariant
                i <= n,
                n == ids@.len(),
                forall|j: int| 0 <= j < i ==> (#[trigger] ids@[j])@ != id@,
            decreases n - i,
        {
            if ids[i] == *id {
                return true;
            }
            i = i + 1;
        }
        false
    }
}

/// Copies an optional path string.
fn clone_opt_string(s: &Option<String>) -> (r: Option<String>)
    ensures
        r == *s,
{
    match s {
        Some(v) => Some(v.clone()),
        None => None,
    }
}

/// The metadata record that `collect` writes for one reader tab.
pub open spec fn saved_tab_of(t: Tab, active_id: Option<TabId>) -> SavedTab {
    SavedTab {
        name: t.name,
        file_path: t.file_path,
        font_name: t.font_name,
        font_size_tenths: t.font_size_tenths,
        wpm: t.wpm,
        content_cache_id: t.content.content_cache_id,
        current_index: t.content.current_index,
        is_active: active_id == Some(t.id),
    }
}

/// Metadata for a registry snapshot: one record per reader tab, in order;
/// the home tab is skipped.
pub open spec fn saved_of(tabs: Seq<Tab>, active_id: Option<TabId>) -> Seq<SavedTab> {
    tabs.filter(|t: Tab| t.is_reader_tab).map_values(
        |t: Tab| saved_tab_of(t, active_id),
    )
}

pub open spec fn saved_view(registry: TabManager) -> Seq<SavedTab> {
    saved_of(registry.tabs@, registry.active_id)
}

/// The metadata records whose cache entry is present: exactly the tabs that
/// a load can restore; the others are skipped, never fabricated as empty.
pub open spec fn restorable(meta: Seq<SavedTab>, store: Seq<CacheEntry>) -> Seq<SavedTab> {
    meta.filter(|s: SavedTab| cache_has(store, s.content_cache_id@))
}

/// Index of the last record marked active, or -1. When several records claim
/// to be active, the last one wins, as each restored tab in turn takes over
/// the active reference.
pub open spec fn last_active_index(s: Seq<SavedTab>) -> int
    decreases s.len(),
{
    if s.len() == 0 {
        -1
    } else if s.last().is_active {
        s.len() - 1
    } else {
        last_active_index(s.drop_last())
    }
}

/// The active-tab reference after a restore: the identifier minted for the
/// last restorable record marked active.
pub open spec fn active_of_restored(r: Seq<SavedTab>) -> Option<TabId> {
    if last_active_index(r) == -1 {
        None
    } else {
        Some((last_active_index(r) + 1) as TabId)
    }
}

/// Field correspondence between a restored tab and its metadata record:
/// identifiers are minted in order from 1, the rate and cursor are clamped
/// into range, and the words come from the cache entry.
pub open spec fn restored_tab_matches(t: Tab, s: SavedTab, j: int, store: Seq<CacheEntry>) -> bool {
    &&& t.id == j + 1
    &&& t.name == s.name
    &&& t.file_path == s.file_path
    &&& t.font_name == s.font_name
    &&& t.font_size_tenths == s.font_size_tenths
    &&& t.wpm == adjusted_wpm(s.wpm, 0)
    &&& t.content.content_cache_id == s.content_cache_id
    &&& t.content.words.deep_view() == cache_words(store, s.content_cache_id@)
    &&& t.content.current_index == clamped_index(
        s.current_index as int,
        cache_words(store, s.content_cache_id@).len() as int,
    )
    &&& t.is_reader_tab
}

/// The metadata that collecting right after a restore yields: the restorable
/// records with rate and cursor clamped and the active flag recomputed.
pub open spec fn restore_meta(meta: Seq<SavedTab>, store: Seq<CacheEntry>) -> Seq<SavedTab> {
    let r = restorable(meta, store);
    Seq::new(
        r.len(),
        |i: int|
            SavedTab {
                wpm: adjusted_wpm(r[i].wpm, 0) as u32,
                current_index: clamped_index(
                    r[i].current_index as int,
                    cache_words(store, r[i].content_cache_id@).len() as int,
                ) as usize,
                is_active: i == last_active_index(r),
                ..r[i]
            },
    )
}

proof fn lemma_last_active_bounds(s: Seq<SavedTab>)
    ensures
        -1 <= last_active_index(s) < s.len(),
    decreases s.len(),
{
    if s.len() > 0 {
        lemma_last_active_bounds(s.drop_last());
    }
}

proof fn lemma_filter_all<A>(s: Seq<A>, pred: spec_fn(A) -> bool)
    requires
        forall|i: int| 0 <= i < s.len() ==> pred(#[trigger] s[i]),
    ensures
        s.filter(pred) == s,
    decreases s.len(),
{
    reveal(Seq::filter);
    if s.len() > 0 {
        lemma_filter_all(s.drop_last(), pred);
        assert(s.drop_last().push(s.last()) =~= s);
    }
}

impl Default for ProgramState {
    /// The fresh-session fallback: no tabs. Any failure to read or parse the
    /// durable record degrades to this.
    fn default() -> (state: ProgramState)
        ensures
            state.tabs@.len() == 0,
    {
        ProgramState { tabs: Vec::new() }
    }
}

impl ProgramState {
    /// Snapshots the live registry into its durable record: one entry per
    /// reader tab, in order, with the active tab flagged.
    pub fn collect(registry: &TabManager) -> (state: ProgramState)
        ensures
            state.tabs@ == saved_view(*registry),
    {
        let n = registry.tabs.len();
        let mut out: Vec<SavedTab> = Vec::new();
        let mut i: usize = 0;
        proof {
            reveal(Seq::filter);
            assert(registry.tabs@.subrange(0, 0) =~= Seq::<Tab>::empty());
            assert(out@ =~= saved_of(registry.tabs@.subrange(0, 0), registry.active_id));
        }
        while i < n
            invariant
                i <= n,
                n == registry.tabs@.len(),
                out@ == saved_of(registry.tabs@.subrange(0, i as int), registry.active_id),
            decreases n - i,
        {
            let ghost prefix = registry.tabs@.subrange(0, i as int);
            let tab = &registry.tabs[i];
            proof {
                reveal(Seq::filter);
                assert(registry.tabs@.subrange(0, i + 1).drop_last() =~= prefix);
                assert(registry.tabs@.subrange(0, i + 1).last() == registry.tabs@[i as int]);
            }
            if tab.is_reader_tab {
                let is_active = match registry.active_id {
                    Some(a) => a == tab.id,
                    None => false,
                };
                out.push(
                    SavedTab {
                        name: tab.name.clone(),
                        file_path: clone_opt_string(&tab.file_path),
                        font_name: tab.font_name.clone(),
                        font_size_tenths: tab.font_size_tenths,
                        wpm: tab.wpm,
                        content_cache_id: tab.content.content_cache_id.clone(),
                        current_index: tab.content.current_index,
                        is_active,
                    },
                );
                proof {
                    assert(out@.last() == saved_tab_of(registry.tabs@[i as int], registry.active_id));
                    assert(out@ =~= saved_of(
                        registry.tabs@.subrange(0, i + 1),
                        registry.active_id,
                    ));
                }
            } else {
                proof {
                    assert(out@ =~= saved_of(
                        registry.tabs@.subrange(0, i + 1),
                        registry.active_id,
                    ));
                }
            }
            i = i + 1;
        }
        proof {
            assert(registry.tabs@.subrange(0, n as int) =~= registry.tabs@);
        }
        ProgramState { tabs: out }
    }

    /// The cache identifiers this record references, in order; the valid set
    /// for orphan cleanup.
    pub fn cache_ids(&self) -> (r: Vec<String>)
        ensures
            r@.len() == self.tabs@.len(),
            forall|i: int|
                0 <= i < r@.len() ==> (#[trigger] r@[i])@ == self.tabs@[i].content_cache_id@,
    {
        let n = self.tabs.len();
        let mut out: Vec<String> = Vec::new();
        let mut i: usize = 0;
        while i < n
            invariant
                i <= n,
                n == self.tabs@.len(),
                out@.len() == i,
                forall|j: int|
                    0 <= j < i ==> (#[trigger] out@[j])@ == self.tabs@[j].content_cache_id@,
            decreases n - i,
        {
            out.push(self.tabs[i].content_cache_id.clone());
            i = i + 1;
        }
        out
    }

    /// Rebuilds a registry from this record. A tab whose cache entry is
    /// missing is skipped with nothing fabricated in its place; rates and
    /// cursors from the untrusted record are clamped into range; the last
    /// record marked active becomes the active tab.
    pub fn restore(&self, store: &CacheStore) -> (registry: TabManager)
        requires
            store.wf(),
            self.tabs@.len() < u64::MAX,
        ensures
            registry.wf(),
            registry.tabs@.len() == restorable(self.tabs@, store.entries@).len(),
            forall|j: int|
                0 <= j < registry.tabs@.len() ==> restored_tab_matches(
                    #[trigger] registry.tabs@[j],
                    restorable(self.tabs@, store.entries@)[j],
                    j,
                    store.entries@,
                ),
            registry.active_id == active_of_restored(restorable(self.tabs@, store.entries@)),
            saved_view(registry) == restore_meta(self.tabs@, store.entries@),
    {
        let mut registry = TabManager::default();
        let n = self.tabs.len();
        let mut i: usize = 0;
        proof {
            reveal(Seq::filter);
            assert(self.tabs@.subrange(0, 0) =~= Seq::<SavedTab>::empty());
        }
        while i < n
            invariant
                i <= n,
                n == self.tabs@.len(),
                n < u64::MAX,
                store.wf(),
                registry.wf(),
                registry.last_synced_id is None,
                registry.tabs@.len() == restorable(
                    self.tabs@.subrange(0, i as int),
                    store.entries@,
                ).len(),
                registry.next_id == registry.tabs@.len() + 1,
                forall|j: int|
                    0 <= j < registry.tabs@.len() ==> restored_tab_matches(
                        #[trigger] registry.tabs@[j],
                        restorable(self.tabs@.subrange(0, i as int), store.entries@)[j],
                        j,
                        store.entries@,
                    ),
                registry.active_id == active_of_restored(
                    restorable(self.tabs@.subrange(0, i as int), store.entries@),
                ),
            decreases n - i,
        {
            let ghost prefix = self.tabs@.subrange(0, i as int);
            let ghost r0 = restorable(prefix, store.entries@);
            let saved = &self.tabs[i];
            proof {
                reveal(Seq::filter);
                assert(self.tabs@.subrange(0, i + 1).drop_last() =~= prefix);
                assert(self.tabs@.subrange(0, i + 1).last() == self.tabs@[i as int]);
            }
            match store.load_word_cache(&saved.content_cache_id) {
                Some(words) => {
                    let content = Content::new_from_loaded(
                        saved.content_cache_id.clone(),
                        words,
                        saved.current_index,
                    );
                    let wpm = clamp_wpm(saved.wpm, 0);
                    let _ = registry.add_tab(
                        saved.name.clone(),
                        clone_opt_string(&saved.file_path),
                        content,
                        saved.font_name.clone(),
                        saved.font_size_tenths,
                        wpm,
                        saved.is_active,
                    );
                    proof {
                        let r1 = restorable(self.tabs@.subrange(0, i + 1), store.entries@);
                        assert(r1 =~= r0.push(self.tabs@[i as int]));
                        assert(r1.drop_last() =~= r0);
                        let m = r0.len() as int;
                        assert(restored_tab_matches(
                            registry.tabs@[m],
                            r1[m],
                            m,
                            store.entries@,
                        ));
                    }
                },
                None => {
                    proof {
                        assert(restorable(self.tabs@.subrange(0, i + 1), store.entries@) =~= r0);
                    }
                },
            }
            i = i + 1;
        }
        proof {
            assert(self.tabs@.subrange(0, n as int) =~= self.tabs@);
            let r = restorable(self.tabs@, store.entries@);
            lemma_filter_all(registry.tabs@, |t: Tab| t.is_reader_tab);
            assert(registry.tabs@.filter(|t: Tab| t.is_reader_tab) == registry.tabs@);
            lemma_last_active_bounds(r);
            assert forall|j: int| 0 <= j < r.len() implies saved_of(
                registry.tabs@,
                registry.active_id,
            )[j] == restore_meta(self.tabs@, store.entries@)[j] by {
                assert(restored_tab_matches(registry.tabs@[j], r[j], j, store.entries@));
                assert(saved_of(registry.tabs@, registry.active_id)[j] == saved_tab_of(
                    registry.tabs@[j],
                    registry.active_id,
                ));
            }
            assert(saved_view(registry) =~= restore_meta(self.tabs@, store.entries@));
        }
        registry
    }
}

proof fn lemma_round_trip_helper(tabs: Seq<Tab>, active_id: Option<TabId>, store: Seq<CacheEntry>)
    requires
        forall|i: int, j: int|
            0 <= i < j < tabs.len() ==> (#[trigger] tabs[i]).id != (#[trigger] tabs[j]).id,
        forall|i: int| 0 <= i < tabs.len() ==> (#[trigger] tabs[i]).wf(),
        forall|i: int|
            0 <= i < tabs.len() && (#[trigger] tabs[i]).is_reader_tab && cache_has(
                store,
                tabs[i].content.content_cache_id@,
            ) ==> cache_words(store, tabs[i].content.content_cache_id@)
                == tabs[i].content.words.deep_view(),
    ensures
        restore_meta(saved_of(tabs, active_id), store) == restorable(
            saved_of(tabs, active_id),
            store,
        ),
        forall|k: int|
            0 <= k < restorable(saved_of(tabs, active_id), store).len() ==> exists|j: int|
                0 <= j < tabs.len() && #[trigger] restorable(saved_of(tabs, active_id), store)[k]
                    == saved_tab_of(tabs[j], active_id) && tabs[j].is_reader_tab,
    decreases tabs.len(),
{
    reveal(Seq::filter);
    let meta = saved_of(tabs, active_id);
    let r = restorable(meta, store);
    if tabs.len() == 0 {
        assert(meta =~= Seq::<SavedTab>::empty());
        assert(r =~= Seq::<SavedTab>::empty());
        assert(restore_meta(meta, store) =~= r);
    } else {
        let tabs0 = tabs.drop_last();
        let t = tabs.last();
        lemma_round_trip_helper(tabs0, active_id, store);
        let meta0 = saved_of(tabs0, active_id);
        let r0 = restorable(meta0, store);
        lemma_last_active_bounds(r0);
        if !t.is_reader_tab {
            assert(tabs.filter(|x: Tab| x.is_reader_tab) == tabs0.filter(
                |x: Tab| x.is_reader_tab,
            ));
            assert(meta =~= meta0);
            assert(r =~= r0);
            assert(restore_meta(meta, store) =~= restore_meta(meta0, store));
        } else {
            let st = saved_tab_of(t, active_id);
            assert(tabs.filter(|x: Tab| x.is_reader_tab) == tabs0.filter(
                |x: Tab| x.is_reader_tab,
            ).push(t));
            assert(meta =~= meta0.push(st));
            assert(meta.drop_last() =~= meta0);
            if cache_has(store, st.content_cache_id@) {
                assert(r =~= r0.push(st));
                assert(r.drop_last() =~= r0);
                let m = r0.len() as int;
                assert forall|k: int| 0 <= k < r.len() implies exists|j: int|
                    0 <= j < tabs.len() && #[trigger] r[k] == saved_tab_of(tabs[j], active_id)
                        && tabs[j].is_reader_tab by {
                    if k < m {
                        let j = choose|j: int|
                            0 <= j < tabs0.len() && #[trigger] r0[k] == saved_tab_of(
                                tabs0[j],
                                active_id,
                            ) && tabs0[j].is_reader_tab;
                        assert(r[k] == saved_tab_of(tabs[j], active_id) && tabs[j].is_reader_tab);
                    } else {
                        assert(r[k] == saved_tab_of(tabs[tabs.len() - 1], active_id));
                    }
                }
                assert forall|k: int| 0 <= k < r.len() implies restore_meta(meta, store)[k]
                    == r[k] by {
                    if k < m {
                        assert(restore_meta(meta0, store)[k] == r0[k]);
                        if st.is_active {
                            assert(last_active_index(r) == m);
                            if r0[k].is_active {
                                let j = choose|j: int|
                                    0 <= j < tabs0.len() && #[trigger] r0[k] == saved_tab_of(
                                        tabs0[j],
                                        active_id,
                                    ) && tabs0[j].is_reader_tab;
                                assert(active_id == Some(tabs0[j].id));
                                assert(active_id == Some(t.id));
                                assert(tabs[j].id == tabs[tabs.len() - 1].id);
                                assert(false);
                            }
                        } else {
                            assert(last_active_index(r) == last_active_index(r0));
                        }
                    } else {
                        if st.is_active {
                            assert(last_active_index(r) == m);
                        } else {
                            assert(last_active_index(r) == last_active_index(r0));
                            assert(last_active_index(r) < m);
                        }
                        assert(WPM_MIN <= st.wpm <= WPM_MAX);
                        assert(cache_words(store, st.content_cache_id@)
                            == t.content.words.deep_view());
                        assert(t.content.words.deep_view().len() == t.content.words@.len());
                    }
                }
                assert(restore_meta(meta, store) =~= r);
            } else {
                assert(r =~= r0);
                assert(restore_meta(meta, store) =~= restore_meta(meta0, store));
            }
        }
    }
}

/// Round trip: saving the registry and loading what was saved reconstructs
/// the same metadata — same tab order, names, fonts, rates and cursors —
/// restricted to the records whose cache entry is present in the store;
/// a record whose cache entry is missing is dropped, never replaced by an
/// empty tab. `restore_meta` is the metadata that collecting right after
/// `ProgramState::restore` yields, and the right-hand side is the collected
/// metadata of the registry restricted to the cached records. The store is
/// assumed to hold, for each reader tab that has an entry at all, the word
/// sequence that was written for that tab when its content was created.
pub proof fn lemma_persistence_round_trip(registry: TabManager, store: CacheStore)
    requires
        registry.wf(),
        forall|i: int|
            0 <= i < registry.tabs@.len() && (#[trigger] registry.tabs@[i]).is_reader_tab
                && cache_has(store.entries@, registry.tabs@[i].content.content_cache_id@)
                ==> cache_words(store.entries@, registry.tabs@[i].content.content_cache_id@)
                == registry.tabs@[i].content.words.deep_view(),
    ensures
        restore_meta(saved_view(registry), store.entries@) == restorable(
            saved_view(registry),
            store.entries@,
        ),
{
    lemma_round_trip_helper(registry.tabs@, registry.active_id, store.entries@);
}

} // verus!
