//! A tab's word sequence and its playback cursor.
//!
//! `Content` owns the ordered words of one open document, a current-index
//! cursor, and the stable cache identifier under which the word sequence is
//! persisted. All navigation operations are defined on an empty sequence too
//! (they are no-ops or return `false`) and never leave the cursor out of
//! bounds for a non-empty sequence.

use vstd::prelude::*;

use crate::text::Word;

verus! {

pub struct Content {
    /// Stable opaque key used to persist the word sequence; minted once when
    /// the content is created and never changed afterwards.
    pub content_cache_id: String,
    pub words: Vec<Word>,
    pub current_index: usize,
}

impl Clone for Content {
    fn clone(&self) -> (r: Content)
        ensures
            r.content_cache_id == self.content_cache_id,
            r.words@ == self.words@,
            r.current_index == self.current_index,
    {
        let words = self.words.clone();
        proof {
            assert forall|i: int| 0 <= i < words@.len() implies words@[i] == self.words@[i] by {
                assert(vstd::pervasive::cloned::<Word>(self.words@[i], words@[i]));
            }
            assert(words@ =~= self.words@);
        }
        Content {
            content_cache_id: self.content_cache_id.clone(),
            words,
            current_index: self.current_index,
        }
    }
}

impl Content {
    /// Cursor invariant: index 0 on an empty sequence, otherwise strictly
    /// inside the sequence.
    pub open spec fn wf(&self) -> bool {
        if self.words@.len() == 0 {
            self.current_index == 0
        } else {
            self.current_index < self.words@.len()
        }
    }

    /// True when the cursor cannot advance further: at the last word, or the
    /// sequence is empty.
    pub open spec fn at_end(&self) -> bool {
        self.current_index + 1 >= self.words@.len()
    }

    /// Creates new content with the cursor at the start. The caller supplies
    /// the freshly minted cache identifier and is responsible for writing the
    /// word sequence to the cache store under that identifier.
    pub fn new(content_cache_id: String, words: Vec<Word>) -> (c: Content)
        ensures
            c.wf(),
            c.content_cache_id == content_cache_id,
            c.words == words,
            c.current_index == 0,
    {
        Content { content_cache_id, words, current_index: 0 }
    }

    /// Restores content from an existing cache entry. The stored cursor is
    /// clamped into range, so corrupt or stale metadata cannot break the
    /// cursor invariant.
    pub fn new_from_loaded(content_cache_id: String, words: Vec<Word>, current_index: usize) -> (c:
        Content)
        ensures
            c.wf(),
            c.content_cache_id == content_cache_id,
            c.words == words,
            c.current_index == clamped_index(current_index as int, words@.len() as int),
    {
        let index = if words.len() == 0 {
            0
        } else if current_index >= words.len() {
            words.len() - 1
        } else {
            current_index
        };
        Content { content_cache_id, words, current_index: index }
    }

    pub fn has_words(&self) -> (r: bool)
        ensures
            r == (self.words@.len() > 0),
    {
        self.words.len() > 0
    }

    /// The word under the cursor; `None` only when the sequence is empty.
    pub fn current_word(&self) -> (r: Option<&Word>)
        requires
            self.wf(),
        ensures
            self.words@.len() == 0 ==> r is None,
            self.words@.len() > 0 ==> (r matches Some(w) && *w == self.words@[
                self.current_index as int]),
    {
        if self.words.len() == 0 {
            None
        } else {
            Some(&self.words[self.current_index])
        }
    }

    /// Returns (current position 1-indexed, total) for display.
    pub fn progress(&self) -> (r: (usize, usize))
        requires
            self.wf(),
        ensures
            r.0 == self.current_index + 1,
            r.1 == self.words@.len(),
    {
        let total = self.words.len();
        (self.current_index + 1, total)
    }

    /// Moves the cursor forward by `amount`, saturating at the last index.
    pub fn skip_forward(&mut self, amount: usize)
        requires
            old(self).wf(),
        ensures
            final(self).wf(),
            final(self).words == old(self).words,
            final(self).content_cache_id == old(self).content_cache_id,
            final(self).current_index == clamped_index(
                old(self).current_index + amount,
                old(self).words@.len() as int,
            ),
    {
        if self.words.len() == 0 {
            return ;
        }
        let last = self.words.len() - 1;
        if amount >= last - self.current_index {
            self.current_index = last;
        } else {
            self.current_index = self.current_index + amount;
        }
    }

    /// Moves the cursor backward by `amount`, saturating at index 0.
    pub fn skip_backward(&mut self, amount: usize)
        requires
            old(self).wf(),
        ensures
            final(self).wf(),
            final(self).words == old(self).words,
            final(self).content_cache_id == old(self).content_cache_id,
            final(self).current_index == if amount <= old(self).current_index {
                old(self).current_index - amount
            } else {
                0
            },
    {
        if amount <= self.current_index {
            self.current_index = self.current_index - amount;
        } else {
            self.current_index = 0;
        }
    }

    /// Sets the cursor directly, clamped into range.
    pub fn seek(&mut self, index: usize)
        requires
            old(self).wf(),
        ensures
            final(self).wf(),
            final(self).words == old(self).words,
            final(self).content_cache_id == old(self).content_cache_id,
            final(self).current_index == clamped_index(index as int, old(self).words@.len() as int),
    {
        if self.words.len() == 0 {
            self.current_index = 0;
        } else if index >= self.words.len() {
            self.current_index = self.words.len() - 1;
        } else {
            self.current_index = index;
        }
    }

    pub fn restart(&mut self)
        ensures
            final(self).wf(),
            final(self).words == old(self).words,
            final(self).content_cache_id == old(self).content_cache_id,
            final(self).current_index == 0,
    {
        self.current_index = 0;
    }

    pub fn is_at_end(&self) -> (r: bool)
        requires
            self.wf(),
        ensures
            r == self.at_end(),
    {
        let len = self.words.len();
        self.current_index + 1 >= len
    }

    /// Advances to the next word. Returns `true` if the cursor moved; at the
    /// end of the sequence it returns `false` and changes nothing, so a
    /// full pass returns `false` exactly once, at the last index.
    pub fn advance(&mut self) -> (advanced: bool)
        requires
            old(self).wf(),
        ensures
            final(self).wf(),
            advanced == !old(self).at_end(),
            advanced ==> final(self).words == old(self).words && final(self).content_cache_id
                == old(self).content_cache_id && final(self).current_index == old(
                self,
            ).current_index + 1,
            !advanced ==> *final(self) == *old(self),
    {
        let len = self.words.len();
        if self.current_index + 1 >= len {
            false
        } else {
            self.current_index = self.current_index + 1;
            true
        }
    }
}

/// A cursor value clamped into `[0, len - 1]`, or 0 when the sequence is
/// empty.
pub open spec fn clamped_index(index: int, len: int) -> int {
    if len == 0 {
        0
    } else if index >= len {
        len - 1
    } else {
        index
    }
}

} // verus!
