//! Display units ("words"), text segmentation and display timing.
//!
//! `words_from_text` splits raw text into `Word` units and detects paragraph
//! boundaries; `Word::orp_index` gives the eye-fixation character offset and
//! `Word::display_duration_ms` the time a word stays on screen.

use vstd::prelude::*;

verus! {

/// Ghost image of a `Word`: the character sequence and the paragraph flag.
pub ghost struct WordView {
    pub text: Seq<char>,
    pub is_paragraph_end: bool,
}

/// Single display unit for the reader. Each word is shown for a duration
/// based on the words-per-minute rate and punctuation/length multipliers.
pub struct Word {
    pub text: String,
    /// Set on the last word before a blank-line gap (not the first word
    /// after), so the reading pause lands at the end of a paragraph.
    pub is_paragraph_end: bool,
}

impl View for Word {
    type V = WordView;

    open spec fn view(&self) -> WordView {
        WordView { text: self.text@, is_paragraph_end: self.is_paragraph_end }
    }
}

impl DeepView for Word {
    type V = WordView;

    open spec fn deep_view(&self) -> WordView {
        self@
    }
}

impl Clone for Word {
    fn clone(&self) -> (r: Word)
        ensures
            r == *self,
    {
        Word { text: self.text.clone(), is_paragraph_end: self.is_paragraph_end }
    }
}

/// Eye-fixation offset for a word of `n` characters, by character-count bucket.
pub open spec fn orp_index_of(n: nat) -> nat {
    if n <= 1 {
        0
    } else if n <= 5 {
        1
    } else if n <= 9 {
        2
    } else if n <= 13 {
        3
    } else {
        4
    }
}

/// True when the word's last character ends a clause (comma or semicolon).
pub open spec fn ends_clause(text: Seq<char>) -> bool {
    text.len() > 0 && (text.last() == ',' || text.last() == ';')
}

/// True when the word's last character ends a sentence.
pub open spec fn ends_sentence(text: Seq<char>) -> bool {
    text.len() > 0 && (text.last() == '.' || text.last() == '?' || text.last() == '!')
}

/// Display-duration multiplier in tenths. The pause signals use max-wins
/// semantics (not cumulative); since the candidate multipliers are totally
/// ordered (4.0 > 3.0 > 2.0 > 1.3 > 1.0), taking the strongest applicable
/// signal first is exactly the maximum over all applicable signals.
pub open spec fn multiplier_tenths(w: WordView) -> int {
    if w.is_paragraph_end {
        40
    } else if ends_sentence(w.text) {
        30
    } else if ends_clause(w.text) {
        20
    } else if w.text.len() > 10 {
        13
    } else {
        10
    }
}

/// Milliseconds a word stays on screen: `floor(base * multiplier)` where
/// `base = 60000 / wpm`, computed exactly in integers.
pub open spec fn display_duration_of(w: WordView, wpm: u32) -> int {
    60000 * multiplier_tenths(w) / (10 * wpm as int)
}

impl Word {
    pub fn new(text: &str) -> (w: Word)
        ensures
            w@.text == text@,
            !w@.is_paragraph_end,
    {
        Word { text: text.to_owned(), is_paragraph_end: false }
    }

    /// Returns the character index the eye should fixate on (slightly
    /// left of center); longer words need the fixation point further in.
    pub fn orp_index(&self) -> (i: usize)
        ensures
            i == orp_index_of(self@.text.len()),
    {
        let n = self.text.as_str().unicode_len();
        if n <= 1 {
            0
        } else if n <= 5 {
            1
        } else if n <= 9 {
            2
        } else if n <= 13 {
            3
        } else {
            4
        }
    }

    /// How long this word stays on screen at the given words-per-minute rate.
    /// The strongest applicable pause signal wins, so a long word that ends a
    /// sentence gets the sentence-end pause, not a compounded one.
    pub fn display_duration_ms(&self, wpm: u32) -> (d: u64)
        requires
            1 <= wpm,
        ensures
            d == display_duration_of(self@, wpm),
    {
        let s = self.text.as_str();
        let n = s.unicode_len();
        let tenths: u64 = if self.is_paragraph_end {
            40
        } else {
            let last = if n > 0 {
                s.get_char(n - 1)
            } else {
                '\0'
            };
            if last == '.' || last == '?' || last == '!' {
                30
            } else if last == ',' || last == ';' {
                20
            } else if n > 10 {
                13
            } else {
                10
            }
        };
        60000u64 * tenths / (10u64 * wpm as u64)
    }
}

/// Eye-fixation character offset of a bare word text, by the same
/// character-count buckets as `Word::orp_index`.
pub fn calculate_orp_index(word: &str) -> (i: usize)
    ensures
        i == orp_index_of(word@.len()),
{
    let n = word.unicode_len();
    if n <= 1 {
        0
    } else if n <= 5 {
        1
    } else if n <= 9 {
        2
    } else if n <= 13 {
        3
    } else {
        4
    }
}

/// Splits a word around its fixation point: the characters before the
/// fixation character, the fixation character itself, and the rest. An
/// empty word splits into three empty parts.
pub fn orp_split(text: &str) -> (r: (String, String, String))
    ensures
        text@.len() == 0 ==> r.0@.len() == 0 && r.1@.len() == 0 && r.2@.len() == 0,
        text@.len() > 0 ==> ({
            let orp = orp_index_of(text@.len()) as int;
            &&& r.0@ == text@.subrange(0, orp)
            &&& r.1@ == text@.subrange(orp, orp + 1)
            &&& r.2@ == text@.subrange(orp + 1, text@.len() as int)
        }),
{
    let n = text.unicode_len();
    if n == 0 {
        (String::new(), String::new(), String::new())
    } else {
        let orp = calculate_orp_index(text);
        proof {
            lemma_orp_index_in_range(text@);
        }
        (
            text.substring_char(0, orp).to_owned(),
            text.substring_char(orp, orp + 1).to_owned(),
            text.substring_char(orp + 1, n).to_owned(),
        )
    }
}

/// The fixation index never points past the last character; on an empty word
/// it is zero.
pub proof fn lemma_orp_index_in_range(text: Seq<char>)
    ensures
        text.len() == 0 ==> orp_index_of(text.len()) == 0,
        text.len() > 0 ==> orp_index_of(text.len()) < text.len(),
{
}

/// Whitespace that separates tokens within a line. Newlines are handled
/// separately because they also delimit lines for paragraph detection.
pub open spec fn is_line_space(c: char) -> bool {
    c == ' ' || c == '\t' || c == '\r'
}

/// State of the segmentation pass: the words committed so far, the characters
/// of the token currently being read, and whether the current line has
/// produced a token yet.
pub ghost struct SegState {
    pub words: Seq<WordView>,
    pub token: Seq<char>,
    pub line_has_token: bool,
}

pub open spec fn seg_init() -> SegState {
    SegState { words: Seq::empty(), token: Seq::empty(), line_has_token: false }
}

/// Sets the paragraph flag on the last committed word, if any. Marking twice
/// (consecutive blank lines) has no further effect.
pub open spec fn mark_last(words: Seq<WordView>) -> Seq<WordView> {
    if words.len() == 0 {
        words
    } else {
        words.update(
            words.len() - 1,
            WordView { text: words.last().text, is_paragraph_end: true },
        )
    }
}

/// Commits the pending token (if non-empty) as a word.
pub open spec fn flush_token(st: SegState) -> SegState {
    if st.token.len() > 0 {
        SegState {
            words: st.words.push(WordView { text: st.token, is_paragraph_end: false }),
            token: Seq::empty(),
            line_has_token: true,
        }
    } else {
        st
    }
}

/// One character of the segmentation pass. A newline ends the line: if the
/// line held no token at all (a blank line), the last committed word is
/// marked as a paragraph end. Other whitespace just ends the pending token.
pub open spec fn seg_step(st: SegState, c: char) -> SegState {
    if c == '\n' {
        let f = flush_token(st);
        SegState {
            words: if f.line_has_token {
                f.words
            } else {
                mark_last(f.words)
            },
            token: Seq::empty(),
            line_has_token: false,
        }
    } else if is_line_space(c) {
        flush_token(st)
    } else {
        SegState { words: st.words, token: st.token.push(c), line_has_token: st.line_has_token }
    }
}

pub open spec fn seg_fold(s: Seq<char>) -> SegState
    decreases s.len(),
{
    if s.len() == 0 {
        seg_init()
    } else {
        seg_step(seg_fold(s.drop_last()), s.last())
    }
}

/// The word sequence produced by segmenting `s`: run the per-character pass,
/// then commit a token left pending at the end of input. End of input is not
/// a blank line, so no paragraph mark is added there.
pub open spec fn segment(s: Seq<char>) -> Seq<WordView> {
    flush_token(seg_fold(s)).words
}

/// Splits plain text into words. Runs of whitespace separate tokens; a blank
/// line (one with no tokens) marks the most recent word as a paragraph end,
/// so leading and trailing blank lines produce no units of their own.
pub fn words_from_text(text: &str) -> (words: Vec<Word>)
    ensures
        words.deep_view() == segment(text@),
{
    let n = text.unicode_len();
    let mut words: Vec<Word> = Vec::new();
    let mut token_start: usize = 0;
    let mut line_has_token: bool = false;
    let mut i: usize = 0;
    proof {
        assert(text@.subrange(0, 0) =~= Seq::<char>::empty());
        assert(words.deep_view() =~= Seq::<WordView>::empty());
        assert(text@.subrange(0, 0) =~= seg_fold(text@.subrange(0, 0)).token);
    }
    while i < n
        invariant
            n == text@.len(),
            i <= n,
            token_start <= i,
            seg_fold(text@.subrange(0, i as int)) == (SegState {
                words: words.deep_view(),
                token: text@.subrange(token_start as int, i as int),
                line_has_token: line_has_token,
            }),
        decreases n - i,
    {
        let ghost prefix = text@.subrange(0, i as int);
        let ghost st = seg_fold(prefix);
        let c = text.get_char(i);
        proof {
            assert(text@.subrange(0, i + 1).drop_last() =~= prefix);
            assert(text@.subrange(0, i + 1).last() == c);
            assert(seg_fold(text@.subrange(0, i + 1)) == seg_step(st, c));
        }
        if c == '\n' {
            if i > token_start {
                let token = text.substring_char(token_start, i).to_owned();
                words.push(Word { text: token, is_paragraph_end: false });
                proof {
                    assert(words.deep_view() =~= seg_step(st, c).words);
                }
            } else if !line_has_token {
                proof {
                    assert(st.token =~= Seq::<char>::empty());
                }
                if words.len() > 0 {
                    let mut last = words.pop().unwrap();
                    last.is_paragraph_end = true;
                    words.push(last);
                    proof {
                        assert(words.deep_view() =~= mark_last(st.words));
                    }
                }
            } else {
                proof {
                    assert(st.token =~= Seq::<char>::empty());
                }
            }
            line_has_token = false;
            token_start = i + 1;
            proof {
                assert(text@.subrange(token_start as int, i + 1) =~= Seq::<char>::empty());
            }
        } else if c == ' ' || c == '\t' || c == '\r' {
            if i > token_start {
                let token = text.substring_char(token_start, i).to_owned();
                words.push(Word { text: token, is_paragraph_end: false });
                line_has_token = true;
                proof {
                    assert(words.deep_view() =~= seg_step(st, c).words);
                }
            } else {
                proof {
                    assert(st.token =~= Seq::<char>::empty());
                }
            }
            token_start = i + 1;
            proof {
                assert(text@.subrange(token_start as int, i + 1) =~= Seq::<char>::empty());
            }
        } else {
            proof {
                assert(text@.subrange(token_start as int, i + 1) =~= st.token.push(c));
            }
        }
        i = i + 1;
    }
    proof {
        assert(text@.subrange(0, n as int) =~= text@);
    }
    if n > token_start {
        let token = text.substring_char(token_start, n).to_owned();
        words.push(Word { text: token, is_paragraph_end: false });
        proof {
            assert(words.deep_view() =~= flush_token(seg_fold(text@)).words);
        }
    } else {
        proof {
            assert(seg_fold(text@).token =~= Seq::<char>::empty());
            assert(words.deep_view() =~= flush_token(seg_fold(text@)).words);
        }
    }
    words
}

proof fn lemma_seg_fold_words_nonempty(s: Seq<char>)
    ensures
        forall|i: int|
            0 <= i < seg_fold(s).words.len() ==> (#[trigger] seg_fold(s).words[i]).text.len() > 0,
    decreases s.len(),
{
    if s.len() > 0 {
        lemma_seg_fold_words_nonempty(s.drop_last());
        let st = seg_fold(s.drop_last());
        let next = seg_step(st, s.last());
        assert forall|i: int| 0 <= i < next.words.len() implies (#[trigger] next.words[i]).text.len()
            > 0 by {
            if i < st.words.len() {
                assert(st.words[i].text.len() > 0);
            }
        }
    }
}

/// Segmentation never yields an empty display unit: blank lines and runs of
/// whitespace are absorbed, never emitted as words.
pub proof fn lemma_segment_no_empty_units(s: Seq<char>)
    ensures
        forall|i: int|
            0 <= i < segment(s).len() ==> (#[trigger] segment(s)[i]).text.len() > 0,
{
    lemma_seg_fold_words_nonempty(s);
}

} // verus!
