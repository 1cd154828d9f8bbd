//! Document parsers and the extension registry that selects them.
//!
//! `FileParsers` maps a file extension (case-insensitively) to a parser.
//! `TxtParser` decodes bytes as text and segments them; `EpubParser` walks an
//! EPUB archive through the `rbook` crate, extracts the readable text of each
//! chapter, and segments the result.

use vstd::prelude::*;
use vstd::string::StringExecFns;

use crate::text::{segment, words_from_text, Word};
use crate::xhtml::{extract_of, extract_text_from_xhtml, xml_events_of};

verus! {

/// Chapter or section bookmark for navigation.
pub struct Section {
    pub title: String,
    pub start_index: usize,
}

/// Output of a parser: the word sequence and optional section bookmarks.
pub struct ParseResult {
    pub words: Vec<Word>,
    pub sections: Vec<Section>,
}

impl ParseResult {
    pub fn words_only(words: Vec<Word>) -> (r: ParseResult)
        ensures
            r.words == words,
            r.sections@.len() == 0,
    {
        ParseResult { words, sections: Vec::new() }
    }
}

/// The characters that lossy UTF-8 decoding yields for a byte sequence; a
/// function of the bytes alone.
pub uninterp spec fn lossy_utf8_of(bytes: Seq<u8>) -> Seq<char>;

/// Relies on String::from_utf8_lossy: the decoded text is a function of the
/// bytes alone, and bytes in the ASCII range decode to their own characters.
#[verifier::external_body]
fn decode_utf8_lossy(data: &[u8]) -> (s: String)
    ensures
        s@ == lossy_utf8_of(data@),
        s@ == if (forall|i: int| 0 <= i < data@.len() ==> data@[i] < 128) {
            Seq::new(data@.len(), |i: int| data@[i] as char)
        } else {
            lossy_utf8_of(data@)
        },
{
    String::from_utf8_lossy(data).into_owned()
}

/// The chapter markup that walking an EPUB archive's spine yields, in
/// reading order, or nothing when the archive cannot be opened; a function
/// of the bytes alone. A chapter that fails to load is left out.
pub uninterp spec fn epub_chapters_of(data: Seq<u8>) -> Option<Seq<Seq<char>>>;

/// Relies on rbook (`Epub::read`, `EpubReader::read_next`): opening an EPUB
/// held in memory and reading its spine entries is a function of the bytes
/// alone.
#[verifier::external_body]
fn epub_chapter_texts(data: &[u8]) -> (r: Result<Vec<String>, String>)
    ensures
        (r is Ok) <==> (epub_chapters_of(data@) is Some),
        r matches Ok(v) ==> v.deep_view() == epub_chapters_of(data@).unwrap(),
{
    let cursor = std::io::Cursor::new(data.to_vec());
    let epub = rbook::Epub::read(cursor).map_err(|e| format!("Failed to open EPUB: {}", e))?;
    let mut chapters = Vec::new();
    let mut reader = epub.reader();
    while let Some(result) = reader.read_next() {
        if let Ok(content) = result {
            chapters.push(content.content().to_owned());
        }
    }
    Ok(chapters)
}

/// Splits plain text into words with paragraph detection.
pub struct TxtParser;

impl TxtParser {
    /// Decodes the bytes as text and segments them; plain text always
    /// parses.
    pub fn parse(&self, data: &[u8]) -> (r: Result<ParseResult, String>)
        ensures
            r matches Ok(p) && p.words.deep_view() == segment(lossy_utf8_of(data@))
                && p.sections@.len() == 0,
    {
        let content = decode_utf8_lossy(data);
        Ok(ParseResult::words_only(words_from_text(content.as_str())))
    }
}

/// True when every character is whitespace (or the text is empty).
pub open spec fn is_blank_text(t: Seq<char>) -> bool {
    forall|i: int|
        0 <= i < t.len() ==> (crate::text::is_line_space(#[trigger] t[i]) || t[i] == '\n')
}

fn is_blank(s: &str) -> (r: bool)
    ensures
        r == is_blank_text(s@),
{
    let n = s.unicode_len();
    let mut i: usize = 0;
    while i < n
        invariant
            i <= n,
            n == s@.len(),
            forall|j: int|
                0 <= j < i ==> (crate::text::is_line_space(#[trigger] s@[j]) || s@[j] == '\n'),
        decreases n - i,
    {
        let c = s.get_char(i);
        if !(c == ' ' || c == '\t' || c == '\r' || c == '\n') {
            return false;
        }
        i = i + 1;
    }
    true
}

/// The text of an EPUB as one document: the extracted text of each chapter
/// that is not blank, each followed by a blank line, in reading order.
pub open spec fn epub_full_text(chapters: Seq<Seq<char>>) -> Seq<char>
    decreases chapters.len(),
{
    if chapters.len() == 0 {
        Seq::empty()
    } else {
        let rest = epub_full_text(chapters.drop_last());
        let t = extract_of(xml_events_of(chapters.last()));
        if is_blank_text(t) {
            rest
        } else {
            rest + t + "\n\n"@
        }
    }
}

/// The words an EPUB parses to, or nothing when the archive cannot be
/// opened or holds no readable text.
pub open spec fn epub_words_of(data: Seq<u8>) -> Option<Seq<crate::text::WordView>> {
    match epub_chapters_of(data) {
        Some(chapters) => {
            let words = segment(epub_full_text(chapters));
            if words.len() == 0 {
                None
            } else {
                Some(words)
            }
        },
        None => None,
    }
}

/// Extracts the readable text of each chapter of an EPUB and segments it.
pub struct EpubParser;

impl EpubParser {
    /// Parses an EPUB archive. Fails exactly when the archive cannot be
    /// opened or no readable text is found in it.
    pub fn parse(&self, data: &[u8]) -> (r: Result<ParseResult, String>)
        ensures
            epub_words_of(data@) matches Some(words) ==> (r matches Ok(p) && p.words.deep_view()
                == words && p.sections@.len() == 0),
            epub_words_of(data@) is None ==> r is Err,
    {
        let chapters = match epub_chapter_texts(data) {
            Ok(c) => c,
            Err(e) => {
                return Err(e);
            },
        };
        let n = chapters.len();
        let mut full_text = String::new();
        let mut i: usize = 0;
        proof {
            assert(chapters.deep_view().subrange(0, 0) =~= Seq::<Seq<char>>::empty());
        }
        while i < n
            invariant
                i <= n,
                n == chapters@.len(),
                chapters.deep_view().len() == n,
                full_text@ == epub_full_text(chapters.deep_view().subrange(0, i as int)),
            decreases n - i,
        {
            let ghost chs = chapters.deep_view();
            proof {
                assert(chs.subrange(0, i + 1).drop_last() =~= chs.subrange(0, i as int));
                assert(chs.subrange(0, i + 1).last() == chs[i as int]);
                assert(chs[i as int] == chapters@[i as int]@);
            }
            let chapter_text = extract_text_from_xhtml(chapters[i].as_str());
            if !is_blank(chapter_text.as_str()) {
                full_text.append(chapter_text.as_str());
                full_text.append("\n\n");
            }
            i = i + 1;
        }
        proof {
            assert(chapters.deep_view().subrange(0, n as int) =~= chapters.deep_view());
        }
        let words = words_from_text(full_text.as_str());
        if words.len() == 0 {
            proof {
                assert(words.deep_view() =~= Seq::<crate::text::WordView>::empty());
            }
            return Err(String::from_str("No readable text found in EPUB"));
        }
        Ok(ParseResult::words_only(words))
    }
}

/// The parsers the registry knows, selected by file extension.
#[derive(PartialEq, Eq, Structural, Clone, Copy, Debug)]
pub enum ParserKind {
    Txt,
    Epub,
}

impl ParserKind {
    /// Parses the raw bytes of a document with this parser.
    pub fn parse(&self, data: &[u8]) -> (r: Result<ParseResult, String>)
        ensures
            *self == ParserKind::Txt ==> (r matches Ok(p) && p.words.deep_view() == segment(
                lossy_utf8_of(data@),
            ) && p.sections@.len() == 0),
            (*self == ParserKind::Epub && epub_words_of(data@) is Some) ==> (r matches Ok(p)
                && p.words.deep_view() == epub_words_of(data@).unwrap() && p.sections@.len() == 0),
            (*self == ParserKind::Epub && epub_words_of(data@) is None) ==> r is Err,
    {
        match self {
            ParserKind::Txt => TxtParser.parse(data),
            ParserKind::Epub => EpubParser.parse(data),
        }
    }
}

/// The lowercase code of an ASCII character, used for case-insensitive
/// extension comparison; other characters map to their own code.
pub open spec fn lower_code_of(c: char) -> int {
    if 65 <= c as int <= 90 {
        c as int + 32
    } else {
        c as int
    }
}

/// True when the two character sequences are equal ignoring ASCII case.
pub open spec fn eq_ignore_ascii_case(a: Seq<char>, b: Seq<char>) -> bool {
    a.len() == b.len() && forall|i: int|
        0 <= i < a.len() ==> lower_code_of(#[trigger] a[i]) == lower_code_of(b[i])
}

fn char_lower_code(c: char) -> (r: u32)
    ensures
        r == lower_code_of(c),
{
    let v = c as u32;
    if 65 <= v && v <= 90 {
        v + 32
    } else {
        v
    }
}

fn str_eq_ignore_case(a: &str, b: &str) -> (r: bool)
    ensures
        r == eq_ignore_ascii_case(a@, b@),
{
    let n = a.unicode_len();
    if n != b.unicode_len() {
        return false;
    }
    let mut i: usize = 0;
    while i < n
        invariant
            i <= n,
            n == a@.len(),
            n == b@.len(),
            forall|j: int| 0 <= j < i ==> lower_code_of(#[trigger] a@[j]) == lower_code_of(b@[j]),
        decreases n - i,
    {
        if char_lower_code(a.get_char(i)) != char_lower_code(b.get_char(i)) {
            return false;
        }
        i = i + 1;
    }
    true
}

/// The parser registered for an extension, compared ignoring ASCII case.
pub open spec fn parser_for_extension(ext: Seq<char>) -> Option<ParserKind> {
    if eq_ignore_ascii_case(ext, "txt"@) {
        Some(ParserKind::Txt)
    } else if eq_ignore_ascii_case(ext, "epub"@) {
        Some(ParserKind::Epub)
    } else {
        None
    }
}

/// Position of the last occurrence of `c`, or -1 when there is none.
pub open spec fn last_index_of(s: Seq<char>, c: char) -> int
    decreases s.len(),
{
    if s.len() == 0 {
        -1
    } else if s.last() == c {
        s.len() - 1
    } else {
        last_index_of(s.drop_last(), c)
    }
}

/// The parser for a path, selected by the extension after the last `.`.
pub open spec fn parser_for_path(path: Seq<char>) -> Option<ParserKind> {
    if last_index_of(path, '.') >= 0 {
        parser_for_extension(path.subrange(last_index_of(path, '.') + 1, path.len() as int))
    } else {
        None
    }
}

proof fn lemma_last_index_none(s: Seq<char>, c: char)
    requires
        forall|j: int| 0 <= j < s.len() ==> s[j] != c,
    ensures
        last_index_of(s, c) == -1,
    decreases s.len(),
{
    if s.len() > 0 {
        lemma_last_index_none(s.drop_last(), c);
    }
}

proof fn lemma_last_index_at(s: Seq<char>, c: char, i: int)
    requires
        0 <= i < s.len(),
        s[i] == c,
        forall|j: int| i < j < s.len() ==> s[j] != c,
    ensures
        last_index_of(s, c) == i,
    decreases s.len(),
{
    if i < s.len() - 1 {
        lemma_last_index_at(s.drop_last(), c, i);
    }
}

/// Position of the last occurrence of `c` in `s`, scanning from the end.
fn rfind_char(s: &str, c: char) -> (r: Option<usize>)
    ensures
        (r is Some) <==> last_index_of(s@, c) >= 0,
        r matches Some(i) ==> i == last_index_of(s@, c) && i < s@.len(),
{
    let n = s.unicode_len();
    let mut i: usize = n;
    while i > 0
        invariant
            i <= n,
            n == s@.len(),
            forall|j: int| i <= j < n ==> s@[j] != c,
        decreases i,
    {
        if s.get_char(i - 1) == c {
            proof {
                lemma_last_index_at(s@, c, i - 1);
            }
            return Some(i - 1);
        }
        i = i - 1;
    }
    proof {
        lemma_last_index_none(s@, c);
    }
    None
}

/// The display name a document path yields: the part after the last `/`,
/// with the extension dropped unless the dot is its first character.
pub open spec fn file_stem_of(path: Seq<char>) -> Seq<char> {
    let base = if last_index_of(path, '/') >= 0 {
        path.subrange(last_index_of(path, '/') + 1, path.len() as int)
    } else {
        path
    };
    if last_index_of(base, '.') > 0 {
        base.subrange(0, last_index_of(base, '.'))
    } else {
        base
    }
}

/// Derives a tab name from a document path.
pub fn file_stem(path: &str) -> (r: String)
    ensures
        r@ == file_stem_of(path@),
{
    let n = path.unicode_len();
    let start = match rfind_char(path, '/') {
        Some(p) => p + 1,
        None => 0,
    };
    let base = path.substring_char(start, n);
    proof {
        assert(base@ =~= (if last_index_of(path@, '/') >= 0 {
            path@.subrange(last_index_of(path@, '/') + 1, path@.len() as int)
        } else {
            path@
        }));
    }
    match rfind_char(base, '.') {
        Some(p) => {
            if p > 0 {
                base.substring_char(0, p).to_owned()
            } else {
                base.to_owned()
            }
        },
        None => base.to_owned(),
    }
}

/// Maps file extensions to their parsers.
pub struct FileParsers;

impl FileParsers {
    pub fn new() -> (r: FileParsers) {
        FileParsers
    }

    /// The parser registered for an extension; the lookup ignores ASCII
    /// case.
    pub fn get_for_extension(&self, ext: &str) -> (r: Option<ParserKind>)
        ensures
            r == parser_for_extension(ext@),
    {
        if str_eq_ignore_case(ext, "txt") {
            Some(ParserKind::Txt)
        } else if str_eq_ignore_case(ext, "epub") {
            Some(ParserKind::Epub)
        } else {
            None
        }
    }

    /// The parser for a path, selected by the extension after the last `.`.
    pub fn get_for_path(&self, path: &str) -> (r: Option<ParserKind>)
        ensures
            r == parser_for_path(path@),
    {
        let n = path.unicode_len();
        match rfind_char(path, '.') {
            Some(p) => self.get_for_extension(path.substring_char(p + 1, n)),
            None => None,
        }
    }

    /// The extensions the registry knows.
    pub fn supported_extensions(&self) -> (r: Vec<String>)
        ensures
            r@.len() == 2,
            r@[0]@ == "txt"@,
            r@[1]@ == "epub"@,
    {
        let mut out: Vec<String> = Vec::new();
        out.push(String::from_str("txt"));
        out.push(String::from_str("epub"));
        out
    }
}

} // verus!
