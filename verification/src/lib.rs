//! Core of a rapid-serial-visual-presentation (RSVP) speed reader.
//!
//! The library turns raw text into a sequence of display units ("words"),
//! computes how long each unit stays on screen for a given words-per-minute
//! rate, drives a per-document playback cursor and state machine, manages an
//! ordered collection of open documents ("tabs"), and models the persistence
//! layer that stores tab metadata and cached word sequences across sessions.

pub mod content;
pub mod parsers;
pub mod persistence;
pub mod playback;
pub mod tabs;
pub mod text;
pub mod xhtml;

pub use content::Content;
pub use parsers::{EpubParser, FileParsers, ParseResult, ParserKind, TxtParser};
pub use persistence::{CacheStore, ProgramState, SavedTab};
pub use playback::{PlaybackCommand, PlaybackEngine, ReadingState};
pub use tabs::{DefaultTabSettings, Tab, TabCreateRequest, TabManager, TabOrder};
pub use text::Word;
