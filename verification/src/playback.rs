//! Per-tab playback state machine and fixation timer.
//!
//! `PlaybackEngine` holds the reading state (`Idle`/`Playing`/`Paused`) and a
//! one-shot countdown timer for the word currently on screen. Commands toggle
//! or stop playback and scrub the content cursor; `tick` consumes elapsed time
//! and advances the cursor at most once per call, so words are never skipped
//! or double-advanced by a single tick.

use vstd::prelude::*;

use crate::content::{clamped_index, Content};
use crate::text::display_duration_of;

verus! {

pub const WPM_MIN: u32 = 100;

pub const WPM_MAX: u32 = 1000;

pub const WPM_STEP: u32 = 50;

pub const WPM_DEFAULT: u32 = 300;

pub const WORD_SKIP_AMOUNT: usize = 5;

#[derive(PartialEq, Eq, Structural, Clone, Copy, Debug)]
pub enum ReadingState {
    Idle,
    Playing,
    Paused,
}

/// Playback actions dispatched from keyboard input and interface controls.
#[derive(PartialEq, Eq, Structural, Clone, Copy, Debug)]
pub enum PlaybackCommand {
    TogglePlayPause,
    Stop,
    Restart,
    SkipForward(usize),
    SkipBackward(usize),
    Seek(usize),
    AdjustWpm(i32),
}

/// Display duration of the word under the cursor; zero on empty content.
pub open spec fn current_duration_of(c: Content, wpm: u32) -> int {
    if c.words@.len() == 0 {
        0
    } else {
        display_duration_of(c.words@[c.current_index as int]@, wpm)
    }
}

/// The words-per-minute rate after applying `delta`, clamped into
/// `[WPM_MIN, WPM_MAX]`.
pub open spec fn adjusted_wpm(wpm: u32, delta: i32) -> int {
    let raw = wpm + delta;
    if raw < WPM_MIN as int {
        WPM_MIN as int
    } else if raw > WPM_MAX as int {
        WPM_MAX as int
    } else {
        raw
    }
}

/// Clamps `wpm + delta` into the supported words-per-minute range.
pub fn clamp_wpm(wpm: u32, delta: i32) -> (r: u32)
    ensures
        r == adjusted_wpm(wpm, delta),
        WPM_MIN <= r <= WPM_MAX,
{
    let raw: i64 = wpm as i64 + delta as i64;
    if raw < WPM_MIN as i64 {
        WPM_MIN
    } else if raw > WPM_MAX as i64 {
        WPM_MAX
    } else {
        raw as u32
    }
}

pub struct PlaybackEngine {
    pub state: ReadingState,
    /// Remaining display time of the current word, in milliseconds. The timer
    /// is logical: it only moves when `tick` hands in elapsed time.
    pub timer_ms: u64,
}

impl PlaybackEngine {
    pub fn new() -> (e: PlaybackEngine)
        ensures
            e.state == ReadingState::Idle,
            e.timer_ms == 0,
    {
        PlaybackEngine { state: ReadingState::Idle, timer_ms: 0 }
    }

    /// Display duration of the word under the cursor at the given rate.
    fn current_duration(content: &Content, wpm: u32) -> (d: u64)
        requires
            content.wf(),
            1 <= wpm,
        ensures
            d == current_duration_of(*content, wpm),
    {
        if content.words.len() == 0 {
            0
        } else {
            content.words[content.current_index].display_duration_ms(wpm)
        }
    }

    /// `Playing` pauses; `Idle` or `Paused` starts playing only if the
    /// content has words, scheduling the timer for the current word.
    /// On a tab with zero words this never transitions to `Playing`: it
    /// changes nothing at all.
    pub fn toggle_play_pause(&mut self, content: &Content, wpm: u32)
        requires
            content.wf(),
            1 <= wpm,
        ensures
            old(self).state == ReadingState::Playing ==> final(self).state == ReadingState::Paused
                && final(self).timer_ms == old(self).timer_ms,
            old(self).state != ReadingState::Playing && content.words@.len() > 0
                ==> final(self).state == ReadingState::Playing
                && final(self).timer_ms == current_duration_of(*content, wpm),
            old(self).state != ReadingState::Playing && content.words@.len() == 0
                ==> *final(self) == *old(self),
    {
        if self.state == ReadingState::Playing {
            self.state = ReadingState::Paused;
        } else if content.has_words() {
            self.state = ReadingState::Playing;
            self.timer_ms = Self::current_duration(content, wpm);
        }
    }

    /// Stops playback from any state.
    pub fn stop(&mut self)
        ensures
            final(self).state == ReadingState::Idle,
            final(self).timer_ms == 0,
    {
        self.state = ReadingState::Idle;
        self.timer_ms = 0;
    }

    /// Re-arms the timer for the word currently under the cursor without
    /// touching the playback state; used when a tab becomes active.
    pub fn sync_to_current(&mut self, content: &Content, wpm: u32)
        requires
            content.wf(),
            1 <= wpm,
        ensures
            final(self).state == old(self).state,
            final(self).timer_ms == current_duration_of(*content, wpm),
    {
        self.timer_ms = Self::current_duration(content, wpm);
    }

    /// Consumes `elapsed_ms` of logical time. Outside `Playing` this is a
    /// no-op. While the timer still has time left it just counts down. When
    /// the timer expires, the cursor advances exactly once and the timer is
    /// re-armed for the new word at the tab's current rate (so live rate
    /// changes take effect on the next word); at the end of the content,
    /// playback returns to `Idle`.
    pub fn tick(&mut self, content: &mut Content, wpm: u32, elapsed_ms: u64)
        requires
            old(content).wf(),
            1 <= wpm,
        ensures
            final(content).wf(),
            final(content).words == old(content).words,
            final(content).content_cache_id == old(content).content_cache_id,
            old(self).state != ReadingState::Playing
                ==> *final(self) == *old(self) && *final(content) == *old(content),
            old(self).state == ReadingState::Playing && elapsed_ms < old(self).timer_ms
                ==> final(self).state == ReadingState::Playing
                && final(self).timer_ms == old(self).timer_ms - elapsed_ms
                && *final(content) == *old(content),
            old(self).state == ReadingState::Playing && elapsed_ms >= old(self).timer_ms
                && !old(content).at_end()
                ==> final(content).current_index == old(content).current_index + 1
                && final(self).state == ReadingState::Playing
                && final(self).timer_ms == current_duration_of(*final(content), wpm),
            old(self).state == ReadingState::Playing && elapsed_ms >= old(self).timer_ms
                && old(content).at_end()
                ==> *final(content) == *old(content)
                && final(self).state == ReadingState::Idle && final(self).timer_ms == 0,
    {
        if self.state != ReadingState::Playing {
            return ;
        }
        if elapsed_ms < self.timer_ms {
            self.timer_ms = self.timer_ms - elapsed_ms;
            return ;
        }
        if content.advance() {
            self.timer_ms = Self::current_duration(content, wpm);
        } else {
            self.state = ReadingState::Idle;
            self.timer_ms = 0;
        }
    }

    /// Moves the cursor back to the first word and re-arms the timer,
    /// whatever the playback state, so scrubbing while paused stays
    /// consistent once play resumes.
    pub fn restart(&mut self, content: &mut Content, wpm: u32)
        requires
            old(content).wf(),
            1 <= wpm,
        ensures
            final(content).wf(),
            final(content).words == old(content).words,
            final(content).content_cache_id == old(content).content_cache_id,
            final(content).current_index == 0,
            final(self).state == old(self).state,
            final(self).timer_ms == current_duration_of(*final(content), wpm),
    {
        content.restart();
        self.timer_ms = Self::current_duration(content, wpm);
    }

    /// Skips forward, saturating at the last word, and re-arms the timer.
    pub fn skip_forward(&mut self, content: &mut Content, wpm: u32, amount: usize)
        requires
            old(content).wf(),
            1 <= wpm,
        ensures
            final(content).wf(),
            final(content).words == old(content).words,
            final(content).content_cache_id == old(content).content_cache_id,
            final(content).current_index == clamped_index(
                old(content).current_index + amount,
                old(content).words@.len() as int,
            ),
            final(self).state == old(self).state,
            final(self).timer_ms == current_duration_of(*final(content), wpm),
    {
        content.skip_forward(amount);
        self.timer_ms = Self::current_duration(content, wpm);
    }

    /// Skips backward, saturating at the first word, and re-arms the timer.
    pub fn skip_backward(&mut self, content: &mut Content, wpm: u32, amount: usize)
        requires
            old(content).wf(),
            1 <= wpm,
        ensures
            final(content).wf(),
            final(content).words == old(content).words,
            final(content).content_cache_id == old(content).content_cache_id,
            final(content).current_index == if amount <= old(content).current_index {
                old(content).current_index - amount
            } else {
                0
            },
            final(self).state == old(self).state,
            final(self).timer_ms == current_duration_of(*final(content), wpm),
    {
        content.skip_backward(amount);
        self.timer_ms = Self::current_duration(content, wpm);
    }

    /// Seeks to an absolute position, clamped into range, and re-arms the
    /// timer.
    pub fn seek(&mut self, content: &mut Content, wpm: u32, index: usize)
        requires
            old(content).wf(),
            1 <= wpm,
        ensures
            final(content).wf(),
            final(content).words == old(content).words,
            final(content).content_cache_id == old(content).content_cache_id,
            final(content).current_index == clamped_index(
                index as int,
                old(content).words@.len() as int,
            ),
            final(self).state == old(self).state,
            final(self).timer_ms == current_duration_of(*final(content), wpm),
    {
        content.seek(index);
        self.timer_ms = Self::current_duration(content, wpm);
    }

    /// Routes one playback command to the engine, the content cursor and the
    /// tab's words-per-minute rate. `AdjustWpm` touches only the rate; the
    /// navigation commands mutate the cursor and re-arm the timer whatever
    /// the playback state.
    pub fn apply_command(&mut self, content: &mut Content, wpm: &mut u32, cmd: PlaybackCommand)
        requires
            old(content).wf(),
            WPM_MIN <= *old(wpm) <= WPM_MAX,
        ensures
            final(content).wf(),
            WPM_MIN <= *final(wpm) <= WPM_MAX,
            final(content).words == old(content).words,
            final(content).content_cache_id == old(content).content_cache_id,
            cmd matches PlaybackCommand::AdjustWpm(delta)
                ==> *final(wpm) == adjusted_wpm(*old(wpm), delta)
                && *final(content) == *old(content) && *final(self) == *old(self),
            !(cmd matches PlaybackCommand::AdjustWpm(_)) ==> *final(wpm) == *old(wpm),
            cmd matches PlaybackCommand::TogglePlayPause ==> *final(content) == *old(content) && ({
                &&& old(self).state == ReadingState::Playing
                    ==> final(self).state == ReadingState::Paused
                    && final(self).timer_ms == old(self).timer_ms
                &&& old(self).state != ReadingState::Playing && old(content).words@.len() > 0
                    ==> final(self).state == ReadingState::Playing
                    && final(self).timer_ms == current_duration_of(*old(content), *old(wpm))
                &&& old(self).state != ReadingState::Playing && old(content).words@.len() == 0
                    ==> *final(self) == *old(self)
            }),
            cmd matches PlaybackCommand::Stop ==> *final(content) == *old(content)
                && final(self).state == ReadingState::Idle && final(self).timer_ms == 0,
            cmd matches PlaybackCommand::Restart ==> final(content).current_index == 0
                && final(self).state == old(self).state
                && final(self).timer_ms == current_duration_of(*final(content), *old(wpm)),
            cmd matches PlaybackCommand::SkipForward(n) ==> final(content).current_index
                == clamped_index(
                old(content).current_index + n,
                old(content).words@.len() as int,
            ) && final(self).state == old(self).state
                && final(self).timer_ms == current_duration_of(*final(content), *old(wpm)),
            cmd matches PlaybackCommand::SkipBackward(n) ==> final(content).current_index == (
            if n <= old(content).current_index {
                old(content).current_index - n
            } else {
                0
            }) && final(self).state == old(self).state
                && final(self).timer_ms == current_duration_of(*final(content), *old(wpm)),
            cmd matches PlaybackCommand::Seek(i) ==> final(content).current_index == clamped_index(
                i as int,
                old(content).words@.len() as int,
            ) && final(self).state == old(self).state
                && final(self).timer_ms == current_duration_of(*final(content), *old(wpm)),
    {
        match cmd {
            PlaybackCommand::TogglePlayPause => self.toggle_play_pause(content, *wpm),
            PlaybackCommand::Stop => self.stop(),
            PlaybackCommand::Restart => self.restart(content, *wpm),
            PlaybackCommand::SkipForward(n) => self.skip_forward(content, *wpm, n),
            PlaybackCommand::SkipBackward(n) => self.skip_backward(content, *wpm, n),
            PlaybackCommand::Seek(i) => self.seek(content, *wpm, i),
            PlaybackCommand::AdjustWpm(delta) => {
                *wpm = clamp_wpm(*wpm, delta);
            },
        }
    }
}

} // verus!
