use arre_mind_reader::content::Content;
use arre_mind_reader::playback::{
    clamp_wpm, PlaybackCommand, PlaybackEngine, ReadingState, WPM_MAX, WPM_MIN,
};
use arre_mind_reader::text::Word;

fn content_with(words: Vec<Word>) -> Content {
    Content::new(String::from("test-cache"), words)
}

#[test]
fn toggle_play_pause_does_not_start_when_content_is_empty() {
    let content = content_with(Vec::new());
    let mut engine = PlaybackEngine::new();

    engine.toggle_play_pause(&content, 300);

    assert_eq!(engine.state, ReadingState::Idle);
}

#[test]
fn toggle_play_pause_transitions_between_playing_and_paused() {
    let content = content_with(vec![Word::new("hello")]);
    let mut engine = PlaybackEngine::new();

    engine.toggle_play_pause(&content, 300);
    assert_eq!(engine.state, ReadingState::Playing);

    engine.toggle_play_pause(&content, 300);
    assert_eq!(engine.state, ReadingState::Paused);
}

#[test]
fn adjust_wpm_clamps_to_limits() {
    let mut content = content_with(vec![Word::new("hello")]);
    let mut engine = PlaybackEngine::new();
    let mut wpm: u32 = 300;

    engine.apply_command(&mut content, &mut wpm, PlaybackCommand::AdjustWpm(10_000));
    assert_eq!(wpm, WPM_MAX);

    engine.apply_command(&mut content, &mut wpm, PlaybackCommand::AdjustWpm(-10_000));
    assert_eq!(wpm, WPM_MIN);
}

#[test]
fn entering_playing_schedules_the_current_word() {
    // "hello" at 300 wpm: base 200 ms, no pause signals
    let content = content_with(vec![Word::new("hello"), Word::new("world.")]);
    let mut engine = PlaybackEngine::new();
    engine.toggle_play_pause(&content, 300);
    assert_eq!(engine.timer_ms, 200);
}

#[test]
fn tick_counts_down_and_advances_once() {
    let mut content = content_with(vec![Word::new("one"), Word::new("two"), Word::new("three")]);
    let mut engine = PlaybackEngine::new();
    engine.toggle_play_pause(&content, 300);
    assert_eq!(engine.timer_ms, 200);

    engine.tick(&mut content, 300, 50);
    assert_eq!(engine.timer_ms, 150);
    assert_eq!(content.current_index, 0);

    engine.tick(&mut content, 300, 150);
    assert_eq!(content.current_index, 1);
    assert_eq!(engine.state, ReadingState::Playing);
    assert_eq!(engine.timer_ms, 200);
}

#[test]
fn tick_at_the_end_of_content_stops_playback() {
    let mut content = content_with(vec![Word::new("last")]);
    let mut engine = PlaybackEngine::new();
    engine.toggle_play_pause(&content, 300);

    engine.tick(&mut content, 300, 10_000);
    assert_eq!(engine.state, ReadingState::Idle);
    assert_eq!(engine.timer_ms, 0);
    assert_eq!(content.current_index, 0);
}

#[test]
fn tick_outside_playing_is_a_no_op() {
    let mut content = content_with(vec![Word::new("one"), Word::new("two")]);
    let mut engine = PlaybackEngine::new();
    engine.tick(&mut content, 300, 10_000);
    assert_eq!(engine.state, ReadingState::Idle);
    assert_eq!(content.current_index, 0);
}

#[test]
fn navigation_commands_reset_the_timer_in_any_state() {
    let mut content = content_with(vec![
        Word::new("one"),
        Word::new("two,"),
        Word::new("three"),
    ]);
    let mut engine = PlaybackEngine::new();
    let mut wpm: u32 = 300;

    // paused scrubbing: seek to the comma word (multiplier 2.0 on 200 ms)
    engine.apply_command(&mut content, &mut wpm, PlaybackCommand::Seek(1));
    assert_eq!(content.current_index, 1);
    assert_eq!(engine.timer_ms, 400);
    assert_eq!(engine.state, ReadingState::Idle);

    engine.apply_command(&mut content, &mut wpm, PlaybackCommand::SkipForward(5));
    assert_eq!(content.current_index, 2);
    assert_eq!(engine.timer_ms, 200);

    engine.apply_command(&mut content, &mut wpm, PlaybackCommand::SkipBackward(1));
    assert_eq!(content.current_index, 1);
    assert_eq!(engine.timer_ms, 400);

    engine.apply_command(&mut content, &mut wpm, PlaybackCommand::Restart);
    assert_eq!(content.current_index, 0);
    assert_eq!(engine.timer_ms, 200);
}

#[test]
fn stop_returns_to_idle_from_any_state() {
    let mut content = content_with(vec![Word::new("word")]);
    let mut engine = PlaybackEngine::new();
    let mut wpm: u32 = 300;
    engine.apply_command(&mut content, &mut wpm, PlaybackCommand::TogglePlayPause);
    assert_eq!(engine.state, ReadingState::Playing);
    engine.apply_command(&mut content, &mut wpm, PlaybackCommand::Stop);
    assert_eq!(engine.state, ReadingState::Idle);
    assert_eq!(engine.timer_ms, 0);
}

#[test]
fn clamp_wpm_steps_stay_in_range() {
    assert_eq!(clamp_wpm(300, 50), 350);
    assert_eq!(clamp_wpm(300, -50), 250);
    assert_eq!(clamp_wpm(WPM_MIN, -50), WPM_MIN);
    assert_eq!(clamp_wpm(WPM_MAX, 50), WPM_MAX);
    assert_eq!(clamp_wpm(0, 0), WPM_MIN);
    assert_eq!(clamp_wpm(5000, 0), WPM_MAX);
}
