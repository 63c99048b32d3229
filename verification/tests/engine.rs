use mixer::engine::{jump_song, Command, Engine, Track};
use mixer::mix::GainLevels;

fn track(samples: Vec<i16>) -> Track {
    Track { data: samples }
}

fn gains(mic: u32, line: u32, song: u32) -> GainLevels {
    let mut g = GainLevels::new();
    g.set_mic_volume(mic);
    g.set_line_volume(line);
    g.set_song_volume(song);
    g
}

/// Runs one cycle over constant input buffers and returns the output.
fn cycle(engine: &mut Engine, cmds: Vec<Command>, g: &GainLevels, len: usize) -> Vec<i64> {
    let mic = vec![1i16; len];
    let line = vec![2i16; len];
    let mut out = vec![0i64; len];
    engine.run_cycle(&cmds, g, &mic, &line, &mut out);
    out
}

#[test]
fn new_engine_is_paused_with_nothing_loaded() {
    let engine = Engine::new(vec![track(vec![5; 10])]);
    assert!(engine.get_paused());
    assert_eq!(engine.music_samples(), (0, 0));
}

#[test]
fn load_track_always_resets_playback() {
    let mut engine = Engine::new(vec![track(vec![5; 10]), track(vec![6; 7])]);
    let g = gains(0, 0, 0);

    // Load, play, advance, then load the other track: position resets and
    // playback pauses whatever the state before was.
    cycle(&mut engine, vec![Command::LoadTrack(0), Command::SetPaused(false)], &g, 4);
    assert_eq!(engine.music_samples(), (4, 10));
    assert!(!engine.get_paused());

    cycle(&mut engine, vec![Command::LoadTrack(1)], &g, 0);
    assert_eq!(engine.music_samples(), (0, 7));
    assert!(engine.get_paused());
}

#[test]
fn resume_without_a_track_is_ignored() {
    let mut engine = Engine::new(vec![track(vec![5; 10])]);
    let g = gains(0, 0, 0);
    cycle(&mut engine, vec![Command::SetPaused(false)], &g, 4);
    assert!(engine.get_paused());
    assert_eq!(engine.music_samples(), (0, 0));
}

#[test]
fn seek_within_range_moves_exactly_seek_past_end_is_ignored() {
    let mut engine = Engine::new(vec![track(vec![5; 10])]);
    let g = gains(0, 0, 0);
    cycle(&mut engine, vec![Command::LoadTrack(0)], &g, 0);

    cycle(&mut engine, vec![Command::SeekTo(7)], &g, 0);
    assert_eq!(engine.music_samples(), (7, 10));

    cycle(&mut engine, vec![Command::SeekTo(11)], &g, 0);
    assert_eq!(engine.music_samples(), (7, 10));

    // The end itself is in range.
    cycle(&mut engine, vec![Command::SeekTo(10)], &g, 0);
    assert_eq!(engine.music_samples(), (10, 10));

    // Seeking leaves the paused flag alone.
    assert!(engine.get_paused());
}

#[test]
fn load_then_resume_in_one_batch_ends_playing_the_new_track() {
    let mut engine = Engine::new(vec![track(vec![5; 10]), track(vec![6; 7])]);
    let g = gains(0, 0, 0);
    cycle(&mut engine, vec![Command::LoadTrack(0), Command::SeekTo(9)], &g, 0);

    // A load followed later in the same batch by a resume plays the new
    // track, never the old one.
    cycle(
        &mut engine,
        vec![Command::LoadTrack(1), Command::SetPaused(false)],
        &g,
        3,
    );
    assert!(!engine.get_paused());
    assert_eq!(engine.music_samples(), (3, 7));
}

#[test]
fn paused_output_is_live_only_blend() {
    // While paused the output ignores the loaded track entirely:
    // out[i] = (micGain*mic[i] + lineGain*line[i]) / 3.
    let mut engine = Engine::new(vec![track(vec![100; 10])]);
    let g = gains(100, 50, 700);
    cycle(&mut engine, vec![Command::LoadTrack(0)], &g, 0);
    let out = cycle(&mut engine, vec![], &g, 5);
    // (100*1 + 50*2) / 3 = 200 / 3 = 66, truncated.
    assert_eq!(out, vec![66; 5]);
    assert_eq!(engine.music_samples(), (0, 10));
}

#[test]
fn playing_output_blends_the_track() {
    let mut engine = Engine::new(vec![track(vec![7; 10])]);
    let g = gains(3, 3, 3);
    cycle(&mut engine, vec![Command::LoadTrack(0), Command::SetPaused(false)], &g, 0);
    let out = cycle(&mut engine, vec![], &g, 4);
    // (3*1 + 3*2 + 3*7) / 3 = 10 per sample.
    assert_eq!(out, vec![10; 4]);
    assert_eq!(engine.music_samples(), (4, 10));
    assert!(!engine.get_paused());
}

#[test]
fn negative_samples_divide_toward_zero() {
    let mut engine = Engine::new(vec![]);
    let g = gains(100, 0, 0);
    let mic = vec![-10i16; 1];
    let line = vec![0i16; 1];
    let mut out = vec![0i64; 1];
    engine.run_cycle(&vec![], &g, &mic, &line, &mut out);
    // -1000 / 3 truncates toward zero: -333, not -334.
    assert_eq!(out[0], -333);
}

#[test]
fn track_exhausted_mid_buffer_falls_back_to_live_mix() {
    // Track of 100 samples, cycles of 60: the first cycle plays 60 track
    // samples, the second the remaining 40, fills the rest live-only, and
    // pauses on reaching the end.
    let mut engine = Engine::new(vec![track(vec![7; 100])]);
    let g = gains(3, 3, 3);
    cycle(&mut engine, vec![Command::LoadTrack(0), Command::SetPaused(false)], &g, 0);

    let out1 = cycle(&mut engine, vec![], &g, 60);
    assert_eq!(engine.music_samples(), (60, 100));
    assert!(!engine.get_paused());
    assert_eq!(out1, vec![10; 60]);

    let out2 = cycle(&mut engine, vec![], &g, 60);
    assert_eq!(engine.music_samples(), (100, 100));
    assert!(engine.get_paused());
    // Samples 0..40 blend the track, samples 40..60 are mic and line only:
    // (3*1 + 3*2) / 3 = 3.
    assert_eq!(&out2[..40], &vec![10i64; 40][..]);
    assert_eq!(&out2[40..], &vec![3i64; 20][..]);

    // A further cycle stays paused and live-only.
    let out3 = cycle(&mut engine, vec![], &g, 60);
    assert_eq!(out3, vec![3; 60]);
    assert_eq!(engine.music_samples(), (100, 100));
}

#[test]
fn resuming_a_finished_track_pauses_again_after_one_cycle() {
    let mut engine = Engine::new(vec![track(vec![7; 5])]);
    let g = gains(3, 3, 3);
    cycle(&mut engine, vec![Command::LoadTrack(0), Command::SetPaused(false)], &g, 0);
    cycle(&mut engine, vec![], &g, 5);
    assert!(engine.get_paused());

    // Resume at the very end: nothing of the track is left, so the cycle
    // mixes live-only and pauses again.
    let out = cycle(&mut engine, vec![Command::SetPaused(false)], &g, 4);
    assert_eq!(out, vec![3; 4]);
    assert!(engine.get_paused());
    assert_eq!(engine.music_samples(), (5, 5));
}

#[test]
fn music_timestamp_reports_minutes_and_seconds() {
    let mut engine = Engine::new(vec![track(vec![0; 48000 * 61 + 10])]);
    let g = gains(0, 0, 0);
    cycle(&mut engine, vec![Command::LoadTrack(0), Command::SeekTo(48000 * 61)], &g, 0);
    assert_eq!(engine.music_timestamp(), ((1, 1), (1, 1)));
}

#[test]
fn jump_song_builds_the_seek_command() {
    assert_eq!(jump_song(1, 1), Some(Command::SeekTo(48000 * 61)));
    assert_eq!(jump_song(0, 0), Some(Command::SeekTo(0)));
    assert_eq!(jump_song(usize::MAX, 0), None);
}

#[test]
fn gain_setters_touch_only_their_field() {
    let mut g = GainLevels::new();
    assert_eq!((g.mic, g.line, g.track), (0, 0, 0));
    g.set_mic_volume(10);
    g.set_line_volume(20);
    g.set_song_volume(30);
    assert_eq!((g.mic, g.line, g.track), (10, 20, 30));
    g.set_line_volume(5);
    assert_eq!((g.mic, g.line, g.track), (10, 5, 30));
}
