use std::sync::mpsc;
use tunes::playback::{
    play_track, AppState, AudioAction, AudioCommand, PendingTrack, PlaybackState, PlaybackStatus,
    SinkProbe,
};

fn play(path: &str, title: &str, artist: &str) -> AudioCommand {
    AudioCommand::Play {
        path: path.to_string(),
        title: title.to_string(),
        artist: artist.to_string(),
    }
}

fn playing() -> SinkProbe {
    SinkProbe { empty: false, paused: false }
}

fn paused() -> SinkProbe {
    SinkProbe { empty: false, paused: true }
}

fn drained() -> SinkProbe {
    SinkProbe { empty: true, paused: false }
}

fn load(action: AudioAction) -> PendingTrack {
    match action {
        AudioAction::Load(track) => track,
        other => panic!("expected a load, got {:?}", other),
    }
}

fn start(state: &mut AppState, path: &str, title: &str, artist: &str) {
    let track = load(state.send_command(play(path, title, artist)));
    state.playback_started(track);
}

fn assert_stopped(snapshot: &PlaybackState) {
    assert_eq!(snapshot.status, PlaybackStatus::Stopped);
    assert_eq!(snapshot.current_track_path, None);
    assert_eq!(snapshot.current_track_title, None);
    assert_eq!(snapshot.current_track_artist, None);
}

fn assert_track(snapshot: &PlaybackState, path: &str, title: &str, artist: &str) {
    assert_eq!(snapshot.current_track_path.as_deref(), Some(path));
    assert_eq!(snapshot.current_track_title.as_deref(), Some(title));
    assert_eq!(snapshot.current_track_artist.as_deref(), Some(artist));
}

#[test]
fn new_engine_is_stopped() {
    let state = AppState::new();
    assert_stopped(&state.get_playback_state(playing()));
    assert_stopped(&state.get_playback_state(paused()));
    assert_stopped(&state.get_playback_state(drained()));
}

#[test]
fn play_asks_to_load_the_track() {
    let mut state = AppState::new();
    let track = load(state.send_command(play("/m/a.mp3", "A", "Ann")));
    assert_eq!(track.path().as_str(), "/m/a.mp3");
    assert_eq!(track.title().as_str(), "A");
    assert_eq!(track.artist().as_str(), "Ann");
}

#[test]
fn play_track_builds_the_play_command() {
    let command = play_track("/m/a.mp3".to_string(), "A".to_string(), "Ann".to_string(), 215);
    match command {
        AudioCommand::Play { path, title, artist } => {
            assert_eq!(path, "/m/a.mp3");
            assert_eq!(title, "A");
            assert_eq!(artist, "Ann");
        },
        other => panic!("expected a play command, got {:?}", other),
    }
}

#[test]
fn started_track_is_reported_as_playing() {
    let mut state = AppState::new();
    start(&mut state, "/m/a.mp3", "A", "Ann");
    let snapshot = state.get_playback_state(playing());
    assert_eq!(snapshot.status, PlaybackStatus::Playing);
    assert_track(&snapshot, "/m/a.mp3", "A", "Ann");
}

#[test]
fn paused_sink_is_reported_as_paused() {
    let mut state = AppState::new();
    start(&mut state, "/m/a.mp3", "A", "Ann");
    let snapshot = state.get_playback_state(paused());
    assert_eq!(snapshot.status, PlaybackStatus::Paused);
    assert_track(&snapshot, "/m/a.mp3", "A", "Ann");
}

#[test]
fn drained_sink_is_reported_as_stopped_without_track() {
    let mut state = AppState::new();
    start(&mut state, "/m/a.mp3", "A", "Ann");
    assert_stopped(&state.get_playback_state(drained()));
    // A sink that is both drained and paused counts as drained.
    assert_stopped(&state.get_playback_state(SinkProbe { empty: true, paused: true }));
    // The record itself is kept: a sink that plays again shows the track.
    let snapshot = state.get_playback_state(playing());
    assert_eq!(snapshot.status, PlaybackStatus::Playing);
    assert_track(&snapshot, "/m/a.mp3", "A", "Ann");
}

#[test]
fn stop_clears_state_from_every_prior_state() {
    // Nothing played yet.
    let mut fresh = AppState::new();
    assert!(matches!(fresh.send_command(AudioCommand::Stop), AudioAction::Idle));
    assert_stopped(&fresh.get_playback_state(playing()));

    // A track is playing.
    let mut busy = AppState::new();
    start(&mut busy, "/m/a.mp3", "A", "Ann");
    assert!(matches!(busy.send_command(AudioCommand::Stop), AudioAction::StopSink));
    assert_stopped(&busy.get_playback_state(playing()));
    assert_stopped(&busy.get_playback_state(paused()));
    assert_stopped(&busy.get_playback_state(drained()));

    // A track is paused.
    let mut held = AppState::new();
    start(&mut held, "/m/a.mp3", "A", "Ann");
    assert!(matches!(held.send_command(AudioCommand::Pause), AudioAction::PauseSink));
    assert!(matches!(held.send_command(AudioCommand::Stop), AudioAction::StopSink));
    assert_stopped(&held.get_playback_state(paused()));

    // A load is under way: the old sink is gone already.
    let mut loading = AppState::new();
    start(&mut loading, "/m/a.mp3", "A", "Ann");
    let _ = load(loading.send_command(play("/m/b.mp3", "B", "Bob")));
    assert!(matches!(loading.send_command(AudioCommand::Stop), AudioAction::Idle));
    assert_stopped(&loading.get_playback_state(playing()));
}

#[test]
fn query_after_play_never_shows_another_track() {
    // The second track starts: the snapshot names it.
    let mut state = AppState::new();
    start(&mut state, "/m/a.mp3", "A", "Ann");
    start(&mut state, "/m/b.mp3", "B", "Bob");
    let snapshot = state.get_playback_state(playing());
    assert_eq!(snapshot.status, PlaybackStatus::Playing);
    assert_track(&snapshot, "/m/b.mp3", "B", "Bob");

    // The second track fails to load: the snapshot is stopped and names none.
    let mut failed = AppState::new();
    start(&mut failed, "/m/a.mp3", "A", "Ann");
    let _ = load(failed.send_command(play("/m/missing.mp3", "B", "Bob")));
    assert_stopped(&failed.get_playback_state(playing()));
    assert_stopped(&failed.get_playback_state(paused()));
}

#[test]
fn pause_and_resume_need_a_sink() {
    let mut state = AppState::new();
    assert!(matches!(state.send_command(AudioCommand::Pause), AudioAction::Idle));
    assert!(matches!(state.send_command(AudioCommand::Resume), AudioAction::Idle));
    start(&mut state, "/m/a.mp3", "A", "Ann");
    assert!(matches!(state.send_command(AudioCommand::Pause), AudioAction::PauseSink));
    assert!(matches!(state.send_command(AudioCommand::Resume), AudioAction::ResumeSink));
    // Neither changes what is on record.
    let snapshot = state.get_playback_state(playing());
    assert_track(&snapshot, "/m/a.mp3", "A", "Ann");
}

#[test]
fn play_gives_up_the_sink_before_the_load() {
    let mut state = AppState::new();
    start(&mut state, "/m/a.mp3", "A", "Ann");
    let _ = load(state.send_command(play("/m/b.mp3", "B", "Bob")));
    assert!(matches!(state.send_command(AudioCommand::Pause), AudioAction::Idle));
    assert!(matches!(state.send_command(AudioCommand::Resume), AudioAction::Idle));
}

#[test]
fn get_state_hands_the_reply_channel_back() {
    let mut state = AppState::new();
    start(&mut state, "/m/a.mp3", "A", "Ann");
    let (reply, answers) = mpsc::channel::<PlaybackState>();
    let action = state.send_command(AudioCommand::GetState(reply));
    match action {
        AudioAction::Reply(to) => {
            to.send(state.get_playback_state(paused())).unwrap();
        },
        other => panic!("expected a reply, got {:?}", other),
    }
    let answer = answers.recv().unwrap();
    assert_eq!(answer.status, PlaybackStatus::Paused);
    assert_track(&answer, "/m/a.mp3", "A", "Ann");
    // Exactly one answer was sent, and the sender is gone.
    assert!(answers.recv().is_err());
}

#[test]
fn get_state_changes_nothing() {
    let mut state = AppState::new();
    start(&mut state, "/m/a.mp3", "A", "Ann");
    let (reply, _answers) = mpsc::channel::<PlaybackState>();
    let _ = state.send_command(AudioCommand::GetState(reply));
    let snapshot = state.get_playback_state(playing());
    assert_eq!(snapshot.status, PlaybackStatus::Playing);
    assert_track(&snapshot, "/m/a.mp3", "A", "Ann");
}
