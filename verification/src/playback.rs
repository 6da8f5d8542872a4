//! The playback engine: one track at a time, driven by an ordered stream of
//! commands.
//!
//! The engine owns no audio device. Each command yields an [`AudioAction`]
//! that tells the audio context what to do with its sink, and the context
//! reports back when a track has started to play. What the engine answers to
//! a state query depends on its own record and on what the sink reports at
//! that moment, handed in as a [`SinkProbe`].

use crate::text::text_of;
use std::sync::mpsc::Sender;
use vstd::prelude::*;

verus! {

/// `std::sync::mpsc::Sender`, carried through as an opaque value: the engine
/// never sends on it, it hands it back inside [`AudioAction::Reply`].
#[verifier::external_type_specification]
#[verifier::external_body]
#[verifier::reject_recursive_types(T)]
pub struct ExSender<T>(Sender<T>);

/// Whether audio is coming out.
#[derive(Debug, Clone, Copy, PartialEq, Eq, Structural)]
pub enum PlaybackStatus {
    Stopped,
    Playing,
    Paused,
}

/// A snapshot of the engine, as answered to a state query. The track fields
/// are present only while the status is not `Stopped`.
#[derive(Debug, Clone)]
pub struct PlaybackState {
    pub status: PlaybackStatus,
    pub current_track_path: Option<String>,
    pub current_track_title: Option<String>,
    pub current_track_artist: Option<String>,
}

/// The mathematical content of a [`PlaybackState`].
pub struct PlaybackStateView {
    pub status: PlaybackStatus,
    pub current_track_path: Option<Seq<char>>,
    pub current_track_title: Option<Seq<char>>,
    pub current_track_artist: Option<Seq<char>>,
}

impl View for PlaybackState {
    type V = PlaybackStateView;

    open spec fn view(&self) -> PlaybackStateView {
        PlaybackStateView {
            status: self.status,
            current_track_path: text_of(self.current_track_path),
            current_track_title: text_of(self.current_track_title),
            current_track_artist: text_of(self.current_track_artist),
        }
    }
}

impl PlaybackStateView {
    /// The snapshot of an engine that plays nothing.
    pub open spec fn stopped() -> PlaybackStateView {
        PlaybackStateView {
            status: PlaybackStatus::Stopped,
            current_track_path: None,
            current_track_title: None,
            current_track_artist: None,
        }
    }
}

/// What identifies a track to the engine.
pub struct TrackView {
    pub path: Seq<char>,
    pub title: Seq<char>,
    pub artist: Seq<char>,
}

/// A track that a `Play` command asked for and whose file has yet to be
/// opened and decoded. Only the engine makes one.
#[derive(Debug)]
pub struct PendingTrack {
    path: String,
    title: String,
    artist: String,
}

impl View for PendingTrack {
    type V = TrackView;

    closed spec fn view(&self) -> TrackView {
        TrackView { path: self.path@, title: self.title@, artist: self.artist@ }
    }
}

impl PendingTrack {
    /// The file to open.
    pub fn path(&self) -> (path: &String)
        ensures
            path@ == self@.path,
    {
        &self.path
    }

    /// The title under which the track was asked for.
    pub fn title(&self) -> (title: &String)
        ensures
            title@ == self@.title,
    {
        &self.title
    }

    /// The artist under which the track was asked for.
    pub fn artist(&self) -> (artist: &String)
        ensures
            artist@ == self@.artist,
    {
        &self.artist
    }
}

/// A message to the engine.
#[derive(Debug)]
pub enum AudioCommand {
    Play { path: String, title: String, artist: String },
    Pause,
    Resume,
    Stop,
    GetState(Sender<PlaybackState>),
}

/// The mathematical content of an [`AudioCommand`].
pub enum AudioCommandView {
    Play(TrackView),
    Pause,
    Resume,
    Stop,
    GetState(Sender<PlaybackState>),
}

impl View for AudioCommand {
    type V = AudioCommandView;

    open spec fn view(&self) -> AudioCommandView {
        match *self {
            AudioCommand::Play { path, title, artist } => AudioCommandView::Play(
                TrackView { path: path@, title: title@, artist: artist@ },
            ),
            AudioCommand::Pause => AudioCommandView::Pause,
            AudioCommand::Resume => AudioCommandView::Resume,
            AudioCommand::Stop => AudioCommandView::Stop,
            AudioCommand::GetState(reply) => AudioCommandView::GetState(reply),
        }
    }
}

/// The command by which the shell asks for a track. The shell also knows how
/// long the track is; the engine has no use for that and the command leaves
/// it out.
pub fn play_track(path: String, title: String, artist: String, duration_secs: u64) -> (cmd:
    AudioCommand)
    ensures
        cmd@ == AudioCommandView::Play(TrackView { path: path@, title: title@, artist: artist@ }),
{
    let _ = duration_secs;
    AudioCommand::Play { path, title, artist }
}

/// What the audio context has to do after a command.
#[derive(Debug)]
pub enum AudioAction {
    /// Nothing.
    Idle,
    /// Stop and discard the connected sink, if there is one; then open and
    /// decode the file of the track. If that succeeds, connect a new sink,
    /// start it on the decoded audio and call [`AppState::playback_started`]
    /// with the track. If it fails, do nothing more.
    Load(PendingTrack),
    /// Pause the connected sink.
    PauseSink,
    /// Let the connected sink play on.
    ResumeSink,
    /// Stop and discard the connected sink.
    StopSink,
    /// Inspect the sink, call [`AppState::get_playback_state`] and send the
    /// snapshot once on this channel, ignoring a failure to send.
    Reply(Sender<PlaybackState>),
}

/// The mathematical content of an [`AudioAction`].
pub enum AudioActionView {
    Idle,
    Load(TrackView),
    PauseSink,
    ResumeSink,
    StopSink,
    Reply(Sender<PlaybackState>),
}

impl View for AudioAction {
    type V = AudioActionView;

    open spec fn view(&self) -> AudioActionView {
        match *self {
            AudioAction::Idle => AudioActionView::Idle,
            AudioAction::Load(track) => AudioActionView::Load(track@),
            AudioAction::PauseSink => AudioActionView::PauseSink,
            AudioAction::ResumeSink => AudioActionView::ResumeSink,
            AudioAction::StopSink => AudioActionView::StopSink,
            AudioAction::Reply(reply) => AudioActionView::Reply(reply),
        }
    }
}

/// What a sink reports when it is inspected: whether all queued audio has
/// been played, and whether it is paused.
#[derive(Debug, Clone, Copy, PartialEq, Eq, Structural)]
pub struct SinkProbe {
    pub empty: bool,
    pub paused: bool,
}

/// The engine's record: whether a sink is connected, and the track that was
/// last started and not stopped since. A connected sink always has its track
/// on record.
pub struct AppState {
    sink_connected: bool,
    current: Option<PendingTrack>,
}

/// The mathematical content of an [`AppState`].
pub struct AppStateView {
    pub sink_connected: bool,
    pub current: Option<TrackView>,
}

impl View for AppState {
    type V = AppStateView;

    closed spec fn view(&self) -> AppStateView {
        AppStateView {
            sink_connected: self.sink_connected,
            current: match self.current {
                Some(track) => Some(track@),
                None => None,
            },
        }
    }
}

impl AppStateView {
    /// The engine before any command: no sink, no track.
    pub open spec fn initial() -> AppStateView {
        AppStateView { sink_connected: false, current: None }
    }

    /// A connected sink has its track on record. This holds of every engine.
    pub open spec fn is_consistent(self) -> bool {
        self.sink_connected ==> self.current is Some
    }

    /// The record after a command.
    ///
    /// `Play` gives up the sink at once, before the file is opened, and keeps
    /// the old track on record until the new one has started. `Stop` gives up
    /// the sink and forgets the track. Nothing else changes the record.
    pub open spec fn after(self, command: AudioCommandView) -> AppStateView {
        match command {
            AudioCommandView::Play(_) => AppStateView { sink_connected: false, ..self },
            AudioCommandView::Stop => AppStateView::initial(),
            AudioCommandView::Pause | AudioCommandView::Resume | AudioCommandView::GetState(_) => self,
        }
    }

    /// What the audio context is asked to do for a command.
    pub open spec fn action(self, command: AudioCommandView) -> AudioActionView {
        match command {
            AudioCommandView::Play(track) => AudioActionView::Load(track),
            AudioCommandView::Pause => if self.sink_connected {
                AudioActionView::PauseSink
            } else {
                AudioActionView::Idle
            },
            AudioCommandView::Resume => if self.sink_connected {
                AudioActionView::ResumeSink
            } else {
                AudioActionView::Idle
            },
            AudioCommandView::Stop => if self.sink_connected {
                AudioActionView::StopSink
            } else {
                AudioActionView::Idle
            },
            AudioCommandView::GetState(reply) => AudioActionView::Reply(reply),
        }
    }

    /// The record once a new sink plays `track`.
    pub open spec fn started(self, track: TrackView) -> AppStateView {
        AppStateView { sink_connected: true, current: Some(track) }
    }

    /// The status that a state query reports.
    pub open spec fn status(self, probe: SinkProbe) -> PlaybackStatus {
        if !self.sink_connected || probe.empty {
            PlaybackStatus::Stopped
        } else if probe.paused {
            PlaybackStatus::Paused
        } else {
            PlaybackStatus::Playing
        }
    }

    /// The snapshot that a state query reports: the status, and the track on
    /// record unless the status is `Stopped`.
    pub open spec fn snapshot(self, probe: SinkProbe) -> PlaybackStateView {
        match self.current {
            Some(track) if self.status(probe) != PlaybackStatus::Stopped => PlaybackStateView {
                status: self.status(probe),
                current_track_path: Some(track.path),
                current_track_title: Some(track.title),
                current_track_artist: Some(track.artist),
            },
            _ => PlaybackStateView { status: self.status(probe), ..PlaybackStateView::stopped() },
        }
    }
}

impl AppState {
    #[verifier::type_invariant]
    spec fn sink_has_track(self) -> bool {
        self.sink_connected ==> self.current is Some
    }

    /// An engine that has not played anything yet.
    pub fn new() -> (state: AppState)
        ensures
            state@ == AppStateView::initial(),
    {
        AppState { sink_connected: false, current: None }
    }

    /// Takes one command, updates the record and says what the audio context
    /// has to do.
    pub fn send_command(&mut self, cmd: AudioCommand) -> (action: AudioAction)
        ensures
            final(self)@ == old(self)@.after(cmd@),
            action@ == old(self)@.action(cmd@),
            old(self)@.is_consistent(),
            final(self)@.is_consistent(),
    {
        proof {
            use_type_invariant(&*self);
        }
        match cmd {
            AudioCommand::Play { path, title, artist } => {
                self.sink_connected = false;
                AudioAction::Load(PendingTrack { path, title, artist })
            },
            AudioCommand::Pause => {
                if self.sink_connected {
                    AudioAction::PauseSink
                } else {
                    AudioAction::Idle
                }
            },
            AudioCommand::Resume => {
                if self.sink_connected {
                    AudioAction::ResumeSink
                } else {
                    AudioAction::Idle
                }
            },
            AudioCommand::Stop => {
                let was_connected = self.sink_connected;
                self.sink_connected = false;
                self.current = None;
                if was_connected {
                    AudioAction::StopSink
                } else {
                    AudioAction::Idle
                }
            },
            AudioCommand::GetState(reply) => AudioAction::Reply(reply),
        }
    }

    /// Records that a new sink has started to play `track`.
    pub fn playback_started(&mut self, track: PendingTrack)
        ensures
            final(self)@ == old(self)@.started(track@),
            final(self)@.is_consistent(),
    {
        self.current = Some(track);
        self.sink_connected = true;
    }

    /// The answer to a state query, given what the sink reports now. The
    /// probe is not looked at while no sink is connected. The record stays as
    /// it is, also when the sink has run empty.
    pub fn get_playback_state(&self, probe: SinkProbe) -> (state: PlaybackState)
        ensures
            state@ == self@.snapshot(probe),
            self@.is_consistent(),
    {
        proof {
            use_type_invariant(self);
        }
        let status = if !self.sink_connected || probe.empty {
            PlaybackStatus::Stopped
        } else if probe.paused {
            PlaybackStatus::Paused
        } else {
            PlaybackStatus::Playing
        };
        match &self.current {
            Some(track) if status != PlaybackStatus::Stopped => PlaybackState {
                status,
                current_track_path: Some(track.path.clone()),
                current_track_title: Some(track.title.clone()),
                current_track_artist: Some(track.artist.clone()),
            },
            _ => PlaybackState {
                status,
                current_track_path: None,
                current_track_title: None,
                current_track_artist: None,
            },
        }
    }
}

/// Right after `Stop` a state query answers `Stopped` with no track,
/// whatever the engine held before and whatever the sink reports.
pub proof fn lemma_stop_clears_state(state: AppStateView, probe: SinkProbe)
    ensures
        state.after(AudioCommandView::Stop).snapshot(probe) == PlaybackStateView::stopped(),
        state.after(AudioCommandView::Stop) == AppStateView::initial(),
{
}

/// A state query that follows `Play` of a track never names another track.
/// The audio context is asked to load exactly that track; whether or not it
/// got the track started, and whatever the sink reports, the snapshot is
/// either `Stopped` with no track, or it is not `Stopped` and names the
/// track that `Play` asked for.
pub proof fn lemma_play_then_query(
    state: AppStateView,
    track: TrackView,
    started: bool,
    probe: SinkProbe,
)
    ensures
        state.action(AudioCommandView::Play(track)) == AudioActionView::Load(track),
        ({
            let asked = state.after(AudioCommandView::Play(track));
            let now = if started {
                asked.started(track)
            } else {
                asked
            };
            let seen = now.snapshot(probe);
            ||| seen == PlaybackStateView::stopped()
            ||| {
                &&& seen.status != PlaybackStatus::Stopped
                &&& seen.current_track_path == Some(track.path)
                &&& seen.current_track_title == Some(track.title)
                &&& seen.current_track_artist == Some(track.artist)
            }
        }),
{
}

/// A `Stopped` snapshot names no track, and an engine without a sink answers
/// `Stopped`.
pub proof fn lemma_stopped_names_no_track(state: AppStateView, probe: SinkProbe)
    ensures
        state.snapshot(probe).status == PlaybackStatus::Stopped ==> state.snapshot(probe)
            == PlaybackStateView::stopped(),
        !state.sink_connected ==> state.snapshot(probe) == PlaybackStateView::stopped(),
{
}

/// Every other snapshot names its track: the track fields are there exactly
/// while the status is not `Stopped`.
pub proof fn lemma_playing_names_its_track(state: AppStateView, probe: SinkProbe)
    requires
        state.is_consistent(),
    ensures
        state.snapshot(probe).status != PlaybackStatus::Stopped <==> state.snapshot(
            probe,
        ).current_track_path is Some,
        state.snapshot(probe).current_track_path is Some <==> state.snapshot(
            probe,
        ).current_track_title is Some,
        state.snapshot(probe).current_track_path is Some <==> state.snapshot(
            probe,
        ).current_track_artist is Some,
{
}

/// Commands and starts keep the record consistent.
pub proof fn lemma_record_stays_consistent(
    state: AppStateView,
    command: AudioCommandView,
    track: TrackView,
)
    requires
        state.is_consistent(),
    ensures
        AppStateView::initial().is_consistent(),
        state.after(command).is_consistent(),
        state.started(track).is_consistent(),
{
}

} // verus!
