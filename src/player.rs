//! The playback orchestrator: one authoritative state that changes on
//! commands, on the media backend's status messages and on timer ticks.
//!
//! Each event is handled by a function from the current state and the event to
//! the next state and the list of actions that the caller performs on the
//! backend, in order. The caller answers the backend's queries (position,
//! duration, seekability, the time) before it hands over an event, as a `Probe`.

use vstd::prelude::*;
use crate::cmd::{Cmd, CmdView};
use crate::state::{
    State, StateView, opt_view, updated_items, position_of, with_front, with_position, with_recent,
    with_tags,
};
use crate::text::{contains, contains_text};

verus! {

/// The largest position, in seconds, that the backend can hold: its clock
/// counts nanoseconds in 64 bits.
pub const MAX_POSITION: u64 = 18_446_744_073;

/// Timer ticks between two checkpoints of the state while playing.
pub const CHECKPOINT_TICKS: u32 = 1200;

/// Where playback stands.
#[derive(Clone, Copy, Debug, PartialEq, Eq, Structural)]
pub enum Phase {
    /// Nothing is being played.
    Idle,
    /// An item is set and not yet confirmed playing or paused.
    Loading,
    Playing,
    Paused,
    /// The backend reported an error that is neither the item's nor the output device's.
    Error,
}

/// A transport state of the media backend.
#[derive(Clone, Copy, Debug, PartialEq, Eq, Structural)]
pub enum Transport {
    Null,
    Ready,
    Paused,
    Playing,
}

/// A warning for the event log.
#[derive(Clone, Copy, Debug, PartialEq, Eq, Structural)]
pub enum Notice {
    /// A seek was asked for while the backend does not report itself seekable.
    SeekRejected,
    /// A relative seek was asked for while the position is unknown.
    PositionUnknown,
    /// A deletion named an index past the end of its list.
    NoSuchElement(usize),
}

/// What the caller does on the backend and around it.
#[derive(Debug, PartialEq, Eq)]
pub enum Action {
    /// Set the backend's source to this URI.
    SetUri(String),
    /// Move the backend to this transport state.
    SetState(Transport),
    /// Seek to this position, in seconds.
    Seek(u64),
    /// Replace the backend by a fresh one.
    Reset,
    /// Write the state to disk.
    Persist,
    /// Start polling this feed.
    Subscribe(String),
    /// Log this warning.
    Note(Notice),
    /// Stop the event loop.
    Quit,
}

pub enum ActionView {
    SetUri(Seq<char>),
    SetState(Transport),
    Seek(u64),
    Reset,
    Persist,
    Subscribe(Seq<char>),
    Note(Notice),
    Quit,
}

impl View for Action {
    type V = ActionView;

    open spec fn view(&self) -> ActionView {
        match self {
            Action::SetUri(u) => ActionView::SetUri(u@),
            Action::SetState(t) => ActionView::SetState(*t),
            Action::Seek(n) => ActionView::Seek(*n),
            Action::Reset => ActionView::Reset,
            Action::Persist => ActionView::Persist,
            Action::Subscribe(u) => ActionView::Subscribe(u@),
            Action::Note(n) => ActionView::Note(*n),
            Action::Quit => ActionView::Quit,
        }
    }
}

pub open spec fn acts(s: Seq<Action>) -> Seq<ActionView> {
    s.map_values(|x: Action| x@)
}

/// A status message of the media backend.
#[derive(Debug)]
pub enum BusMsg {
    /// An element failed: `source` is the path of the element, `message` the error's text.
    Error { source: String, message: String },
    /// The current item played to its end.
    Eos,
    /// The duration of the current item changed.
    DurationChanged,
    /// An element changed transport state; `from_pipeline` where it is the pipeline itself.
    StateChanged { from_pipeline: bool, old: Transport, new: Transport },
    /// Descriptive tags found in the stream.
    Tag { artist: Option<String>, title: Option<String>, album: Option<String> },
}

pub enum BusMsgView {
    Error { source: Seq<char>, message: Seq<char> },
    Eos,
    DurationChanged,
    StateChanged { from_pipeline: bool, old: Transport, new: Transport },
    Tag { artist: Option<Seq<char>>, title: Option<Seq<char>>, album: Option<Seq<char>> },
}

impl View for BusMsg {
    type V = BusMsgView;

    open spec fn view(&self) -> BusMsgView {
        match self {
            BusMsg::Error { source, message } => BusMsgView::Error {
                source: source@,
                message: message@,
            },
            BusMsg::Eos => BusMsgView::Eos,
            BusMsg::DurationChanged => BusMsgView::DurationChanged,
            BusMsg::StateChanged { from_pipeline, old, new } => BusMsgView::StateChanged {
                from_pipeline: *from_pipeline,
                old: *old,
                new: *new,
            },
            BusMsg::Tag { artist, title, album } => BusMsgView::Tag {
                artist: opt_view(*artist),
                title: opt_view(*title),
                album: opt_view(*album),
            },
        }
    }
}

/// The backend's answers to queries, and the time, taken just before an event is handled.
#[derive(Clone, Copy, Debug)]
pub struct Probe {
    /// The playback position, in seconds.
    pub position: Option<u64>,
    /// The duration of the current item, in seconds.
    pub duration: Option<u64>,
    /// Whether the current item can be seeked in; `None` where the query failed.
    pub seekable: Option<bool>,
    /// Seconds since the epoch.
    pub now: u64,
}

/// The orchestrator's state.
pub struct Player {
    pub state: State,
    /// The cached duration of the current item, in seconds.
    pub duration: Option<u64>,
    pub current_uri: Option<String>,
    pub phase: Phase,
    pub seek_enabled: bool,
    /// A saved position to seek to once the current item plays and can be seeked in.
    pub pending_seek: Option<u64>,
    pub tick_count: u32,
}

pub struct PlayerView {
    pub state: StateView,
    pub duration: Option<u64>,
    pub current: Option<Seq<char>>,
    pub phase: Phase,
    pub seek_enabled: bool,
    pub pending_seek: Option<u64>,
    pub tick_count: u32,
}

impl View for Player {
    type V = PlayerView;

    open spec fn view(&self) -> PlayerView {
        PlayerView {
            state: self.state@,
            duration: self.duration,
            current: opt_view(self.current_uri),
            phase: self.phase,
            seek_enabled: self.seek_enabled,
            pending_seek: self.pending_seek,
            tick_count: self.tick_count,
        }
    }
}

/// Asks the backend to play the current item, to be resumed at its saved position.
pub open spec fn start(p: PlayerView, a: Seq<ActionView>) -> (PlayerView, Seq<ActionView>) {
    (
        PlayerView {
            pending_seek: position_of(p.state, p.current.unwrap()),
            phase: if p.phase == Phase::Paused { Phase::Paused } else { Phase::Loading },
            ..p
        },
        a.push(ActionView::SetState(Transport::Playing)),
    )
}

/// `Play`: resumes the current item, or takes the next one from the queue.
pub open spec fn play_spec(p: PlayerView, a: Seq<ActionView>) -> (PlayerView, Seq<ActionView>) {
    if p.phase == Phase::Playing {
        (p, a)
    } else if p.current is Some {
        start(p, a)
    } else if p.state.queue.len() == 0 {
        (p, a)
    } else {
        let u = p.state.queue[0];
        start(
            PlayerView {
                state: StateView { queue: p.state.queue.drop_first(), ..p.state },
                current: Some(u),
                ..p
            },
            a.push(ActionView::SetUri(u)),
        )
    }
}

/// The position of the current item, taken into its progress record.
pub open spec fn snapshot(p: PlayerView, position: Option<u64>, now: u64) -> PlayerView {
    match (p.current, position) {
        (Some(u), Some(pos)) => PlayerView {
            state: with_position(p.state, u, pos, p.duration, now),
            ..p
        },
        _ => p,
    }
}

/// `Pause`.
pub open spec fn pause_spec(p: PlayerView, a: Seq<ActionView>, probe: Probe) -> (
    PlayerView,
    Seq<ActionView>,
) {
    if p.phase == Phase::Playing {
        (snapshot(p, probe.position, probe.now), a.push(ActionView::SetState(Transport::Paused)))
    } else {
        (p, a)
    }
}

/// Makes `u` the current item, dropping the cached duration, and plays it where `play_after`.
pub open spec fn load(p: PlayerView, a: Seq<ActionView>, u: Seq<char>, play_after: bool) -> (
    PlayerView,
    Seq<ActionView>,
) {
    let p1 = PlayerView { duration: None, current: Some(u), phase: Phase::Loading, ..p };
    let a1 = a.push(ActionView::SetUri(u));
    if play_after {
        start(p1, a1)
    } else {
        (p1, a1)
    }
}

/// Switches to the front of the queue; the current item goes to the history.
pub open spec fn next_spec(p: PlayerView, a: Seq<ActionView>, play_after: bool) -> (
    PlayerView,
    Seq<ActionView>,
) {
    if p.state.queue.len() == 0 {
        (p, a)
    } else {
        let n = p.state.queue[0];
        let s1 = StateView { queue: p.state.queue.drop_first(), ..p.state };
        let s2 = match p.current {
            Some(u) => with_recent(s1, u),
            None => s1,
        };
        load(
            PlayerView { state: s2, ..p },
            a.push(ActionView::SetState(Transport::Null)),
            n,
            play_after,
        )
    }
}

/// Switches to the front of the history; the current item goes back to the front of the queue.
pub open spec fn prev_spec(p: PlayerView, a: Seq<ActionView>) -> (PlayerView, Seq<ActionView>) {
    if p.state.recent.len() == 0 {
        (p, a)
    } else {
        let n = p.state.recent[0];
        let s1 = StateView { recent: p.state.recent.drop_first(), ..p.state };
        let s2 = match p.current {
            Some(u) => with_front(s1, u),
            None => s1,
        };
        load(
            PlayerView { state: s2, ..p },
            a.push(ActionView::SetState(Transport::Null)),
            n,
            p.phase == Phase::Playing,
        )
    }
}

/// `t` as a position: zero below zero, `MAX_POSITION` above it.
pub open spec fn clamp_position(t: int) -> u64 {
    if t < 0 {
        0
    } else if t > MAX_POSITION {
        MAX_POSITION
    } else {
        t as u64
    }
}

/// A seek to `pos`, at most `MAX_POSITION`, rejected where the backend does
/// not report itself seekable.
pub open spec fn seek_spec(p: PlayerView, a: Seq<ActionView>, pos: u64) -> (
    PlayerView,
    Seq<ActionView>,
) {
    if p.seek_enabled {
        (p, a.push(ActionView::Seek(clamp_position(pos as int))))
    } else {
        (p, a.push(ActionView::Note(Notice::SeekRejected)))
    }
}

/// `cur + delta`, clamped to the positions from zero to `MAX_POSITION`.
pub open spec fn relative_target(cur: u64, delta: i64) -> u64 {
    clamp_position(cur + delta)
}

/// What a command does.
pub open spec fn cmd_spec(p: PlayerView, a: Seq<ActionView>, c: CmdView, probe: Probe) -> (
    PlayerView,
    Seq<ActionView>,
) {
    match c {
        CmdView::Play => play_spec(p, a),
        CmdView::Pause => pause_spec(p, a, probe),
        CmdView::PlayPause => if p.phase == Phase::Playing {
            pause_spec(p, a, probe)
        } else {
            play_spec(p, a)
        },
        CmdView::Queue(u) => (
            PlayerView { state: StateView { queue: p.state.queue.push(u), ..p.state }, ..p },
            a,
        ),
        CmdView::Seek(n) => seek_spec(p, a, n),
        CmdView::SeekRelative(d) => match probe.position {
            Some(cur) => seek_spec(p, a, relative_target(cur, d)),
            None => (p, a.push(ActionView::Note(Notice::PositionUnknown))),
        },
        CmdView::Subscribe(u) => if p.state.feeds.contains(u) {
            (p, a.push(ActionView::Persist))
        } else {
            (
                PlayerView { state: StateView { feeds: p.state.feeds.push(u), ..p.state }, ..p },
                a.push(ActionView::Subscribe(u)).push(ActionView::Persist),
            )
        },
        CmdView::Shutdown => {
            let p1 = snapshot(p, probe.position, probe.now);
            let p2 = match p1.current {
                Some(u) => PlayerView { state: with_front(p1.state, u), ..p1 },
                None => p1,
            };
            (
                p2,
                a.push(ActionView::SetState(Transport::Null)).push(ActionView::Persist).push(
                    ActionView::Quit,
                ),
            )
        },
        CmdView::Next => if p.state.queue.len() == 0 {
            (p, a)
        } else {
            next_spec(snapshot(p, probe.position, probe.now), a, p.phase == Phase::Playing)
        },
        CmdView::Prev => if p.state.recent.len() == 0 {
            (p, a)
        } else {
            prev_spec(snapshot(p, probe.position, probe.now), a)
        },
        CmdView::DeleteQueue(i) => if i < p.state.queue.len() {
            (
                PlayerView {
                    state: with_recent(
                        StateView { queue: p.state.queue.remove(i as int), ..p.state },
                        p.state.queue[i as int],
                    ),
                    ..p
                },
                a,
            )
        } else {
            (p, a.push(ActionView::Note(Notice::NoSuchElement(i))))
        },
        CmdView::DeleteRecent(i) => if i < p.state.recent.len() {
            (
                PlayerView {
                    state: StateView { recent: p.state.recent.remove(i as int), ..p.state },
                    ..p
                },
                a,
            )
        } else {
            (p, a.push(ActionView::Note(Notice::NoSuchElement(i))))
        },
        CmdView::Update(u, r) => (
            PlayerView { state: StateView { items: updated_items(p.state.items, u, r), ..p.state }, ..p },
            a,
        ),
    }
}

/// The backend failed in its output device: it is replaced by a fresh one that
/// holds the current item, and playback stops.
pub open spec fn reset_spec(p: PlayerView, a: Seq<ActionView>) -> (PlayerView, Seq<ActionView>) {
    let a1 = a.push(ActionView::SetState(Transport::Null)).push(ActionView::Reset);
    let a2 = match p.current {
        Some(u) => a1.push(ActionView::SetUri(u)),
        None => a1,
    };
    (PlayerView { phase: Phase::Idle, ..p }, a2.push(ActionView::SetState(Transport::Ready)))
}

/// After the current item ended or failed: the next item of the queue, played
/// where playback was under way; with an empty queue the backend is stopped and
/// playback is idle with no current item, the history unchanged.
pub open spec fn advance(p: PlayerView, a: Seq<ActionView>) -> (PlayerView, Seq<ActionView>) {
    if p.state.queue.len() == 0 {
        (
            PlayerView { current: None, duration: None, phase: Phase::Idle, ..p },
            a.push(ActionView::SetState(Transport::Null)),
        )
    } else {
        next_spec(p, a, p.phase == Phase::Playing || p.phase == Phase::Loading)
    }
}

/// The phase after the pipeline reports transport state `new`.
pub open spec fn reported_phase(p: PlayerView, new: Transport) -> Phase {
    match new {
        Transport::Playing => Phase::Playing,
        Transport::Paused => Phase::Paused,
        _ => if p.phase == Phase::Playing || p.phase == Phase::Paused {
            if p.current is Some {
                Phase::Loading
            } else {
                Phase::Idle
            }
        } else {
            p.phase
        },
    }
}

/// The pipeline reports transport state `new`: leaving for `Paused` takes the
/// position; on `Playing` a pending seek is made once the item is seekable.
pub open spec fn reported(p: PlayerView, a: Seq<ActionView>, new: Transport, probe: Probe) -> (
    PlayerView,
    Seq<ActionView>,
) {
    let p1 = if new == Transport::Paused {
        snapshot(p, probe.position, probe.now)
    } else {
        p
    };
    let p2 = PlayerView { phase: reported_phase(p, new), ..p1 };
    if new == Transport::Playing {
        match probe.seekable {
            Some(s) => if s && p2.pending_seek is Some {
                (
                    PlayerView { seek_enabled: true, pending_seek: None, ..p2 },
                    a.push(ActionView::Seek(clamp_position(p2.pending_seek.unwrap() as int))),
                )
            } else {
                (PlayerView { seek_enabled: s, ..p2 }, a)
            },
            None => (p2, a),
        }
    } else {
        (p2, a)
    }
}

/// What a status message of the backend does.
pub open spec fn msg_spec(p: PlayerView, a: Seq<ActionView>, m: BusMsgView, probe: Probe) -> (
    PlayerView,
    Seq<ActionView>,
) {
    match m {
        BusMsgView::Error { source, message } => {
            let from_source = contains_text(source, "uridecodebin"@);
            let from_sink = contains_text(message, "Connection terminated"@);
            let p1 = if from_source {
                PlayerView { current: None, ..p }
            } else {
                p
            };
            if from_sink {
                reset_spec(p1, a)
            } else if from_source {
                advance(p1, a)
            } else {
                (PlayerView { phase: Phase::Error, ..p }, a)
            }
        },
        BusMsgView::Eos => {
            let p1 = match p.current {
                Some(u) => PlayerView {
                    state: StateView { items: p.state.items.remove(u), ..p.state },
                    ..p
                },
                None => p,
            };
            advance(p1, a)
        },
        BusMsgView::DurationChanged => (PlayerView { duration: None, ..p }, a),
        BusMsgView::StateChanged { from_pipeline, new, .. } => if from_pipeline {
            reported(p, a, new, probe)
        } else {
            (p, a)
        },
        BusMsgView::Tag { title, album, .. } => match p.current {
            Some(u) => (PlayerView { state: with_tags(p.state, u, title, album), ..p }, a),
            None => (p, a),
        },
    }
}

/// What a timer tick does: fill in the duration once known, and every
/// `CHECKPOINT_TICKS` ticks, while playing, take the position and persist.
pub open spec fn tick_spec(p: PlayerView, a: Seq<ActionView>, probe: Probe) -> (
    PlayerView,
    Seq<ActionView>,
) {
    let p1 = PlayerView {
        duration: if p.duration is None {
            probe.duration
        } else {
            p.duration
        },
        ..p
    };
    if p.tick_count + 1 >= CHECKPOINT_TICKS {
        let p2 = PlayerView { tick_count: 0, ..p1 };
        if p.phase == Phase::Playing {
            (snapshot(p2, probe.position, probe.now), a.push(ActionView::Persist))
        } else {
            (p2, a)
        }
    } else {
        (PlayerView { tick_count: (p.tick_count + 1) as u32, ..p1 }, a)
    }
}

fn emit(actions: &mut Vec<Action>, x: Action)
    ensures
        acts(final(actions)@) == acts(old(actions)@).push(x@),
{
    let ghost a = actions@;
    actions.push(x);
    assert(acts(actions@) =~= acts(a).push(x@));
}

/// Hours, minutes within the hour, and seconds within the minute of a
/// duration of `seconds`.
pub fn clktime_to_hms(seconds: u64) -> (r: (u64, u64, u64))
    ensures
        r == (seconds / 3600, (seconds / 60) % 60, seconds % 60),
{
    let minutes = seconds / 60;
    (minutes / 60, minutes % 60, seconds % 60)
}

/// `pos`, at most `MAX_POSITION`.
pub fn clamp_seconds(pos: u64) -> (r: u64)
    ensures
        r == clamp_position(pos as int),
{
    if pos > MAX_POSITION {
        MAX_POSITION
    } else {
        pos
    }
}

/// The position of a relative seek: `cur + delta`, clamped at zero and at `MAX_POSITION`.
pub fn seek_target(cur: u64, delta: i64) -> (r: u64)
    ensures
        r == relative_target(cur, delta),
{
    if delta < 0 {
        let back: u64 = if delta == i64::MIN {
            0x8000_0000_0000_0000
        } else {
            (0 - delta) as u64
        };
        if back > cur {
            0
        } else {
            clamp_seconds(cur - back)
        }
    } else {
        let ahead = delta as u64;
        if cur > MAX_POSITION || ahead > MAX_POSITION - cur {
            MAX_POSITION
        } else {
            cur + ahead
        }
    }
}

impl Player {
    pub open spec fn wf(&self) -> bool {
        &&& self.state.wf()
        &&& self.tick_count < CHECKPOINT_TICKS
    }

    /// An idle orchestrator over `state`.
    pub fn new(state: State) -> (r: Player)
        requires
            state.wf(),
        ensures
            r.wf(),
            r@ == (PlayerView {
                state: state@,
                duration: None,
                current: None,
                phase: Phase::Idle,
                seek_enabled: false,
                pending_seek: None,
                tick_count: 0,
            }),
    {
        Player {
            state,
            duration: None,
            current_uri: None,
            phase: Phase::Idle,
            seek_enabled: false,
            pending_seek: None,
            tick_count: 0,
        }
    }

    fn start(&mut self, actions: &mut Vec<Action>)
        requires
            old(self).wf(),
            old(self).current_uri is Some,
        ensures
            final(self).wf(),
            (final(self)@, acts(final(actions)@)) == start(old(self)@, acts(old(actions)@)),
    {
        let pos = match &self.current_uri {
            Some(u) => self.state.get_pos(u.as_str()),
            None => None,
        };
        self.pending_seek = pos;
        if self.phase != Phase::Paused {
            self.phase = Phase::Loading;
        }
        emit(actions, Action::SetState(Transport::Playing));
    }

    fn play(&mut self, actions: &mut Vec<Action>)
        requires
            old(self).wf(),
        ensures
            final(self).wf(),
            (final(self)@, acts(final(actions)@)) == play_spec(old(self)@, acts(old(actions)@)),
    {
        if self.phase == Phase::Playing {
            return;
        }
        if self.current_uri.is_none() {
            match self.state.pop_queue() {
                Some(u) => {
                    let uc = u.clone();
                    self.current_uri = Some(u);
                    emit(actions, Action::SetUri(uc));
                },
                None => {
                    return;
                },
            }
        }
        self.start(actions);
    }

    fn snapshot(&mut self, probe: Probe)
        requires
            old(self).wf(),
        ensures
            final(self).wf(),
            final(self)@ == snapshot(old(self)@, probe.position, probe.now),
    {
        match (&self.current_uri, probe.position) {
            (Some(u), Some(pos)) => {
                self.state.record_position(u.as_str(), pos, self.duration, probe.now);
            },
            _ => {},
        }
    }

    fn pause(&mut self, probe: Probe, actions: &mut Vec<Action>)
        requires
            old(self).wf(),
        ensures
            final(self).wf(),
            (final(self)@, acts(final(actions)@)) == pause_spec(
                old(self)@,
                acts(old(actions)@),
                probe,
            ),
    {
        if self.phase == Phase::Playing {
            emit(actions, Action::SetState(Transport::Paused));
            self.snapshot(probe);
        }
    }

    fn load(&mut self, u: String, play_after: bool, actions: &mut Vec<Action>)
        requires
            old(self).wf(),
        ensures
            final(self).wf(),
            (final(self)@, acts(final(actions)@)) == load(
                old(self)@,
                acts(old(actions)@),
                u@,
                play_after,
            ),
    {
        self.duration = None;
        let uc = u.clone();
        self.current_uri = Some(u);
        self.phase = Phase::Loading;
        emit(actions, Action::SetUri(uc));
        if play_after {
            self.start(actions);
        }
    }

    fn next(&mut self, play_after: bool, actions: &mut Vec<Action>) -> (r: bool)
        requires
            old(self).wf(),
        ensures
            final(self).wf(),
            r == (old(self)@.state.queue.len() > 0),
            (final(self)@, acts(final(actions)@)) == next_spec(
                old(self)@,
                acts(old(actions)@),
                play_after,
            ),
    {
        match self.state.pop_queue() {
            None => false,
            Some(n) => {
                emit(actions, Action::SetState(Transport::Null));
                match &self.current_uri {
                    Some(u) => self.state.push_recent(u.as_str()),
                    None => {},
                }
                self.load(n, play_after, actions);
                true
            },
        }
    }

    /// Switches to the most recent item of the history, appending what the
    /// backend is to do to `actions`; with an empty history nothing changes and
    /// nothing is appended.
    pub fn prev(&mut self, actions: &mut Vec<Action>) -> (r: bool)
        requires
            old(self).wf(),
        ensures
            final(self).wf(),
            r == (old(self)@.state.recent.len() > 0),
            !r ==> final(self)@ == old(self)@ && final(actions)@ == old(actions)@,
            (final(self)@, acts(final(actions)@)) == prev_spec(old(self)@, acts(old(actions)@)),
    {
        let play_after = self.phase == Phase::Playing;
        match self.state.pop_recent() {
            None => false,
            Some(n) => {
                emit(actions, Action::SetState(Transport::Null));
                match &self.current_uri {
                    Some(u) => self.state.queue_front(u.as_str()),
                    None => {},
                }
                self.load(n, play_after, actions);
                true
            },
        }
    }

    fn seek(&mut self, pos: u64, actions: &mut Vec<Action>)
        requires
            old(self).wf(),
        ensures
            final(self).wf(),
            (final(self)@, acts(final(actions)@)) == seek_spec(
                old(self)@,
                acts(old(actions)@),
                pos,
            ),
    {
        if self.seek_enabled {
            emit(actions, Action::Seek(clamp_seconds(pos)));
        } else {
            emit(actions, Action::Note(Notice::SeekRejected));
        }
    }

    /// Carries out one command; returns what the caller does on the backend, in order.
    pub fn run_cmd(&mut self, cmd: Cmd, probe: Probe) -> (r: Vec<Action>)
        requires
            old(self).wf(),
        ensures
            final(self).wf(),
            (final(self)@, acts(r@)) == cmd_spec(old(self)@, Seq::empty(), cmd@, probe),
    {
        let mut actions: Vec<Action> = Vec::new();
        assert(acts(actions@) =~= Seq::empty());
        match cmd {
            Cmd::Play => self.play(&mut actions),
            Cmd::Pause => self.pause(probe, &mut actions),
            Cmd::PlayPause => {
                if self.phase == Phase::Playing {
                    self.pause(probe, &mut actions);
                } else {
                    self.play(&mut actions);
                }
            },
            Cmd::Queue(uri) => self.state.queue(uri.as_str()),
            Cmd::Seek(pos) => self.seek(pos, &mut actions),
            Cmd::SeekRelative(delta) => {
                match probe.position {
                    Some(cur) => self.seek(seek_target(cur, delta), &mut actions),
                    None => emit(&mut actions, Action::Note(Notice::PositionUnknown)),
                }
            },
            Cmd::Subscribe(url) => {
                let copy = url.clone();
                if self.state.subscribe(url) {
                    emit(&mut actions, Action::Subscribe(copy));
                }
                emit(&mut actions, Action::Persist);
            },
            Cmd::Shutdown => {
                self.snapshot(probe);
                match &self.current_uri {
                    Some(u) => self.state.queue_front(u.as_str()),
                    None => {},
                }
                emit(&mut actions, Action::SetState(Transport::Null));
                emit(&mut actions, Action::Persist);
                emit(&mut actions, Action::Quit);
            },
            Cmd::Next => {
                if self.state.queue.len() > 0 {
                    let play_after = self.phase == Phase::Playing;
                    self.snapshot(probe);
                    self.next(play_after, &mut actions);
                }
            },
            Cmd::Prev => {
                if self.state.recent.len() > 0 {
                    self.snapshot(probe);
                    self.prev(&mut actions);
                }
            },
            Cmd::DeleteQueue(index) => {
                if self.state.delete_queue(index).is_none() {
                    emit(&mut actions, Action::Note(Notice::NoSuchElement(index)));
                }
            },
            Cmd::DeleteRecent(index) => {
                if self.state.delete_recent(index).is_none() {
                    emit(&mut actions, Action::Note(Notice::NoSuchElement(index)));
                }
            },
            Cmd::Update(args) => self.state.update_playable(args.0, args.1),
        }
        actions
    }

    fn reset(&mut self, actions: &mut Vec<Action>)
        requires
            old(self).wf(),
        ensures
            final(self).wf(),
            (final(self)@, acts(final(actions)@)) == reset_spec(old(self)@, acts(old(actions)@)),
    {
        emit(actions, Action::SetState(Transport::Null));
        emit(actions, Action::Reset);
        match &self.current_uri {
            Some(u) => emit(actions, Action::SetUri(u.clone())),
            None => {},
        }
        emit(actions, Action::SetState(Transport::Ready));
        self.phase = Phase::Idle;
    }

    fn advance(&mut self, actions: &mut Vec<Action>)
        requires
            old(self).wf(),
        ensures
            final(self).wf(),
            (final(self)@, acts(final(actions)@)) == advance(old(self)@, acts(old(actions)@)),
    {
        if self.state.queue.len() == 0 {
            self.current_uri = None;
            self.duration = None;
            self.phase = Phase::Idle;
            emit(actions, Action::SetState(Transport::Null));
        } else {
            let play_after = self.phase == Phase::Playing || self.phase == Phase::Loading;
            self.next(play_after, actions);
        }
    }

    fn reported(&mut self, new: Transport, probe: Probe, actions: &mut Vec<Action>)
        requires
            old(self).wf(),
        ensures
            final(self).wf(),
            (final(self)@, acts(final(actions)@)) == reported(
                old(self)@,
                acts(old(actions)@),
                new,
                probe,
            ),
    {
        let phase = match new {
            Transport::Playing => Phase::Playing,
            Transport::Paused => Phase::Paused,
            _ => {
                if self.phase == Phase::Playing || self.phase == Phase::Paused {
                    if self.current_uri.is_some() {
                        Phase::Loading
                    } else {
                        Phase::Idle
                    }
                } else {
                    self.phase
                }
            },
        };
        if new == Transport::Paused {
            self.snapshot(probe);
        }
        self.phase = phase;
        if new == Transport::Playing {
            match probe.seekable {
                Some(s) => {
                    if s && self.pending_seek.is_some() {
                        let pos = self.pending_seek.unwrap();
                        self.seek_enabled = true;
                        self.pending_seek = None;
                        emit(actions, Action::Seek(clamp_seconds(pos)));
                    } else {
                        self.seek_enabled = s;
                    }
                },
                None => {},
            }
        }
    }

    /// Handles one status message of the backend; returns what the caller does
    /// on the backend, in order.
    pub fn handle_message(&mut self, msg: BusMsg, probe: Probe) -> (r: Vec<Action>)
        requires
            old(self).wf(),
        ensures
            final(self).wf(),
            (final(self)@, acts(r@)) == msg_spec(old(self)@, Seq::empty(), msg@, probe),
    {
        let mut actions: Vec<Action> = Vec::new();
        assert(acts(actions@) =~= Seq::empty());
        match msg {
            BusMsg::Error { source, message } => {
                let from_source = contains(source.as_str(), "uridecodebin");
                let from_sink = contains(message.as_str(), "Connection terminated");
                if from_source {
                    self.current_uri = None;
                }
                if from_sink {
                    self.reset(&mut actions);
                } else if from_source {
                    self.advance(&mut actions);
                } else {
                    self.phase = Phase::Error;
                }
            },
            BusMsg::Eos => {
                match &self.current_uri {
                    Some(u) => self.state.reset_pos(u.as_str()),
                    None => {},
                }
                self.advance(&mut actions);
            },
            BusMsg::DurationChanged => {
                self.duration = None;
            },
            BusMsg::StateChanged { from_pipeline, new, .. } => {
                if from_pipeline {
                    self.reported(new, probe, &mut actions);
                }
            },
            BusMsg::Tag { title, album, .. } => {
                match &self.current_uri {
                    Some(u) => self.state.fill_tags(u.as_str(), title, album),
                    None => {},
                }
            },
        }
        actions
    }

    /// Handles one timer tick; returns what the caller does, in order.
    pub fn tick(&mut self, probe: Probe) -> (r: Vec<Action>)
        requires
            old(self).wf(),
        ensures
            final(self).wf(),
            (final(self)@, acts(r@)) == tick_spec(old(self)@, Seq::empty(), probe),
    {
        let mut actions: Vec<Action> = Vec::new();
        assert(acts(actions@) =~= Seq::empty());
        if self.duration.is_none() {
            self.duration = probe.duration;
        }
        if self.tick_count + 1 >= CHECKPOINT_TICKS {
            self.tick_count = 0;
            if self.phase == Phase::Playing {
                self.snapshot(probe);
                emit(&mut actions, Action::Persist);
            }
        } else {
            self.tick_count = self.tick_count + 1;
        }
        actions
    }
}


/// At the end of an item, with more queued: the finished item's progress is
/// cleared, it heads the history, and the next queued item is loaded.
pub proof fn lemma_end_of_stream_advances(p: PlayerView, probe: Probe)
    requires
        p.current is Some,
        p.state.queue.len() > 0,
    ensures
        ({
            let (q, a) = msg_spec(p, Seq::empty(), BusMsgView::Eos, probe);
            let u = p.current.unwrap();
            let n = p.state.queue[0];
            &&& !q.state.items.contains_key(u)
            &&& q.state.recent[0] == u
            &&& q.state.queue == p.state.queue.drop_first()
            &&& q.current == Some(n)
            &&& a[0] == ActionView::SetState(Transport::Null)
            &&& a[1] == ActionView::SetUri(n)
        }),
{
}

/// At the end of an item, with nothing queued: the backend is stopped and
/// playback is idle with no current item; queue, history and the other
/// records stay as they were, the finished item's progress being cleared.
pub proof fn lemma_end_of_stream_idles(p: PlayerView, probe: Probe)
    requires
        p.state.queue.len() == 0,
    ensures
        ({
            let (q, a) = msg_spec(p, Seq::empty(), BusMsgView::Eos, probe);
            &&& q.phase == Phase::Idle
            &&& q.current is None
            &&& q.state.queue == p.state.queue
            &&& q.state.recent == p.state.recent
            &&& q.state.feeds == p.state.feeds
            &&& q.state.items == match p.current {
                Some(u) => p.state.items.remove(u),
                None => p.state.items,
            }
            &&& a == seq![ActionView::SetState(Transport::Null)]
        }),
{
    let (q, a) = msg_spec(p, Seq::empty(), BusMsgView::Eos, probe);
    assert(a =~= seq![ActionView::SetState(Transport::Null)]);
}

/// `Prev` with an empty history changes nothing and asks nothing of the backend.
pub proof fn lemma_prev_without_history(p: PlayerView, a: Seq<ActionView>, probe: Probe)
    requires
        p.state.recent.len() == 0,
    ensures
        cmd_spec(p, a, CmdView::Prev, probe) == (p, a),
{
}

/// A relative seek lands on `cur + delta` where the backend can hold that
/// position, else on the nearer end: zero, or `MAX_POSITION`. The largest
/// forward step reaches `MAX_POSITION` from any position.
pub proof fn lemma_seek_relative_clamps(cur: u64, delta: i64)
    ensures
        cur + delta < 0 ==> relative_target(cur, delta) == 0,
        cur + delta > MAX_POSITION ==> relative_target(cur, delta) == MAX_POSITION,
        0 <= cur + delta <= MAX_POSITION ==> relative_target(cur, delta) == cur + delta,
        relative_target(cur, i64::MAX) == MAX_POSITION,
        relative_target(cur, delta) <= MAX_POSITION,
{
}

/// Every seek that the orchestrator asks of the backend is to a position it can hold.
pub proof fn lemma_seeks_in_range(p: PlayerView, c: CmdView, probe: Probe, i: int)
    requires
        0 <= i < cmd_spec(p, Seq::empty(), c, probe).1.len(),
        cmd_spec(p, Seq::empty(), c, probe).1[i] is Seek,
    ensures
        cmd_spec(p, Seq::empty(), c, probe).1[i]->Seek_0 <= MAX_POSITION,
{
}

} // verus!
