use podaemon::cmd::{Cmd, UpdateArgs};
use podaemon::player::{
    seek_target, Action, BusMsg, Notice, Phase, Player, Probe, Transport, CHECKPOINT_TICKS,
    MAX_POSITION,
};
use podaemon::state::{Playable, State};

fn probe(position: Option<u64>) -> Probe {
    Probe {
        position,
        duration: Some(600),
        seekable: Some(true),
        now: 1000,
    }
}

fn reported(new: Transport) -> BusMsg {
    BusMsg::StateChanged {
        from_pipeline: true,
        old: Transport::Paused,
        new,
    }
}

fn uri(s: &str) -> Action {
    Action::SetUri(s.to_string())
}

fn queue_of(p: &Player) -> Vec<String> {
    p.state.queue.iter().cloned().collect()
}

fn recent_of(p: &Player) -> Vec<String> {
    p.state.recent.iter().cloned().collect()
}

/// A player whose current item `cur` is playing, with `queued` after it.
fn playing(cur: &str, queued: &[&str]) -> Player {
    let mut p = Player::new(State::new());
    p.state.queue(cur);
    for q in queued {
        p.state.queue(q);
    }
    p.run_cmd(Cmd::Play, probe(None));
    p.handle_message(reported(Transport::Playing), probe(Some(0)));
    p
}

#[test]
fn relative_seek_clamps_at_both_ends() {
    assert_eq!(seek_target(5, -1000), 0);
    assert_eq!(seek_target(5, i64::MAX), MAX_POSITION);
    assert_eq!(seek_target(0, i64::MAX), MAX_POSITION);
    assert_eq!(seek_target(u64::MAX, i64::MAX), MAX_POSITION);
    assert_eq!(seek_target(MAX_POSITION - 3, 10), MAX_POSITION);
    assert_eq!(seek_target(MAX_POSITION - 3, 3), MAX_POSITION);
    assert_eq!(seek_target(u64::MAX, -1), MAX_POSITION);
    assert_eq!(MAX_POSITION, u64::MAX / 1_000_000_000);
    assert_eq!(seek_target(10, i64::MIN), 0);
    assert_eq!(seek_target(100, -40), 60);
}

#[test]
fn relative_seek_through_the_player() {
    let mut p = playing("a", &[]);
    assert!(p.seek_enabled);
    assert_eq!(p.run_cmd(Cmd::SeekRelative(-1000), probe(Some(5))), vec![Action::Seek(0)]);
    assert_eq!(
        p.run_cmd(Cmd::SeekRelative(i64::MAX), probe(Some(u64::MAX - 1))),
        vec![Action::Seek(MAX_POSITION)]
    );
    assert_eq!(
        p.run_cmd(Cmd::SeekRelative(i64::MAX), probe(Some(0))),
        vec![Action::Seek(MAX_POSITION)]
    );
    assert_eq!(p.run_cmd(Cmd::Seek(u64::MAX), probe(None)), vec![Action::Seek(MAX_POSITION)]);
    assert_eq!(
        p.run_cmd(Cmd::SeekRelative(3), probe(None)),
        vec![Action::Note(Notice::PositionUnknown)]
    );
}

#[test]
fn seeks_are_rejected_until_seekable() {
    let mut p = Player::new(State::new());
    assert_eq!(p.run_cmd(Cmd::Seek(3), probe(None)), vec![Action::Note(Notice::SeekRejected)]);
    let mut q = playing("a", &[]);
    assert_eq!(q.run_cmd(Cmd::Seek(3), probe(None)), vec![Action::Seek(3)]);
}

#[test]
fn end_of_stream_moves_to_the_next_item() {
    let mut p = playing("A", &["B"]);
    p.run_cmd(Cmd::Pause, probe(Some(40)));
    p.handle_message(reported(Transport::Playing), probe(Some(40)));
    assert_eq!(p.state.get_pos("A"), Some(40));
    let a = p.handle_message(BusMsg::Eos, probe(Some(600)));
    assert_eq!(a, vec![Action::SetState(Transport::Null), uri("B"), Action::SetState(Transport::Playing)]);
    assert_eq!(p.state.get_pos("A"), None);
    assert_eq!(recent_of(&p), vec!["A"]);
    assert_eq!(p.current_uri.as_deref(), Some("B"));
    assert!(queue_of(&p).is_empty());
}

#[test]
fn end_of_stream_with_empty_queue_idles() {
    let mut p = playing("A", &[]);
    let a = p.handle_message(BusMsg::Eos, probe(Some(600)));
    assert_eq!(a, vec![Action::SetState(Transport::Null)]);
    assert_eq!(p.phase, Phase::Idle);
    assert_eq!(p.current_uri, None);
    assert!(p.state.recent.is_empty());
    assert!(queue_of(&p).is_empty());
}

#[test]
fn prev_with_empty_history_makes_no_backend_call() {
    let mut p = playing("A", &[]);
    let mut actions = Vec::new();
    assert!(!p.prev(&mut actions));
    assert!(actions.is_empty());
    assert_eq!(p.current_uri.as_deref(), Some("A"));
    assert_eq!(p.phase, Phase::Playing);
}

#[test]
fn saved_position_beyond_the_backend_is_clamped() {
    let mut p = Player::new(State::new());
    p.state.insert_playable(
        "A".to_string(),
        Playable {
            source: None,
            title: None,
            album: None,
            updated: Some(1),
            progress: Some(u64::MAX),
            length: None,
        },
    );
    p.state.queue("A");
    p.run_cmd(Cmd::Play, probe(None));
    let a = p.handle_message(reported(Transport::Playing), probe(Some(0)));
    assert_eq!(a, vec![Action::Seek(MAX_POSITION)]);
}

#[test]
fn prev_with_empty_history_changes_nothing() {
    let mut p = playing("A", &["B"]);
    let before = (p.current_uri.clone(), queue_of(&p), p.phase, p.state.uris.len(), p.pending_seek);
    let a = p.run_cmd(Cmd::Prev, probe(Some(12)));
    assert!(a.is_empty());
    assert_eq!(before, (p.current_uri.clone(), queue_of(&p), p.phase, p.state.uris.len(), p.pending_seek));
    assert_eq!(p.state.get_pos("A"), None);
}

#[test]
fn play_next_prev_scenario() {
    let mut p = Player::new(State::new());
    p.state.queue("A");
    p.state.queue("B");
    assert!(p.state.recent.is_empty());

    let a = p.run_cmd(Cmd::Play, probe(None));
    assert_eq!(a, vec![uri("A"), Action::SetState(Transport::Playing)]);
    assert_eq!(p.phase, Phase::Loading);
    p.handle_message(reported(Transport::Playing), probe(Some(0)));
    assert_eq!(p.phase, Phase::Playing);

    let a = p.run_cmd(Cmd::Next, probe(Some(30)));
    assert_eq!(a, vec![Action::SetState(Transport::Null), uri("B"), Action::SetState(Transport::Playing)]);
    assert_eq!(recent_of(&p), vec!["A"]);
    assert_eq!(p.current_uri.as_deref(), Some("B"));
    assert!(queue_of(&p).is_empty());
    assert_eq!(p.state.get_pos("A"), Some(30));
    p.handle_message(reported(Transport::Playing), probe(Some(0)));

    let a = p.run_cmd(Cmd::Prev, probe(Some(7)));
    assert_eq!(a, vec![Action::SetState(Transport::Null), uri("A"), Action::SetState(Transport::Playing)]);
    assert!(p.state.recent.is_empty());
    assert_eq!(queue_of(&p), vec!["B"]);
    assert_eq!(p.current_uri.as_deref(), Some("A"));
    assert_eq!(p.pending_seek, Some(30));
    let a = p.handle_message(reported(Transport::Playing), probe(Some(0)));
    assert_eq!(a, vec![Action::Seek(30)]);
    assert_eq!(p.pending_seek, None);
}

#[test]
fn play_with_empty_queue_stays_idle() {
    let mut p = Player::new(State::new());
    assert!(p.run_cmd(Cmd::Play, probe(None)).is_empty());
    assert_eq!(p.phase, Phase::Idle);
    assert_eq!(p.current_uri, None);
}

#[test]
fn play_pause_toggles() {
    let mut p = playing("A", &[]);
    assert_eq!(p.run_cmd(Cmd::PlayPause, probe(Some(9))), vec![Action::SetState(Transport::Paused)]);
    assert_eq!(p.state.get_pos("A"), Some(9));
    p.handle_message(reported(Transport::Paused), probe(Some(9)));
    assert_eq!(p.phase, Phase::Paused);
    assert_eq!(p.run_cmd(Cmd::PlayPause, probe(Some(9))), vec![Action::SetState(Transport::Playing)]);
    assert_eq!(p.phase, Phase::Paused);
    assert_eq!(p.pending_seek, Some(9));
}

#[test]
fn source_error_discards_the_item_and_advances() {
    let mut p = playing("A", &["B"]);
    let a = p.handle_message(
        BusMsg::Error {
            source: "/GstPlayBin:playbin/GstURIDecodeBin:uridecodebin0".to_string(),
            message: "Could not open resource".to_string(),
        },
        probe(None),
    );
    assert_eq!(a, vec![Action::SetState(Transport::Null), uri("B"), Action::SetState(Transport::Playing)]);
    assert!(p.state.recent.is_empty());
    assert_eq!(p.current_uri.as_deref(), Some("B"));
}

#[test]
fn sink_error_resets_the_backend_and_keeps_the_item() {
    let mut p = playing("A", &["B"]);
    let a = p.handle_message(
        BusMsg::Error {
            source: "/GstPlayBin:playbin/GstPulseSink:pulsesink0".to_string(),
            message: "Connection terminated".to_string(),
        },
        probe(Some(3)),
    );
    assert_eq!(
        a,
        vec![
            Action::SetState(Transport::Null),
            Action::Reset,
            uri("A"),
            Action::SetState(Transport::Ready)
        ]
    );
    assert_eq!(p.phase, Phase::Idle);
    assert_eq!(p.current_uri.as_deref(), Some("A"));
    assert_eq!(queue_of(&p), vec!["B"]);
}

#[test]
fn other_errors_mark_the_error_phase() {
    let mut p = playing("A", &[]);
    let a = p.handle_message(
        BusMsg::Error {
            source: "/GstPlayBin:playbin".to_string(),
            message: "Internal data stream error".to_string(),
        },
        probe(None),
    );
    assert!(a.is_empty());
    assert_eq!(p.phase, Phase::Error);
    assert_eq!(p.current_uri.as_deref(), Some("A"));
}

#[test]
fn checkpoint_every_so_many_ticks_while_playing() {
    let mut p = playing("A", &[]);
    p.duration = None;
    for _ in 0..CHECKPOINT_TICKS - 1 {
        assert!(p.tick(probe(Some(50))).is_empty());
    }
    assert_eq!(p.duration, Some(600));
    assert_eq!(p.state.get_pos("A"), None);
    assert_eq!(p.tick(probe(Some(50))), vec![Action::Persist]);
    assert_eq!(p.state.get_pos("A"), Some(50));
    assert_eq!(p.tick_count, 0);
}

#[test]
fn tags_fill_only_missing_descriptions() {
    let mut p = playing("A", &[]);
    let mut rec = Playable {
        source: None,
        title: Some("Given".to_string()),
        album: None,
        updated: Some(1),
        progress: Some(1),
        length: None,
    };
    p.state.insert_playable("A".to_string(), rec);
    p.handle_message(
        BusMsg::Tag {
            artist: Some("X".to_string()),
            title: Some("From stream".to_string()),
            album: Some("Album".to_string()),
        },
        probe(None),
    );
    let got = &p.state.uris[0].1;
    assert_eq!(got.title.as_deref(), Some("Given"));
    assert_eq!(got.album.as_deref(), Some("Album"));
    rec = Playable {
        source: None,
        title: None,
        album: None,
        updated: None,
        progress: None,
        length: None,
    };
    assert_ne!(got, &rec);
}

#[test]
fn shutdown_requeues_and_persists() {
    let mut p = playing("A", &["B"]);
    let a = p.run_cmd(Cmd::Shutdown, probe(Some(77)));
    assert_eq!(a, vec![Action::SetState(Transport::Null), Action::Persist, Action::Quit]);
    assert_eq!(queue_of(&p), vec!["A", "B"]);
    assert_eq!(p.state.get_pos("A"), Some(77));
}

#[test]
fn subscribe_starts_polling_new_feeds_only() {
    let mut p = Player::new(State::new());
    assert_eq!(
        p.run_cmd(Cmd::Subscribe("f".to_string()), probe(None)),
        vec![Action::Subscribe("f".to_string()), Action::Persist]
    );
    assert_eq!(p.run_cmd(Cmd::Subscribe("f".to_string()), probe(None)), vec![Action::Persist]);
    assert_eq!(p.state.rss_feeds, vec!["f"]);
}

#[test]
fn deletions_name_missing_indices() {
    let mut p = Player::new(State::new());
    p.run_cmd(Cmd::Queue("a".to_string()), probe(None));
    assert_eq!(
        p.run_cmd(Cmd::DeleteQueue(9), probe(None)),
        vec![Action::Note(Notice::NoSuchElement(9))]
    );
    assert!(p.run_cmd(Cmd::DeleteQueue(0), probe(None)).is_empty());
    assert_eq!(recent_of(&p), vec!["a"]);
    assert!(p.run_cmd(Cmd::DeleteRecent(0), probe(None)).is_empty());
    assert_eq!(
        p.run_cmd(Cmd::DeleteRecent(0), probe(None)),
        vec![Action::Note(Notice::NoSuchElement(0))]
    );
}

#[test]
fn update_command_merges_progress() {
    let mut p = Player::new(State::new());
    let rec = |t, pos| Playable {
        source: None,
        title: None,
        album: None,
        updated: Some(t),
        progress: Some(pos),
        length: None,
    };
    p.run_cmd(Cmd::Update(UpdateArgs("u".to_string(), rec(10, 100))), probe(None));
    p.run_cmd(Cmd::Update(UpdateArgs("u".to_string(), rec(5, 1))), probe(None));
    assert_eq!(p.state.get_pos("u"), Some(100));
    p.run_cmd(Cmd::Update(UpdateArgs("u".to_string(), rec(11, 2))), probe(None));
    assert_eq!(p.state.get_pos("u"), Some(2));
}

#[test]
fn duration_change_invalidates_the_cache() {
    let mut p = playing("A", &[]);
    p.tick(probe(None));
    assert_eq!(p.duration, Some(600));
    p.handle_message(BusMsg::DurationChanged, probe(None));
    assert_eq!(p.duration, None);
}
