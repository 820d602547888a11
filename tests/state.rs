use podaemon::log::EventLog;
use podaemon::state::{get_time, get_time_logged, Playable, State, RECENT_CAPACITY};

fn record(updated: Option<u64>, progress: Option<u64>, length: Option<u64>) -> Playable {
    Playable {
        source: None,
        title: None,
        album: None,
        updated,
        progress,
        length,
    }
}

fn queue_of(s: &State) -> Vec<String> {
    s.queue.iter().cloned().collect()
}

fn recent_of(s: &State) -> Vec<String> {
    s.recent.iter().cloned().collect()
}

fn stored<'a>(s: &'a State, uri: &str) -> Option<&'a Playable> {
    s.uris.iter().find(|(k, _)| k == uri).map(|(_, p)| p)
}

#[test]
fn queue_is_first_in_first_out() {
    let mut s = State::new();
    for u in ["a", "b", "c"] {
        s.queue(u);
    }
    assert_eq!(s.pop_queue(), Some("a".to_string()));
    s.queue("d");
    assert_eq!(s.pop_queue(), Some("b".to_string()));
    assert_eq!(s.pop_queue(), Some("c".to_string()));
    assert_eq!(s.pop_queue(), Some("d".to_string()));
    assert_eq!(s.pop_queue(), None);
}

#[test]
fn queue_front_is_taken_next() {
    let mut s = State::new();
    s.queue("a");
    s.queue_front("z");
    assert_eq!(queue_of(&s), vec!["z", "a"]);
    assert_eq!(s.pop_queue(), Some("z".to_string()));
}

#[test]
fn history_keeps_the_newest_entries() {
    let mut s = State::new();
    for i in 0..40 {
        s.push_recent(&format!("u{i}"));
        assert!(s.recent.len() <= RECENT_CAPACITY);
    }
    assert_eq!(s.recent.len(), 32);
    let r = recent_of(&s);
    assert_eq!(r[0], "u39");
    assert_eq!(r[31], "u8");
    assert_eq!(s.pop_recent(), Some("u39".to_string()));
    assert_eq!(s.recent.len(), 31);
}

#[test]
fn merging_twice_is_merging_once() {
    let mut once = State::new();
    once.update_playable("u".to_string(), record(Some(5), Some(10), Some(100)));
    once.update_playable("u".to_string(), record(Some(9), Some(20), Some(100)));
    let mut twice = State::new();
    twice.update_playable("u".to_string(), record(Some(5), Some(10), Some(100)));
    twice.update_playable("u".to_string(), record(Some(9), Some(20), Some(100)));
    twice.update_playable("u".to_string(), record(Some(9), Some(20), Some(100)));
    assert_eq!(stored(&once, "u"), stored(&twice, "u"));
    assert_eq!(stored(&twice, "u"), Some(&record(Some(9), Some(20), Some(100))));
    assert_eq!(twice.uris.len(), 1);
}

#[test]
fn older_update_keeps_position_and_fills_titles() {
    let mut s = State::new();
    s.insert_playable("u".to_string(), record(Some(50), Some(300), Some(900)));
    let mut older = record(Some(10), Some(5), Some(7));
    older.title = Some("Episode 4".to_string());
    older.album = Some("Show".to_string());
    s.update_playable("u".to_string(), older);
    let got = stored(&s, "u").unwrap();
    assert_eq!(got.progress, Some(300));
    assert_eq!(got.length, Some(900));
    assert_eq!(got.updated, Some(50));
    assert_eq!(got.title.as_deref(), Some("Episode 4"));
    assert_eq!(got.album.as_deref(), Some("Show"));
}

#[test]
fn newer_update_keeps_stored_titles() {
    let mut s = State::new();
    let mut first = record(Some(1), Some(3), None);
    first.title = Some("Kept".to_string());
    s.insert_playable("u".to_string(), first);
    let mut newer = record(Some(2), Some(4), Some(60));
    newer.title = Some("Ignored".to_string());
    s.update_playable("u".to_string(), newer);
    let got = stored(&s, "u").unwrap();
    assert_eq!(got.title.as_deref(), Some("Kept"));
    assert_eq!(got.progress, Some(4));
    assert_eq!(got.updated, Some(2));
    assert_eq!(got.length, Some(60));
}

#[test]
fn update_without_record_stores_it() {
    let mut s = State::new();
    s.update_playable("n".to_string(), record(None, Some(8), None));
    assert_eq!(s.get_pos("n"), Some(8));
    assert_eq!(s.get_pos("other"), None);
}

#[test]
fn reset_pos_clears_the_record() {
    let mut s = State::new();
    s.insert_playable("a".to_string(), record(Some(1), Some(2), None));
    s.insert_playable("b".to_string(), record(Some(1), Some(3), None));
    s.reset_pos("a");
    assert_eq!(s.get_pos("a"), None);
    assert_eq!(s.get_pos("b"), Some(3));
    s.reset_pos("missing");
    assert_eq!(s.uris.len(), 1);
}

#[test]
fn record_position_keeps_descriptions() {
    let mut s = State::new();
    let mut r = record(Some(1), Some(2), None);
    r.title = Some("T".to_string());
    s.insert_playable("a".to_string(), r);
    s.record_position("a", 77, Some(120), 99);
    let got = stored(&s, "a").unwrap();
    assert_eq!(got.title.as_deref(), Some("T"));
    assert_eq!((got.updated, got.progress, got.length), (Some(99), Some(77), Some(120)));
    s.record_position("b", 5, None, 6);
    assert_eq!(stored(&s, "b"), Some(&record(Some(6), Some(5), None)));
}

#[test]
fn subscriptions_are_a_set() {
    let mut s = State::new();
    assert!(s.subscribe("f1".to_string()));
    assert!(s.subscribe("f2".to_string()));
    assert!(!s.subscribe("f1".to_string()));
    assert_eq!(s.rss_feeds, vec!["f1", "f2"]);
}

#[test]
fn deleting_from_the_queue_moves_the_item_to_history() {
    let mut s = State::new();
    s.queue("a");
    s.queue("b");
    assert_eq!(s.delete_queue(1), Some("b".to_string()));
    assert_eq!(queue_of(&s), vec!["a"]);
    assert_eq!(recent_of(&s), vec!["b"]);
    assert_eq!(s.delete_queue(5), None);
    assert_eq!(s.delete_recent(0), Some("b".to_string()));
    assert_eq!(s.delete_recent(0), None);
}

#[test]
fn clock_reads_after_the_epoch() {
    assert!(get_time() > 1_600_000_000);
}

#[test]
fn progress_is_shown_as_percent_minutes_or_na() {
    assert_eq!(record(None, Some(50), Some(99)).progress_string(), "50%");
    assert_eq!(record(None, Some(125), None).progress_string(), "2m");
    assert_eq!(record(None, None, Some(99)).progress_string(), "n/a");
    assert_eq!(record(None, Some(u64::MAX), Some(0)).progress_string(), "1844674407370955161500%");
    assert_eq!(record(None, Some(0), Some(u64::MAX)).progress_string(), "0%");
}

#[test]
fn state_rebuilt_from_its_parts() {
    let mut s = State::new();
    s.subscribe("f1".to_string());
    s.subscribe("f2".to_string());
    s.insert_playable("a".to_string(), record(Some(1), Some(2), Some(3)));
    s.insert_playable("b".to_string(), record(None, Some(4), None));
    s.queue("q1");
    s.queue("q2");
    s.push_recent("r1");
    s.push_recent("r2");
    let t = State::from_parts(
        s.rss_feeds.clone(),
        s.uris.iter().map(|(k, p)| (k.clone(), record(p.updated, p.progress, p.length))).collect(),
        queue_of(&s),
        recent_of(&s),
    );
    assert_eq!(t.rss_feeds, s.rss_feeds);
    assert_eq!(t.uris, s.uris);
    assert_eq!(queue_of(&t), queue_of(&s));
    assert_eq!(recent_of(&t), vec!["r2", "r1"]);
}

#[test]
fn parts_are_normalised() {
    let many: Vec<String> = (0..40).map(|i| format!("r{i}")).collect();
    let t = State::from_parts(
        vec!["f".to_string(), "g".to_string(), "f".to_string()],
        vec![
            ("a".to_string(), record(Some(1), Some(1), None)),
            ("a".to_string(), record(Some(2), Some(9), None)),
        ],
        vec![],
        many,
    );
    assert_eq!(t.rss_feeds, vec!["f", "g"]);
    assert_eq!(t.uris.len(), 1);
    assert_eq!(t.get_pos("a"), Some(9));
    assert_eq!(t.recent.len(), RECENT_CAPACITY);
    assert_eq!(t.recent[31], "r31");
}

#[test]
fn default_update_is_empty() {
    let d = podaemon::cmd::UpdateArgs::default();
    assert_eq!(d.0, "");
    assert_eq!(d.1, record(None, None, None));
}

#[test]
fn clock_read_logs_nothing_when_it_works() {
    let mut log = EventLog::new();
    assert!(get_time_logged(&mut log) > 1_600_000_000);
    assert!(log.entries.is_empty());
}
