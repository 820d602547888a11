use podaemon::feed::{feed_episodes, Episode, EpisodeIndex, FeedEntry, RssFeed};
use std::cmp::Ordering;

const DOC: &str = r#"<?xml version="1.0" encoding="UTF-8"?>
<rss version="2.0"><channel><title>Show</title><link>http://x</link><description>d</description>
<item><title>Old</title><pubDate>Tue, 10 Jun 2003 04:00:00 GMT</pubDate><enclosure url="http://x/old.mp3" length="1" type="audio/mpeg"/></item>
<item><title>New</title><pubDate>Wed, 11 Jun 2003 04:00:00 +0200</pubDate><enclosure url="http://x/new.mp3" length="1" type="audio/mpeg"/></item>
<item><title>Undated</title></item>
</channel></rss>"#;

fn titles(index: &EpisodeIndex) -> Vec<String> {
    index.episodes.iter().map(|e| e.title.clone().unwrap_or_default()).collect()
}

#[test]
fn feed_document_gives_one_episode_per_item() {
    let eps = feed_episodes(DOC.as_bytes()).unwrap();
    assert_eq!(eps.len(), 3);
    assert!(eps.iter().all(|e| e.channel_title == "Show"));
    assert_eq!(eps[0].title.as_deref(), Some("Old"));
    assert_eq!(eps[0].url.as_deref(), Some("http://x/old.mp3"));
    assert_eq!(eps[0].date, Some((1055217600, 0)));
    assert_eq!(eps[1].date, Some((1055296800, 0)));
    assert_eq!(eps[2].date, None);
    assert_eq!(eps[2].url, None);
}

#[test]
fn unreadable_documents_give_nothing() {
    assert!(feed_episodes(b"<html><body>moved</body></html>").is_none());
    assert!(feed_episodes(b"").is_none());
}

#[test]
fn unreadable_dates_have_no_instant() {
    let doc = DOC.replace("Tue, 10 Jun 2003 04:00:00 GMT", "yesterday");
    let eps = feed_episodes(doc.as_bytes()).unwrap();
    assert_eq!(eps[0].pub_date.as_deref(), Some("yesterday"));
    assert_eq!(eps[0].date, None);
}

#[test]
fn index_orders_newest_first_and_skips_duplicates() {
    let mut index = EpisodeIndex::new();
    let eps = feed_episodes(DOC.as_bytes()).unwrap();
    index.insert_all(eps);
    assert_eq!(titles(&index), vec!["New", "Old", "Undated"]);
    let again = feed_episodes(DOC.as_bytes()).unwrap();
    for e in again {
        assert!(!index.insert(e));
    }
    assert_eq!(index.len(), 3);
}

#[test]
fn equal_dates_keep_arrival_order() {
    let mut index = EpisodeIndex::new();
    let ep = |t: &str, d: Option<(i64, u32)>| {
        Episode::from_entry(
            &"C".to_string(),
            &FeedEntry { title: Some(t.to_string()), pub_date: None, url: None },
            d,
        )
    };
    assert!(index.insert(ep("x", Some((5, 0)))));
    assert!(index.insert(ep("none", None)));
    assert!(index.insert(ep("y", Some((5, 0)))));
    assert!(index.insert(ep("later", Some((5, 1)))));
    assert_eq!(titles(&index), vec!["later", "x", "y", "none"]);
}

#[test]
fn dates_compare_newest_first() {
    let e = |d: Option<(i64, u32)>| {
        Episode::from_entry(&"C".to_string(), &FeedEntry { title: None, pub_date: None, url: None }, d)
    };
    assert_eq!(e(Some((10, 0))).cmp_date(&e(Some((9, 0)))), Ordering::Less);
    assert_eq!(e(Some((9, 0))).cmp_date(&e(Some((10, 0)))), Ordering::Greater);
    assert_eq!(e(Some((9, 0))).cmp_date(&e(None)), Ordering::Less);
    assert_eq!(e(None).cmp_date(&e(None)), Ordering::Equal);
    assert!(e(None).same(&e(None)));
    assert!(!e(None).same(&e(Some((1, 0)))));
}

#[test]
fn failed_fetch_keeps_the_last_document() {
    let mut feed = RssFeed::new("http://x/feed".to_string());
    assert!(feed.episodes().is_empty());
    assert!(feed.load(DOC.as_bytes()));
    assert_eq!(feed.episodes().len(), 3);
    assert!(!feed.load(b"garbage"));
    assert_eq!(feed.episodes().len(), 3);
    assert_eq!(feed.channel.as_ref().unwrap().title, "Show");
}

#[test]
fn refresh_skips_the_cycle_on_failure() {
    let mut feed = RssFeed::new("http://x/feed".to_string());
    assert!(feed.refresh(None).is_empty());
    assert_eq!(feed.refresh(Some(DOC.as_bytes().to_vec())).len(), 3);
    assert!(feed.refresh(Some(b"garbage".to_vec())).is_empty());
    assert!(feed.refresh(None).is_empty());
    assert_eq!(feed.episodes().len(), 3);
}
