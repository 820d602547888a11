//! Episodes of subscribed feeds: reading a feed document into episodes, and
//! the index that holds all episodes, newest first.

use vstd::prelude::*;
use crate::state::{clone_text, opt_view};
use std::cmp::Ordering;

verus! {

/// An instant: seconds since the epoch, and nanoseconds within that second.
pub type Instant = (i64, u32);

/// The instant that a date written as RFC 2822 prescribes, `None` where the text is no such date.
pub uninterp spec fn rfc2822_instant(s: Seq<char>) -> Option<Instant>;

/// Relies on `chrono::DateTime::parse_from_rfc2822`, with `timestamp` and
/// `timestamp_subsec_nanos` of its result: the instant that the text denotes.
#[verifier::external_body]
fn parse_rfc2822(s: &str) -> (r: Option<Instant>)
    ensures
        r == rfc2822_instant(s@),
{
    chrono::DateTime::parse_from_rfc2822(s).ok().map(|d| (d.timestamp(), d.timestamp_subsec_nanos()))
}

/// One item of a feed document, as plain values.
#[derive(Debug, PartialEq, Eq)]
pub struct FeedEntry {
    pub title: Option<String>,
    pub pub_date: Option<String>,
    /// The URL of the item's media enclosure.
    pub url: Option<String>,
}

/// A feed document: the channel's title and its items in document order.
#[derive(Debug, PartialEq, Eq)]
pub struct FeedDoc {
    pub title: String,
    pub entries: Vec<FeedEntry>,
}

pub type EntryView = (Option<Seq<char>>, Option<Seq<char>>, Option<Seq<char>>);

pub type FeedDocView = (Seq<char>, Seq<EntryView>);

impl View for FeedEntry {
    type V = EntryView;

    open spec fn view(&self) -> EntryView {
        (opt_view(self.title), opt_view(self.pub_date), opt_view(self.url))
    }
}

impl View for FeedDoc {
    type V = FeedDocView;

    open spec fn view(&self) -> FeedDocView {
        (self.title@, self.entries@.map_values(|e: FeedEntry| e@))
    }
}

/// The channel that an RSS document holds: its title and, for each item in
/// order, title, publication date and enclosure URL; `None` where the bytes
/// are no RSS document.
pub uninterp spec fn rss_channel(b: Seq<u8>) -> Option<FeedDocView>;

/// Relies on `rss::Channel::read_from` and the accessors `Channel::title`,
/// `Channel::items`, `Item::title`, `Item::pub_date`, `Item::enclosure` and
/// `Enclosure::url`: the channel that the document holds.
#[verifier::external_body]
fn read_channel(bytes: &[u8]) -> (r: Option<FeedDoc>)
    ensures
        match r {
            Some(d) => rss_channel(bytes@) == Some(d@),
            None => rss_channel(bytes@) is None,
        },
{
    rss::Channel::read_from(bytes).ok().map(|c| FeedDoc {
        title: c.title().to_string(),
        entries: c.items().iter().map(|i| FeedEntry {
            title: i.title().map(str::to_string),
            pub_date: i.pub_date().map(str::to_string),
            url: i.enclosure().map(|e| e.url().to_string()),
        }).collect(),
    })
}

/// An episode found in a feed, with its publication instant where its date could be read.
#[derive(Debug, PartialEq, Eq)]
pub struct Episode {
    pub channel_title: String,
    pub title: Option<String>,
    pub pub_date: Option<String>,
    pub url: Option<String>,
    pub date: Option<Instant>,
}

pub struct EpisodeView {
    pub channel_title: Seq<char>,
    pub title: Option<Seq<char>>,
    pub pub_date: Option<Seq<char>>,
    pub url: Option<Seq<char>>,
    pub date: Option<Instant>,
}

impl View for Episode {
    type V = EpisodeView;

    open spec fn view(&self) -> EpisodeView {
        EpisodeView {
            channel_title: self.channel_title@,
            title: opt_view(self.title),
            pub_date: opt_view(self.pub_date),
            url: opt_view(self.url),
            date: self.date,
        }
    }
}

/// Date `a` sorts strictly before date `b`: later instants first, missing or
/// unreadable dates after all readable ones.
pub open spec fn sorts_before(a: Option<Instant>, b: Option<Instant>) -> bool {
    match (a, b) {
        (Some(x), Some(y)) => x.0 > y.0 || (x.0 == y.0 && x.1 > y.1),
        (Some(_), None) => true,
        _ => false,
    }
}

/// The episode of `entry` in the channel titled `channel`, dated `date`.
pub open spec fn entry_episode(channel: Seq<char>, entry: EntryView, date: Option<Instant>) -> EpisodeView {
    EpisodeView { channel_title: channel, title: entry.0, pub_date: entry.1, url: entry.2, date }
}

/// The publication instant of an entry.
pub open spec fn entry_date(entry: EntryView) -> Option<Instant> {
    match entry.1 {
        Some(d) => rfc2822_instant(d),
        None => None,
    }
}

/// The episodes of a feed document, one per entry, in document order.
pub open spec fn doc_episodes(doc: FeedDocView) -> Seq<EpisodeView> {
    doc.1.map_values(|e: EntryView| entry_episode(doc.0, e, entry_date(e)))
}

fn same_text(a: &Option<String>, b: &Option<String>) -> (r: bool)
    ensures
        r == (opt_view(*a) == opt_view(*b)),
{
    match (a, b) {
        (Some(x), Some(y)) => *x == *y,
        (None, None) => true,
        _ => false,
    }
}

fn same_date(a: Option<Instant>, b: Option<Instant>) -> (r: bool)
    ensures
        r == (a == b),
{
    match (a, b) {
        (Some(x), Some(y)) => x.0 == y.0 && x.1 == y.1,
        (None, None) => true,
        _ => false,
    }
}

/// Whether date `a` sorts strictly before date `b`.
fn date_before(a: Option<Instant>, b: Option<Instant>) -> (r: bool)
    ensures
        r == sorts_before(a, b),
{
    match (a, b) {
        (Some(x), Some(y)) => x.0 > y.0 || (x.0 == y.0 && x.1 > y.1),
        (Some(_), None) => true,
        _ => false,
    }
}

impl Episode {
    /// The episode of `entry` in the channel titled `channel_title`, its
    /// publication date read as `date`.
    pub fn from_entry(channel_title: &String, entry: &FeedEntry, date: Option<Instant>) -> (r: Episode)
        ensures
            r@ == entry_episode(channel_title@, entry@, date),
    {
        Episode {
            channel_title: channel_title.clone(),
            title: clone_text(&entry.title),
            pub_date: clone_text(&entry.pub_date),
            url: clone_text(&entry.url),
            date,
        }
    }

    /// The order of episodes by date: `Less` where `self` sorts first (it is
    /// newer, or only it has a readable date), `Greater` where `other` does.
    pub fn cmp_date(&self, other: &Episode) -> (r: Ordering)
        ensures
            r == Ordering::Less <==> sorts_before(self.date, other.date),
            r == Ordering::Greater <==> sorts_before(other.date, self.date),
            r == Ordering::Equal <==> self.date == other.date,
    {
        if date_before(self.date, other.date) {
            Ordering::Less
        } else if date_before(other.date, self.date) {
            Ordering::Greater
        } else {
            Ordering::Equal
        }
    }

    /// Equal in every field.
    pub fn same(&self, other: &Episode) -> (r: bool)
        ensures
            r == (self@ == other@),
    {
        self.channel_title == other.channel_title && same_text(&self.title, &other.title)
            && same_text(&self.pub_date, &other.pub_date) && same_text(&self.url, &other.url)
            && same_date(self.date, other.date)
    }
}

/// The episodes of a feed document, one per entry, in document order.
pub fn episodes_of(doc: &FeedDoc) -> (r: Vec<Episode>)
    ensures
        r@.map_values(|e: Episode| e@) == doc_episodes(doc@),
{
    let mut r: Vec<Episode> = Vec::new();
    let mut i: usize = 0;
    while i < doc.entries.len()
        invariant
            i <= doc.entries@.len(),
            r@.map_values(|e: Episode| e@) == doc_episodes(doc@).subrange(0, i as int),
        decreases doc.entries@.len() - i,
    {
        let entry = &doc.entries[i];
        let date = match &entry.pub_date {
            Some(d) => parse_rfc2822(d.as_str()),
            None => None,
        };
        assert(date == entry_date(entry@));
        assert(doc@.1[i as int] == entry@);
        let ghost before = r@;
        let ep = Episode::from_entry(&doc.title, entry, date);
        assert(ep@ == doc_episodes(doc@)[i as int]);
        r.push(ep);
        assert(r@ == before.push(ep));
        assert(r@.map_values(|e: Episode| e@) =~= before.map_values(|e: Episode| e@).push(ep@));
        assert(doc_episodes(doc@).subrange(0, i + 1) =~= doc_episodes(doc@).subrange(0, i as int).push(
            ep@,
        ));
        i = i + 1;
    }
    assert(doc_episodes(doc@).subrange(0, i as int) =~= doc_episodes(doc@));
    r
}

/// The episodes of an RSS document; `None` where the bytes are no RSS document.
pub fn feed_episodes(bytes: &[u8]) -> (r: Option<Vec<Episode>>)
    ensures
        match rss_channel(bytes@) {
            Some(doc) => r is Some && r.unwrap()@.map_values(|e: Episode| e@) == doc_episodes(doc),
            None => r is None,
        },
{
    match read_channel(bytes) {
        Some(doc) => Some(episodes_of(&doc)),
        None => None,
    }
}

/// A subscribed feed: its URI and the last document that could be read from it.
pub struct RssFeed {
    pub uri: String,
    pub channel: Option<FeedDoc>,
}

impl RssFeed {
    /// A feed at `uri`, not read yet.
    pub fn new(uri: String) -> (r: RssFeed)
        ensures
            r.uri@ == uri@,
            r.channel is None,
    {
        RssFeed { uri, channel: None }
    }

    /// Takes a freshly fetched document: where it reads as RSS it replaces the
    /// last one and `true` is returned; else the last one stays.
    pub fn load(&mut self, content: &[u8]) -> (r: bool)
        ensures
            final(self).uri == old(self).uri,
            r == (rss_channel(content@) is Some),
            r ==> final(self).channel is Some && rss_channel(content@) == Some(
                final(self).channel.unwrap()@,
            ),
            !r ==> final(self).channel == old(self).channel,
    {
        match read_channel(content) {
            Some(doc) => {
                self.channel = Some(doc);
                true
            },
            None => false,
        }
    }

    /// One polling cycle: where a document was fetched and reads as RSS it
    /// replaces the last one and its episodes are returned; where the fetch
    /// failed or the document does not read, the cycle is skipped: no
    /// episodes, and the last document stays.
    pub fn refresh(&mut self, fetched: Option<Vec<u8>>) -> (r: Vec<Episode>)
        ensures
            final(self).uri == old(self).uri,
            match fetched {
                Some(body) => match rss_channel(body@) {
                    Some(doc) => final(self).channel is Some && final(self).channel.unwrap()@ == doc
                        && r@.map_values(|e: Episode| e@) == doc_episodes(doc),
                    None => final(self).channel == old(self).channel && r@.len() == 0,
                },
                None => final(self).channel == old(self).channel && r@.len() == 0,
            },
    {
        match fetched {
            Some(body) => {
                if self.load(body.as_slice()) {
                    self.episodes()
                } else {
                    Vec::new()
                }
            },
            None => Vec::new(),
        }
    }

    /// The episodes of the last document read, none before the first.
    pub fn episodes(&self) -> (r: Vec<Episode>)
        ensures
            match self.channel {
                Some(doc) => r@.map_values(|e: Episode| e@) == doc_episodes(doc@),
                None => r@.len() == 0,
            },
    {
        match &self.channel {
            Some(doc) => episodes_of(doc),
            None => Vec::new(),
        }
    }
}

/// The views of `s`.
pub open spec fn views(s: Seq<Episode>) -> Seq<EpisodeView> {
    s.map_values(|e: Episode| e@)
}

/// No episode sorts before one that precedes it.
pub open spec fn sorted(s: Seq<EpisodeView>) -> bool {
    forall|i: int, j: int| 0 <= i < j < s.len() ==> !sorts_before(#[trigger] s[j].date, #[trigger] s[i].date)
}

/// All episodes found so far, newest first.
pub struct EpisodeIndex {
    pub episodes: Vec<Episode>,
}

impl View for EpisodeIndex {
    type V = Seq<EpisodeView>;

    open spec fn view(&self) -> Seq<EpisodeView> {
        views(self.episodes@)
    }
}

impl EpisodeIndex {
    pub open spec fn wf(&self) -> bool {
        sorted(self@)
    }

    pub fn new() -> (r: EpisodeIndex)
        ensures
            r.wf(),
            r@.len() == 0,
    {
        EpisodeIndex { episodes: Vec::new() }
    }

    pub fn len(&self) -> (r: usize)
        ensures
            r == self@.len(),
    {
        self.episodes.len()
    }

    /// Adds each of `eps`, as `insert` does, taking them from the back.
    pub fn insert_all(&mut self, eps: Vec<Episode>)
        requires
            old(self).wf(),
        ensures
            final(self).wf(),
            forall|i: int| 0 <= i < eps@.len() ==> final(self)@.contains(#[trigger] eps@[i]@),
            forall|i: int| 0 <= i < old(self)@.len() ==> final(self)@.contains(#[trigger] old(self)@[i]),
            forall|i: int|
                0 <= i < final(self)@.len() ==> old(self)@.contains(#[trigger] final(self)@[i]) || exists|
                    j: int,
                | 0 <= j < eps@.len() && eps@[j]@ == final(self)@[i],
    {
        let ghost all = eps@;
        let ghost start = self@;
        let mut eps = eps;
        while eps.len() > 0
            invariant
                self.wf(),
                eps@.len() <= all.len(),
                eps@ == all.subrange(0, eps@.len() as int),
                forall|i: int| eps@.len() <= i < all.len() ==> self@.contains(#[trigger] all[i]@),
                forall|i: int| 0 <= i < start.len() ==> self@.contains(#[trigger] start[i]),
                forall|i: int|
                    0 <= i < self@.len() ==> start.contains(#[trigger] self@[i]) || exists|j: int|
                        0 <= j < all.len() && all[j]@ == self@[i],
            decreases eps@.len(),
        {
            let ghost before = self@;
            let ghost n = eps@.len();
            let ep = eps.pop().unwrap();
            let ghost e = ep@;
            assert(ep == all[n - 1]);
            assert(eps@ =~= all.subrange(0, n - 1));
            self.insert(ep);
            assert forall|x: EpisodeView| before.contains(x) implies self@.contains(x) by {
                let j = choose|j: int| 0 <= j < before.len() && before[j] == x;
                if !before.contains(e) {
                    let k = choose|k: int|
                        0 <= k <= before.len() && self@ == before.insert(k, e) && (forall|i: int|
                            0 <= i < k ==> !sorts_before(e.date, #[trigger] before[i].date)) && (
                        forall|i: int|
                            k <= i < before.len() ==> sorts_before(e.date, #[trigger] before[i].date));
                    if j < k {
                        assert(self@[j] == x);
                    } else {
                        assert(self@[j + 1] == x);
                    }
                }
            }
            assert forall|i: int| 0 <= i < self@.len() implies start.contains(#[trigger] self@[i])
                || exists|j: int| 0 <= j < all.len() && all[j]@ == self@[i] by {
                if before.contains(e) {
                    assert(self@[i] == before[i]);
                } else {
                    let k = choose|k: int|
                        0 <= k <= before.len() && self@ == before.insert(k, e) && (forall|i: int|
                            0 <= i < k ==> !sorts_before(e.date, #[trigger] before[i].date)) && (
                        forall|i: int|
                            k <= i < before.len() ==> sorts_before(e.date, #[trigger] before[i].date));
                    if i < k {
                        assert(self@[i] == before[i]);
                    } else if i == k {
                        assert(all[n - 1]@ == self@[i]);
                    } else {
                        assert(self@[i] == before[i - 1]);
                    }
                }
            }
            assert(self@.contains(e)) by {
                if !before.contains(e) {
                    let k = choose|k: int|
                        0 <= k <= before.len() && self@ == before.insert(k, e) && (forall|i: int|
                            0 <= i < k ==> !sorts_before(e.date, #[trigger] before[i].date)) && (
                        forall|i: int|
                            k <= i < before.len() ==> sorts_before(e.date, #[trigger] before[i].date));
                    assert(self@[k] == e);
                }
            }
        }
    }

    /// Adds `ep` after every episode that does not sort after it, so that
    /// episodes of equal date stay in the order they came; an episode equal
    /// in every field to one already held is not added again.
    pub fn insert(&mut self, ep: Episode) -> (r: bool)
        requires
            old(self).wf(),
        ensures
            final(self).wf(),
            r == !old(self)@.contains(ep@),
            !r ==> final(self)@ == old(self)@,
            r ==> exists|k: int|
                0 <= k <= old(self)@.len() && final(self)@ == old(self)@.insert(k, ep@) && (forall|
                    i: int,
                | 0 <= i < k ==> !sorts_before(ep@.date, #[trigger] old(self)@[i].date)) && (
                forall|i: int| k <= i < old(self)@.len() ==> sorts_before(
                    ep@.date,
                    #[trigger] old(self)@[i].date,
                )),
    {
        let n = self.episodes.len();
        let mut i: usize = 0;
        while i < n
            invariant
                self.wf(),
                n == self.episodes@.len(),
                i <= n,
                forall|j: int| 0 <= j < i ==> (#[trigger] self@[j]) != ep@,
            decreases n - i,
        {
            if self.episodes[i].same(&ep) {
                assert(self@[i as int] == ep@);
                return false;
            }
            i = i + 1;
        }
        let ghost s = self@;
        assert(!s.contains(ep@)) by {
            if s.contains(ep@) {
                let j = choose|j: int| 0 <= j < s.len() && s[j] == ep@;
                assert(s[j] == ep@);
            }
        }
        let mut k: usize = 0;
        while k < n && !date_before(ep.date, self.episodes[k].date)
            invariant
                n == self.episodes@.len(),
                k <= n,
                s == self@,
                forall|j: int| 0 <= j < k ==> !sorts_before(ep@.date, #[trigger] s[j].date),
            decreases n - k,
        {
            k = k + 1;
        }
        proof {
            // every later episode sorts after `ep`, since the index is sorted
            assert forall|j: int| k <= j < s.len() implies sorts_before(ep@.date, #[trigger] s[j].date) by {
                assert(sorts_before(ep@.date, s[k as int].date));
                if j > k {
                    assert(!sorts_before(s[j].date, s[k as int].date));
                }
            }
        }
        let ghost e = ep@;
        self.episodes.insert(k, ep);
        assert(self@ =~= s.insert(k as int, e));
        assert forall|a: int, b: int| 0 <= a < b < self@.len() implies !sorts_before(
            #[trigger] self@[b].date,
            #[trigger] self@[a].date,
        ) by {
            if a < k && b < k {
                assert(self@[a] == s[a] && self@[b] == s[b]);
            } else if a < k && b == k {
                assert(self@[a] == s[a]);
            } else if a < k {
                assert(self@[a] == s[a] && self@[b] == s[b - 1]);
            } else if a == k {
                assert(self@[b] == s[b - 1]);
            } else {
                assert(self@[a] == s[a - 1] && self@[b] == s[b - 1]);
            }
        }
        true
    }
}

} // verus!
