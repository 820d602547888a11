//! The persisted playback state: the play queue, the bounded history of
//! recently played items, per-item progress records, and the feed subscriptions.

use vstd::prelude::*;
use vstd::string::*;
use crate::log::{EventLog, LOG_CAPACITY};
use crate::text::{decimal, decimal_string};

verus! {

/// How many entries the history of recently played items holds.
pub const RECENT_CAPACITY: usize = 32;

/// The stored progress and description of one playable item.
#[derive(Debug, PartialEq, Eq)]
pub struct Playable {
    pub source: Option<String>,
    pub title: Option<String>,
    pub album: Option<String>,
    /// When the position below was taken, in seconds since the epoch.
    pub updated: Option<u64>,
    /// The playback position, in seconds.
    pub progress: Option<u64>,
    /// The total duration, in seconds.
    pub length: Option<u64>,
}

pub struct PlayableView {
    pub source: Option<Seq<char>>,
    pub title: Option<Seq<char>>,
    pub album: Option<Seq<char>>,
    pub updated: Option<u64>,
    pub progress: Option<u64>,
    pub length: Option<u64>,
}

pub open spec fn opt_view(o: Option<String>) -> Option<Seq<char>> {
    match o {
        Some(s) => Some(s@),
        None => None,
    }
}

impl View for Playable {
    type V = PlayableView;

    open spec fn view(&self) -> PlayableView {
        PlayableView {
            source: opt_view(self.source),
            title: opt_view(self.title),
            album: opt_view(self.album),
            updated: self.updated,
            progress: self.progress,
            length: self.length,
        }
    }
}

/// How far playback of a record has got, for display: the percentage of the
/// duration, or whole minutes where the duration is unknown, or `n/a`.
pub open spec fn progress_text(p: PlayableView) -> Seq<char> {
    match (p.progress, p.length) {
        (Some(pos), Some(len)) => decimal((100 * pos as nat) / (len + 1) as nat) + "%"@,
        (Some(pos), None) => decimal(pos as nat / 60) + "m"@,
        _ => "n/a"@,
    }
}

impl Playable {
    /// How far playback has got: `42%`, `17m`, or `n/a`.
    pub fn progress_string(&self) -> (r: String)
        ensures
            r@ == progress_text(self@),
    {
        match (self.progress, self.length) {
            (Some(pos), Some(len)) => {
                let f: u128 = (100 * pos as u128) / (len as u128 + 1);
                let mut s = decimal_string(f);
                s.append("%");
                s
            },
            (Some(pos), None) => {
                let mut s = decimal_string((pos / 60) as u128);
                s.append("m");
                s
            },
            _ => String::from_str("n/a"),
        }
    }
}

/// Timestamp `a` is later than `b`; an absent timestamp is earlier than any present one.
pub open spec fn later(a: Option<u64>, b: Option<u64>) -> bool {
    match (a, b) {
        (Some(x), Some(y)) => x > y,
        (Some(_), None) => true,
        _ => false,
    }
}

pub open spec fn first_of(a: Option<Seq<char>>, b: Option<Seq<char>>) -> Option<Seq<char>> {
    if a is Some {
        a
    } else {
        b
    }
}

/// The record stored after `new` is merged into the stored record `old`: the
/// later timestamp wins position, duration and timestamp; each descriptive
/// field is kept from `old` and taken from `new` only where `old` lacks it.
pub open spec fn merge(old: PlayableView, new: PlayableView) -> PlayableView {
    let newer = later(new.updated, old.updated);
    PlayableView {
        source: first_of(old.source, new.source),
        title: first_of(old.title, new.title),
        album: first_of(old.album, new.album),
        updated: if newer { new.updated } else { old.updated },
        progress: if newer { new.progress } else { old.progress },
        length: if newer { new.length } else { old.length },
    }
}

pub open spec fn texts(s: Seq<String>) -> Seq<Seq<char>> {
    s.map_values(|x: String| x@)
}

pub open spec fn has_key(e: Seq<(String, Playable)>, k: Seq<char>) -> bool {
    exists|i: int| 0 <= i < e.len() && (#[trigger] e[i]).0@ == k
}

pub open spec fn key_index(e: Seq<(String, Playable)>, k: Seq<char>) -> int {
    choose|i: int| 0 <= i < e.len() && (#[trigger] e[i]).0@ == k
}

/// The progress records as a map from item URI to record.
pub open spec fn records(e: Seq<(String, Playable)>) -> Map<Seq<char>, PlayableView> {
    Map::new(|k: Seq<char>| has_key(e, k), |k: Seq<char>| e[key_index(e, k)].1@)
}

pub open spec fn keys_unique(e: Seq<(String, Playable)>) -> bool {
    forall|i: int, j: int|
        0 <= i < e.len() && 0 <= j < e.len() && i != j ==> (#[trigger] e[i]).0@ != (#[trigger] e[j]).0@
}

/// A copy of `o`.
pub fn clone_text(o: &Option<String>) -> (r: Option<String>)
    ensures
        r == *o,
{
    match o {
        Some(s) => Some(s.clone()),
        None => None,
    }
}

/// The authoritative playback state.
pub struct State {
    /// The URIs of the subscribed feeds.
    pub rss_feeds: Vec<String>,
    /// Progress records, at most one per URI.
    pub uris: Vec<(String, Playable)>,
    /// Items waiting to be played, the next one at the front.
    pub queue: std::collections::VecDeque<String>,
    /// Items played before, the most recent at the front.
    pub recent: std::collections::VecDeque<String>,
}

pub struct StateView {
    pub feeds: Seq<Seq<char>>,
    pub items: Map<Seq<char>, PlayableView>,
    pub queue: Seq<Seq<char>>,
    pub recent: Seq<Seq<char>>,
}

impl View for State {
    type V = StateView;

    open spec fn view(&self) -> StateView {
        StateView {
            feeds: texts(self.rss_feeds@),
            items: records(self.uris@),
            queue: texts(self.queue@),
            recent: texts(self.recent@),
        }
    }
}

/// History `r` after `u` is recorded as its most recent entry: when full, it
/// drops its oldest entry first.
pub open spec fn recent_after(r: Seq<Seq<char>>, u: Seq<char>) -> Seq<Seq<char>> {
    seq![u] + if r.len() == RECENT_CAPACITY {
        r.drop_last()
    } else {
        r
    }
}

/// The state after `u` is recorded as the most recently played item.
pub open spec fn with_recent(s: StateView, u: Seq<char>) -> StateView {
    StateView { recent: recent_after(s.recent, u), ..s }
}

/// The records after `r` is merged into the record of `u`, or stored where there is none.
pub open spec fn updated_items(
    m: Map<Seq<char>, PlayableView>,
    u: Seq<char>,
    r: PlayableView,
) -> Map<Seq<char>, PlayableView> {
    m.insert(
        u,
        if m.contains_key(u) {
            merge(m[u], r)
        } else {
            r
        },
    )
}

/// The queue after `u` is put at its front.
pub open spec fn with_front(s: StateView, u: Seq<char>) -> StateView {
    StateView { queue: seq![u] + s.queue, ..s }
}

/// The saved position of `u`.
pub open spec fn position_of(s: StateView, u: Seq<char>) -> Option<u64> {
    if s.items.contains_key(u) {
        s.items[u].progress
    } else {
        None
    }
}

/// The records after the position `pos` of `u` is taken at time `now`, the
/// duration being `len`; descriptive fields of an existing record stay.
pub open spec fn with_position(
    s: StateView,
    u: Seq<char>,
    pos: u64,
    len: Option<u64>,
    now: u64,
) -> StateView {
    let rec = if s.items.contains_key(u) {
        PlayableView { updated: Some(now), progress: Some(pos), length: len, ..s.items[u] }
    } else {
        PlayableView {
            source: None,
            title: None,
            album: None,
            updated: Some(now),
            progress: Some(pos),
            length: len,
        }
    };
    StateView { items: s.items.insert(u, rec), ..s }
}

/// The records after descriptive tags for `u` arrive: each fills the field
/// only where the record of `u` lacks it; without a record nothing changes.
pub open spec fn with_tags(
    s: StateView,
    u: Seq<char>,
    title: Option<Seq<char>>,
    album: Option<Seq<char>>,
) -> StateView {
    if s.items.contains_key(u) {
        let r = s.items[u];
        StateView {
            items: s.items.insert(
                u,
                PlayableView { title: first_of(r.title, title), album: first_of(r.album, album), ..r },
            ),
            ..s
        }
    } else {
        s
    }
}

/// Relies on `SystemTime::now` and `SystemTime::duration_since`: whole seconds
/// since the epoch, `None` where the clock reads earlier than the epoch. The
/// clock may read anything.
#[verifier::external_body]
fn seconds_since_epoch() -> (r: Option<u64>) {
    std::time::SystemTime::now().duration_since(std::time::UNIX_EPOCH).ok().map(|d| d.as_secs())
}

/// The time now, in seconds since the epoch; 0 where the clock reads earlier than the epoch.
pub fn get_time() -> u64 {
    match seconds_since_epoch() {
        Some(t) => t,
        None => 0,
    }
}

/// `get_time`, logging a diagnostic where the clock reads earlier than the
/// epoch; the log is otherwise unchanged.
pub fn get_time_logged(log: &mut EventLog) -> (r: u64)
    requires
        old(log).wf(),
    ensures
        final(log).wf(),
        final(log)@ == old(log)@ || (r == 0 && final(log)@ == (seq![
            "failed to get time: the clock reads before the epoch"@,
        ] + old(log)@).subrange(
            0,
            if old(log)@.len() < LOG_CAPACITY {
                (old(log)@.len() + 1) as int
            } else {
                LOG_CAPACITY as int
            },
        )),
{
    match seconds_since_epoch() {
        Some(t) => t,
        None => {
            log.push(String::from_str("failed to get time: the clock reads before the epoch"));
            0
        },
    }
}

/// An empty history.
pub fn new_recent() -> (r: std::collections::VecDeque<String>)
    ensures
        r@.len() == 0,
{
    std::collections::VecDeque::with_capacity(RECENT_CAPACITY)
}

impl State {
    /// Progress records have unique keys and the history is within its capacity.
    pub open spec fn wf(&self) -> bool {
        &&& keys_unique(self.uris@)
        &&& self.recent@.len() <= RECENT_CAPACITY
        &&& texts(self.rss_feeds@).no_duplicates()
    }

    /// A state with nothing queued, played, recorded or subscribed.
    pub fn new() -> (r: State)
        ensures
            r.wf(),
            r@.feeds.len() == 0,
            r@.items == Map::<Seq<char>, PlayableView>::empty(),
            r@.queue.len() == 0,
            r@.recent.len() == 0,
    {
        let r = State {
            rss_feeds: Vec::new(),
            uris: Vec::new(),
            queue: std::collections::VecDeque::new(),
            recent: new_recent(),
        };
        assert(r@.items =~= Map::<Seq<char>, PlayableView>::empty());
        assert(r@.feeds =~= Seq::<Seq<char>>::empty());
        r
    }

    /// A state made of stored parts: the subscriptions in order without
    /// repeats, the records inserted in order (a later one for the same URI
    /// replacing an earlier one), the queue as given, and the first
    /// `RECENT_CAPACITY` entries of the history.
    pub fn from_parts(
        feeds: Vec<String>,
        uris: Vec<(String, Playable)>,
        queue: Vec<String>,
        recent: Vec<String>,
    ) -> (r: State)
        ensures
            r.wf(),
            r@ == (StateView {
                feeds: distinct(texts(feeds@)),
                items: insert_each(Map::empty(), uris@),
                queue: texts(queue@),
                recent: texts(recent@).subrange(
                    0,
                    min_len(recent@.len() as int, RECENT_CAPACITY as int),
                ),
            }),
    {
        let mut r = State::new();
        let mut i: usize = 0;
        while i < feeds.len()
            invariant
                r.wf(),
                i <= feeds@.len(),
                r@.feeds == distinct(texts(feeds@.subrange(0, i as int))),
                r@.items == Map::<Seq<char>, PlayableView>::empty(),
                r@.queue.len() == 0,
                r@.recent.len() == 0,
            decreases feeds@.len() - i,
        {
            let ghost pre = texts(feeds@.subrange(0, i as int));
            assert(texts(feeds@.subrange(0, i + 1)).drop_last() =~= pre);
            assert(texts(feeds@.subrange(0, i + 1)).last() == feeds@[i as int]@);
            r.subscribe(feeds[i].clone());
            i = i + 1;
        }
        assert(feeds@.subrange(0, feeds@.len() as int) =~= feeds@);
        let ghost fs = r@.feeds;
        let ghost all = uris@;
        let n = uris.len();
        let mut uris = uris;
        let mut back: Vec<(String, Playable)> = Vec::new();
        while uris.len() > 0
            invariant
                n == all.len(),
                uris@.len() <= n,
                uris@ == all.subrange(0, uris@.len() as int),
                back@.len() + uris@.len() == n,
                forall|j: int| 0 <= j < back@.len() ==> #[trigger] back@[j] == all[n - 1 - j],
            decreases uris@.len(),
        {
            let ghost k = uris@.len();
            let e = uris.pop().unwrap();
            assert(uris@ =~= all.subrange(0, k - 1));
            back.push(e);
        }
        let mut taken: usize = 0;
        while back.len() > 0
            invariant
                r.wf(),
                n == all.len(),
                back@.len() + taken == n,
                forall|j: int| 0 <= j < back@.len() ==> #[trigger] back@[j] == all[n - 1 - j],
                r@.feeds == fs,
                r@.items == insert_each(Map::empty(), all.subrange(0, taken as int)),
                r@.queue.len() == 0,
                r@.recent.len() == 0,
            decreases back@.len(),
        {
            let e = back.pop().unwrap();
            assert(e == all[taken as int]);
            assert(all.subrange(0, taken + 1).drop_last() =~= all.subrange(0, taken as int));
            r.insert_playable(e.0, e.1);
            taken = taken + 1;
        }
        assert(all.subrange(0, n as int) =~= all);
        let ghost items = r@.items;
        let mut i: usize = 0;
        while i < queue.len()
            invariant
                r.wf(),
                i <= queue@.len(),
                r@.feeds == fs,
                r@.items == items,
                r@.queue == texts(queue@.subrange(0, i as int)),
                r@.recent.len() == 0,
            decreases queue@.len() - i,
        {
            r.queue(queue[i].as_str());
            assert(texts(queue@.subrange(0, i + 1)) =~= texts(queue@.subrange(0, i as int)).push(
                queue@[i as int]@,
            ));
            i = i + 1;
        }
        assert(queue@.subrange(0, queue@.len() as int) =~= queue@);
        let keep = if recent.len() < RECENT_CAPACITY {
            recent.len()
        } else {
            RECENT_CAPACITY
        };
        let mut i: usize = 0;
        while i < keep
            invariant
                r.wf(),
                i <= keep <= recent@.len(),
                keep <= RECENT_CAPACITY,
                r@.feeds == fs,
                r@.items == items,
                r@.queue == texts(queue@),
                r@.recent == texts(recent@.subrange(0, i as int)),
            decreases keep - i,
        {
            let ghost before = r.recent@;
            let e = recent[i].clone();
            assert(e == recent@[i as int]);
            r.recent.push_back(e);
            assert(texts(r.recent@) =~= texts(before).push(e@));
            assert(texts(recent@.subrange(0, i + 1)) =~= texts(recent@.subrange(0, i as int)).push(e@));
            i = i + 1;
        }
        assert(texts(recent@.subrange(0, keep as int)) =~= texts(recent@).subrange(0, keep as int));
        r
    }

    /// The position of the record for `uri` in `self.uris`.
    fn find(&self, uri: &String) -> (r: Option<usize>)
        requires
            self.wf(),
        ensures
            match r {
                Some(i) => i < self.uris@.len() && self.uris@[i as int].0@ == uri@ && has_key(
                    self.uris@,
                    uri@,
                ) && key_index(self.uris@, uri@) == i,
                None => !has_key(self.uris@, uri@),
            },
    {
        let mut i: usize = 0;
        while i < self.uris.len()
            invariant
                self.wf(),
                i <= self.uris@.len(),
                forall|j: int| 0 <= j < i ==> (#[trigger] self.uris@[j]).0@ != uri@,
            decreases self.uris@.len() - i,
        {
            if self.uris[i].0 == *uri {
                assert(self.uris@[i as int].0@ == uri@);
                let ghost k = key_index(self.uris@, uri@);
                assert(self.uris@[k].0@ == uri@);
                assert(self.uris@[k].0@ == self.uris@[i as int].0@);
                return Some(i);
            }
            i = i + 1;
        }
        None
    }

    /// Stores `playable` as the record of `uri`, replacing any record it had.
    pub fn insert_playable(&mut self, uri: String, playable: Playable)
        requires
            old(self).wf(),
        ensures
            final(self).wf(),
            final(self)@ == (StateView { items: old(self)@.items.insert(uri@, playable@), ..old(self)@ }),
    {
        match self.find(&uri) {
            Some(i) => {
                let ghost before = self.uris@;
                self.uris.set(i, (uri, playable));
                proof {
                    lemma_set_record(before, i as int, self.uris@);
                }
            },
            None => {
                let ghost before = self.uris@;
                self.uris.push((uri, playable));
                proof {
                    assert(self.uris@.drop_last() =~= before);
                    lemma_push_record(before, self.uris@);
                }
            },
        }
    }

    /// Merges `new` into the record of `uri`, or stores it where `uri` has none.
    pub fn update_playable(&mut self, uri: String, new: Playable)
        requires
            old(self).wf(),
        ensures
            final(self).wf(),
            final(self)@ == (StateView {
                items: updated_items(old(self)@.items, uri@, new@),
                ..old(self)@
            }),
    {
        match self.find(&uri) {
            Some(i) => {
                let old_rec = &self.uris[i].1;
                let newer = match (new.updated, old_rec.updated) {
                    (Some(x), Some(y)) => x > y,
                    (Some(_), None) => true,
                    _ => false,
                };
                let merged = Playable {
                    source: if old_rec.source.is_some() { clone_text(&old_rec.source) } else { new.source },
                    title: if old_rec.title.is_some() { clone_text(&old_rec.title) } else { new.title },
                    album: if old_rec.album.is_some() { clone_text(&old_rec.album) } else { new.album },
                    updated: if newer { new.updated } else { old_rec.updated },
                    progress: if newer { new.progress } else { old_rec.progress },
                    length: if newer { new.length } else { old_rec.length },
                };
                let ghost before = self.uris@;
                self.uris.set(i, (uri, merged));
                proof {
                    lemma_set_record(before, i as int, self.uris@);
                }
            },
            None => {
                let ghost before = self.uris@;
                self.uris.push((uri, new));
                proof {
                    assert(self.uris@.drop_last() =~= before);
                    lemma_push_record(before, self.uris@);
                }
            },
        }
    }

    /// Removes the record of `uri`, so that it plays from the start next time.
    pub fn reset_pos(&mut self, uri: &str)
        requires
            old(self).wf(),
        ensures
            final(self).wf(),
            final(self)@ == (StateView { items: old(self)@.items.remove(uri@), ..old(self)@ }),
    {
        let key = uri.to_owned();
        match self.find(&key) {
            Some(i) => {
                let ghost before = self.uris@;
                self.uris.remove(i);
                proof {
                    lemma_remove_record(before, i as int, self.uris@);
                }
            },
            None => {
                assert(old(self)@.items.remove(uri@) =~= old(self)@.items);
            },
        }
    }

    /// The saved position of `uri`.
    pub fn get_pos(&self, uri: &str) -> (r: Option<u64>)
        requires
            self.wf(),
        ensures
            r == position_of(self@, uri@),
    {
        let key = uri.to_owned();
        match self.find(&key) {
            Some(i) => self.uris[i].1.progress,
            None => None,
        }
    }

    /// Appends `uri` to the back of the queue.
    pub fn queue(&mut self, uri: &str)
        requires
            old(self).wf(),
        ensures
            final(self).wf(),
            final(self)@ == (StateView { queue: old(self)@.queue.push(uri@), ..old(self)@ }),
    {
        let ghost q = self.queue@;
        self.queue.push_back(uri.to_owned());
        assert(texts(self.queue@) =~= texts(q).push(uri@));
    }

    /// Takes the item at the front of the queue.
    pub fn pop_queue(&mut self) -> (r: Option<String>)
        requires
            old(self).wf(),
        ensures
            final(self).wf(),
            match r {
                Some(u) => old(self)@.queue.len() > 0 && u@ == old(self)@.queue[0] && final(self)@
                    == (StateView { queue: old(self)@.queue.drop_first(), ..old(self)@ }),
                None => old(self)@.queue.len() == 0 && final(self)@ == old(self)@,
            },
    {
        let ghost q = self.queue@;
        let r = self.queue.pop_front();
        assert(texts(self.queue@) =~= texts(q).drop_first() || r is None);
        r
    }

    /// Puts `uri` back at the front of the queue, to be played next.
    pub fn queue_front(&mut self, uri: &str)
        requires
            old(self).wf(),
        ensures
            final(self).wf(),
            final(self)@ == with_front(old(self)@, uri@),
    {
        let ghost q = self.queue@;
        self.queue.push_front(uri.to_owned());
        assert(texts(self.queue@) =~= seq![uri@] + texts(q));
    }

    /// Takes the most recently played item from the history.
    pub fn pop_recent(&mut self) -> (r: Option<String>)
        requires
            old(self).wf(),
        ensures
            final(self).wf(),
            match r {
                Some(u) => old(self)@.recent.len() > 0 && u@ == old(self)@.recent[0]
                    && final(self)@ == (StateView { recent: old(self)@.recent.drop_first(), ..old(self)@ }),
                None => old(self)@.recent.len() == 0 && final(self)@ == old(self)@,
            },
    {
        let ghost q = self.recent@;
        let r = self.recent.pop_front();
        assert(texts(self.recent@) =~= texts(q).drop_first() || r is None);
        r
    }

    /// Records `uri` as the most recently played item; when the history is
    /// full, its oldest entry is dropped first.
    pub fn push_recent(&mut self, uri: &str)
        requires
            old(self).wf(),
        ensures
            final(self).wf(),
            final(self)@ == with_recent(old(self)@, uri@),
            final(self)@.recent.len() <= RECENT_CAPACITY,
    {
        let ghost q = self.recent@;
        if self.recent.len() == RECENT_CAPACITY {
            self.recent.pop_back();
            assert(texts(self.recent@) =~= texts(q).drop_last());
        }
        let ghost mid = self.recent@;
        self.recent.push_front(uri.to_owned());
        assert(texts(self.recent@) =~= seq![uri@] + texts(mid));
    }

    /// Takes the position `pos` of `uri` at time `now`, with duration `len`.
    pub fn record_position(&mut self, uri: &str, pos: u64, len: Option<u64>, now: u64)
        requires
            old(self).wf(),
        ensures
            final(self).wf(),
            final(self)@ == with_position(old(self)@, uri@, pos, len, now),
    {
        let key = uri.to_owned();
        let rec = match self.find(&key) {
            Some(i) => {
                let r = &self.uris[i].1;
                Playable {
                    source: clone_text(&r.source),
                    title: clone_text(&r.title),
                    album: clone_text(&r.album),
                    updated: Some(now),
                    progress: Some(pos),
                    length: len,
                }
            },
            None => Playable {
                source: None,
                title: None,
                album: None,
                updated: Some(now),
                progress: Some(pos),
                length: len,
            },
        };
        self.insert_playable(key, rec);
    }

    /// Fills the title and album of the record of `uri` where it lacks them.
    pub fn fill_tags(&mut self, uri: &str, title: Option<String>, album: Option<String>)
        requires
            old(self).wf(),
        ensures
            final(self).wf(),
            final(self)@ == with_tags(old(self)@, uri@, opt_view(title), opt_view(album)),
    {
        let key = uri.to_owned();
        match self.find(&key) {
            Some(i) => {
                let r = &self.uris[i].1;
                let rec = Playable {
                    source: clone_text(&r.source),
                    title: if r.title.is_some() { clone_text(&r.title) } else { title },
                    album: if r.album.is_some() { clone_text(&r.album) } else { album },
                    updated: r.updated,
                    progress: r.progress,
                    length: r.length,
                };
                self.insert_playable(key, rec);
            },
            None => {},
        }
    }

    /// Adds `uri` to the subscriptions; false where it was there already.
    pub fn subscribe(&mut self, uri: String) -> (r: bool)
        requires
            old(self).wf(),
        ensures
            final(self).wf(),
            r == !old(self)@.feeds.contains(uri@),
            final(self)@ == (StateView {
                feeds: if r { old(self)@.feeds.push(uri@) } else { old(self)@.feeds },
                ..old(self)@
            }),
    {
        let mut i: usize = 0;
        while i < self.rss_feeds.len()
            invariant
                self.wf(),
                i <= self.rss_feeds@.len(),
                forall|j: int| 0 <= j < i ==> (#[trigger] self.rss_feeds@[j])@ != uri@,
            decreases self.rss_feeds@.len() - i,
        {
            if self.rss_feeds[i] == uri {
                assert(texts(self.rss_feeds@)[i as int] == uri@);
                return false;
            }
            i = i + 1;
        }
        let ghost f = self.rss_feeds@;
        assert(!texts(f).contains(uri@)) by {
            if texts(f).contains(uri@) {
                let j = choose|j: int| 0 <= j < texts(f).len() && texts(f)[j] == uri@;
                assert(f[j]@ == uri@);
            }
        }
        self.rss_feeds.push(uri);
        assert(texts(self.rss_feeds@) =~= texts(f).push(uri@));
        assert(texts(self.rss_feeds@).no_duplicates()) by {
            let t = texts(self.rss_feeds@);
            assert forall|a: int, b: int| 0 <= a < t.len() && 0 <= b < t.len() && a != b implies t[a]
                != t[b] by {
                if a < t.len() - 1 && b < t.len() - 1 {
                    assert(texts(f)[a] != texts(f)[b]);
                } else if a == t.len() - 1 {
                    assert(texts(f)[b] == t[b]);
                } else {
                    assert(texts(f)[a] == t[a]);
                }
            }
        }
        true
    }

    /// Removes the entry at `index` of the queue, which then counts as played.
    pub fn delete_queue(&mut self, index: usize) -> (r: Option<String>)
        requires
            old(self).wf(),
        ensures
            final(self).wf(),
            match r {
                Some(u) => index < old(self)@.queue.len() && u@ == old(self)@.queue[index as int]
                    && final(self)@ == with_recent(
                    StateView { queue: old(self)@.queue.remove(index as int), ..old(self)@ },
                    u@,
                ),
                None => index >= old(self)@.queue.len() && final(self)@ == old(self)@,
            },
    {
        let ghost q = self.queue@;
        let r = self.queue.remove(index);
        match r {
            Some(u) => {
                assert(texts(self.queue@) =~= texts(q).remove(index as int));
                self.push_recent(&u);
                Some(u)
            },
            None => None,
        }
    }

    /// Removes the entry at `index` of the history.
    pub fn delete_recent(&mut self, index: usize) -> (r: Option<String>)
        requires
            old(self).wf(),
        ensures
            final(self).wf(),
            match r {
                Some(u) => index < old(self)@.recent.len() && u@ == old(self)@.recent[index as int]
                    && final(self)@ == (StateView {
                    recent: old(self)@.recent.remove(index as int),
                    ..old(self)@
                }),
                None => index >= old(self)@.recent.len() && final(self)@ == old(self)@,
            },
    {
        let ghost q = self.recent@;
        let r = self.recent.remove(index);
        assert(texts(self.recent@) =~= texts(q).remove(index as int) || r is None);
        r
    }
}

proof fn lemma_set_record(before: Seq<(String, Playable)>, i: int, after: Seq<(String, Playable)>)
    requires
        keys_unique(before),
        0 <= i < before.len(),
        after == before.update(i, after[i]),
        after[i].0@ == before[i].0@,
    ensures
        keys_unique(after),
        records(after) == records(before).insert(after[i].0@, after[i].1@),
{
    let k = after[i].0@;
    assert forall|a: int, b: int|
        0 <= a < after.len() && 0 <= b < after.len() && a != b implies (#[trigger] after[a]).0@
        != (#[trigger] after[b]).0@ by {
        assert(before[a].0@ != before[b].0@);
    }
    assert forall|x: Seq<char>| #[trigger] has_key(after, x) == has_key(before, x) by {
        if has_key(after, x) {
            let j = choose|j: int| 0 <= j < after.len() && (#[trigger] after[j]).0@ == x;
            assert(before[j].0@ == x);
        }
        if has_key(before, x) {
            let j = choose|j: int| 0 <= j < before.len() && (#[trigger] before[j]).0@ == x;
            assert(after[j].0@ == x);
        }
    }
    assert forall|x: Seq<char>| has_key(after, x) implies #[trigger] after[key_index(after, x)].1@
        == (if x == k { after[i].1@ } else { before[key_index(before, x)].1@ }) by {
        let a = key_index(after, x);
        let b = key_index(before, x);
        assert(after[a].0@ == x);
        assert(before[b].0@ == x);
        if x == k {
            assert(a == i);
        } else {
            assert(a != i);
            assert(b == a);
        }
    }
    assert(records(after) =~= records(before).insert(k, after[i].1@));
}

proof fn lemma_push_record(before: Seq<(String, Playable)>, after: Seq<(String, Playable)>)
    requires
        keys_unique(before),
        after.len() == before.len() + 1,
        after.drop_last() == before,
        !has_key(before, after.last().0@),
    ensures
        keys_unique(after),
        records(after) == records(before).insert(after.last().0@, after.last().1@),
{
    let n = before.len();
    let k = after.last().0@;
    assert forall|i: int| 0 <= i < n implies #[trigger] after[i] == before[i] by {
        assert(after.drop_last()[i] == after[i]);
    }
    assert forall|a: int, b: int|
        0 <= a < after.len() && 0 <= b < after.len() && a != b implies (#[trigger] after[a]).0@
        != (#[trigger] after[b]).0@ by {
        if a < n && b < n {
            assert(before[a].0@ != before[b].0@);
        } else if a == n {
            assert(before[b].0@ != k);
        } else {
            assert(before[a].0@ != k);
        }
    }
    assert forall|x: Seq<char>| #[trigger] has_key(after, x) == (has_key(before, x) || x == k) by {
        if has_key(after, x) {
            let j = choose|j: int| 0 <= j < after.len() && (#[trigger] after[j]).0@ == x;
            if j < n {
                assert(before[j].0@ == x);
            }
        }
        if has_key(before, x) {
            let j = choose|j: int| 0 <= j < before.len() && (#[trigger] before[j]).0@ == x;
            assert(after[j].0@ == x);
        }
        if x == k {
            assert(after[n as int].0@ == x);
        }
    }
    assert forall|x: Seq<char>| has_key(after, x) implies #[trigger] after[key_index(after, x)].1@
        == (if x == k { after.last().1@ } else { before[key_index(before, x)].1@ }) by {
        let a = key_index(after, x);
        assert(after[a].0@ == x);
        if x == k {
            assert(a == n);
        } else {
            let b = key_index(before, x);
            assert(before[b].0@ == x);
            assert(after[b].0@ == x);
            assert(a == b);
        }
    }
    assert(records(after) =~= records(before).insert(k, after.last().1@));
}

proof fn lemma_remove_record(before: Seq<(String, Playable)>, i: int, after: Seq<(String, Playable)>)
    requires
        keys_unique(before),
        0 <= i < before.len(),
        after == before.remove(i),
    ensures
        keys_unique(after),
        records(after) == records(before).remove(before[i].0@),
{
    let k = before[i].0@;
    let old_index = |j: int| if j < i { j } else { j + 1 };
    assert forall|j: int| 0 <= j < after.len() implies #[trigger] after[j] == before[old_index(j)] by {
    }
    assert forall|a: int, b: int|
        0 <= a < after.len() && 0 <= b < after.len() && a != b implies (#[trigger] after[a]).0@
        != (#[trigger] after[b]).0@ by {
        assert(after[a] == before[old_index(a)]);
        assert(after[b] == before[old_index(b)]);
    }
    assert forall|x: Seq<char>| #[trigger] has_key(after, x) == (has_key(before, x) && x != k) by {
        if has_key(after, x) {
            let j = choose|j: int| 0 <= j < after.len() && (#[trigger] after[j]).0@ == x;
            assert(after[j] == before[old_index(j)]);
            assert(old_index(j) != i);
        }
        if has_key(before, x) && x != k {
            let j = choose|j: int| 0 <= j < before.len() && (#[trigger] before[j]).0@ == x;
            assert(j != i);
            let a = if j < i { j } else { j - 1 };
            assert(after[a] == before[old_index(a)]);
            assert(after[a].0@ == x);
        }
    }
    assert forall|x: Seq<char>| has_key(after, x) implies #[trigger] after[key_index(after, x)].1@
        == before[key_index(before, x)].1@ by {
        let a = key_index(after, x);
        let b = key_index(before, x);
        assert(after[a].0@ == x);
        assert(after[a] == before[old_index(a)]);
        assert(before[b].0@ == x);
        assert(old_index(a) == b);
    }
    assert(records(after) =~= records(before).remove(k));
}

/// `s` without repeats, each kept where it first occurs.
pub open spec fn distinct(s: Seq<Seq<char>>) -> Seq<Seq<char>>
    decreases s.len(),
{
    if s.len() == 0 {
        s
    } else {
        let d = distinct(s.drop_last());
        if d.contains(s.last()) {
            d
        } else {
            d.push(s.last())
        }
    }
}

/// The records `m` after each entry of `es` is stored in turn.
pub open spec fn insert_each(m: Map<Seq<char>, PlayableView>, es: Seq<(String, Playable)>) -> Map<
    Seq<char>,
    PlayableView,
>
    decreases es.len(),
{
    if es.len() == 0 {
        m
    } else {
        insert_each(m, es.drop_last()).insert(es.last().0@, es.last().1@)
    }
}

/// A well-formed state rebuilt from its own parts by `State::from_parts` is
/// the state it was taken from.
pub proof fn lemma_parts_round_trip(s: State)
    requires
        s.wf(),
    ensures
        distinct(texts(s.rss_feeds@)) == s@.feeds,
        insert_each(Map::empty(), s.uris@) == s@.items,
        texts(s.recent@).subrange(0, min_len(s.recent@.len() as int, RECENT_CAPACITY as int))
            == s@.recent,
{
    lemma_distinct_unique(texts(s.rss_feeds@));
    lemma_insert_each_unique(s.uris@);
    assert(texts(s.recent@).subrange(0, s.recent@.len() as int) =~= s@.recent);
}

proof fn lemma_distinct_unique(s: Seq<Seq<char>>)
    requires
        s.no_duplicates(),
    ensures
        distinct(s) == s,
    decreases s.len(),
{
    if s.len() > 0 {
        let init = s.drop_last();
        assert(init.no_duplicates()) by {
            assert forall|a: int, b: int| 0 <= a < init.len() && 0 <= b < init.len() && a != b implies init[a]
                != init[b] by {
                assert(s[a] != s[b]);
            }
        }
        lemma_distinct_unique(init);
        assert(!init.contains(s.last())) by {
            if init.contains(s.last()) {
                let j = choose|j: int| 0 <= j < init.len() && init[j] == s.last();
                assert(s[j] == s[s.len() - 1]);
            }
        }
        assert(init.push(s.last()) =~= s);
    }
}

proof fn lemma_insert_each_unique(es: Seq<(String, Playable)>)
    requires
        keys_unique(es),
    ensures
        insert_each(Map::empty(), es) == records(es),
    decreases es.len(),
{
    if es.len() == 0 {
        assert(records(es) =~= Map::<Seq<char>, PlayableView>::empty());
    } else {
        let init = es.drop_last();
        assert forall|a: int, b: int|
            0 <= a < init.len() && 0 <= b < init.len() && a != b implies (#[trigger] init[a]).0@
            != (#[trigger] init[b]).0@ by {
            assert(es[a].0@ != es[b].0@);
        }
        lemma_insert_each_unique(init);
        assert(!has_key(init, es.last().0@)) by {
            if has_key(init, es.last().0@) {
                let j = choose|j: int| 0 <= j < init.len() && (#[trigger] init[j]).0@ == es.last().0@;
                assert(es[j].0@ == es[es.len() - 1].0@);
            }
        }
        lemma_push_record(init, es);
    }
}

/// The queue `q` after each of `us` is appended in turn, as `State::queue` does.
pub open spec fn enqueue_all(q: Seq<Seq<char>>, us: Seq<Seq<char>>) -> Seq<Seq<char>>
    decreases us.len(),
{
    if us.len() == 0 {
        q
    } else {
        enqueue_all(q, us.drop_last()).push(us.last())
    }
}

/// What `n` calls of `State::pop_queue` return from queue `q`, in order.
pub open spec fn dequeue_n(q: Seq<Seq<char>>, n: nat) -> Seq<Seq<char>>
    decreases n,
{
    if n == 0 || q.len() == 0 {
        Seq::empty()
    } else {
        seq![q[0]] + dequeue_n(q.drop_first(), (n - 1) as nat)
    }
}

/// Items leave the queue in the order in which they entered it.
pub proof fn lemma_queue_fifo(q: Seq<Seq<char>>, us: Seq<Seq<char>>)
    ensures
        dequeue_n(enqueue_all(q, us), q.len() + us.len()) == q + us,
{
    lemma_enqueue_all(q, us);
    lemma_dequeue_all(q + us);
}

proof fn lemma_enqueue_all(q: Seq<Seq<char>>, us: Seq<Seq<char>>)
    ensures
        enqueue_all(q, us) == q + us,
    decreases us.len(),
{
    if us.len() > 0 {
        lemma_enqueue_all(q, us.drop_last());
        assert((q + us.drop_last()).push(us.last()) =~= q + us);
    } else {
        assert(q + us =~= q);
    }
}

proof fn lemma_dequeue_all(s: Seq<Seq<char>>)
    ensures
        dequeue_n(s, s.len()) == s,
    decreases s.len(),
{
    if s.len() > 0 {
        lemma_dequeue_all(s.drop_first());
        assert(seq![s[0]] + s.drop_first() =~= s);
    } else {
        assert(dequeue_n(s, 0) =~= s);
    }
}

/// The history `r` after each of `us` is recorded in turn, as `State::push_recent` does.
pub open spec fn push_all(r: Seq<Seq<char>>, us: Seq<Seq<char>>) -> Seq<Seq<char>>
    decreases us.len(),
{
    if us.len() == 0 {
        r
    } else {
        recent_after(push_all(r, us.drop_last()), us.last())
    }
}

/// `us`, last one first.
pub open spec fn newest_first(us: Seq<Seq<char>>) -> Seq<Seq<char>>
    decreases us.len(),
{
    if us.len() == 0 {
        us
    } else {
        seq![us.last()] + newest_first(us.drop_last())
    }
}

pub open spec fn min_len(a: int, b: int) -> int {
    if a < b {
        a
    } else {
        b
    }
}

/// However many items are recorded, the history holds at most
/// `RECENT_CAPACITY` of them: the most recent ones, newest first, the oldest
/// being dropped first.
pub proof fn lemma_recent_bounded(r: Seq<Seq<char>>, us: Seq<Seq<char>>)
    requires
        r.len() <= RECENT_CAPACITY,
    ensures
        push_all(r, us).len() <= RECENT_CAPACITY,
        push_all(r, us) == (newest_first(us) + r).subrange(
            0,
            min_len(RECENT_CAPACITY as int, (us.len() + r.len()) as int),
        ),
    decreases us.len(),
{
    if us.len() == 0 {
        assert((newest_first(us) + r).subrange(0, r.len() as int) =~= r);
    } else {
        let init = us.drop_last();
        lemma_recent_bounded(r, init);
        lemma_newest_first_len(init);
        let t = push_all(r, init);
        let all = newest_first(init) + r;
        assert(newest_first(us) + r =~= seq![us.last()] + all);
        if t.len() == RECENT_CAPACITY {
            assert(recent_after(t, us.last()) =~= (seq![us.last()] + all).subrange(
                0,
                RECENT_CAPACITY as int,
            ));
        } else {
            assert(recent_after(t, us.last()) =~= (seq![us.last()] + all).subrange(
                0,
                (us.len() + r.len()) as int,
            ));
        }
    }
}

proof fn lemma_newest_first_len(us: Seq<Seq<char>>)
    ensures
        newest_first(us).len() == us.len(),
    decreases us.len(),
{
    if us.len() > 0 {
        lemma_newest_first_len(us.drop_last());
    }
}

/// Merging the same record a second time changes nothing.
pub proof fn lemma_update_idempotent(m: Map<Seq<char>, PlayableView>, u: Seq<char>, r: PlayableView)
    ensures
        updated_items(updated_items(m, u, r), u, r) == updated_items(m, u, r),
{
    assert(updated_items(updated_items(m, u, r), u, r) =~= updated_items(m, u, r));
}

/// A record whose timestamp is not later than the stored one leaves position,
/// duration and timestamp as they were, and only fills descriptive fields
/// that the stored record lacks.
pub proof fn lemma_update_older(m: Map<Seq<char>, PlayableView>, u: Seq<char>, r: PlayableView)
    requires
        m.contains_key(u),
        !later(r.updated, m[u].updated),
    ensures
        ({
            let s = updated_items(m, u, r)[u];
            &&& s.progress == m[u].progress
            &&& s.length == m[u].length
            &&& s.updated == m[u].updated
            &&& s.title == (if m[u].title is Some { m[u].title } else { r.title })
            &&& s.album == (if m[u].album is Some { m[u].album } else { r.album })
            &&& s.source == (if m[u].source is Some { m[u].source } else { r.source })
        }),
{
}

} // verus!
