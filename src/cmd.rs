//! The line-oriented command protocol: `name` for a command without argument,
//! `name(arg)` for one with.

use vstd::prelude::*;
use vstd::string::*;
use crate::log::{EventLog, LOG_CAPACITY};
use crate::state::{Playable, PlayableView};
use crate::text::{
    chars_of, decimal, decimal_string, find_char, is_first, lemma_decimal_u64, first_pos, has_char, is_space, lemma_first_pos, matches_at, parse_i64_at,
    parse_i64_spec, parse_u64_at, parse_u64_spec, trim_end,
};

verus! {

/// An operator's intent, as read from one line of text.
#[derive(Debug, PartialEq, Eq)]
pub enum Cmd {
    Next,
    Prev,
    Play,
    Pause,
    PlayPause,
    Queue(String),
    Shutdown,
    Seek(u64),
    SeekRelative(i64),
    DeleteQueue(usize),
    DeleteRecent(usize),
    Subscribe(String),
    Update(UpdateArgs),
}

/// The item URI and the progress record of an `update` command.
#[derive(Debug, PartialEq, Eq)]
pub struct UpdateArgs(pub String, pub Playable);

pub enum CmdView {
    Next,
    Prev,
    Play,
    Pause,
    PlayPause,
    Queue(Seq<char>),
    Shutdown,
    Seek(u64),
    SeekRelative(i64),
    DeleteQueue(usize),
    DeleteRecent(usize),
    Subscribe(Seq<char>),
    Update(Seq<char>, PlayableView),
}

impl View for Cmd {
    type V = CmdView;

    open spec fn view(&self) -> CmdView {
        match self {
            Cmd::Next => CmdView::Next,
            Cmd::Prev => CmdView::Prev,
            Cmd::Play => CmdView::Play,
            Cmd::Pause => CmdView::Pause,
            Cmd::PlayPause => CmdView::PlayPause,
            Cmd::Queue(u) => CmdView::Queue(u@),
            Cmd::Shutdown => CmdView::Shutdown,
            Cmd::Seek(n) => CmdView::Seek(*n),
            Cmd::SeekRelative(d) => CmdView::SeekRelative(*d),
            Cmd::DeleteQueue(i) => CmdView::DeleteQueue(*i),
            Cmd::DeleteRecent(i) => CmdView::DeleteRecent(*i),
            Cmd::Subscribe(u) => CmdView::Subscribe(u@),
            Cmd::Update(a) => CmdView::Update(a.0@, a.1@),
        }
    }
}

pub open spec fn opt_cmd_view(c: Option<Cmd>) -> Option<CmdView> {
    match c {
        Some(c) => Some(c@),
        None => None,
    }
}

/// The commands written as a bare name.
pub open spec fn named_command(t: Seq<char>) -> Option<CmdView> {
    if t == "next"@ {
        Some(CmdView::Next)
    } else if t == "prev"@ {
        Some(CmdView::Prev)
    } else if t == "play"@ {
        Some(CmdView::Play)
    } else if t == "pause"@ {
        Some(CmdView::Pause)
    } else if t == "play_pause"@ {
        Some(CmdView::PlayPause)
    } else if t == "shutdown"@ {
        Some(CmdView::Shutdown)
    } else {
        None
    }
}

/// The record that `update(uri,t,p)` carries: timestamp `t`, position `p`.
pub open spec fn update_record(t: u64, p: u64) -> PlayableView {
    PlayableView {
        source: None,
        title: None,
        album: None,
        updated: Some(t),
        progress: Some(p),
        length: None,
    }
}

/// The part of `s` before its first comma, or all of `s` where it has none.
pub open spec fn before_comma(s: Seq<char>) -> Seq<char> {
    if has_char(s, ',') {
        s.subrange(0, first_pos(s, ','))
    } else {
        s
    }
}

/// The part of `s` after its first comma.
pub open spec fn after_comma(s: Seq<char>) -> Seq<char> {
    s.subrange(first_pos(s, ',') + 1, s.len() as int)
}

/// The argument of `update(...)`: `uri,timestamp,position`, anything after a
/// third comma being ignored.
pub open spec fn update_args_spec(s: Seq<char>) -> Option<(Seq<char>, PlayableView)> {
    if !has_char(s, ',') || !has_char(after_comma(s), ',') {
        None
    } else {
        let rest = after_comma(s);
        match (
            parse_u64_spec(before_comma(rest)),
            parse_u64_spec(before_comma(after_comma(rest))),
        ) {
            (Some(t), Some(p)) => Some((before_comma(s), update_record(t, p))),
            _ => None,
        }
    }
}

/// `name(arg)`: the name runs to the first `(`, the argument from there to a final `)`.
pub open spec fn call_command(s: Seq<char>) -> Option<CmdView> {
    if !has_char(s, '(') {
        None
    } else {
        let name = s.subrange(0, first_pos(s, '('));
        let rest = s.subrange(first_pos(s, '(') + 1, s.len() as int);
        if rest.len() == 0 || rest.last() != ')' {
            None
        } else {
            let arg = rest.drop_last();
            if name == "queue"@ {
                Some(CmdView::Queue(arg))
            } else if name == "seek"@ {
                match parse_u64_spec(arg) {
                    Some(n) => Some(CmdView::Seek(n)),
                    None => None,
                }
            } else if name == "seek_relative"@ {
                match parse_i64_spec(arg) {
                    Some(d) => Some(CmdView::SeekRelative(d)),
                    None => None,
                }
            } else if name == "subscribe"@ {
                Some(CmdView::Subscribe(arg))
            } else if name == "update"@ {
                match update_args_spec(arg) {
                    Some((u, r)) => Some(CmdView::Update(u, r)),
                    None => None,
                }
            } else {
                None
            }
        }
    }
}

/// The command that a line denotes: a bare name (trailing whitespace ignored),
/// else a call form.
pub open spec fn parse_spec(s: Seq<char>) -> Option<CmdView> {
    match named_command(trim_end(s)) {
        Some(c) => Some(c),
        None => call_command(s),
    }
}

fn is_space_char(c: char) -> (r: bool)
    ensures
        r == is_space(c),
{
    c == '\t' || c == '\n' || c == '\u{0B}' || c == '\u{0C}' || c == '\r' || c == ' ' || c
        == '\u{85}' || c == '\u{A0}' || c == '\u{1680}' || ('\u{2000}' <= c && c <= '\u{200A}')
        || c == '\u{2028}' || c == '\u{2029}' || c == '\u{202F}' || c == '\u{205F}' || c
        == '\u{3000}'
}

/// The length of `v` without its trailing whitespace.
fn trimmed_len(v: &Vec<char>) -> (r: usize)
    ensures
        r <= v@.len(),
        trim_end(v@) == v@.subrange(0, r as int),
{
    let mut e: usize = v.len();
    assert(v@.subrange(0, e as int) =~= v@);
    while e > 0 && is_space_char(v[e - 1])
        invariant
            e <= v@.len(),
            trim_end(v@) == trim_end(v@.subrange(0, e as int)),
        decreases e,
    {
        assert(v@.subrange(0, e as int).drop_last() =~= v@.subrange(0, e - 1));
        e = e - 1;
    }
    e
}

/// The text of `buf` from character `lo` to character `hi`.
fn text_between(buf: &str, lo: usize, hi: usize) -> (r: String)
    requires
        lo <= hi <= buf@.len(),
    ensures
        r@ == buf@.subrange(lo as int, hi as int),
{
    buf.substring_char(lo, hi).to_owned()
}

/// `update_args_spec` on `v[lo..hi]`, `v` being the characters of `raw`.
fn update_args_at(raw: &str, v: &Vec<char>, lo: usize, hi: usize) -> (r: Option<UpdateArgs>)
    requires
        v@ == raw@,
        lo <= hi <= v@.len(),
    ensures
        match r {
            Some(a) => update_args_spec(v@.subrange(lo as int, hi as int)) == Some((a.0@, a.1@)),
            None => update_args_spec(v@.subrange(lo as int, hi as int)) is None,
        },
{
    let ghost s = v@.subrange(lo as int, hi as int);
    let c1 = match find_char(v, lo, hi, ',') {
        Some(c) => c,
        None => return None,
    };
    proof {
        lemma_first_pos(s, ',', c1 - lo);
        assert(after_comma(s) =~= v@.subrange(c1 + 1, hi as int));
        assert(before_comma(s) =~= v@.subrange(lo as int, c1 as int));
    }
    let ghost rest = after_comma(s);
    let c2 = match find_char(v, c1 + 1, hi, ',') {
        Some(c) => c,
        None => return None,
    };
    proof {
        lemma_first_pos(rest, ',', c2 - c1 - 1);
        assert(after_comma(rest) =~= v@.subrange(c2 + 1, hi as int));
        assert(before_comma(rest) =~= v@.subrange(c1 + 1, c2 as int));
    }
    let ghost rest2 = after_comma(rest);
    let t = parse_u64_at(v, c1 + 1, c2);
    let end = match find_char(v, c2 + 1, hi, ',') {
        Some(c3) => {
            proof {
                lemma_first_pos(rest2, ',', c3 - c2 - 1);
                assert(before_comma(rest2) =~= v@.subrange(c2 + 1, c3 as int));
            }
            c3
        },
        None => hi,
    };
    let p = parse_u64_at(v, c2 + 1, end);
    match (t, p) {
        (Some(t), Some(p)) => {
            let uri = text_between(raw, lo, c1);
            Some(
                UpdateArgs(
                    uri,
                    Playable {
                        source: None,
                        title: None,
                        album: None,
                        updated: Some(t),
                        progress: Some(p),
                        length: None,
                    },
                ),
            )
        },
        _ => None,
    }
}

/// The call form `name(arg)` in `buf`, whose characters are `v`.
fn call_at(buf: &str, v: &Vec<char>) -> (r: Option<Cmd>)
    requires
        v@ == buf@,
    ensures
        opt_cmd_view(r) == call_command(buf@),
{
    let ghost s = v@;
    let n = v.len();
    let open = match find_char(v, 0, n, '(') {
        Some(p) => p,
        None => {
            assert(v@.subrange(0, n as int) =~= s);
            return None;
        },
    };
    proof {
        assert(v@.subrange(0, n as int) =~= s);
        lemma_first_pos(s, '(', open as int);
    }
    if n == open + 1 || v[n - 1] != ')' {
        return None;
    }
    let lo = open + 1;
    let hi = n - 1;
    assert(s.subrange(open + 1, n as int).drop_last() =~= v@.subrange(lo as int, hi as int));
    if matches_at(v, 0, open, "queue") {
        Some(Cmd::Queue(text_between(buf, lo, hi)))
    } else if matches_at(v, 0, open, "seek") {
        match parse_u64_at(v, lo, hi) {
            Some(k) => Some(Cmd::Seek(k)),
            None => None,
        }
    } else if matches_at(v, 0, open, "seek_relative") {
        match parse_i64_at(v, lo, hi) {
            Some(d) => Some(Cmd::SeekRelative(d)),
            None => None,
        }
    } else if matches_at(v, 0, open, "subscribe") {
        Some(Cmd::Subscribe(text_between(buf, lo, hi)))
    } else if matches_at(v, 0, open, "update") {
        match update_args_at(buf, v, lo, hi) {
            Some(a) => Some(Cmd::Update(a)),
            None => None,
        }
    } else {
        None
    }
}

/// Reads the call form `name(arg)`: `queue(uri)`, `seek(seconds)`,
/// `seek_relative(delta)`, `subscribe(uri)` or `update(uri,timestamp,position)`.
pub fn parse_cmd_arg(buf: &str) -> (r: Option<Cmd>)
    ensures
        opt_cmd_view(r) == call_command(buf@),
{
    let v = chars_of(buf);
    call_at(buf, &v)
}

/// Reads one line of the protocol; `None` where it denotes no command.
pub fn parse_cmd(buf: &str) -> (r: Option<Cmd>)
    ensures
        opt_cmd_view(r) == parse_spec(buf@),
{
    let v = chars_of(buf);
    let e = trimmed_len(&v);
    if matches_at(&v, 0, e, "next") {
        Some(Cmd::Next)
    } else if matches_at(&v, 0, e, "prev") {
        Some(Cmd::Prev)
    } else if matches_at(&v, 0, e, "play") {
        Some(Cmd::Play)
    } else if matches_at(&v, 0, e, "pause") {
        Some(Cmd::Pause)
    } else if matches_at(&v, 0, e, "play_pause") {
        Some(Cmd::PlayPause)
    } else if matches_at(&v, 0, e, "shutdown") {
        Some(Cmd::Shutdown)
    } else {
        call_at(buf, &v)
    }
}

/// Reads one line of the protocol; where it denotes no command, one
/// diagnostic naming the line is logged.
pub fn parse_line(buf: &str, log: &mut EventLog) -> (r: Option<Cmd>)
    requires
        old(log).wf(),
    ensures
        final(log).wf(),
        opt_cmd_view(r) == parse_spec(buf@),
        r is Some ==> final(log)@ == old(log)@,
        r is None ==> final(log)@ == (seq!["parse failed: "@ + buf@] + old(log)@).subrange(
            0,
            if old(log)@.len() < LOG_CAPACITY {
                (old(log)@.len() + 1) as int
            } else {
                LOG_CAPACITY as int
            },
        ),
{
    let r = parse_cmd(buf);
    if r.is_none() {
        let mut msg = String::from_str("parse failed: ");
        msg.append(buf);
        log.push(msg);
    }
    r
}

impl Default for UpdateArgs {
    /// An update of the empty URI with an empty record.
    fn default() -> (r: UpdateArgs)
        ensures
            r.0@ == Seq::<char>::empty(),
            r.1@ == (PlayableView {
                source: None,
                title: None,
                album: None,
                updated: None,
                progress: None,
                length: None,
            }),
    {
        UpdateArgs(
            String::new(),
            Playable { source: None, title: None, album: None, updated: None, progress: None, length: None },
        )
    }
}

impl UpdateArgs {
    /// The line that sends this update: `update(uri,timestamp,position)`, an
    /// absent timestamp or position written as 0.
    pub fn to_cmd_string(self) -> (r: String)
        ensures
            r@ == "update("@ + self.0@ + ","@ + decimal(self.1.updated.unwrap_or(0) as nat) + ","@
                + decimal(self.1.progress.unwrap_or(0) as nat) + ")"@,
    {
        let UpdateArgs(uri, rec) = self;
        let t = match rec.updated {
            Some(t) => t,
            None => 0,
        };
        let p = match rec.progress {
            Some(p) => p,
            None => 0,
        };
        let mut s = String::from_str("update(");
        s.append(uri.as_str());
        s.append(",");
        s.append(decimal_string(t as u128).as_str());
        s.append(",");
        s.append(decimal_string(p as u128).as_str());
        s.append(")");
        s
    }

    /// Reads `uri,timestamp,position`.
    pub fn parse(raw: &str) -> (r: Option<UpdateArgs>)
        ensures
            match r {
                Some(a) => update_args_spec(raw@) == Some((a.0@, a.1@)),
                None => update_args_spec(raw@) is None,
            },
    {
        let v = chars_of(raw);
        assert(v@.subrange(0, v@.len() as int) =~= raw@);
        update_args_at(raw, &v, 0, v.len())
    }
}

proof fn lemma_no_name(s: Seq<char>)
    requires
        s.len() > 10,
    ensures
        named_command(s) is None,
{
    reveal_strlit("next");
    reveal_strlit("prev");
    reveal_strlit("play");
    reveal_strlit("pause");
    reveal_strlit("play_pause");
    reveal_strlit("shutdown");
}

proof fn lemma_update_args_written(uri: Seq<char>, t: u64, p: u64)
    requires
        !has_char(uri, ','),
    ensures
        update_args_spec(uri + ","@ + decimal(t as nat) + ","@ + decimal(p as nat)) == Some(
            (uri, update_record(t, p)),
        ),
{
    reveal_strlit(",");
    lemma_decimal_u64(t);
    lemma_decimal_u64(p);
    let dt = decimal(t as nat);
    let dp = decimal(p as nat);
    let arg = uri + ","@ + dt + ","@ + dp;
    let n = uri.len() as int;
    assert(is_first(arg, ',', n)) by {
        assert forall|j: int| 0 <= j < n implies arg[j] != ',' by {
            assert(arg[j] == uri[j]);
        }
    }
    lemma_first_pos(arg, ',', n);
    assert(before_comma(arg) =~= uri);
    let rest = dt + ","@ + dp;
    assert(after_comma(arg) =~= rest);
    let m = dt.len() as int;
    assert(is_first(rest, ',', m)) by {
        assert forall|j: int| 0 <= j < m implies rest[j] != ',' by {
            assert(rest[j] == dt[j]);
        }
    }
    lemma_first_pos(rest, ',', m);
    assert(before_comma(rest) =~= dt);
    assert(after_comma(rest) =~= dp);
}

/// The line that `UpdateArgs::to_cmd_string` writes reads back as the same
/// update, where the URI holds no comma.
pub proof fn lemma_update_line_round_trip(uri: Seq<char>, t: u64, p: u64)
    requires
        !has_char(uri, ','),
    ensures
        parse_spec(
            "update("@ + uri + ","@ + decimal(t as nat) + ","@ + decimal(p as nat) + ")"@,
        ) == Some(CmdView::Update(uri, update_record(t, p))),
{
    reveal_strlit("update(");
    reveal_strlit("update");
    reveal_strlit(",");
    reveal_strlit(")");
    reveal_strlit("queue");
    reveal_strlit("seek");
    reveal_strlit("seek_relative");
    reveal_strlit("subscribe");
    lemma_decimal_u64(t);
    lemma_decimal_u64(p);
    let arg = uri + ","@ + decimal(t as nat) + ","@ + decimal(p as nat);
    let s = "update("@ + uri + ","@ + decimal(t as nat) + ","@ + decimal(p as nat) + ")"@;
    assert(s =~= "update("@ + arg + ")"@);
    assert(s.last() == ')');
    assert(trim_end(s) == s);
    lemma_no_name(s);
    assert(is_first(s, '(', 6)) by {
        assert forall|j: int| 0 <= j < 6 implies s[j] != '(' by {
            assert(s[j] == "update("@[j]);
        }
    }
    lemma_first_pos(s, '(', 6);
    assert(s.subrange(0, 6) =~= "update"@);
    assert(s.subrange(7, s.len() as int).drop_last() =~= arg);
    lemma_update_args_written(uri, t, p);
}

} // verus!
