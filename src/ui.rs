//! Windows, their ordered lines, and the screen that shows the active one.

use vstd::prelude::*;

use crate::hex::{self, bytes_text};
use crate::input::{Input, InputEvent, InputModel};
use crate::text::{chars_of, push_char, string_of};
use crate::time::{self, is_clock_text, is_decimal, no_clock_text};
use crate::utils::{self, byte_sum, colour_for, fg_digits, painted, Colour};

verus! {

pub type Addr = Vec<u8>;

pub type PublicKey = [u8; 32];

/// Terminal size in characters: `(columns, rows)`.
pub type TermSize = (u32, u32);

/// The channel name of the status window.
pub const STATUS_CHANNEL: &'static str = "!status";

/// One line of a window: its insertion index, timestamp, author, the
/// author's nickname when known, and text.
pub struct Line {
    pub index: u64,
    pub timestamp: u64,
    pub author: Option<PublicKey>,
    pub nickname: Option<String>,
    pub text: String,
}

pub struct LineView {
    pub index: u64,
    pub timestamp: u64,
    pub author: Option<Seq<u8>>,
    pub nickname: Option<Seq<char>>,
    pub text: Seq<char>,
}

pub open spec fn key_view(k: Option<PublicKey>) -> Option<Seq<u8>> {
    match k {
        Some(k) => Some(k@),
        None => None,
    }
}

pub open spec fn text_view(s: Option<String>) -> Option<Seq<char>> {
    match s {
        Some(s) => Some(s@),
        None => None,
    }
}

impl View for Line {
    type V = LineView;

    open spec fn view(&self) -> LineView {
        LineView {
            index: self.index,
            timestamp: self.timestamp,
            author: key_view(self.author),
            nickname: text_view(self.nickname),
            text: self.text@,
        }
    }
}

/// The model of a window.
pub struct WindowView {
    pub address: Seq<u8>,
    pub channel: Seq<char>,
    pub topic: Seq<char>,
    pub lines: Seq<LineView>,
    pub line_index: u64,
    pub time_end: u64,
    pub limit: usize,
}

impl WindowView {
    /// Lines are kept in order of strictly increasing insertion index, and
    /// every index was drawn from the counter before its current value.
    pub open spec fn wf(self) -> bool {
        &&& forall|i: int, j: int|
            0 <= i < j < self.lines.len() ==> #[trigger] self.lines[i].index
                < #[trigger] self.lines[j].index
        &&& forall|i: int| 0 <= i < self.lines.len() ==> #[trigger] self.lines[i].index < self.line_index
    }

    /// The window after inserting a line: it goes last, under the next
    /// insertion index, whatever its timestamp. Once the counter is spent
    /// no line is taken.
    pub open spec fn inserted(
        self,
        timestamp: u64,
        author: Option<Seq<u8>>,
        nickname: Option<Seq<char>>,
        text: Seq<char>,
    ) -> WindowView {
        if self.line_index < u64::MAX {
            WindowView {
                lines: self.lines.push(
                    LineView { index: self.line_index, timestamp, author, nickname, text },
                ),
                line_index: (self.line_index + 1) as u64,
                ..self
            }
        } else {
            self
        }
    }

    /// `new` is `self` with a status line of text `text` written at some
    /// time.
    pub open spec fn written(self, new: WindowView, text: Seq<char>) -> bool {
        exists|t: u64| new == self.inserted(t, None, None, text)
    }

    /// The texts of the lines, in order.
    pub open spec fn texts(self) -> Seq<Seq<char>> {
        self.lines.map_values(|l: LineView| l.text)
    }

    /// The window after inserting the entries of `es` one after another.
    pub open spec fn inserted_all(
        self,
        es: Seq<(u64, Option<Seq<u8>>, Option<Seq<char>>, Seq<char>)>,
    ) -> WindowView
        decreases es.len(),
    {
        if es.len() == 0 {
            self
        } else {
            let e = es.last();
            self.inserted_all(es.drop_last()).inserted(e.0, e.1, e.2, e.3)
        }
    }
}

/// Whether `w` already shows a post of `author` with this timestamp and
/// text.
pub open spec fn shows_post(w: WindowView, timestamp: u64, author: Seq<u8>, text: Seq<char>) -> bool {
    exists|j: int|
        0 <= j < w.lines.len() && #[trigger] w.lines[j].timestamp == timestamp && w.lines[j].author
            == Some(author) && w.lines[j].text == text
}

/// Inserting keeps the lines ordered by insertion index.
pub proof fn lemma_inserted_wf(
    w: WindowView,
    timestamp: u64,
    author: Option<Seq<u8>>,
    nickname: Option<Seq<char>>,
    text: Seq<char>,
)
    requires
        w.wf(),
    ensures
        w.inserted(timestamp, author, nickname, text).wf(),
{
}

/// Lines inserted in any interleaving by any number of writers, with
/// timestamps equal, reversed or arbitrary, are read back in the order of
/// insertion, under consecutive insertion indices: the timestamps play no
/// part in the order.
pub proof fn lemma_insertion_order(
    w: WindowView,
    es: Seq<(u64, Option<Seq<u8>>, Option<Seq<char>>, Seq<char>)>,
)
    requires
        w.wf(),
        w.line_index + es.len() <= u64::MAX,
    ensures
        w.inserted_all(es).wf(),
        w.inserted_all(es).line_index == w.line_index + es.len(),
        w.inserted_all(es).lines.len() == w.lines.len() + es.len(),
        w.inserted_all(es).lines.subrange(0, w.lines.len() as int) == w.lines,
        forall|i: int|
            0 <= i < es.len() ==> #[trigger] w.inserted_all(es).lines[w.lines.len() + i] == (LineView {
                index: (w.line_index + i) as u64,
                timestamp: es[i].0,
                author: es[i].1,
                nickname: es[i].2,
                text: es[i].3,
            }),
    decreases es.len(),
{
    if es.len() > 0 {
        let rest = es.drop_last();
        lemma_insertion_order(w, rest);
        let v = w.inserted_all(rest);
        let e = es.last();
        lemma_inserted_wf(v, e.0, e.1, e.2, e.3);
        let r = w.inserted_all(es);
        assert(r == v.inserted(e.0, e.1, e.2, e.3));
        assert(r.lines.subrange(0, w.lines.len() as int) =~= w.lines) by {
            assert(v.lines.subrange(0, w.lines.len() as int) == w.lines);
        }
        assert forall|i: int| 0 <= i < es.len() implies #[trigger] r.lines[w.lines.len() + i] == (
        LineView {
            index: (w.line_index + i) as u64,
            timestamp: es[i].0,
            author: es[i].1,
            nickname: es[i].2,
            text: es[i].3,
        }) by {
            if i < rest.len() {
                assert(rest[i] == es[i]);
                assert(v.lines[w.lines.len() + i] == r.lines[w.lines.len() + i]);
            }
        }
    }
}

/// The number of posts a new window may show.
pub const WINDOW_LIMIT: usize = 50;

/// A conversation window: the lines of one channel of one cabal.
pub struct Window {
    /// The address of a cabal.
    pub address: Addr,
    /// The channel whose contents the window shows.
    pub channel: String,
    /// The channel topic.
    pub topic: String,
    /// The age of the most recent posts to show.
    pub time_end: u64,
    /// The number of posts that may be shown.
    pub limit: usize,
    lines: Vec<Line>,
    line_index: u64,
}

impl View for Window {
    type V = WindowView;

    closed spec fn view(&self) -> WindowView {
        WindowView {
            address: self.address@,
            channel: self.channel@,
            topic: self.topic@,
            lines: self.lines@.map_values(|l: Line| l@),
            line_index: self.line_index,
            time_end: self.time_end,
            limit: self.limit,
        }
    }
}

impl Window {
    /// A window for `channel` of the cabal at `address`, with no topic and
    /// no lines.
    pub fn new(address: Addr, channel: String) -> (r: Window)
        ensures
            r@ == (WindowView {
                address: address@,
                channel: channel@,
                topic: Seq::empty(),
                lines: Seq::empty(),
                line_index: 0,
                time_end: 0,
                limit: WINDOW_LIMIT,
            }),
            r@.wf(),
    {
        let r = Window {
            address,
            channel,
            topic: String::new(),
            time_end: 0,
            limit: WINDOW_LIMIT,
            lines: Vec::new(),
            line_index: 0,
        };
        assert(r@.lines =~= Seq::empty());
        r
    }

    /// The channel.
    pub fn channel(&self) -> (r: &String)
        ensures
            r@ == self@.channel,
    {
        &self.channel
    }

    /// The cabal address.
    pub fn address(&self) -> (r: &Addr)
        ensures
            r@ == self@.address,
    {
        &self.address
    }

    /// The topic.
    pub fn topic(&self) -> (r: &String)
        ensures
            r@ == self@.topic,
    {
        &self.topic
    }

    /// The lines, in order.
    pub fn lines(&self) -> (r: &Vec<Line>)
        ensures
            r@.map_values(|l: Line| l@) == self@.lines,
    {
        &self.lines
    }

    /// Inserts a line under the next insertion index; it goes last,
    /// whatever its timestamp.
    pub fn insert(
        &mut self,
        timestamp: u64,
        author: Option<PublicKey>,
        nick: Option<String>,
        text: &str,
    )
        requires
            old(self)@.wf(),
        ensures
            final(self)@ == old(self)@.inserted(timestamp, key_view(author), text_view(nick), text@),
            final(self)@.wf(),
    {
        if self.line_index < u64::MAX {
            let index = self.line_index;
            self.line_index = self.line_index + 1;
            let line = Line { index, timestamp, author, nickname: nick, text: text.to_owned() };
            self.lines.push(line);
            proof {
                assert(self@.lines =~= old(self)@.lines.push(line@));
            }
        }
    }

    /// Writes a status line stamped with the current time (or zero when the
    /// clock cannot be read).
    pub fn write(&mut self, msg: &str)
        requires
            old(self)@.wf(),
        ensures
            old(self)@.written(final(self)@, msg@),
            final(self)@.wf(),
    {
        let t = match crate::time::now() {
            Ok(t) => t,
            Err(_) => 0,
        };
        self.insert(t, None, None, msg);
    }

    /// Sets the topic.
    pub fn update_topic(&mut self, topic: String)
        ensures
            final(self)@ == (WindowView { topic: topic@, ..old(self)@ }),
    {
        self.topic = topic;
    }
}

#[verifier::external_type_specification]
#[verifier::external_body]
pub struct ExDiff(ansi_diff::Diff);

/// The terminal width, in columns, that an `ansi_diff::Diff` lays lines
/// out for: the one it was made with (`update` keeps it).
pub uninterp spec fn diff_columns(d: ansi_diff::Diff) -> u32;

/// The last frame an `ansi_diff::Diff` was given: its `buffer`.
pub uninterp spec fn diff_frame(d: ansi_diff::Diff) -> Seq<char>;

/// What `ansi_diff::Diff::update` outputs for `frame`, given the differ's
/// state: the escape codes and text that turn the frame on screen into
/// `frame`.
pub uninterp spec fn diff_output(d: ansi_diff::Diff, frame: Seq<char>) -> Seq<char>;

/// Relies on `ansi_diff::Diff::new`, which records `size.0` as its width
/// and starts with an empty buffer.
#[verifier::external_body]
fn new_diff(size: TermSize) -> (d: ansi_diff::Diff)
    ensures
        diff_columns(d) == size.0,
        diff_frame(d) == Seq::<char>::empty(),
{
    ansi_diff::Diff::new(size)
}

/// Relies on `ansi_diff::Diff::resize`, which records `size.0` as its width
/// and runs `update` on its buffer again, which keeps the buffer; see
/// `update_diff` for what that update needs.
#[verifier::external_body]
fn resize_diff(d: &mut ansi_diff::Diff, size: TermSize)
    requires
        size.0 > 0,
        frame_safe(diff_frame(*old(d))),
    ensures
        diff_columns(*final(d)) == size.0,
        diff_frame(*final(d)) == diff_frame(*old(d)),
{
    d.resize(size)
}

/// The label of status lines.
pub const STATUS_LABEL: &'static str = "-status-";

/// What precedes a cabal address in the header of the status window.
pub const CABAL_SCHEME: &'static str = "cabal://";

/// A row of the frame with its line breaks shown as spaces.
pub open spec fn flat(s: Seq<char>) -> Seq<char> {
    s.map_values(|c: char| if c == '\n' { ' ' } else { c })
}

/// Rows joined by line feeds.
pub open spec fn join_lines(ls: Seq<Seq<char>>) -> Seq<char>
    decreases ls.len(),
{
    if ls.len() == 0 {
        Seq::empty()
    } else if ls.len() == 1 {
        ls[0]
    } else {
        join_lines(ls.drop_last()) + seq!['\n'] + ls.last()
    }
}

/// `s` with each line feed preceded by a carriage return.
pub open spec fn crlf(s: Seq<char>) -> Seq<char>
    decreases s.len(),
{
    if s.len() == 0 {
        Seq::empty()
    } else if s.last() == '\n' {
        crlf(s.drop_last()) + seq!['\r', '\n']
    } else {
        crlf(s.drop_last()).push(s.last())
    }
}

/// Resets the terminal and hides its cursor: sent before a full redraw.
pub open spec fn clear_prefix() -> Seq<char> {
    seq!['\x1b', 'c', '\x1b', '[', '?', '2', '5', 'l']
}

/// The header row: the channel name (the status window's in bright green,
/// others after `#`), then the active cabal address for the status window
/// or the topic for others. A channel header that is not plain ASCII ends
/// with an attribute reset, which the screen differ needs (see
/// `update_diff`) and the terminal does not show.
pub open spec fn header_text(w: WindowView, active_address: Option<Seq<u8>>) -> Seq<char> {
    if w.channel == STATUS_CHANNEL@ {
        seq!['['] + painted(w.channel, Colour::BrightGreen) + seq![']', ' '] + match active_address {
            Some(a) => CABAL_SCHEME@ + bytes_text(a),
            None => Seq::empty(),
        }
    } else {
        seq!['[', '#'] + w.channel + seq![']', ' '] + w.topic + if is_ascii_seq(w.channel)
            && is_ascii_seq(w.topic) {
            Seq::empty()
        } else {
            attr_reset()
        }
    }
}

/// Resets the display attributes; ends a channel header that is not plain
/// ASCII, so that every row of a frame is plain ASCII or holds an escape
/// code.
pub open spec fn attr_reset() -> Seq<char> {
    seq!['\x1b', '[', '0', 'm']
}

/// How an author is named: by nickname, else by the first four bytes of
/// the public key in hexadecimal.
pub open spec fn author_label(key: Seq<u8>, nickname: Option<Seq<char>>) -> Seq<char> {
    match nickname {
        Some(n) => n,
        None => bytes_text(key.subrange(0, 4)),
    }
}

/// The row of a line, given the time of day shown for it: `[HH:MM] <name>
/// text` with the name in the author's colour, or `[HH:MM] -status- text`.
pub open spec fn message_text(clock: Seq<char>, l: LineView) -> Seq<char> {
    match l.author {
        Some(key) => seq!['['] + clock + seq![']', ' ', '<'] + painted(
            author_label(key, l.nickname),
            colour_for((byte_sum(key) % 12) as u64),
        ) + seq!['>', ' '] + l.text,
        None => seq!['['] + clock + seq![']', ' '] + painted(STATUS_LABEL@, Colour::BrightGreen)
            + seq![' '] + l.text,
    }
}

/// The input row: `> ` and the text, with the character under the cursor
/// (a space at the end) shown inverted.
pub open spec fn input_text(value: Seq<char>, cursor: nat) -> Seq<char> {
    let c: int = if cursor <= value.len() { cursor as int } else { value.len() as int };
    let n: int = if c + 1 <= value.len() { c + 1 } else { value.len() as int };
    let under = if n > c { value.subrange(c, n) } else { seq![' '] };
    seq!['>', ' '] + value.subrange(0, c) + seq!['\x1b', '[', '7', 'm'] + under + seq![
        '\x1b',
        '[',
        '0',
        'm',
    ] + value.subrange(n, value.len() as int)
}

/// The frame count after one more frame (it stops at the largest count).
pub open spec fn next_tick(t: u64) -> u64 {
    if t < u64::MAX {
        (t + 1) as u64
    } else {
        t
    }
}

/// `n` times of day, each `HH:MM` or `XX:XX`.
pub open spec fn valid_clocks(cs: Seq<Seq<char>>, n: nat) -> bool {
    &&& cs.len() == n
    &&& forall|i: int| 0 <= i < cs.len() ==> is_clock_text(#[trigger] cs[i]) || cs[i] == no_clock_text()
}

/// The rows between the header and the input row.
pub open spec fn message_rows(size: TermSize) -> nat {
    (size.1 - 2) as nat
}

/// How many lines of `w` fit on the screen.
pub open spec fn shown_count(w: WindowView, size: TermSize) -> nat {
    if w.lines.len() <= message_rows(size) {
        w.lines.len()
    } else {
        message_rows(size)
    }
}

/// The most recent lines of `w` that fit on the screen, oldest first.
pub open spec fn shown_lines(w: WindowView, size: TermSize) -> Seq<LineView> {
    w.lines.subrange(w.lines.len() - shown_count(w, size), w.lines.len() as int)
}

pub open spec fn ascii_char(c: char) -> bool {
    (c as u32) < 128
}

pub open spec fn is_ascii_seq(s: Seq<char>) -> bool {
    forall|i: int| 0 <= i < s.len() ==> #[trigger] ascii_char(s[i])
}

/// A colour or attribute code starts at `i`: `ESC [`, one or two digits,
/// `m`.
pub open spec fn style_at(s: Seq<char>, i: int) -> bool {
    &&& 0 <= i && i + 3 < s.len()
    &&& s[i] == '\x1b' && s[i + 1] == '[' && is_decimal(s[i + 2])
    &&& (s[i + 3] == 'm' || (i + 4 < s.len() && is_decimal(s[i + 3]) && s[i + 4] == 'm'))
}

/// A row the screen differ lays out without fault: no line feed, and
/// either plain ASCII or holding a colour or attribute code.
pub open spec fn row_safe(s: Seq<char>) -> bool {
    &&& !s.contains('\n')
    &&& is_ascii_seq(s) || exists|i: int| style_at(s, i)
}

/// A frame made of rows that the screen differ lays out without fault.
pub open spec fn frame_safe(t: Seq<char>) -> bool {
    exists|rows: Seq<Seq<char>>|
        t == join_lines(rows) && forall|k: int| 0 <= k < rows.len() ==> row_safe(#[trigger] rows[k])
}

proof fn lemma_style_append(x: Seq<char>, y: Seq<char>, i: int)
    requires
        style_at(x, i),
    ensures
        style_at(x + y, i),
{
    assert((x + y)[i] == x[i] && (x + y)[i + 1] == x[i + 1] && (x + y)[i + 2] == x[i + 2] && (x
        + y)[i + 3] == x[i + 3]);
    if i + 4 < x.len() {
        assert((x + y)[i + 4] == x[i + 4]);
    }
}

proof fn lemma_style_prepend(x: Seq<char>, y: Seq<char>)
    requires
        style_at(y, 0),
    ensures
        style_at(x + y, x.len() as int),
{
    let n = x.len() as int;
    assert((x + y)[n] == y[0] && (x + y)[n + 1] == y[1] && (x + y)[n + 2] == y[2] && (x + y)[n
        + 3] == y[3]);
    if 4 < y.len() {
        assert((x + y)[n + 4] == y[4]);
    }
}

proof fn lemma_painted_style(t: Seq<char>, c: Colour)
    ensures
        style_at(painted(t, c), 0),
{
    let p = painted(t, c);
    assert(p[0] == '\x1b' && p[1] == '[' && p[2] == fg_digits(c)[0] && p[3] == fg_digits(c)[1]
        && p[4] == 'm');
}

proof fn lemma_flat_style(s: Seq<char>, i: int)
    requires
        style_at(s, i),
    ensures
        style_at(flat(s), i),
        !flat(s).contains('\n'),
{
    lemma_flat_no_newline(s);
}

proof fn lemma_flat_no_newline(s: Seq<char>)
    ensures
        !flat(s).contains('\n'),
        is_ascii_seq(s) ==> is_ascii_seq(flat(s)),
{
    let f = flat(s);
    if f.contains('\n') {
        let j = choose|j: int| 0 <= j < f.len() && f[j] == '\n';
        assert(f[j] == (if s[j] == '\n' { ' ' } else { s[j] }));
    }
}

/// Every row of a frame is safe for the screen differ (it holds an escape
/// code, or is blank), and a frame has exactly as many rows as the terminal.
pub proof fn lemma_frame_safe(u: UiView, cs: Seq<Seq<char>>)
    requires
        u.wf(),
        cs.len() == shown_count(u.active_view(), u.size),
    ensures
        u.frame_lines(cs).len() == u.size.1,
        forall|k: int|
            0 <= k < u.frame_lines(cs).len() ==> row_safe(
                #[trigger] u.frame_rows(cs)[k],
            ),
        frame_safe(u.frame_text(cs)),
{
    let lines = u.frame_lines(cs);
    let rows = u.frame_rows(cs);
    let w = u.active_view();
    let shown = shown_lines(w, u.size);
    let k = message_rows(u.size);
    assert(lines.len() == k + 2);
    let esc0 = seq!['\x1b', '[', '0', 'm'];
    let esc7 = seq!['\x1b', '[', '7', 'm'];
    assert(style_at(esc0, 0));
    assert(style_at(esc7, 0));
    // The header.
    if w.channel == STATUS_CHANNEL@ {
        lemma_painted_style(w.channel, Colour::BrightGreen);
        let a = seq!['['];
        let p = painted(w.channel, Colour::BrightGreen);
        lemma_style_prepend(a, p);
        let info = match u.active_address {
            Some(x) => CABAL_SCHEME@ + bytes_text(x),
            None => Seq::empty(),
        };
        lemma_style_append(a + p, seq![']', ' '], 1);
        lemma_style_append(a + p + seq![']', ' '], info, 1);
        lemma_flat_style(lines[0], 1);
    } else {
        let x = seq!['[', '#'] + w.channel + seq![']', ' '] + w.topic;
        if is_ascii_seq(w.channel) && is_ascii_seq(w.topic) {
            assert(lines[0] =~= x + Seq::<char>::empty());
            assert(is_ascii_seq(x)) by {
                assert forall|i: int| 0 <= i < x.len() implies #[trigger] ascii_char(x[i]) by {
                    let n = w.channel.len() as int;
                    if 2 <= i < 2 + n {
                        assert(x[i] == w.channel[i - 2]);
                    } else if 4 + n <= i {
                        assert(x[i] == w.topic[i - 4 - n]);
                    }
                }
            }
            lemma_flat_no_newline(lines[0]);
        } else {
            lemma_style_prepend(x, attr_reset());
            lemma_flat_style(lines[0], x.len() as int);
        }
    }
    // The input row.
    {
        let v = u.input.value;
        let c: int = if u.input.cursor <= v.len() { u.input.cursor as int } else { v.len() as int };
        let n: int = if c + 1 <= v.len() { c + 1 } else { v.len() as int };
        let under = if n > c { v.subrange(c, n) } else { seq![' '] };
        let x = seq!['>', ' '] + v.subrange(0, c);
        lemma_style_prepend(x, esc7);
        let y1 = x + esc7;
        lemma_style_append(y1, under, x.len() as int);
        lemma_style_append(y1 + under, esc0, x.len() as int);
        lemma_style_append(y1 + under + esc0, v.subrange(n, v.len() as int), x.len() as int);
        assert(lines[(k + 1) as int] == y1 + under + esc0 + v.subrange(n, v.len() as int));
        lemma_flat_style(lines[(k + 1) as int], x.len() as int);
    }
    assert forall|j: int| 0 <= j < lines.len() implies row_safe(#[trigger] rows[j]) by {
        assert(rows[j] == flat(lines[j]));
        lemma_flat_no_newline(lines[j]);
        if 1 <= j <= k {
            let i = j - 1;
            assert(lines[j] == (if i < shown.len() {
                message_text(cs[i], shown[i])
            } else {
                Seq::<char>::empty()
            }));
            if i < shown.len() {
                let l = shown[i];
                let clock = cs[i];
                match l.author {
                    Some(key) => {
                        let p = painted(
                            author_label(key, l.nickname),
                            colour_for((byte_sum(key) % 12) as u64),
                        );
                        lemma_painted_style(
                            author_label(key, l.nickname),
                            colour_for((byte_sum(key) % 12) as u64),
                        );
                        let x = seq!['['] + clock + seq![']', ' ', '<'];
                        lemma_style_prepend(x, p);
                        lemma_style_append(x + p, seq!['>', ' '], x.len() as int);
                        lemma_style_append(x + p + seq!['>', ' '], l.text, x.len() as int);
                        lemma_flat_style(lines[j], x.len() as int);
                    },
                    None => {
                        let p = painted(STATUS_LABEL@, Colour::BrightGreen);
                        lemma_painted_style(STATUS_LABEL@, Colour::BrightGreen);
                        let x = seq!['['] + clock + seq![']', ' '];
                        lemma_style_prepend(x, p);
                        lemma_style_append(x + p, seq![' '], x.len() as int);
                        lemma_style_append(x + p + seq![' '], l.text, x.len() as int);
                        lemma_flat_style(lines[j], x.len() as int);
                    },
                }
            } else {
                assert(is_ascii_seq(lines[j]));
            }
        }
    }
    assert(u.frame_text(cs) == join_lines(rows));
}

/// Relies on `ansi_diff::Diff::update`: gives the escape output that turns
/// the last frame into `frame`, which it keeps as its buffer; the width
/// stays. The output depends on the differ's state and `frame` alone. It
/// divides by the width, and for a changed row with no escape code whose
/// byte length exceeds its length in characters its inline diff can index
/// past the row.
#[verifier::external_body]
fn update_diff(d: &mut ansi_diff::Diff, frame: &str) -> (r: String)
    requires
        diff_columns(*old(d)) > 0,
        frame_safe(frame@),
    ensures
        diff_columns(*final(d)) == diff_columns(*old(d)),
        diff_frame(*final(d)) == frame@,
        r@ == diff_output(*old(d), frame@),
{
    d.update(frame)
}

fn append_chars(r: &mut Vec<char>, t: &Vec<char>)
    ensures
        final(r)@ == old(r)@ + t@,
{
    let mut i: usize = 0;
    while i < t.len()
        invariant
            i <= t@.len(),
            r@ == old(r)@ + t@.subrange(0, i as int),
        decreases t@.len() - i,
    {
        r.push(t[i]);
        assert(t@.subrange(0, i + 1) =~= t@.subrange(0, i as int).push(t@[i as int]));
        i = i + 1;
    }
    assert(t@.subrange(0, t@.len() as int) =~= t@);
}

fn append_str(r: &mut Vec<char>, t: &str)
    ensures
        final(r)@ == old(r)@ + t@,
{
    let cs = chars_of(t);
    append_chars(r, &cs);
}

fn append_range(r: &mut Vec<char>, t: &Vec<char>, from: usize, to: usize)
    requires
        from <= to <= t@.len(),
    ensures
        final(r)@ == old(r)@ + t@.subrange(from as int, to as int),
{
    let mut i: usize = from;
    while i < to
        invariant
            from <= i <= to <= t@.len(),
            r@ == old(r)@ + t@.subrange(from as int, i as int),
        decreases to - i,
    {
        r.push(t[i]);
        assert(t@.subrange(from as int, i + 1) =~= t@.subrange(from as int, i as int).push(
            t@[i as int],
        ));
        i = i + 1;
    }
}

fn all_ascii(s: &String) -> (r: bool)
    ensures
        r == is_ascii_seq(s@),
{
    let cs = chars_of(s.as_str());
    let mut i: usize = 0;
    while i < cs.len()
        invariant
            cs@ == s@,
            i <= cs@.len(),
            forall|j: int| 0 <= j < i ==> #[trigger] ascii_char(cs@[j]),
        decreases cs@.len() - i,
    {
        if (cs[i] as u32) >= 128 {
            assert(!ascii_char(s@[i as int]));
            return false;
        }
        i = i + 1;
    }
    true
}

fn is_status_channel(channel: &String) -> (r: bool)
    ensures
        r == (channel@ == STATUS_CHANNEL@),
{
    *channel == STATUS_CHANNEL.to_owned()
}

/// Builds the row of a line.
fn message_line(clock: &String, l: &Line) -> (r: Vec<char>)
    ensures
        r@ == message_text(clock@, l@),
{
    let mut r: Vec<char> = Vec::new();
    r.push('[');
    append_str(&mut r, clock.as_str());
    r.push(']');
    r.push(' ');
    match &l.author {
        Some(key) => {
            r.push('<');
            let name: String = match &l.nickname {
                Some(n) => n.clone(),
                None => {
                    let mut head: Vec<u8> = Vec::new();
                    let mut i: usize = 0;
                    while i < 4
                        invariant
                            i <= 4,
                            key@.len() == 32,
                            head@ == key@.subrange(0, i as int),
                        decreases 4 - i,
                    {
                        head.push(key[i]);
                        assert(key@.subrange(0, i + 1) =~= key@.subrange(0, i as int).push(
                            key@[i as int],
                        ));
                        i = i + 1;
                    }
                    hex::to(head.as_slice())
                },
            };
            let colour = utils::public_key_to_colour(key);
            let painted_name = utils::paint(name.as_str(), colour);
            append_str(&mut r, painted_name.as_str());
            r.push('>');
            r.push(' ');
        },
        None => {
            let label = utils::paint(STATUS_LABEL, Colour::BrightGreen);
            append_str(&mut r, label.as_str());
            r.push(' ');
        },
    }
    append_str(&mut r, l.text.as_str());
    proof {
        let expect = message_text(clock@, l@);
        assert(r@ =~= expect);
    }
    r
}

/// A row with its line feeds replaced by spaces.
fn flatten(v: &Vec<char>) -> (r: Vec<char>)
    ensures
        r@ == flat(v@),
{
    let mut r: Vec<char> = Vec::new();
    let mut i: usize = 0;
    while i < v.len()
        invariant
            i <= v@.len(),
            r@ == flat(v@.subrange(0, i as int)),
        decreases v@.len() - i,
    {
        let c = v[i];
        r.push(
            if c == '\n' {
                ' '
            } else {
                c
            },
        );
        assert(flat(v@.subrange(0, i + 1)) =~= flat(v@.subrange(0, i as int)).push(
            if c == '\n' {
                ' '
            } else {
                c
            },
        ));
        i = i + 1;
    }
    assert(v@.subrange(0, v@.len() as int) =~= v@);
    r
}

/// The rows joined by line feeds.
fn join_rows(rows: &Vec<Vec<char>>) -> (r: Vec<char>)
    ensures
        r@ == join_lines(rows@.map_values(|x: Vec<char>| x@)),
{
    let ghost views = rows@.map_values(|x: Vec<char>| x@);
    let mut r: Vec<char> = Vec::new();
    let mut i: usize = 0;
    while i < rows.len()
        invariant
            i <= rows@.len(),
            views == rows@.map_values(|x: Vec<char>| x@),
            r@ == join_lines(views.subrange(0, i as int)),
        decreases rows@.len() - i,
    {
        if i > 0 {
            r.push('\n');
        }
        append_chars(&mut r, &rows[i]);
        proof {
            let next = views.subrange(0, i + 1);
            assert(next.drop_last() =~= views.subrange(0, i as int));
            if i == 0 {
                assert(r@ =~= join_lines(next));
            }
        }
        i = i + 1;
    }
    assert(views.subrange(0, rows@.len() as int) =~= views);
    r
}

/// `s` with each line feed preceded by a carriage return.
fn crlf_text(s: &String) -> (r: String)
    ensures
        r@ == crlf(s@),
{
    let cs = chars_of(s.as_str());
    let mut r = String::new();
    let mut i: usize = 0;
    while i < cs.len()
        invariant
            i <= cs@.len(),
            r@ == crlf(cs@.subrange(0, i as int)),
        decreases cs@.len() - i,
    {
        let c = cs[i];
        if c == '\n' {
            push_char(&mut r, '\r');
        }
        push_char(&mut r, c);
        proof {
            let next = cs@.subrange(0, i + 1);
            assert(next.drop_last() =~= cs@.subrange(0, i as int));
            assert(r@ =~= crlf(next));
        }
        i = i + 1;
    }
    assert(cs@.subrange(0, cs@.len() as int) =~= s@);
    r
}

/// The model of the controller.
pub struct UiView {
    pub active: nat,
    pub active_address: Option<Seq<u8>>,
    pub windows: Seq<WindowView>,
    pub size: TermSize,
    pub input: InputModel,
    /// The number of frames drawn so far.
    pub tick: u64,
}

/// The window that always stands first.
pub open spec fn is_status_window(w: WindowView) -> bool {
    w.address.len() == 0 && w.channel == STATUS_CHANNEL@
}

/// A size the screen can be drawn in: at least one column, and rows for
/// the header and the input line.
pub open spec fn size_ok(size: TermSize) -> bool {
    size.0 >= 1 && size.1 >= 2
}

/// The first window a window store holds for a cabal and channel.
pub open spec fn first_match(ws: Seq<WindowView>, address: Seq<u8>, channel: Seq<char>, i: int) -> bool {
    &&& 0 <= i < ws.len()
    &&& ws[i].address == address && ws[i].channel == channel
    &&& forall|j: int| 0 <= j < i ==> !(#[trigger] ws[j].address == address && ws[j].channel == channel)
}

/// Whether a window store holds a window for a cabal and channel.
pub open spec fn has_window(ws: Seq<WindowView>, address: Seq<u8>, channel: Seq<char>) -> bool {
    exists|i: int| 0 <= i < ws.len() && #[trigger] ws[i].address == address && ws[i].channel == channel
}

impl UiView {
    pub open spec fn wf(self) -> bool {
        &&& self.windows.len() >= 1
        &&& is_status_window(self.windows[0])
        &&& self.active < self.windows.len()
        &&& forall|i: int| 0 <= i < self.windows.len() ==> (#[trigger] self.windows[i]).wf()
        &&& self.input.wf()
        &&& size_ok(self.size)
    }

    /// The active index clamped to the windows there are.
    pub open spec fn clamp(self, index: nat) -> nat {
        if index < self.windows.len() {
            index
        } else {
            (self.windows.len() - 1) as nat
        }
    }

    /// The controller with window `i` replaced.
    pub open spec fn with_window(self, i: int, w: WindowView) -> UiView {
        UiView { windows: self.windows.update(i, w), ..self }
    }

    /// `new` is `self` with status line `text` written to window `i`.
    pub open spec fn written_to(self, new: UiView, i: int, text: Seq<char>) -> bool {
        &&& new.windows.len() == self.windows.len()
        &&& self.windows[i].written(new.windows[i], text)
        &&& new == self.with_window(i, new.windows[i])
    }

    /// The active window.
    pub open spec fn active_view(self) -> WindowView {
        self.windows[self.active as int]
    }

    /// The rows of the frame: the header, one row for each line shown
    /// (blank rows below when there are fewer lines than rows), and the
    /// input row. `clocks` holds the time of day shown for each line.
    pub open spec fn frame_lines(self, clocks: Seq<Seq<char>>) -> Seq<Seq<char>> {
        let w = self.active_view();
        let shown = shown_lines(w, self.size);
        seq![header_text(w, self.active_address)] + Seq::new(
            message_rows(self.size),
            |i: int|
                if i < shown.len() {
                    message_text(clocks[i], shown[i])
                } else {
                    Seq::empty()
                },
        ) + seq![input_text(self.input.value, self.input.cursor)]
    }

    /// The frame: its rows, line breaks within a row shown as spaces,
    /// joined by line feeds.
    pub open spec fn frame_text(self, clocks: Seq<Seq<char>>) -> Seq<char> {
        join_lines(self.frame_rows(clocks))
    }

    /// The rows of the frame with line breaks shown as spaces.
    pub open spec fn frame_rows(self, clocks: Seq<Seq<char>>) -> Seq<Seq<char>> {
        self.frame_lines(clocks).map_values(|l: Seq<char>| flat(l))
    }

    /// The texts of the status window.
    pub open spec fn status_texts(self) -> Seq<Seq<char>> {
        self.windows[0].texts()
    }
}

/// The controller: the window store, the line editor, and the screen.
pub struct Ui {
    active_window: usize,
    active_address: Option<Addr>,
    windows: Vec<Window>,
    diff: ansi_diff::Diff,
    size: TermSize,
    input: Input,
    tick: u64,
}

impl View for Ui {
    type V = UiView;

    closed spec fn view(&self) -> UiView {
        UiView {
            active: self.active_window as nat,
            active_address: match self.active_address {
                Some(a) => Some(a@),
                None => None,
            },
            windows: self.windows@.map_values(|w: Window| w@),
            size: self.size,
            input: self.input@,
            tick: self.tick,
        }
    }
}

impl Ui {
    /// The invariant: the model is well formed and the screen differ lays
    /// lines out for the current width.
    pub closed spec fn wf(&self) -> bool {
        &&& self@.wf()
        &&& diff_columns(self.diff) == self.size.0
        &&& frame_safe(diff_frame(self.diff))
    }

    /// The screen differ, which holds the last frame drawn.
    pub closed spec fn differ(&self) -> ansi_diff::Diff {
        self.diff
    }

    /// The invariant as it reads on the model.
    pub proof fn lemma_wf(&self)
        requires
            self.wf(),
        ensures
            self@.wf(),
    {
    }

    /// The empty frame of a new differ is safe.
    proof fn lemma_empty_frame_safe()
        ensures
            frame_safe(Seq::empty()),
    {
        let rows = seq![Seq::<char>::empty()];
        assert(join_lines(rows) =~= Seq::empty());
        assert(row_safe(rows[0]));
    }

    /// A controller with only the status window, sized `size`.
    pub fn new(size: TermSize) -> (r: Ui)
        requires
            size_ok(size),
        ensures
            r.wf(),
            r@.windows.len() == 1,
            r@.windows[0] == (WindowView {
                address: Seq::empty(),
                channel: STATUS_CHANNEL@,
                topic: Seq::empty(),
                lines: Seq::empty(),
                line_index: 0,
                time_end: 0,
                limit: WINDOW_LIMIT,
            }),
            r@.active == 0,
            r@.active_address is None,
            r@.size == size,
            r@.input.value.len() == 0 && r@.input.cursor == 0 && r@.input.events.len() == 0,
            r@.input.state == crate::input::SeqState::Idle,
            r@.tick == 0,
    {
        let status = Window::new(Vec::new(), STATUS_CHANNEL.to_owned());
        let mut windows: Vec<Window> = Vec::new();
        windows.push(status);
        proof {
            Self::lemma_empty_frame_safe();
        }
        let r = Ui {
            active_window: 0,
            active_address: None,
            windows,
            diff: new_diff(size),
            size,
            input: Input::default(),
            tick: 0,
        };
        assert(r@.windows[0] == status@);
        r
    }

    /// Takes a new terminal size; the screen differ lays the last frame out
    /// again for it, and the next update draws for it. Nothing is drawn now.
    pub fn resize(&mut self, size: TermSize)
        requires
            old(self).wf(),
            size_ok(size),
        ensures
            final(self).wf(),
            final(self)@ == (UiView { size, ..old(self)@ }),
    {
        resize_diff(&mut self.diff, size);
        self.size = size;
    }

    /// The windows, in order.
    pub fn windows(&self) -> (r: &Vec<Window>)
        ensures
            r@.map_values(|w: Window| w@) == self@.windows,
    {
        &self.windows
    }

    /// The terminal size.
    pub fn get_size(&self) -> (r: TermSize)
        ensures
            r == self@.size,
    {
        self.size
    }

    /// Writes a status line to window `index`; with no such window nothing
    /// changes.
    pub fn write(&mut self, index: usize, msg: &str)
        requires
            old(self).wf(),
        ensures
            final(self).wf(),
            index < old(self)@.windows.len() ==> old(self)@.written_to(final(self)@, index as int, msg@),
            index >= old(self)@.windows.len() ==> final(self)@ == old(self)@,
    {
        if index >= self.windows.len() {
            return ;
        }
        let ghost old_ws = self@.windows;
        let mut w = self.windows.remove(index);
        proof {
            assert(w@ == old_ws[index as int]);
        }
        w.write(msg);
        self.windows.insert(index, w);
        proof {
            assert(self@.windows =~= old_ws.update(index as int, w@));
            assert(old(self)@.windows[index as int].written(self@.windows[index as int], msg@));
        }
    }

    /// Writes a status line to the status window.
    pub fn write_status(&mut self, msg: &str)
        requires
            old(self).wf(),
        ensures
            final(self).wf(),
            old(self)@.written_to(final(self)@, 0, msg@),
    {
        self.write(0, msg);
    }

    /// Inserts a line into window `index` (see `Window::insert`); with no
    /// such window nothing changes.
    pub fn insert_line(
        &mut self,
        index: usize,
        timestamp: u64,
        author: Option<PublicKey>,
        nick: Option<String>,
        text: &str,
    )
        requires
            old(self).wf(),
        ensures
            final(self).wf(),
            index >= old(self)@.windows.len() ==> final(self)@ == old(self)@,
            index < old(self)@.windows.len() ==> final(self)@ == old(self)@.with_window(
                index as int,
                old(self)@.windows[index as int].inserted(
                    timestamp,
                    key_view(author),
                    text_view(nick),
                    text@,
                ),
            ),
    {
        if index >= self.windows.len() {
            return ;
        }
        let ghost old_ws = self@.windows;
        let mut w = self.windows.remove(index);
        proof {
            assert(w@ == old_ws[index as int]);
        }
        w.insert(timestamp, author, nick, text);
        self.windows.insert(index, w);
        proof {
            assert(self@.windows =~= old_ws.update(index as int, w@));
        }
    }

    /// Sets the topic of window `index`; with no such window nothing
    /// changes.
    pub fn update_topic(&mut self, index: usize, topic: String)
        requires
            old(self).wf(),
        ensures
            final(self).wf(),
            index >= old(self)@.windows.len() ==> final(self)@ == old(self)@,
            index < old(self)@.windows.len() ==> final(self)@ == old(self)@.with_window(
                index as int,
                WindowView { topic: topic@, ..old(self)@.windows[index as int] },
            ),
    {
        if index >= self.windows.len() {
            return ;
        }
        let ghost old_ws = self@.windows;
        let mut w = self.windows.remove(index);
        proof {
            assert(w@ == old_ws[index as int]);
        }
        w.update_topic(topic);
        self.windows.insert(index, w);
        proof {
            assert(self@.windows =~= old_ws.update(index as int, w@));
        }
    }

    /// Whether window `index` already shows a post of `author` with this
    /// timestamp and text.
    pub fn shows_post(&self, index: usize, timestamp: u64, author: &PublicKey, text: &String) -> (r:
        bool)
        requires
            index < self@.windows.len(),
        ensures
            r == shows_post(self@.windows[index as int], timestamp, author@, text@),
    {
        let w = &self.windows[index];
        let ghost wv = self@.windows[index as int];
        assert(w@ == wv);
        let mut j: usize = 0;
        while j < w.lines.len()
            invariant
                w@ == wv,
                index < self@.windows.len(),
                wv == self@.windows[index as int],
                j <= wv.lines.len(),
                forall|k: int|
                    0 <= k < j ==> !(#[trigger] wv.lines[k].timestamp == timestamp
                        && wv.lines[k].author == Some(author@) && wv.lines[k].text == text@),
            decreases wv.lines.len() - j,
        {
            let l = &w.lines[j];
            assert(l@ == wv.lines[j as int]);
            if l.timestamp == timestamp && l.text == *text {
                if let Some(k) = &l.author {
                    let mut same = true;
                    let mut b: usize = 0;
                    while b < 32
                        invariant
                            b <= 32,
                            k@.len() == 32,
                            author@.len() == 32,
                            same == (forall|x: int| 0 <= x < b ==> k@[x] == author@[x]),
                        decreases 32 - b,
                    {
                        if k[b] != author[b] {
                            same = false;
                        }
                        b = b + 1;
                    }
                    if same {
                        assert(k@ =~= author@);
                        assert(wv.lines[j as int].author == Some(author@));
                        assert(wv.lines[j as int].timestamp == timestamp && wv.lines[j as int].text
                            == text@);
                        return true;
                    }
                    assert(k@ != author@) by {
                        let x = choose|x: int| 0 <= x < 32 && k@[x] != author@[x];
                    }
                }
            }
            j = j + 1;
        }
        false
    }

    /// The active window.
    pub fn get_active_window(&self) -> (r: &Window)
        requires
            self.wf(),
        ensures
            r@ == self@.windows[self@.active as int],
    {
        &self.windows[self.active_window]
    }

    /// The index of the active window.
    pub fn get_active_index(&self) -> (r: usize)
        ensures
            r == self@.active,
    {
        self.active_window
    }

    /// Makes window `index` active, or the last window when there is no
    /// window `index`.
    pub fn set_active_index(&mut self, index: usize)
        requires
            old(self).wf(),
        ensures
            final(self).wf(),
            final(self)@ == (UiView { active: old(self)@.clamp(index as nat), ..old(self)@ }),
    {
        if index < self.windows.len() {
            self.active_window = index;
        } else {
            self.active_window = self.windows.len() - 1;
        }
    }

    /// The address of the active cabal.
    pub fn get_active_address(&self) -> (r: Option<&Addr>)
        ensures
            r matches Some(a) ==> self@.active_address == Some(a@),
            r is None ==> self@.active_address is None,
    {
        self.active_address.as_ref()
    }

    /// Makes the cabal at `addr` the active one.
    pub fn set_active_address(&mut self, addr: &Addr)
        requires
            old(self).wf(),
        ensures
            final(self).wf(),
            final(self)@ == (UiView { active_address: Some(addr@), ..old(self)@ }),
    {
        self.active_address = Some(addr.clone());
    }

    /// Appends a window for `channel` of the cabal at `address`; gives its
    /// index.
    pub fn add_window(&mut self, address: Addr, channel: String) -> (r: usize)
        requires
            old(self).wf(),
        ensures
            final(self).wf(),
            r == old(self)@.windows.len(),
            final(self)@ == (UiView {
                windows: old(self)@.windows.push(
                    WindowView {
                        address: address@,
                        channel: channel@,
                        topic: Seq::empty(),
                        lines: Seq::empty(),
                        line_index: 0,
                        time_end: 0,
                        limit: WINDOW_LIMIT,
                    },
                ),
                ..old(self)@
            }),
    {
        let w = Window::new(address, channel);
        self.windows.push(w);
        proof {
            assert(self@.windows =~= old(self)@.windows.push(w@));
        }
        self.windows.len() - 1
    }

    /// The index of the first window for `channel` of the cabal at
    /// `address`.
    pub fn get_window_index(&self, address: &Addr, channel: &String) -> (r: Option<usize>)
        ensures
            r matches Some(i) ==> first_match(self@.windows, address@, channel@, i as int),
            r is None ==> !has_window(self@.windows, address@, channel@),
    {
        let mut i: usize = 0;
        while i < self.windows.len()
            invariant
                i <= self@.windows.len(),
                forall|j: int|
                    0 <= j < i ==> !(#[trigger] self@.windows[j].address == address@
                        && self@.windows[j].channel == channel@),
            decreases self@.windows.len() - i,
        {
            let w = &self.windows[i];
            proof {
                assert(w@ == self@.windows[i as int]);
            }
            if crate::text::same_bytes(&w.address, address) && w.channel == *channel {
                return Some(i);
            }
            i = i + 1;
        }
        None
    }

    /// The first window for `channel` of the cabal at `address`.
    pub fn get_window(&self, address: &Addr, channel: &String) -> (r: Option<&Window>)
        ensures
            r matches Some(w) ==> exists|i: int|
                first_match(self@.windows, address@, channel@, i) && w@ == self@.windows[i],
            r is None ==> !has_window(self@.windows, address@, channel@),
    {
        match self.get_window_index(address, channel) {
            Some(i) => Some(&self.windows[i]),
            None => None,
        }
    }

    /// Moves window `src` to position `dst`. The status window stays first:
    /// with either index zero or out of range nothing moves. The active
    /// index is kept.
    pub fn move_window(&mut self, src: usize, dst: usize)
        requires
            old(self).wf(),
        ensures
            final(self).wf(),
            (0 < src < old(self)@.windows.len() && 0 < dst < old(self)@.windows.len())
                ==> final(self)@ == (UiView {
                windows: old(self)@.windows.remove(src as int).insert(
                    dst as int,
                    old(self)@.windows[src as int],
                ),
                ..old(self)@
            }),
            !(0 < src < old(self)@.windows.len() && 0 < dst < old(self)@.windows.len())
                ==> final(self)@ == old(self)@,
    {
        if 0 < src && src < self.windows.len() && 0 < dst && dst < self.windows.len() {
            let ghost old_ws = self@.windows;
            let w = self.windows.remove(src);
            self.windows.insert(dst, w);
            proof {
                assert(self@.windows =~= old_ws.remove(src as int).insert(dst as int, w@));
                assert(self@.windows[0] == old_ws[0]);
            }
        }
    }

    /// Removes window `index`. The status window is never removed, nor is a
    /// window that does not exist. An active index past the removed window
    /// moves down by one, so the same window stays active; one that would
    /// fall off the end moves to the new last window.
    pub fn remove_window(&mut self, index: usize)
        requires
            old(self).wf(),
        ensures
            final(self).wf(),
            (0 < index < old(self)@.windows.len()) ==> final(self)@ == (UiView {
                windows: old(self)@.windows.remove(index as int),
                active: if index < old(self)@.active {
                    (old(self)@.active - 1) as nat
                } else if old(self)@.active < old(self)@.windows.len() - 1 {
                    old(self)@.active
                } else {
                    (old(self)@.windows.len() - 2) as nat
                },
                ..old(self)@
            }),
            !(0 < index < old(self)@.windows.len()) ==> final(self)@ == old(self)@,
    {
        if 0 < index && index < self.windows.len() {
            let ghost old_ws = self@.windows;
            self.windows.remove(index);
            if index < self.active_window {
                self.active_window = self.active_window - 1;
            } else if self.active_window >= self.windows.len() {
                self.active_window = self.windows.len() - 1;
            }
            proof {
                assert(self@.windows =~= old_ws.remove(index as int));
            }
        }
    }

    /// Reads one byte from the keyboard into the line editor.
    pub fn putc(&mut self, b: u8)
        requires
            old(self).wf(),
        ensures
            final(self).wf(),
            final(self)@ == (UiView { input: old(self)@.input.feed(b), ..old(self)@ }),
    {
        self.input.putc(b);
    }

    /// Takes the oldest event of the line editor.
    pub fn next_event(&mut self) -> (r: Option<InputEvent>)
        requires
            old(self).wf(),
        ensures
            final(self).wf(),
            final(self)@.windows == old(self)@.windows,
            final(self)@.active == old(self)@.active,
            final(self)@.active_address == old(self)@.active_address,
            old(self)@.input.events.len() == 0 ==> r is None && final(self)@ == old(self)@,
            old(self)@.input.events.len() > 0 ==> (r matches Some(e) && e@ == old(
                self,
            )@.input.events[0] && final(self)@ == (UiView {
                input: InputModel { events: old(self)@.input.events.drop_first(), ..old(self)@.input },
                ..old(self)@
            })),
    {
        self.input.next_event()
    }

    /// Builds the header row.
    fn header_line(&self) -> (r: Vec<char>)
        requires
            self.wf(),
        ensures
            r@ == header_text(self@.active_view(), self@.active_address),
    {
        let w = &self.windows[self.active_window];
        let mut r: Vec<char> = Vec::new();
        r.push('[');
        if is_status_channel(&w.channel) {
            let name = utils::paint(w.channel.as_str(), Colour::BrightGreen);
            append_str(&mut r, name.as_str());
            r.push(']');
            r.push(' ');
            match &self.active_address {
                Some(a) => {
                    append_str(&mut r, CABAL_SCHEME);
                    let h = hex::to(a.as_slice());
                    append_str(&mut r, h.as_str());
                },
                None => {},
            }
        } else {
            r.push('#');
            append_str(&mut r, w.channel.as_str());
            r.push(']');
            r.push(' ');
            append_str(&mut r, w.topic.as_str());
            if !(all_ascii(&w.channel) && all_ascii(&w.topic)) {
                r.push('\x1b');
                r.push('[');
                r.push('0');
                r.push('m');
            }
        }
        proof {
            assert(w@ == self@.active_view());
            assert(r@ =~= header_text(self@.active_view(), self@.active_address));
        }
        r
    }

    /// Builds the input row.
    fn input_line(&self) -> (r: Vec<char>)
        requires
            self.wf(),
        ensures
            r@ == input_text(self@.input.value, self@.input.cursor),
    {
        let v = self.input.value_chars();
        let len = v.len();
        let cur = self.input.cursor();
        let c = if cur <= len {
            cur
        } else {
            len
        };
        let n = if c < len {
            c + 1
        } else {
            len
        };
        let mut r: Vec<char> = Vec::new();
        r.push('>');
        r.push(' ');
        append_range(&mut r, v, 0, c);
        r.push('\x1b');
        r.push('[');
        r.push('7');
        r.push('m');
        if n > c {
            append_range(&mut r, v, c, n);
        } else {
            r.push(' ');
        }
        r.push('\x1b');
        r.push('[');
        r.push('0');
        r.push('m');
        append_range(&mut r, v, n, len);
        assert(r@ =~= input_text(self@.input.value, self@.input.cursor));
        r
    }

    /// The number of lines of the active window that fit on the screen.
    pub fn shown_count(&self) -> (r: usize)
        requires
            self.wf(),
        ensures
            r == shown_count(self@.active_view(), self@.size),
    {
        let w = &self.windows[self.active_window];
        let k = (self.size.1 - 2) as usize;
        let len = w.lines.len();
        proof {
            assert(w@ == self@.active_view());
            assert(w@.lines.len() == len);
        }
        if len <= k {
            len
        } else {
            k
        }
    }

    /// The rows of the frame, line breaks shown as spaces, for the times of
    /// day in `clocks`.
    fn frame_rows(&self, clocks: &Vec<String>) -> (r: Vec<Vec<char>>)
        requires
            self.wf(),
            clocks@.len() == shown_count(self@.active_view(), self@.size),
        ensures
            r@.map_values(|x: Vec<char>| x@) == self@.frame_lines(
                clocks@.map_values(|c: String| c@),
            ).map_values(|l: Seq<char>| flat(l)),
    {
        let ghost cv = clocks@.map_values(|c: String| c@);
        let ghost target = self@.frame_lines(cv).map_values(|l: Seq<char>| flat(l));
        let w = &self.windows[self.active_window];
        let k = (self.size.1 - 2) as usize;
        let count = self.shown_count();
        let len = w.lines.len();
        let start = len - count;
        let mut rows: Vec<Vec<char>> = Vec::new();
        let header = self.header_line();
        rows.push(flatten(&header));
        let ghost shown = shown_lines(self@.active_view(), self@.size);
        proof {
            assert(w@ == self@.active_view());
            assert(w@.lines.len() == len);
            assert(rows@.map_values(|x: Vec<char>| x@) =~= target.subrange(0, 1));
        }
        let mut i: usize = 0;
        while i < k
            invariant
                self.wf(),
                w@ == self@.active_view(),
                w@.lines.len() == len,
                k == message_rows(self@.size),
                count == shown_count(self@.active_view(), self@.size),
                start + count == len,
                shown == shown_lines(self@.active_view(), self@.size),
                cv == clocks@.map_values(|c: String| c@),
                clocks@.len() == count,
                target == self@.frame_lines(cv).map_values(|l: Seq<char>| flat(l)),
                target.len() == k + 2,
                i <= k,
                rows@.map_values(|x: Vec<char>| x@) == target.subrange(0, i + 1),
            decreases k - i,
        {
            let row = if i < count {
                let l = &w.lines[start + i];
                proof {
                    assert(l@ == shown[i as int]);
                    assert(clocks@[i as int]@ == cv[i as int]);
                }
                message_line(&clocks[i], l)
            } else {
                Vec::new()
            };
            let ghost prev = rows@;
            let fr = flatten(&row);
            rows.push(fr);
            proof {
                assert(target[i + 1] == flat(row@));
                assert(rows@ == prev.push(fr));
                assert(rows@.map_values(|x: Vec<char>| x@) =~= prev.map_values(|x: Vec<char>| x@).push(
                    fr@,
                ));
                assert(rows@.map_values(|x: Vec<char>| x@) =~= target.subrange(0, i + 2));
            }
            i = i + 1;
        }
        let input = self.input_line();
        let ghost prev = rows@;
        let fi = flatten(&input);
        rows.push(fi);
        proof {
            assert(rows@.map_values(|x: Vec<char>| x@) =~= prev.map_values(|x: Vec<char>| x@).push(
                fi@,
            ));
            assert(rows@.map_values(|x: Vec<char>| x@) =~= target);
        }
        rows
    }

    /// The frame for the times of day in `clocks`, one for each line shown
    /// (see `UiView::frame_text`): exactly as many rows as the terminal
    /// has.
    pub fn render_frame(&self, clocks: &Vec<String>) -> (r: String)
        requires
            self.wf(),
            clocks@.len() == shown_count(self@.active_view(), self@.size),
        ensures
            r@ == self@.frame_text(clocks@.map_values(|c: String| c@)),
    {
        let rows = self.frame_rows(clocks);
        string_of(&join_rows(&rows))
    }

    /// The times of day of the lines shown.
    fn clocks(&self) -> (r: Vec<String>)
        requires
            self.wf(),
        ensures
            valid_clocks(
                r@.map_values(|c: String| c@),
                shown_count(self@.active_view(), self@.size),
            ),
    {
        let w = &self.windows[self.active_window];
        let count = self.shown_count();
        let len = w.lines.len();
        let mut r: Vec<String> = Vec::new();
        let mut i: usize = len - count;
        while i < len
            invariant
                count <= len,
                len == w.lines@.len(),
                len - count <= i <= len,
                r@.len() == i - (len - count),
                forall|j: int|
                    0 <= j < r@.len() ==> is_clock_text(#[trigger] r@[j]@) || r@[j]@
                        == no_clock_text(),
            decreases len - i,
        {
            r.push(time::format(w.lines[i].timestamp));
            i = i + 1;
        }
        r
    }

    /// Draws the active window: gives the bytes to send to the terminal.
    /// The frame (see `UiView::frame_text`) goes to the screen differ, whose
    /// output, with line feeds turned into CR LF, is sent; the first frame
    /// of all is preceded by a reset that clears the screen and hides the
    /// cursor.
    pub fn update(&mut self) -> (r: String)
        requires
            old(self).wf(),
        ensures
            final(self).wf(),
            final(self)@ == (UiView { tick: next_tick(old(self)@.tick), ..old(self)@ }),
            exists|cs: Seq<Seq<char>>|
                valid_clocks(cs, shown_count(old(self)@.active_view(), old(self)@.size)) && r@
                    == (if old(self)@.tick == 0 {
                    clear_prefix()
                } else {
                    Seq::empty()
                }) + crlf(diff_output(old(self).differ(), old(self)@.frame_text(cs)))
                    && diff_frame(final(self).differ()) == old(self)@.frame_text(cs),
    {
        let clocks = self.clocks();
        let ghost cs = clocks@.map_values(|c: String| c@);
        let frame = self.render_frame(&clocks);
        proof {
            lemma_frame_safe(self@, cs);
        }
        let mut out = String::new();
        if self.tick == 0 {
            crate::text::push_str(&mut out, "\x1bc\x1b[?25l");
            proof {
                reveal_strlit("\x1bc\x1b[?25l");
                assert(out@ =~= clear_prefix());
            }
        } else {
            assert(out@ =~= Seq::<char>::empty());
        }
        let ghost before = out@;
        let d = update_diff(&mut self.diff, frame.as_str());
        let t = crlf_text(&d);
        crate::text::push_str(&mut out, t.as_str());
        if self.tick < u64::MAX {
            self.tick = self.tick + 1;
        }
        proof {
            assert(out@ == before + crlf(diff_output(old(self).diff, old(self)@.frame_text(cs))));
        }
        out
    }

    /// The bytes that reset the terminal when the interface closes.
    pub fn finish(&self) -> (r: String)
        ensures
            r@ == seq!['\x1b', 'c'],
    {
        let mut r = String::new();
        push_char(&mut r, '\x1b');
        push_char(&mut r, 'c');
        r
    }

    /// The line editor.
    pub fn input(&self) -> (r: &Input)
        ensures
            r@ == self@.input,
    {
        &self.input
    }
}

} // verus!
