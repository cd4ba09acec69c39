//! Keyboard byte decoding into line-editing state and input events.

use std::collections::VecDeque;

use vstd::prelude::*;

use crate::text::string_of;

verus! {

/// A key recognised by the decoder that is not text.
#[derive(Clone, Copy, Debug, PartialEq, Eq, Structural)]
pub enum Key {
    Up,
    Down,
    Left,
    Right,
    Delete,
    Backspace,
}

/// What the decoder reports to its reader.
#[derive(Debug)]
pub enum InputEvent {
    /// A submitted line of text.
    Line(String),
    /// A navigation or editing key.
    KeyCode(Key),
}

/// The model of an `InputEvent`.
pub enum EventView {
    Line(Seq<char>),
    KeyCode(Key),
}

impl View for InputEvent {
    type V = EventView;

    open spec fn view(&self) -> EventView {
        match self {
            InputEvent::Line(s) => EventView::Line(s@),
            InputEvent::KeyCode(k) => EventView::KeyCode(*k),
        }
    }
}

/// How much of an escape sequence has been read.
#[derive(Clone, Copy, Debug, PartialEq, Eq, Structural)]
pub enum SeqState {
    /// No sequence in progress.
    Idle,
    /// Read `ESC`.
    Escape,
    /// Read `ESC [`.
    Bracket,
    /// Read `ESC [ 3`.
    BracketDigit,
}

/// The model of the line editor: the text being typed, the cursor (in
/// characters), the escape-sequence state and the events not yet read.
pub struct InputModel {
    pub value: Seq<char>,
    pub cursor: nat,
    pub state: SeqState,
    pub events: Seq<EventView>,
}

pub const ESC: u8 = 0x1b;
pub const LEFT_BRACKET: u8 = 0x5b;
pub const TILDE: u8 = 0x7e;
pub const DIGIT_THREE: u8 = 0x33;
pub const CARRIAGE_RETURN: u8 = 0x0d;
pub const LINE_FEED: u8 = 0x0a;
pub const BACKSPACE: u8 = 0x7f;
pub const CTRL_H: u8 = 0x08;

/// The character a single typed byte stands for: itself below `0x80`, the
/// replacement character otherwise (a lone byte that high is never UTF-8).
pub open spec fn byte_char(b: u8) -> char {
    if b < 0x80 {
        b as char
    } else {
        '\u{FFFD}'
    }
}

/// `value` with the `n` characters left of `cursor` removed (as many as
/// there are), and the new cursor.
pub open spec fn cut_left(value: Seq<char>, cursor: nat, n: nat) -> (Seq<char>, nat) {
    let start: nat = if cursor >= n { (cursor - n) as nat } else { 0 };
    (value.subrange(0, start as int) + value.subrange(cursor as int, value.len() as int), start)
}

/// `value` with the `n` characters right of `cursor` removed (as many as
/// there are).
pub open spec fn cut_right(value: Seq<char>, cursor: nat, n: nat) -> Seq<char> {
    let end: int = if cursor + n <= value.len() { (cursor + n) as int } else { value.len() as int };
    value.subrange(0, cursor as int) + value.subrange(end, value.len() as int)
}

/// `value` with `t` inserted at `cursor`.
pub open spec fn insert_at(value: Seq<char>, cursor: nat, t: Seq<char>) -> Seq<char> {
    value.subrange(0, cursor as int) + t + value.subrange(cursor as int, value.len() as int)
}

impl InputModel {
    pub open spec fn with_state(self, state: SeqState) -> InputModel {
        InputModel { state, ..self }
    }

    pub open spec fn with_event(self, e: EventView) -> InputModel {
        InputModel { state: SeqState::Idle, events: self.events.push(e), ..self }
    }

    /// One byte read with no escape sequence in progress.
    pub open spec fn feed_idle(self, b: u8) -> InputModel {
        if b == ESC {
            self.with_state(SeqState::Escape)
        } else if b == CARRIAGE_RETURN || b == LINE_FEED {
            InputModel {
                value: Seq::empty(),
                cursor: 0,
                state: SeqState::Idle,
                events: self.events.push(EventView::Line(self.value)),
            }
        } else if b == BACKSPACE || b == CTRL_H {
            let (v, c) = cut_left(self.value, self.cursor, 1);
            InputModel { value: v, cursor: c, ..self.with_event(EventView::KeyCode(Key::Backspace)) }
        } else if b >= 0x20 {
            InputModel {
                value: insert_at(self.value, self.cursor, seq![byte_char(b)]),
                cursor: self.cursor + 1,
                ..self
            }
        } else {
            self
        }
    }

    /// One byte read: the step of the decoder. A byte that does not
    /// continue the sequence in progress drops it and is read afresh.
    pub open spec fn feed(self, b: u8) -> InputModel {
        let idle = self.with_state(SeqState::Idle);
        match self.state {
            SeqState::Idle => self.feed_idle(b),
            SeqState::Escape => if b == LEFT_BRACKET {
                self.with_state(SeqState::Bracket)
            } else {
                idle.feed_idle(b)
            },
            SeqState::Bracket => if b == 0x41 {
                self.with_event(EventView::KeyCode(Key::Up))
            } else if b == 0x42 {
                self.with_event(EventView::KeyCode(Key::Down))
            } else if b == 0x43 {
                InputModel {
                    cursor: if self.cursor < self.value.len() { self.cursor + 1 } else { self.value.len() },
                    ..self.with_event(EventView::KeyCode(Key::Right))
                }
            } else if b == 0x44 {
                InputModel {
                    cursor: if self.cursor > 0 { (self.cursor - 1) as nat } else { 0 },
                    ..self.with_event(EventView::KeyCode(Key::Left))
                }
            } else if b == DIGIT_THREE {
                self.with_state(SeqState::BracketDigit)
            } else {
                idle.feed_idle(b)
            },
            SeqState::BracketDigit => if b == TILDE {
                InputModel {
                    value: cut_right(self.value, self.cursor, 1),
                    ..self.with_event(EventView::KeyCode(Key::Delete))
                }
            } else {
                idle.feed_idle(b)
            },
        }
    }

    /// The bytes of `bs` read one after another.
    pub open spec fn feed_all(self, bs: Seq<u8>) -> InputModel
        decreases bs.len(),
    {
        if bs.len() == 0 {
            self
        } else {
            self.feed_all(bs.drop_last()).feed(bs.last())
        }
    }

    /// The cursor lies within the text.
    pub open spec fn wf(self) -> bool {
        self.cursor <= self.value.len()
    }
}

/// Reading any byte keeps the cursor within the text.
pub proof fn lemma_feed_wf(s: InputModel, b: u8)
    requires
        s.wf(),
    ensures
        s.feed(b).wf(),
{
}

/// For every sequence of bytes read one at a time from a state whose cursor
/// lies within the text, the cursor never passes the end of the text (and,
/// being a natural number, never falls below zero).
pub proof fn lemma_cursor_in_bounds(s: InputModel, bs: Seq<u8>)
    requires
        s.wf(),
    ensures
        s.feed_all(bs).wf(),
    decreases bs.len(),
{
    if bs.len() > 0 {
        lemma_cursor_in_bounds(s, bs.drop_last());
        lemma_feed_wf(s.feed_all(bs.drop_last()), bs.last());
    }
}

/// `ESC [ 3 ~` read one byte at a time yields exactly one Delete event and
/// deletes one character right of the cursor; none of its bytes reaches the
/// text.
pub proof fn lemma_delete_sequence(s: InputModel)
    requires
        s.wf(),
        s.state == SeqState::Idle,
    ensures
        s.feed_all(seq![ESC, LEFT_BRACKET, DIGIT_THREE, TILDE]) == (InputModel {
            value: cut_right(s.value, s.cursor, 1),
            cursor: s.cursor,
            state: SeqState::Idle,
            events: s.events.push(EventView::KeyCode(Key::Delete)),
        }),
{
    let bs = seq![ESC, LEFT_BRACKET, DIGIT_THREE, TILDE];
    assert(bs.drop_last() =~= seq![ESC, LEFT_BRACKET, DIGIT_THREE]);
    assert(seq![ESC, LEFT_BRACKET, DIGIT_THREE].drop_last() =~= seq![ESC, LEFT_BRACKET]);
    assert(seq![ESC, LEFT_BRACKET].drop_last() =~= seq![ESC]);
    assert(seq![ESC].drop_last() =~= Seq::<u8>::empty());
    let s1 = s.feed(ESC);
    let s2 = s1.feed(LEFT_BRACKET);
    let s3 = s2.feed(DIGIT_THREE);
    assert(s.feed_all(Seq::<u8>::empty()) == s);
    assert(seq![ESC].last() == ESC);
    assert(s.feed_all(seq![ESC]) == s1);
    assert(s.feed_all(seq![ESC, LEFT_BRACKET]) == s2);
    assert(s.feed_all(seq![ESC, LEFT_BRACKET, DIGIT_THREE]) == s3);
    assert(s3.state == SeqState::BracketDigit);
}

/// The line editor: the text being typed, its cursor and the decoder of
/// escape sequences, with a queue of events for its reader.
pub struct Input {
    value: Vec<char>,
    cursor: usize,
    state: SeqState,
    queue: VecDeque<InputEvent>,
}

impl View for Input {
    type V = InputModel;

    closed spec fn view(&self) -> InputModel {
        InputModel {
            value: self.value@,
            cursor: self.cursor as nat,
            state: self.state,
            events: self.queue@.map_values(|e: InputEvent| e@),
        }
    }
}

impl Default for Input {
    fn default() -> (r: Input)
        ensures
            r@.value.len() == 0,
            r@.cursor == 0,
            r@.state == SeqState::Idle,
            r@.events.len() == 0,
    {
        let r = Input {
            value: Vec::new(),
            cursor: 0,
            state: SeqState::Idle,
            queue: VecDeque::new(),
        };
        assert(r@.events =~= Seq::empty());
        r
    }
}

impl Input {
    /// The text being typed.
    pub fn value_chars(&self) -> (r: &Vec<char>)
        ensures
            r@ == self@.value,
    {
        &self.value
    }

    /// The text being typed, as a string.
    pub fn value(&self) -> (r: String)
        ensures
            r@ == self@.value,
    {
        string_of(&self.value)
    }

    /// The cursor, in characters from the start of the text.
    pub fn cursor(&self) -> (r: usize)
        ensures
            r == self@.cursor,
    {
        self.cursor
    }

    /// Replaces `value` by `v` and moves the cursor to `cursor`.
    fn splice(v: &Vec<char>, from: usize, to: usize, ins: &Vec<char>) -> (r: Vec<char>)
        requires
            from <= to <= v@.len(),
        ensures
            r@ == v@.subrange(0, from as int) + ins@ + v@.subrange(to as int, v@.len() as int),
    {
        let mut r: Vec<char> = Vec::new();
        let mut i: usize = 0;
        while i < from
            invariant
                i <= from <= to <= v@.len(),
                r@ == v@.subrange(0, i as int),
            decreases from - i,
        {
            r.push(v[i]);
            assert(v@.subrange(0, i + 1) =~= v@.subrange(0, i as int).push(v@[i as int]));
            i = i + 1;
        }
        let mut j: usize = 0;
        while j < ins.len()
            invariant
                i == from,
                j <= ins@.len(),
                r@ == v@.subrange(0, from as int) + ins@.subrange(0, j as int),
            decreases ins@.len() - j,
        {
            r.push(ins[j]);
            assert(ins@.subrange(0, j + 1) =~= ins@.subrange(0, j as int).push(ins@[j as int]));
            j = j + 1;
        }
        assert(ins@.subrange(0, ins@.len() as int) =~= ins@);
        let mut k: usize = to;
        while k < v.len()
            invariant
                from <= to <= k <= v@.len(),
                r@ == v@.subrange(0, from as int) + ins@ + v@.subrange(to as int, k as int),
            decreases v@.len() - k,
        {
            r.push(v[k]);
            assert(v@.subrange(to as int, k + 1) =~= v@.subrange(to as int, k as int).push(
                v@[k as int],
            ));
            k = k + 1;
        }
        r
    }

    /// Removes up to `n` characters left of the cursor; the cursor moves
    /// left by as many, stopping at the start.
    pub fn remove_left(&mut self, n: usize)
        requires
            old(self)@.wf(),
        ensures
            final(self)@.wf(),
            (final(self)@.value, final(self)@.cursor) == cut_left(
                old(self)@.value,
                old(self)@.cursor,
                n as nat,
            ),
            final(self)@.state == old(self)@.state,
            final(self)@.events == old(self)@.events,
    {
        let c = self.cursor;
        let start = if c >= n {
            c - n
        } else {
            0
        };
        let empty: Vec<char> = Vec::new();
        let v = Self::splice(&self.value, start, c, &empty);
        assert(v@ =~= cut_left(old(self)@.value, old(self)@.cursor, n as nat).0);
        self.value = v;
        self.cursor = start;
    }

    /// Removes up to `n` characters right of the cursor; the cursor stays.
    pub fn remove_right(&mut self, n: usize)
        requires
            old(self)@.wf(),
        ensures
            final(self)@.wf(),
            final(self)@.value == cut_right(old(self)@.value, old(self)@.cursor, n as nat),
            final(self)@.cursor == old(self)@.cursor,
            final(self)@.state == old(self)@.state,
            final(self)@.events == old(self)@.events,
    {
        let c = self.cursor;
        let len = self.value.len();
        let end = if n <= len - c {
            c + n
        } else {
            len
        };
        let empty: Vec<char> = Vec::new();
        let v = Self::splice(&self.value, c, end, &empty);
        assert(v@ =~= cut_right(old(self)@.value, old(self)@.cursor, n as nat));
        self.value = v;
    }

    /// Inserts `text` at the cursor; the cursor moves past it.
    pub fn insert_at_cursor(&mut self, text: &Vec<char>)
        requires
            old(self)@.wf(),
        ensures
            final(self)@.wf(),
            final(self)@.value == insert_at(old(self)@.value, old(self)@.cursor, text@),
            final(self)@.cursor == old(self)@.cursor + text@.len(),
            final(self)@.state == old(self)@.state,
            final(self)@.events == old(self)@.events,
    {
        let c = self.cursor;
        let v = Self::splice(&self.value, c, c, text);
        assert(v@ =~= insert_at(old(self)@.value, old(self)@.cursor, text@));
        let total = v.len();
        assert(c + text@.len() <= total);
        self.value = v;
        self.cursor = c + text.len();
    }

    /// Inserts one character for each byte of `buf` at the cursor (see
    /// `byte_char`); the cursor moves past them.
    fn put_bytes(&mut self, buf: &[u8])
        requires
            old(self)@.wf(),
        ensures
            final(self)@.wf(),
            final(self)@.value == insert_at(
                old(self)@.value,
                old(self)@.cursor,
                buf@.map_values(|b: u8| byte_char(b)),
            ),
            final(self)@.cursor == old(self)@.cursor + buf@.len(),
            final(self)@.state == old(self)@.state,
            final(self)@.events == old(self)@.events,
    {
        let mut t: Vec<char> = Vec::new();
        let mut i: usize = 0;
        while i < buf.len()
            invariant
                i <= buf@.len(),
                t@ == buf@.subrange(0, i as int).map_values(|b: u8| byte_char(b)),
            decreases buf@.len() - i,
        {
            let b = buf[i];
            let c = if b < 0x80 {
                b as char
            } else {
                '\u{FFFD}'
            };
            t.push(c);
            assert(buf@.subrange(0, i + 1).map_values(|b: u8| byte_char(b)) =~= buf@.subrange(
                0,
                i as int,
            ).map_values(|b: u8| byte_char(b)).push(byte_char(b)));
            i = i + 1;
        }
        assert(buf@.subrange(0, buf@.len() as int) =~= buf@);
        self.insert_at_cursor(&t);
    }

    /// Replaces the text; the cursor is kept where it fits, else moved to
    /// the end.
    pub fn set_value(&mut self, input: &str)
        ensures
            final(self)@.value == input@,
            final(self)@.cursor == (if old(self)@.cursor <= input@.len() {
                old(self)@.cursor
            } else {
                input@.len()
            }),
            final(self)@.state == old(self)@.state,
            final(self)@.events == old(self)@.events,
    {
        self.value = crate::text::chars_of(input);
        if self.cursor > self.value.len() {
            self.cursor = self.value.len();
        }
    }

    /// Moves the cursor to `cursor`, or to the end of the text if that lies
    /// beyond it.
    pub fn set_cursor(&mut self, cursor: usize)
        ensures
            final(self)@.value == old(self)@.value,
            final(self)@.cursor == (if cursor <= old(self)@.value.len() {
                cursor as nat
            } else {
                old(self)@.value.len()
            }),
            final(self)@.state == old(self)@.state,
            final(self)@.events == old(self)@.events,
    {
        if cursor <= self.value.len() {
            self.cursor = cursor;
        } else {
            self.cursor = self.value.len();
        }
    }

    /// Continues or starts an escape sequence with `b`. Gives `false`, with
    /// any sequence in progress dropped, when `b` does neither; `b` is then
    /// to be read as an ordinary byte.
    fn put_seq(&mut self, b: u8) -> (r: bool)
        requires
            old(self)@.wf(),
        ensures
            final(self)@.wf(),
            r ==> final(self)@ == old(self)@.feed(b),
            !r ==> final(self)@ == old(self)@.with_state(SeqState::Idle),
            !r ==> old(self)@.feed(b) == old(self)@.with_state(SeqState::Idle).feed_idle(b),
    {
        match self.state {
            SeqState::Idle => {
                if b == ESC {
                    self.state = SeqState::Escape;
                    true
                } else {
                    false
                }
            },
            SeqState::Escape => {
                if b == LEFT_BRACKET {
                    self.state = SeqState::Bracket;
                    true
                } else {
                    self.state = SeqState::Idle;
                    false
                }
            },
            SeqState::Bracket => {
                if b == 0x41 {
                    self.state = SeqState::Idle;
                    self.push_event(InputEvent::KeyCode(Key::Up));
                    true
                } else if b == 0x42 {
                    self.state = SeqState::Idle;
                    self.push_event(InputEvent::KeyCode(Key::Down));
                    true
                } else if b == 0x43 {
                    self.state = SeqState::Idle;
                    if self.cursor < self.value.len() {
                        self.cursor = self.cursor + 1;
                    }
                    self.push_event(InputEvent::KeyCode(Key::Right));
                    true
                } else if b == 0x44 {
                    self.state = SeqState::Idle;
                    if self.cursor > 0 {
                        self.cursor = self.cursor - 1;
                    }
                    self.push_event(InputEvent::KeyCode(Key::Left));
                    true
                } else if b == DIGIT_THREE {
                    self.state = SeqState::BracketDigit;
                    true
                } else {
                    self.state = SeqState::Idle;
                    false
                }
            },
            SeqState::BracketDigit => {
                self.state = SeqState::Idle;
                if b == TILDE {
                    self.remove_right(1);
                    self.push_event(InputEvent::KeyCode(Key::Delete));
                    true
                } else {
                    false
                }
            },
        }
    }

    /// Reads `b` as an ordinary byte, with no sequence in progress.
    fn put_plain(&mut self, b: u8)
        requires
            old(self)@.wf(),
            old(self)@.state == SeqState::Idle,
        ensures
            final(self)@.wf(),
            final(self)@ == old(self)@.feed_idle(b),
    {
        if b == ESC {
            self.state = SeqState::Escape;
        } else if b == CARRIAGE_RETURN || b == LINE_FEED {
            let line = string_of(&self.value);
            self.value = Vec::new();
            self.cursor = 0;
            self.push_event(InputEvent::Line(line));
        } else if b == BACKSPACE || b == CTRL_H {
            self.remove_left(1);
            self.push_event(InputEvent::KeyCode(Key::Backspace));
        } else if b >= 0x20 {
            let buf: [u8; 1] = [b];
            self.put_bytes(&buf);
            proof {
                assert(buf@.map_values(|b: u8| byte_char(b)) =~= seq![byte_char(b)]);
            }
        }
    }

    /// Reads one byte from the keyboard: ends a line on carriage return or
    /// line feed, deletes left of the cursor on backspace or Ctrl-H, reads
    /// the escape sequences of the arrow keys and of Delete as one key
    /// each, and inserts any other byte from `0x20` up at the cursor.
    pub fn putc(&mut self, b: u8)
        requires
            old(self)@.wf(),
        ensures
            final(self)@.wf(),
            final(self)@ == old(self)@.feed(b),
    {
        if self.put_seq(b) {
            return ;
        }
        self.put_plain(b);
    }

    /// Takes the oldest event not yet read.
    pub fn next_event(&mut self) -> (r: Option<InputEvent>)
        ensures
            old(self)@.events.len() == 0 ==> r is None && final(self)@ == old(self)@,
            old(self)@.events.len() > 0 ==> (r matches Some(e) && e@ == old(self)@.events[0]
                && final(self)@ == (InputModel {
                events: old(self)@.events.drop_first(),
                ..old(self)@
            })),
    {
        let r = self.queue.pop_front();
        proof {
            if old(self)@.events.len() > 0 {
                assert(self@.events =~= old(self)@.events.drop_first());
            }
        }
        r
    }

    /// Takes the oldest line not yet read; other events stay queued.
    pub fn get_next_line(&mut self) -> (r: Option<String>)
        ensures
            r is None ==> final(self)@ == old(self)@ && forall|i: int|
                0 <= i < old(self)@.events.len() ==> !(#[trigger] old(self)@.events[i] is Line),
            r matches Some(line) ==> exists|i: int|
                0 <= i < old(self)@.events.len() && old(self)@.events[i] == EventView::Line(line@)
                    && (forall|j: int| 0 <= j < i ==> !(#[trigger] old(self)@.events[j] is Line))
                    && final(self)@ == (InputModel {
                    events: old(self)@.events.remove(i),
                    ..old(self)@
                }),
    {
        let mut i: usize = 0;
        while i < self.queue.len()
            invariant
                self == old(self),
                i <= self.queue@.len(),
                forall|j: int| 0 <= j < i ==> !(#[trigger] self@.events[j] is Line),
            decreases self.queue@.len() - i,
        {
            if let InputEvent::Line(_) = &self.queue[i] {
                let e = self.queue.remove(i);
                proof {
                    assert(self@.events =~= old(self)@.events.remove(i as int));
                }
                if let Some(InputEvent::Line(line)) = e {
                    assert(old(self)@.events[i as int] == EventView::Line(line@));
                    return Some(line);
                }
                return None;
            }
            i = i + 1;
        }
        None
    }

    fn push_event(&mut self, e: InputEvent)
        ensures
            final(self)@ == (InputModel { events: old(self)@.events.push(e@), ..old(self)@ }),
    {
        self.queue.push_back(e);
        proof {
            assert(self@.events =~= old(self)@.events.push(e@));
        }
    }
}

} // verus!
