//! Command handling and the registries of cabals, connections and live
//! channel subscriptions.
//!
//! The protocol engine and the network are driven from outside: each
//! command changes the state here and gives back the actions to perform,
//! and what the engine reports comes back through the `on_*`, `open_channel`,
//! `leave_channel` and `deliver` methods. Every live subscription carries a
//! token; a post is shown only while its token is registered, so once a
//! channel is left no post of its old subscription reaches a window again.

use vstd::prelude::*;

use crate::hex::{self, bytes_text, parse_text};
use crate::input::InputEvent;
use crate::time::{TimeError, TWO_WEEKS_MS};
use crate::text::{push_str, same_bytes};
use crate::ui::{
    first_match, has_window, shows_post, Addr, PublicKey, TermSize, Ui, UiView, WindowView,
    size_ok, STATUS_CHANNEL,
};

verus! {

/// A TCP connection and its `host:port`.
#[derive(Debug)]
pub enum Connection {
    Connected(String),
    Listening(String),
}

pub enum ConnectionView {
    Connected(Seq<char>),
    Listening(Seq<char>),
}

impl View for Connection {
    type V = ConnectionView;

    open spec fn view(&self) -> ConnectionView {
        match self {
            Connection::Connected(a) => ConnectionView::Connected(a@),
            Connection::Listening(a) => ConnectionView::Listening(a@),
        }
    }
}

/// A live subscription to the posts of a channel, and the time range and
/// count of posts it asks for.
#[derive(Debug)]
pub struct Subscription {
    pub address: Addr,
    pub channel: String,
    pub token: u64,
    pub time_start: u64,
    pub time_end: u64,
    pub limit: usize,
}

pub struct SubView {
    pub address: Seq<u8>,
    pub channel: Seq<char>,
    pub token: u64,
}

/// Work for the protocol engine or the network, handed out by commands.
#[derive(Debug)]
pub enum Action {
    /// Create an engine handle for the cabal at `address`, its storage
    /// named `storage`.
    AddCable { address: Addr, storage: String },
    /// List the channels known to the cabal (then `on_channels`).
    ListChannels { address: Addr },
    /// Connect to a peer over TCP (then `on_connection`).
    Connect { address: Addr, tcp_addr: String },
    /// Accept TCP connections (then `on_connection`).
    Listen { address: Addr, tcp_addr: String },
    /// Delete the local peer's most recent nickname (then `on_nick_deleted`).
    DeleteNick { address: Addr },
    /// Announce membership of the channel unless a member already, then
    /// call `open_channel`.
    Join { address: Addr, channel: String },
    /// If the channel is known: cancel its outbound requests, announce
    /// leaving if a member, then call `leave_channel`; if the cabal knows no
    /// channels, call `on_leave_unknown`.
    Leave { address: Addr, channel: String },
    /// List the members of a channel (then `on_members`).
    ListMembers { address: Addr, channel: String },
    /// Set the local nickname (then `on_nick_set`).
    SetNick { address: Addr, nick: String },
    /// Set the topic of a channel (then `on_topic_set`).
    SetTopic { address: Addr, channel: String, topic: String },
    /// Show the local public key (then `on_whoami`).
    Whoami { address: Addr },
    /// Post text to a channel.
    PostText { address: Addr, channel: String, text: String },
}

pub enum ActionView {
    AddCable { address: Seq<u8>, storage: Seq<char> },
    ListChannels { address: Seq<u8> },
    Connect { address: Seq<u8>, tcp_addr: Seq<char> },
    Listen { address: Seq<u8>, tcp_addr: Seq<char> },
    DeleteNick { address: Seq<u8> },
    Join { address: Seq<u8>, channel: Seq<char> },
    Leave { address: Seq<u8>, channel: Seq<char> },
    ListMembers { address: Seq<u8>, channel: Seq<char> },
    SetNick { address: Seq<u8>, nick: Seq<char> },
    SetTopic { address: Seq<u8>, channel: Seq<char>, topic: Seq<char> },
    Whoami { address: Seq<u8> },
    PostText { address: Seq<u8>, channel: Seq<char>, text: Seq<char> },
}

impl View for Action {
    type V = ActionView;

    open spec fn view(&self) -> ActionView {
        match self {
            Action::AddCable { address, storage } => ActionView::AddCable {
                address: address@,
                storage: storage@,
            },
            Action::ListChannels { address } => ActionView::ListChannels { address: address@ },
            Action::Connect { address, tcp_addr } => ActionView::Connect {
                address: address@,
                tcp_addr: tcp_addr@,
            },
            Action::Listen { address, tcp_addr } => ActionView::Listen {
                address: address@,
                tcp_addr: tcp_addr@,
            },
            Action::DeleteNick { address } => ActionView::DeleteNick { address: address@ },
            Action::Join { address, channel } => ActionView::Join {
                address: address@,
                channel: channel@,
            },
            Action::Leave { address, channel } => ActionView::Leave {
                address: address@,
                channel: channel@,
            },
            Action::ListMembers { address, channel } => ActionView::ListMembers {
                address: address@,
                channel: channel@,
            },
            Action::SetNick { address, nick } => ActionView::SetNick {
                address: address@,
                nick: nick@,
            },
            Action::SetTopic { address, channel, topic } => ActionView::SetTopic {
                address: address@,
                channel: channel@,
                topic: topic@,
            },
            Action::Whoami { address } => ActionView::Whoami { address: address@ },
            Action::PostText { address, channel, text } => ActionView::PostText {
                address: address@,
                channel: channel@,
                text: text@,
            },
        }
    }
}

pub open spec fn acts_view(v: Seq<Action>) -> Seq<ActionView> {
    v.map_values(|a: Action| a@)
}

pub open spec fn strs_view(v: Seq<String>) -> Seq<Seq<char>> {
    v.map_values(|a: String| a@)
}

pub const ADDED_CABAL: &'static str = "added cabal: ";
pub const SET_ACTIVE_CABAL: &'static str = "set active cabal to ";
pub const INVALID_CABAL: &'static str = "invalid cabal address: ";
pub const USAGE_CABAL_ADD: &'static str = "usage: /cabal add ADDR";
pub const USAGE_CABAL_SET: &'static str = "usage: /cabal set ADDR";
pub const NO_CABALS: &'static str = "{ no cabals in list }";
pub const ACTIVE_MARK: &'static str = "*";
pub const NO_CHANNELS_CABAL: &'static str =
    "cannot list channels with no active cabal set. add a cabal with \"/cabal add\" first";
pub const NO_BIND_CABAL: &'static str =
    "no active cabal to bind this connection. use \"/cabal add\" first";
pub const USAGE_CONNECT: &'static str = "usage: /connect HOST:PORT";
pub const USAGE_LISTEN: &'static str = "usage: /listen (ADDR:)PORT";
pub const ANY_HOST: &'static str = "0.0.0.0:";
pub const CONNECTED_TO: &'static str = "connected to ";
pub const LISTENING_ON: &'static str = "listening on ";
pub const NO_CONNECTIONS: &'static str = "{ no connections in list }";
pub const NO_DELETE_CABAL: &'static str =
    "cannot delete nickname with no active cabal set. add a cabal with \"/cabal add\" first";
pub const USAGE_DELETE: &'static str = "usage: /delete nick";
pub const NO_JOIN_CABAL: &'static str =
    "cannot join channel with no active cabal set. add a cabal with \"/cabal add\" first";
pub const USAGE_JOIN: &'static str = "usage: /join CHANNEL";
pub const NO_LEAVE_CABAL: &'static str =
    "cannot leave channel with no active cabal set. add a cabal with \"/cabal add\" first";
pub const USAGE_LEAVE: &'static str = "usage: /leave CHANNEL";
pub const NO_MEMBERS_CABAL: &'static str =
    "cannot list channel members with no active cabal set. add a cabal with \"/cabal add\" first";
pub const NO_NICK_CABAL: &'static str =
    "cannot assign nickname with no active cabal set. add a cabal with \"/cabal add\" first";
pub const USAGE_NICK: &'static str = "usage: /nick NAME";
pub const USAGE_TOPIC: &'static str = "usage: /topic TOPIC";
pub const TOPIC_ON_STATUS: &'static str = "topic cannot be set for !status window";
pub const NO_WHOAMI_CABAL: &'static str =
    "cannot list the local public key with no active cabal set. add a cabal with \"/cabal add\" first";
pub const USAGE_WIN: &'static str = "usage: /win INDEX";
pub const WIN_NOT_NUMBER: &'static str = "window index must be a number";
pub const NO_SUCH_COMMAND: &'static str = "no such command: ";
pub const POST_ON_STATUS: &'static str =
    "can't post text in status channel. see /help for command list";

/// What a command does: the state after it (before its status lines), the
/// status lines it writes, and the actions it hands out.
pub struct Effect {
    pub state: AppView,
    pub msgs: Seq<Seq<char>>,
    pub acts: Seq<ActionView>,
}

pub open spec fn effect(state: AppView, msgs: Seq<Seq<char>>, acts: Seq<ActionView>) -> Effect {
    Effect { state, msgs, acts }
}

/// Only status lines.
pub open spec fn say(s: AppView, msgs: Seq<Seq<char>>) -> Effect {
    effect(s, msgs, Seq::empty())
}

/// Only an action.
pub open spec fn act(s: AppView, a: ActionView) -> Effect {
    effect(s, Seq::empty(), seq![a])
}

/// `t` and `acts` are what effect `e` gives.
pub open spec fn effect_holds(e: Effect, t: AppView, acts: Seq<ActionView>) -> bool {
    &&& t == e.state.with_ui(t.ui)
    &&& logged(e.state.ui, t.ui, e.msgs)
    &&& acts == e.acts
}

/// `/cabal add ADDR`, `/cabal set ADDR`, `/cabal list`.
pub open spec fn cabal_effect(s: AppView, a: Seq<Seq<char>>) -> Effect {
    if a.len() > 1 && a[1] == "add"@ {
        if a.len() > 2 {
            match parse_text(a[2]) {
                Some(addr) => {
                    let fresh = !s.cables.contains(addr);
                    let promote = s.ui.active_address is None;
                    effect(
                        AppView {
                            cables: if fresh { s.cables.push(addr) } else { s.cables },
                            ui: if promote {
                                UiView { active_address: Some(addr), ..s.ui }
                            } else {
                                s.ui
                            },
                            ..s
                        },
                        seq![ADDED_CABAL@ + a[2]] + if promote {
                            seq![SET_ACTIVE_CABAL@ + a[2]]
                        } else {
                            Seq::empty()
                        },
                        if fresh {
                            seq![ActionView::AddCable { address: addr, storage: bytes_text(addr) }]
                        } else {
                            Seq::empty()
                        },
                    )
                },
                None => say(s, seq![INVALID_CABAL@ + a[2]]),
            }
        } else {
            say(s, seq![USAGE_CABAL_ADD@])
        }
    } else if a.len() > 1 && a[1] == "set"@ {
        if a.len() > 2 {
            match parse_text(a[2]) {
                Some(addr) => say(
                    s.with_ui(UiView { active_address: Some(addr), ..s.ui }),
                    seq![SET_ACTIVE_CABAL@ + a[2]],
                ),
                None => say(s, seq![INVALID_CABAL@ + a[2]]),
            }
        } else {
            say(s, seq![USAGE_CABAL_SET@])
        }
    } else if a.len() > 1 && a[1] == "list"@ {
        say(s, cabal_list(s))
    } else {
        say(s, Seq::empty())
    }
}

/// One line per registered cabal, its address in hexadecimal, marked `*`
/// when active.
pub open spec fn cabal_list(s: AppView) -> Seq<Seq<char>> {
    if s.cables.len() == 0 {
        seq![NO_CABALS@]
    } else {
        Seq::new(
            s.cables.len(),
            |i: int|
                bytes_text(s.cables[i]) + if s.ui.active_address == Some(s.cables[i]) {
                    ACTIVE_MARK@
                } else {
                    Seq::empty()
                },
        )
    }
}

/// `s` with connection `c` recorded, once.
pub open spec fn with_connection(s: AppView, c: ConnectionView) -> AppView {
    AppView {
        connections: if s.connections.contains(c) {
            s.connections
        } else {
            s.connections.push(c)
        },
        ..s
    }
}

/// `/connect HOST:PORT`: the connection is recorded once made, in
/// `on_connection`.
pub open spec fn connect_effect(s: AppView, a: Seq<Seq<char>>) -> Effect {
    match s.active_cable() {
        None => say(s, seq![NO_BIND_CABAL@]),
        Some(addr) => if a.len() > 1 {
            act(s, ActionView::Connect { address: addr, tcp_addr: a[1] })
        } else {
            say(s, seq![USAGE_CONNECT@])
        },
    }
}

/// Where `/listen` listens: `HOST:PORT` as given, a bare port on every
/// interface.
pub open spec fn listen_target(p: Seq<char>) -> Seq<char> {
    if p.contains(':') {
        p
    } else {
        ANY_HOST@ + p
    }
}

/// `/listen [HOST:]PORT`: the listener is recorded once bound, in
/// `on_connection`.
pub open spec fn listen_effect(s: AppView, a: Seq<Seq<char>>) -> Effect {
    match s.active_cable() {
        None => say(s, seq![NO_BIND_CABAL@]),
        Some(addr) => if a.len() > 1 {
            act(s, ActionView::Listen { address: addr, tcp_addr: listen_target(a[1]) })
        } else {
            say(s, seq![USAGE_LISTEN@])
        },
    }
}

pub open spec fn connection_text(c: ConnectionView) -> Seq<char> {
    match c {
        ConnectionView::Connected(a) => CONNECTED_TO@ + a,
        ConnectionView::Listening(a) => LISTENING_ON@ + a,
    }
}

/// `/connections`: one line per connection.
pub open spec fn connections_effect(s: AppView) -> Effect {
    say(
        s,
        if s.connections.len() == 0 {
            seq![NO_CONNECTIONS@]
        } else {
            Seq::new(s.connections.len(), |i: int| connection_text(s.connections[i]))
        },
    )
}

/// A command that needs the active cabal and hands out one action.
pub open spec fn cabal_action(s: AppView, missing: Seq<char>, a: spec_fn(Seq<u8>) -> ActionView) -> Effect {
    match s.active_cable() {
        None => say(s, seq![missing]),
        Some(addr) => act(s, a(addr)),
    }
}

/// A command that needs the active cabal and an argument.
pub open spec fn cabal_arg_action(
    s: AppView,
    args: Seq<Seq<char>>,
    missing: Seq<char>,
    usage: Seq<char>,
    a: spec_fn(Seq<u8>, Seq<char>) -> ActionView,
) -> Effect {
    match s.active_cable() {
        None => say(s, seq![missing]),
        Some(addr) => if args.len() > 1 {
            act(s, a(addr, args[1]))
        } else {
            say(s, seq![usage])
        },
    }
}

/// `/channels`.
pub open spec fn channels_effect(s: AppView) -> Effect {
    cabal_action(s, NO_CHANNELS_CABAL@, |addr: Seq<u8>| ActionView::ListChannels { address: addr })
}

/// `/whoami`.
pub open spec fn whoami_effect(s: AppView) -> Effect {
    cabal_action(s, NO_WHOAMI_CABAL@, |addr: Seq<u8>| ActionView::Whoami { address: addr })
}

/// `/delete nick`.
pub open spec fn delete_effect(s: AppView, a: Seq<Seq<char>>) -> Effect {
    match s.active_cable() {
        None => say(s, seq![NO_DELETE_CABAL@]),
        Some(addr) => if a.len() > 1 && a[1] == "nick"@ {
            act(s, ActionView::DeleteNick { address: addr })
        } else {
            say(s, seq![USAGE_DELETE@])
        },
    }
}

/// `/join CHANNEL`.
pub open spec fn join_effect(s: AppView, a: Seq<Seq<char>>) -> Effect {
    cabal_arg_action(
        s,
        a,
        NO_JOIN_CABAL@,
        USAGE_JOIN@,
        |addr: Seq<u8>, c: Seq<char>| ActionView::Join { address: addr, channel: c },
    )
}

/// `/leave CHANNEL`.
pub open spec fn leave_effect(s: AppView, a: Seq<Seq<char>>) -> Effect {
    cabal_arg_action(
        s,
        a,
        NO_LEAVE_CABAL@,
        USAGE_LEAVE@,
        |addr: Seq<u8>, c: Seq<char>| ActionView::Leave { address: addr, channel: c },
    )
}

/// `/nick NAME`.
pub open spec fn nick_effect(s: AppView, a: Seq<Seq<char>>) -> Effect {
    cabal_arg_action(
        s,
        a,
        NO_NICK_CABAL@,
        USAGE_NICK@,
        |addr: Seq<u8>, n: Seq<char>| ActionView::SetNick { address: addr, nick: n },
    )
}

/// `/members [CHANNEL]`: the named channel, else the active window's
/// channel unless the status window is active.
pub open spec fn members_effect(s: AppView, a: Seq<Seq<char>>) -> Effect {
    match s.active_cable() {
        None => say(s, seq![NO_MEMBERS_CABAL@]),
        Some(addr) => if a.len() > 1 {
            act(s, ActionView::ListMembers { address: addr, channel: a[1] })
        } else if s.ui.active != 0 {
            act(s, ActionView::ListMembers { address: addr, channel: s.ui.active_view().channel })
        } else {
            say(s, Seq::empty())
        },
    }
}

/// Words joined by single spaces.
pub open spec fn spaced(ws: Seq<Seq<char>>) -> Seq<char>
    decreases ws.len(),
{
    if ws.len() == 0 {
        Seq::empty()
    } else if ws.len() == 1 {
        ws[0]
    } else {
        spaced(ws.drop_last()) + seq![' '] + ws.last()
    }
}

/// `/topic TEXT`: sets the topic of the active window's channel.
pub open spec fn topic_effect(s: AppView, a: Seq<Seq<char>>) -> Effect {
    match s.active_cable() {
        None => say(s, Seq::empty()),
        Some(addr) => if a.len() > 1 {
            if s.ui.active_view().channel != STATUS_CHANNEL@ {
                act(
                    s,
                    ActionView::SetTopic {
                        address: addr,
                        channel: s.ui.active_view().channel,
                        topic: spaced(a.subrange(1, a.len() as int)),
                    },
                )
            } else {
                say(s, seq![TOPIC_ON_STATUS@])
            }
        } else {
            say(s, seq![USAGE_TOPIC@])
        },
    }
}

/// `/win INDEX`: makes the window active (the last one when the index is
/// past the end).
pub open spec fn win_effect(s: AppView, a: Seq<Seq<char>>) -> Effect {
    if a.len() > 1 {
        match crate::words::index_value(a[1]) {
            Some(v) => if v <= usize::MAX {
                say(s.with_ui(UiView { active: s.ui.clamp(v as nat), ..s.ui }), Seq::empty())
            } else {
                say(s, seq![WIN_NOT_NUMBER@])
            },
            None => say(s, seq![WIN_NOT_NUMBER@]),
        }
    } else {
        say(s, seq![USAGE_WIN@])
    }
}

/// A line that is not a command: text for the active window's channel.
pub open spec fn post_effect(s: AppView, text: Seq<char>) -> Effect {
    let w = s.ui.active_view();
    if w.channel == STATUS_CHANNEL@ {
        say(s, seq![POST_ON_STATUS@])
    } else {
        act(s, ActionView::PostText { address: w.address, channel: w.channel, text })
    }
}

/// The lines of `/help`.
pub open spec fn help_text() -> Seq<Seq<char>> {
    seq![
        "/cabal add ADDR"@,
        "  add a cabal"@,
        "/cabal set ADDR"@,
        "  set the active cabal"@,
        "/cabal list"@,
        "  list all known cabals"@,
        "/channels"@,
        "  list all known channels"@,
        "/connections"@,
        "  list all known network connections"@,
        "/connect HOST:PORT"@,
        "  connect to a peer over tcp"@,
        "/delete nick"@,
        "  delete the most recent nick"@,
        "/join CHANNEL"@,
        "  join a channel (shorthand: /j CHANNEL)"@,
        "/listen PORT"@,
        "  listen for incoming tcp connections on 0.0.0.0"@,
        "/listen HOST:PORT"@,
        "  listen for incoming tcp connections"@,
        "/members CHANNEL"@,
        "  list all known members of the channel"@,
        "/topic"@,
        "  list the topic of the active channel"@,
        "/topic TOPIC"@,
        "  set the topic of the active channel"@,
        "/whoami"@,
        "  list the local public key as a hex string"@,
        "/win INDEX"@,
        "  change the active window (shorthand: /w INDEX)"@,
        "/exit"@,
        "  exit the cabal process"@,
        "/quit"@,
        "  exit the cabal process (shorthand: /q)"@,
    ]
}

/// `new` is `s` with `line` echoed to the status window.
pub open spec fn echoed(s: AppView, line: Seq<char>, e: AppView) -> bool {
    e == s.with_ui(e.ui) && logged(s.ui, e.ui, seq![line])
}

/// What a command that is echoed to the status window does after the echo.
pub open spec fn echoed_effect(s: AppView, a: Seq<Seq<char>>) -> Effect {
    let c = a[0];
    if c == "/cabal"@ {
        cabal_effect(s, a)
    } else if c == "/channels"@ {
        channels_effect(s)
    } else if c == "/connect"@ {
        connect_effect(s, a)
    } else if c == "/connections"@ {
        connections_effect(s)
    } else if c == "/delete"@ {
        delete_effect(s, a)
    } else if c == "/help"@ {
        say(s, help_text())
    } else if c == "/listen"@ {
        listen_effect(s, a)
    } else if c == "/members"@ {
        members_effect(s, a)
    } else if c == "/nick"@ {
        nick_effect(s, a)
    } else if c == "/topic"@ {
        topic_effect(s, a)
    } else if c == "/quit"@ || c == "/exit"@ || c == "/q"@ {
        say(AppView { exit: true, ..s }, Seq::empty())
    } else if c == "/whoami"@ {
        whoami_effect(s)
    } else {
        say(s, seq![NO_SUCH_COMMAND@ + c])
    }
}

/// What a line of input does once echoed, given its words `a`: `/join`,
/// `/leave`, `/win` and the other commands (unknown ones are reported);
/// any line not starting with `/` is posted, trailing white space removed.
pub open spec fn line_effect(s: AppView, line: Seq<char>, a: Seq<Seq<char>>) -> Effect {
    let c = a[0];
    if c == "/join"@ || c == "/j"@ {
        join_effect(s, a)
    } else if c == "/leave"@ {
        leave_effect(s, a)
    } else if c == "/win"@ || c == "/w"@ {
        win_effect(s, a)
    } else if c.len() > 0 && c[0] == '/' {
        echoed_effect(s, a)
    } else {
        post_effect(s, crate::words::trimmed_end(line))
    }
}

/// What a line of input does, given its words `a`: a line with no words
/// does nothing; any other is echoed to the status window, then has
/// `line_effect`.
pub open spec fn dispatched(
    s: AppView,
    line: Seq<char>,
    a: Seq<Seq<char>>,
    t: AppView,
    acts: Seq<ActionView>,
) -> bool {
    if a.len() == 0 {
        t == s && acts.len() == 0
    } else {
        exists|e: AppView| echoed(s, line, e) && effect_holds(line_effect(e, line, a), t, acts)
    }
}

/// `a` followed by `b`.
pub fn concat(a: &str, b: &str) -> (r: String)
    ensures
        r@ == a@ + b@,
{
    let mut r = a.to_owned();
    push_str(&mut r, b);
    r
}

/// Whether `s` is the word `w`.
fn is_word(s: &String, w: &str) -> (r: bool)
    ensures
        r == (s@ == w@),
{
    *s == w.to_owned()
}

/// What a post holds for a window.
#[derive(Debug)]
pub enum PostBody {
    Text { channel: String, text: String },
    Topic { channel: String, topic: String },
    /// Any other kind of post; windows show none of them.
    Other,
}

/// A post read from a channel, with its author's nickname when known.
#[derive(Debug)]
pub struct Post {
    pub timestamp: u64,
    pub author: PublicKey,
    pub nickname: Option<String>,
    pub body: PostBody,
}

pub enum PostBodyView {
    Text { channel: Seq<char>, text: Seq<char> },
    Topic { channel: Seq<char>, topic: Seq<char> },
    Other,
}

pub struct PostView {
    pub timestamp: u64,
    pub author: Seq<u8>,
    pub nickname: Option<Seq<char>>,
    pub body: PostBodyView,
}

impl View for Post {
    type V = PostView;

    open spec fn view(&self) -> PostView {
        PostView {
            timestamp: self.timestamp,
            author: self.author@,
            nickname: crate::ui::text_view(self.nickname),
            body: match self.body {
                PostBody::Text { channel, text } => PostBodyView::Text {
                    channel: channel@,
                    text: text@,
                },
                PostBody::Topic { channel, topic } => PostBodyView::Topic {
                    channel: channel@,
                    topic: topic@,
                },
                PostBody::Other => PostBodyView::Other,
            },
        }
    }
}

pub const NO_KNOWN_CHANNELS: &'static str = "{ no known channels for the active cabal }";
pub const CHANNEL_ITEM: &'static str = "- ";
pub const MEMBER_ITEM: &'static str = "  ";
pub const NO_KNOWN_MEMBERS: &'static str =
    "{ no known channel members for the active cabal and channel }";
pub const NICK_SET: &'static str = "nickname set to ";
pub const TOPIC_SET: &'static str = "topic set to ";
pub const FOR_CHANNEL: &'static str = " for channel ";
pub const NICK_DELETED: &'static str = "deleted most recent nickname";
pub const NO_NICK_FOUND: &'static str = "no nickname found for the local peer";
pub const NOT_A_MEMBER: &'static str = "not currently a member of channel ";
pub const NO_ACTION_TAKEN: &'static str = "; no action taken";

/// The lines for a list of channels.
pub open spec fn channels_text(cs: Option<Seq<Seq<char>>>) -> Seq<Seq<char>> {
    match cs {
        Some(cs) => Seq::new(cs.len(), |i: int| CHANNEL_ITEM@ + cs[i]),
        None => seq![NO_KNOWN_CHANNELS@],
    }
}

/// How a member is listed: by name, else by public key in hexadecimal.
pub open spec fn member_text(key: Seq<u8>, name: Option<Seq<char>>) -> Seq<char> {
    MEMBER_ITEM@ + match name {
        Some(n) => n,
        None => bytes_text(key),
    }
}

/// `s` in double quotes as Rust's debug format writes a string for these
/// characters: quotes and backslashes escaped, `\0`, `\t`, `\r`, `\n`,
/// and the other ASCII and C1 control characters as `\u{..}` in
/// lower-case hexadecimal.
pub open spec fn quoted(s: Seq<char>) -> Seq<char> {
    seq!['"'] + escaped(s) + seq!['"']
}

/// Whether `c` is a control character other than the four written with a
/// letter or digit.
pub open spec fn is_other_control(c: char) -> bool {
    let u = c as u32;
    (u < 0x20 && c != '\0' && c != '\t' && c != '\r' && c != '\n') || (0x7f <= u <= 0x9f)
}

pub open spec fn escape_char(c: char) -> Seq<char> {
    if c == '\0' {
        seq!['\\', '0']
    } else if is_other_control(c) {
        seq!['\\', 'u', '{'] + crate::hex::byte_text(c as u32 as u8) + seq!['}']
    } else if c == '"' {
        seq!['\\', '"']
    } else if c == '\\' {
        seq!['\\', '\\']
    } else if c == '\n' {
        seq!['\\', 'n']
    } else if c == '\r' {
        seq!['\\', 'r']
    } else if c == '\t' {
        seq!['\\', 't']
    } else {
        seq![c]
    }
}

pub open spec fn escaped(s: Seq<char>) -> Seq<char>
    decreases s.len(),
{
    if s.len() == 0 {
        Seq::empty()
    } else {
        escaped(s.drop_last()) + escape_char(s.last())
    }
}

fn push_escaped(r: &mut String, c: char)
    ensures
        final(r)@ == old(r)@ + escape_char(c),
{
    let u = c as u32;
    if c == '\0' {
        crate::text::push_char(r, '\\');
        crate::text::push_char(r, '0');
    } else if (u < 0x20 && c != '\t' && c != '\r' && c != '\n') || (0x7f <= u && u <= 0x9f) {
        crate::text::push_char(r, '\\');
        crate::text::push_char(r, 'u');
        crate::text::push_char(r, '{');
        let b: [u8; 1] = [u as u8];
        let h = hex::to(&b);
        proof {
            assert(b@ =~= seq![u as u8]);
            assert(b@.drop_last() =~= Seq::<u8>::empty());
            assert(b@.last() == u as u8);
            assert(bytes_text(Seq::<u8>::empty()) =~= Seq::<char>::empty());
            assert(bytes_text(b@) =~= crate::hex::byte_text(u as u8));
        }
        push_str(r, h.as_str());
        crate::text::push_char(r, '}');
    } else if c == '"' {
        crate::text::push_char(r, '\\');
        crate::text::push_char(r, '"');
    } else if c == '\\' {
        crate::text::push_char(r, '\\');
        crate::text::push_char(r, '\\');
    } else if c == '\n' {
        crate::text::push_char(r, '\\');
        crate::text::push_char(r, 'n');
    } else if c == '\r' {
        crate::text::push_char(r, '\\');
        crate::text::push_char(r, 'r');
    } else if c == '\t' {
        crate::text::push_char(r, '\\');
        crate::text::push_char(r, 't');
    } else {
        crate::text::push_char(r, c);
    }
    assert(r@ =~= old(r)@ + escape_char(c));
}

/// Appends `s` in double quotes (see `quoted`).
pub fn push_quoted(r: &mut String, s: &str)
    ensures
        final(r)@ == old(r)@ + quoted(s@),
{
    let cs = crate::text::chars_of(s);
    crate::text::push_char(r, '"');
    let ghost start = r@;
    let mut i: usize = 0;
    while i < cs.len()
        invariant
            cs@ == s@,
            i <= cs@.len(),
            r@ == start + escaped(cs@.subrange(0, i as int)),
        decreases cs@.len() - i,
    {
        push_escaped(r, cs[i]);
        proof {
            let next = cs@.subrange(0, i + 1);
            assert(next.drop_last() =~= cs@.subrange(0, i as int));
            assert(r@ =~= start + escaped(next));
        }
        i = i + 1;
    }
    crate::text::push_char(r, '"');
    assert(cs@.subrange(0, cs@.len() as int) =~= s@);
    assert(r@ =~= old(r)@ + quoted(s@));
}

/// The model of the application.
pub struct AppView {
    pub ui: UiView,
    pub cables: Seq<Seq<u8>>,
    pub connections: Seq<ConnectionView>,
    pub subs: Seq<SubView>,
    pub next_token: u64,
    pub exit: bool,
}

/// `new` is `old` with the lines `msgs` written to the status window, at
/// whatever times, and nothing else changed.
pub open spec fn logged(old: UiView, new: UiView, msgs: Seq<Seq<char>>) -> bool {
    &&& old.windows.len() >= 1
    &&& new.windows.len() == old.windows.len()
    &&& new == UiView { windows: old.windows.update(0, new.windows[0]), ..old }
    &&& new.windows[0].address == old.windows[0].address
    &&& new.windows[0].channel == old.windows[0].channel
    &&& new.windows[0].topic == old.windows[0].topic
    &&& new.windows[0].wf()
    &&& old.windows[0].line_index + msgs.len() <= u64::MAX ==> new.windows[0].line_index
        == old.windows[0].line_index + msgs.len() && new.status_texts() == old.status_texts()
        + msgs
}

pub proof fn lemma_logged_written(old: UiView, new: UiView, msg: Seq<char>)
    requires
        old.wf(),
        old.written_to(new, 0, msg),
    ensures
        logged(old, new, seq![msg]),
        new.wf(),
{
    let t = choose|t: u64| new.windows[0] == old.windows[0].inserted(t, None, None, msg);
    crate::ui::lemma_inserted_wf(old.windows[0], t, None, None, msg);
    assert(new.windows =~= old.windows.update(0, new.windows[0]));
    if old.windows[0].line_index + 1 <= u64::MAX {
        assert(new.status_texts() =~= old.status_texts() + seq![msg]);
    }
    assert forall|i: int| 0 <= i < new.windows.len() implies (#[trigger] new.windows[i]).wf() by {
        if i != 0 {
            assert(new.windows[i] == old.windows[i]);
        }
    }
}

pub proof fn lemma_logged_empty(u: UiView)
    requires
        u.wf(),
    ensures
        logged(u, u, Seq::empty()),
{
    assert(u.windows =~= u.windows.update(0, u.windows[0]));
    assert(u.status_texts() + Seq::<Seq<char>>::empty() =~= u.status_texts());
}

pub proof fn lemma_logged_trans(
    a: UiView,
    b: UiView,
    c: UiView,
    m1: Seq<Seq<char>>,
    m2: Seq<Seq<char>>,
)
    requires
        logged(a, b, m1),
        logged(b, c, m2),
    ensures
        logged(a, c, m1 + m2),
{
    assert(c.windows =~= a.windows.update(0, c.windows[0]));
    if a.windows[0].line_index + (m1 + m2).len() <= u64::MAX {
        assert(c.status_texts() =~= a.status_texts() + (m1 + m2));
    }
}

pub proof fn lemma_logged_wf(a: UiView, b: UiView, m: Seq<Seq<char>>)
    requires
        a.wf(),
        logged(a, b, m),
    ensures
        b.wf(),
{
    assert forall|i: int| 0 <= i < b.windows.len() implies (#[trigger] b.windows[i]).wf() by {
        if i != 0 {
            assert(b.windows[i] == a.windows[i]);
        }
    }
}

pub open spec fn same_key(x: SubView, y: SubView) -> bool {
    x.address == y.address && x.channel == y.channel
}

/// No two windows are for the same cabal and channel.
pub open spec fn window_keys_unique(ws: Seq<WindowView>) -> bool {
    forall|i: int, j: int|
        0 <= i < j < ws.len() ==> !(#[trigger] ws[i].address == #[trigger] ws[j].address
            && ws[i].channel == ws[j].channel)
}

/// Two window lists with the same cabal and channel at each position.
pub open spec fn same_keys(a: Seq<WindowView>, b: Seq<WindowView>) -> bool {
    &&& a.len() == b.len()
    &&& forall|i: int|
        0 <= i < a.len() ==> (#[trigger] a[i]).address == b[i].address && a[i].channel == b[i].channel
}

pub proof fn lemma_same_keys(a: Seq<WindowView>, b: Seq<WindowView>)
    requires
        same_keys(a, b),
    ensures
        forall|ad: Seq<u8>, ch: Seq<char>| has_window(a, ad, ch) ==> has_window(b, ad, ch),
        window_keys_unique(a) ==> window_keys_unique(b),
{
    assert forall|ad: Seq<u8>, ch: Seq<char>| has_window(a, ad, ch) implies has_window(b, ad, ch) by {
        let i = choose|i: int| 0 <= i < a.len() && #[trigger] a[i].address == ad && a[i].channel == ch;
        assert(b[i].address == ad);
    }
    if window_keys_unique(a) {
        assert forall|i: int, j: int| 0 <= i < j < b.len() implies !(#[trigger] b[i].address
            == #[trigger] b[j].address && b[i].channel == b[j].channel) by {
            assert(a[i].address == b[i].address && a[j].address == b[j].address);
        }
    }
}

/// Writing status lines keeps the application's invariant.
pub proof fn lemma_keys_logged(s: AppView, t: AppView, m: Seq<Seq<char>>)
    requires
        s.wf(),
        t == s.with_ui(t.ui),
        logged(s.ui, t.ui, m),
    ensures
        t.wf(),
{
    lemma_logged_wf(s.ui, t.ui, m);
    assert(same_keys(s.ui.windows, t.ui.windows)) by {
        assert forall|i: int| 0 <= i < s.ui.windows.len() implies (#[trigger] s.ui.windows[i]).address
            == t.ui.windows[i].address && s.ui.windows[i].channel == t.ui.windows[i].channel by {
            if i != 0 {
                assert(t.ui.windows[i] == s.ui.windows[i]);
            }
        }
    }
    lemma_same_keys(s.ui.windows, t.ui.windows);
}

/// The first match of a cabal and channel is unique.
pub proof fn lemma_first_match_unique(ws: Seq<WindowView>, a: Seq<u8>, c: Seq<char>, i: int, j: int)
    requires
        first_match(ws, a, c, i),
        first_match(ws, a, c, j),
    ensures
        i == j,
{
    if i < j {
        assert(ws[i].address == a && ws[i].channel == c);
    } else if j < i {
        assert(ws[j].address == a && ws[j].channel == c);
    }
}

/// The index of the first window for a cabal and channel.
pub open spec fn window_of(ws: Seq<WindowView>, a: Seq<u8>, c: Seq<char>) -> int {
    choose|i: int| first_match(ws, a, c, i)
}

pub proof fn lemma_window_of(ws: Seq<WindowView>, a: Seq<u8>, c: Seq<char>)
    requires
        has_window(ws, a, c),
    ensures
        first_match(ws, a, c, window_of(ws, a, c)),
    decreases ws.len(),
{
    if ws.len() > 0 {
        let p = ws.drop_last();
        if has_window(p, a, c) {
            lemma_window_of(p, a, c);
            let i = window_of(p, a, c);
            assert forall|j: int| 0 <= j < i implies !(#[trigger] ws[j].address == a && ws[j].channel
                == c) by {
                assert(p[j] == ws[j]);
            }
            assert(p[i] == ws[i]);
            assert(first_match(ws, a, c, i));
        } else {
            let k = (ws.len() - 1) as int;
            assert forall|j: int| 0 <= j < k implies !(#[trigger] ws[j].address == a && ws[j].channel == c) by {
                if ws[j].address == a && ws[j].channel == c {
                    assert(p[j] == ws[j]);
                }
            }
            assert(ws[k].address == a && ws[k].channel == c);
            assert(first_match(ws, a, c, k));
        }
    }
}

/// Where the time range of a new subscription starts: two weeks before the
/// clock reading. When the clock could not be read, or stands within two
/// weeks of the epoch, the range starts at the epoch and asks for the
/// whole history.
pub open spec fn range_start(clock: Result<u64, TimeError>) -> u64 {
    match clock {
        Ok(ms) => if ms >= TWO_WEEKS_MS {
            (ms - TWO_WEEKS_MS) as u64
        } else {
            0
        },
        Err(_) => 0,
    }
}

/// The message written when a channel is joined.
pub const JOINED_CHANNEL: &'static str = "joined channel ";

/// The message written when a channel is left.
pub const LEFT_CHANNEL: &'static str = "left channel ";

/// The number of posts a subscription asks for.
pub const SUBSCRIPTION_LIMIT: usize = 4096;

/// A fresh window for a cabal and channel.
pub open spec fn fresh_window(a: Seq<u8>, c: Seq<char>) -> WindowView {
    WindowView {
        address: a,
        channel: c,
        topic: Seq::empty(),
        lines: Seq::empty(),
        line_index: 0,
        time_end: 0,
        limit: crate::ui::WINDOW_LIMIT,
    }
}

/// What joining a channel does once the engine has taken the join: an
/// existing window for it becomes active and nothing else changes; else a
/// new window is added and made active, the join is reported, and a
/// subscription is registered under the next token (while tokens last).
pub open spec fn opened(s: AppView, a: Seq<u8>, c: Seq<char>) -> Effect {
    if has_window(s.ui.windows, a, c) {
        say(
            s.with_ui(UiView { active: window_of(s.ui.windows, a, c) as nat, ..s.ui }),
            Seq::empty(),
        )
    } else {
        let registered = s.next_token < u64::MAX;
        say(
            AppView {
                ui: UiView {
                    windows: s.ui.windows.push(fresh_window(a, c)),
                    active: s.ui.windows.len(),
                    ..s.ui
                },
                subs: if registered {
                    s.subs.push(SubView { address: a, channel: c, token: s.next_token })
                } else {
                    s.subs
                },
                next_token: if registered {
                    (s.next_token + 1) as u64
                } else {
                    s.next_token
                },
                ..s
            },
            seq![JOINED_CHANNEL@ + c],
        )
    }
}

/// Whether subscription `k` is the one for a cabal and channel.
pub open spec fn sub_at(subs: Seq<SubView>, a: Seq<u8>, c: Seq<char>, k: int) -> bool {
    0 <= k < subs.len() && subs[k].address == a && subs[k].channel == c
}

pub open spec fn has_sub(subs: Seq<SubView>, a: Seq<u8>, c: Seq<char>) -> bool {
    exists|k: int| sub_at(subs, a, c, k)
}

pub open spec fn sub_of(subs: Seq<SubView>, a: Seq<u8>, c: Seq<char>) -> int {
    choose|k: int| sub_at(subs, a, c, k)
}

/// What leaving a channel does once the engine has taken the leave: its
/// subscription is deregistered, its window removed (the status window
/// excepted), the status window made active, and the leave reported.
pub open spec fn left(s: AppView, a: Seq<u8>, c: Seq<char>) -> Effect {
    let ws = s.ui.windows;
    let i = window_of(ws, a, c);
    say(
        AppView {
            ui: UiView {
                windows: if has_window(ws, a, c) && i > 0 {
                    ws.remove(i)
                } else {
                    ws
                },
                active: 0,
                ..s.ui
            },
            subs: if has_sub(s.subs, a, c) {
                s.subs.remove(sub_of(s.subs, a, c))
            } else {
                s.subs
            },
            ..s
        },
        seq![LEFT_CHANNEL@ + c],
    )
}

/// The state after a join that adds a window keeps the invariant.
pub proof fn lemma_opened_wf(s: AppView, a: Seq<u8>, c: Seq<char>)
    requires
        s.wf(),
        !has_window(s.ui.windows, a, c),
    ensures
        opened(s, a, c).state.wf(),
{
    let t = opened(s, a, c).state;
    let ws = s.ui.windows;
    let nws = t.ui.windows;
    let k = ws.len() as int;
    assert(nws == ws.push(fresh_window(a, c)));
    assert forall|i: int| 0 <= i < nws.len() implies (#[trigger] nws[i]).wf() by {
        if i < k {
            assert(nws[i] == ws[i]);
        }
    }
    assert(t.ui.wf());
    assert forall|i: int, j: int| 0 <= i < j < nws.len() implies !(#[trigger] nws[i].address
        == #[trigger] nws[j].address && nws[i].channel == nws[j].channel) by {
        if j == k {
            if nws[i].address == a && nws[i].channel == c {
                assert(ws[i] == nws[i]);
                assert(has_window(ws, a, c));
            }
        } else {
            assert(nws[i] == ws[i] && nws[j] == ws[j]);
        }
    }
    assert forall|i: int| 0 <= i < t.subs.len() implies has_window(
        nws,
        #[trigger] t.subs[i].address,
        t.subs[i].channel,
    ) by {
        if i < s.subs.len() {
            assert(t.subs[i] == s.subs[i]);
            let j = choose|j: int|
                0 <= j < ws.len() && #[trigger] ws[j].address == s.subs[i].address && ws[j].channel
                    == s.subs[i].channel;
            assert(nws[j] == ws[j]);
        } else {
            assert(nws[k].address == a);
        }
    }
    assert forall|i: int, j: int| 0 <= i < j < t.subs.len() implies !same_key(
        #[trigger] t.subs[i],
        #[trigger] t.subs[j],
    ) by {
        if j == s.subs.len() {
            assert(t.subs[i] == s.subs[i]);
            if same_key(t.subs[i], t.subs[j]) {
                assert(has_window(ws, s.subs[i].address, s.subs[i].channel));
            }
        } else {
            assert(t.subs[i] == s.subs[i] && t.subs[j] == s.subs[j]);
        }
    }
    assert forall|i: int, j: int| 0 <= i < j < t.subs.len() implies #[trigger] t.subs[i].token
        != #[trigger] t.subs[j].token by {
        if j == s.subs.len() {
            assert(t.subs[i] == s.subs[i]);
        } else {
            assert(t.subs[i] == s.subs[i] && t.subs[j] == s.subs[j]);
        }
    }
    assert forall|i: int| 0 <= i < t.subs.len() implies #[trigger] t.subs[i].token < t.next_token by {
        if i < s.subs.len() {
            assert(t.subs[i] == s.subs[i]);
        }
    }
}

/// The state after a leave keeps the invariant.
pub proof fn lemma_left_wf(s: AppView, a: Seq<u8>, c: Seq<char>)
    requires
        s.wf(),
    ensures
        left(s, a, c).state.wf(),
{
    let t = left(s, a, c).state;
    let ws = s.ui.windows;
    let nws = t.ui.windows;
    let i0 = window_of(ws, a, c);
    let removed = has_window(ws, a, c) && i0 > 0;
    if has_window(ws, a, c) {
        lemma_window_of(ws, a, c);
    }
    // where each old window stands now
    assert forall|j: int| 0 <= j < nws.len() implies (#[trigger] nws[j]).wf() by {
        if removed && j >= i0 {
            assert(nws[j] == ws[j + 1]);
        } else {
            assert(nws[j] == ws[j]);
        }
    }
    if removed {
        assert(nws[0] == ws[0]);
    }
    assert(t.ui.wf());
    assert forall|x: int, y: int| 0 <= x < y < nws.len() implies !(#[trigger] nws[x].address
        == #[trigger] nws[y].address && nws[x].channel == nws[y].channel) by {
        let ox = if removed && x >= i0 { x + 1 } else { x };
        let oy = if removed && y >= i0 { y + 1 } else { y };
        assert(nws[x] == ws[ox] && nws[y] == ws[oy]);
    }
    let k0 = sub_of(s.subs, a, c);
    let had = has_sub(s.subs, a, c);
    assert forall|k: int| 0 <= k < t.subs.len() implies #[trigger] t.subs[k] == s.subs[
        if had && k >= k0 { k + 1 } else { k }
    ] by {}
    assert forall|k: int| 0 <= k < t.subs.len() implies has_window(
        nws,
        #[trigger] t.subs[k].address,
        t.subs[k].channel,
    ) by {
        let ok = if had && k >= k0 { k + 1 } else { k };
        let sv = s.subs[ok];
        assert(t.subs[k] == sv);
        let j = choose|j: int|
            0 <= j < ws.len() && #[trigger] ws[j].address == sv.address && ws[j].channel == sv.channel;
        if removed && j == i0 {
            assert(sub_at(s.subs, a, c, ok));
            assert(had);
            assert(sub_at(s.subs, a, c, k0));
            assert(ok != k0);
            if ok < k0 {
                assert(same_key(s.subs[ok], s.subs[k0]));
            } else {
                assert(same_key(s.subs[k0], s.subs[ok]));
            }
        }
        let nj = if removed && j > i0 { j - 1 } else { j };
        assert(nws[nj] == ws[j]);
    }
    assert forall|x: int, y: int| 0 <= x < y < t.subs.len() implies !same_key(
        #[trigger] t.subs[x],
        #[trigger] t.subs[y],
    ) by {
        let ox = if had && x >= k0 { x + 1 } else { x };
        let oy = if had && y >= k0 { y + 1 } else { y };
        assert(t.subs[x] == s.subs[ox] && t.subs[y] == s.subs[oy]);
    }
    assert forall|x: int, y: int| 0 <= x < y < t.subs.len() implies #[trigger] t.subs[x].token
        != #[trigger] t.subs[y].token by {
        let ox = if had && x >= k0 { x + 1 } else { x };
        let oy = if had && y >= k0 { y + 1 } else { y };
        assert(t.subs[x] == s.subs[ox] && t.subs[y] == s.subs[oy]);
    }
    assert forall|x: int| 0 <= x < t.subs.len() implies #[trigger] t.subs[x].token < t.next_token by {
        let ox = if had && x >= k0 { x + 1 } else { x };
        assert(t.subs[x] == s.subs[ox]);
    }
}

/// The index of the subscription with token `t`.
pub open spec fn token_index(subs: Seq<SubView>, t: u64) -> int {
    choose|k: int| 0 <= k < subs.len() && #[trigger] subs[k].token == t
}

/// What a post read under token `t` does: while `t` is registered, a text
/// post becomes the next line, and a topic post the topic, of the window
/// for its channel of the subscription's cabal; otherwise nothing changes.
/// A subscription reads stored posts and then live ones over the same time
/// range, so a post may come twice: a text post that the window already
/// shows (same timestamp, author and text) is not shown again.
pub open spec fn delivered(s: AppView, t: u64, p: PostView) -> AppView {
    if s.has_token(t) {
        let a = s.subs[token_index(s.subs, t)].address;
        let ws = s.ui.windows;
        match p.body {
            PostBodyView::Text { channel, text } => if has_window(ws, a, channel) && !shows_post(
                ws[window_of(ws, a, channel)],
                p.timestamp,
                p.author,
                text,
            ) {
                let i = window_of(ws, a, channel);
                s.with_ui(
                    s.ui.with_window(
                        i,
                        ws[i].inserted(p.timestamp, Some(p.author), p.nickname, text),
                    ),
                )
            } else {
                s
            },
            PostBodyView::Topic { channel, topic } => if has_window(ws, a, channel) {
                let i = window_of(ws, a, channel);
                s.with_ui(s.ui.with_window(i, WindowView { topic, ..ws[i] }))
            } else {
                s
            },
            PostBodyView::Other => s,
        }
    } else {
        s
    }
}

/// Joining the same channel of the same cabal twice reuses the window of
/// the first join, and the second join registers no second subscription.
pub proof fn lemma_join_twice(s0: AppView, s1: AppView, s2: AppView, a: Seq<u8>, c: Seq<char>)
    requires
        s0.wf(),
        s1.wf(),
        effect_holds(opened(s0, a, c), s1, Seq::empty()),
        effect_holds(opened(s1, a, c), s2, Seq::empty()),
    ensures
        s1.ui.active_view().address == a && s1.ui.active_view().channel == c,
        s2.ui.active == s1.ui.active,
        s2.ui.windows.len() == s1.ui.windows.len(),
        s2.subs == s1.subs,
        s2.next_token == s1.next_token,
{
    let e0 = opened(s0, a, c).state;
    if has_window(s0.ui.windows, a, c) {
        lemma_window_of(s0.ui.windows, a, c);
    }
    assert(same_keys(e0.ui.windows, s1.ui.windows)) by {
        assert forall|i: int| 0 <= i < e0.ui.windows.len() implies (#[trigger] e0.ui.windows[i]).address
            == s1.ui.windows[i].address && e0.ui.windows[i].channel == s1.ui.windows[i].channel by {
            if i != 0 {
                assert(s1.ui.windows[i] == e0.ui.windows[i]);
            }
        }
    }
    let k = s1.ui.active as int;
    assert(e0.ui.windows[k].address == a && e0.ui.windows[k].channel == c);
    assert(s1.ui.windows[k].address == a && s1.ui.windows[k].channel == c);
    assert(has_window(s1.ui.windows, a, c));
    lemma_window_of(s1.ui.windows, a, c);
    let w = window_of(s1.ui.windows, a, c);
    if w != k {
        if w < k {
            assert(s1.ui.windows[w].address == s1.ui.windows[k].address);
        } else {
            assert(s1.ui.windows[k].address == s1.ui.windows[w].address);
        }
    }
}

/// After a channel is left its old subscription's token is registered no
/// more, and joining the channel again opens a new, empty window under a
/// new token: a post still arriving under the old token changes nothing,
/// so no line of the old subscription shows after the rejoin.
pub proof fn lemma_leave_rejoin(
    s0: AppView,
    s1: AppView,
    s2: AppView,
    a: Seq<u8>,
    c: Seq<char>,
    p: PostView,
)
    requires
        s0.wf(),
        s1.wf(),
        !(a.len() == 0 && c == STATUS_CHANNEL@),
        has_sub(s0.subs, a, c),
        effect_holds(left(s0, a, c), s1, Seq::empty()),
        effect_holds(opened(s1, a, c), s2, Seq::empty()),
    ensures
        ({
            let t = s0.subs[sub_of(s0.subs, a, c)].token;
            &&& !s1.has_token(t)
            &&& !s2.has_token(t)
            &&& delivered(s2, t, p) == s2
            &&& s1.next_token < u64::MAX ==> (s2.has_token(s1.next_token) && s1.next_token != t
                && s2.subs.last() == (SubView { address: a, channel: c, token: s1.next_token }))
            &&& s2.ui.active_view().address == a && s2.ui.active_view().channel == c
            &&& s2.ui.active_view().lines.len() == 0
        }),
{
    let k0 = sub_of(s0.subs, a, c);
    let t = s0.subs[k0].token;
    let e1 = left(s0, a, c).state;
    assert(e1.subs == s0.subs.remove(k0));
    assert(s1.subs == e1.subs);
    assert forall|k: int| 0 <= k < s1.subs.len() implies #[trigger] s1.subs[k].token != t by {
        let ok = if k >= k0 { k + 1 } else { k };
        assert(s1.subs[k] == s0.subs[ok]);
    }
    assert(!s1.has_token(t));
    let ws = s0.ui.windows;
    if has_window(ws, a, c) {
        lemma_window_of(ws, a, c);
        let i0 = window_of(ws, a, c);
        assert(i0 != 0);
    }
    assert(!has_window(e1.ui.windows, a, c)) by {
        if has_window(e1.ui.windows, a, c) {
            let j = choose|j: int|
                0 <= j < e1.ui.windows.len() && #[trigger] e1.ui.windows[j].address == a
                    && e1.ui.windows[j].channel == c;
            if has_window(ws, a, c) {
                let i0 = window_of(ws, a, c);
                let oj = if j >= i0 { j + 1 } else { j };
                assert(e1.ui.windows[j] == ws[oj]);
                if oj < i0 {
                    assert(ws[oj].address == ws[i0].address);
                } else {
                    assert(ws[i0].address == ws[oj].address);
                }
            } else {
                assert(e1.ui.windows[j] == ws[j]);
            }
        }
    }
    assert(same_keys(e1.ui.windows, s1.ui.windows)) by {
        assert forall|i: int| 0 <= i < e1.ui.windows.len() implies (#[trigger] e1.ui.windows[i]).address
            == s1.ui.windows[i].address && e1.ui.windows[i].channel == s1.ui.windows[i].channel by {
            if i != 0 {
                assert(s1.ui.windows[i] == e1.ui.windows[i]);
            }
        }
    }
    lemma_same_keys(s1.ui.windows, e1.ui.windows);
    assert(!has_window(s1.ui.windows, a, c));
    let e2 = opened(s1, a, c).state;
    assert forall|k: int| 0 <= k < s2.subs.len() implies #[trigger] s2.subs[k].token != t by {
        if k < s1.subs.len() {
            assert(s2.subs[k] == s1.subs[k]);
        } else {
            assert(s2.subs[k].token == s1.next_token);
            assert(s0.next_token == s1.next_token);
        }
    }
    assert(!s2.has_token(t));
    if s1.next_token < u64::MAX {
        assert(s2.subs[s2.subs.len() - 1].token == s1.next_token);
        assert(s0.next_token == s1.next_token);
    }
    let k = s1.ui.windows.len() as int;
    assert(s2.ui.active == k);
    if k != 0 {
        assert(s2.ui.windows[k] == e2.ui.windows[k]);
    }
}

impl AppView {
    /// The registries hold no duplicates, and every subscription token was
    /// drawn before the counter's current value.
    pub open spec fn wf(self) -> bool {
        &&& self.ui.wf()
        &&& forall|i: int, j: int|
            0 <= i < j < self.cables.len() ==> #[trigger] self.cables[i] != #[trigger] self.cables[j]
        &&& forall|i: int| 0 <= i < self.subs.len() ==> #[trigger] self.subs[i].token < self.next_token
        &&& forall|i: int, j: int|
            0 <= i < j < self.subs.len() ==> #[trigger] self.subs[i].token != #[trigger] self.subs[j].token
        &&& forall|i: int, j: int|
            0 <= i < j < self.subs.len() ==> !same_key(#[trigger] self.subs[i], #[trigger] self.subs[j])
        &&& forall|i: int|
            0 <= i < self.subs.len() ==> has_window(
                self.ui.windows,
                #[trigger] self.subs[i].address,
                self.subs[i].channel,
            )
        &&& window_keys_unique(self.ui.windows)
    }

    /// The application with only its controller changed.
    pub open spec fn with_ui(self, ui: UiView) -> AppView {
        AppView { ui, ..self }
    }

    /// The active cabal: the active address, when a cabal is registered
    /// under it.
    pub open spec fn active_cable(self) -> Option<Seq<u8>> {
        match self.ui.active_address {
            Some(a) => if self.cables.contains(a) {
                Some(a)
            } else {
                None
            },
            None => None,
        }
    }

    /// Whether a subscription with token `t` is registered.
    pub open spec fn has_token(self, t: u64) -> bool {
        exists|i: int| 0 <= i < self.subs.len() && #[trigger] self.subs[i].token == t
    }
}

/// The application state: the controller, the registered cabals, the
/// connections made, and the live subscriptions.
pub struct App {
    ui: Ui,
    cables: Vec<Addr>,
    connections: Vec<Connection>,
    subscriptions: Vec<Subscription>,
    next_token: u64,
    exit: bool,
}

impl View for App {
    type V = AppView;

    closed spec fn view(&self) -> AppView {
        AppView {
            ui: self.ui@,
            cables: self.cables@.map_values(|a: Addr| a@),
            connections: self.connections@.map_values(|c: Connection| c@),
            subs: self.subscriptions@.map_values(
                |s: Subscription| SubView { address: s.address@, channel: s.channel@, token: s.token },
            ),
            next_token: self.next_token,
            exit: self.exit,
        }
    }
}

impl App {
    pub closed spec fn wf(&self) -> bool {
        self.ui.wf() && self@.wf()
    }

    /// The controller's screen differ.
    pub closed spec fn ui_differ(&self) -> ansi_diff::Diff {
        self.ui.differ()
    }

    /// The invariant as it reads on the model, where the laws of this
    /// module are stated.
    pub proof fn lemma_wf(&self)
        requires
            self.wf(),
        ensures
            self@.wf(),
    {
    }

    /// An application with no cabal, connection or subscription, and a
    /// controller of size `size`.
    pub fn new(size: TermSize) -> (r: App)
        requires
            size_ok(size),
        ensures
            r.wf(),
            r@.cables.len() == 0,
            r@.connections.len() == 0,
            r@.subs.len() == 0,
            r@.next_token == 0,
            !r@.exit,
            r@.ui.windows.len() == 1,
            r@.ui.active_address is None,
            r@.ui.status_texts().len() == 0,
            r@.ui.size == size,
    {
        let r = App {
            ui: Ui::new(size),
            cables: Vec::new(),
            connections: Vec::new(),
            subscriptions: Vec::new(),
            next_token: 0,
            exit: false,
        };
        proof {
            r.ui.lemma_wf();
            assert(r@.ui.status_texts() =~= Seq::empty());
        }
        r
    }

    /// Whether a quit command was given.
    pub fn is_exit(&self) -> (r: bool)
        ensures
            r == self@.exit,
    {
        self.exit
    }

    /// The controller.
    pub fn ui(&self) -> (r: &Ui)
        ensures
            r@ == self@.ui,
    {
        &self.ui
    }

    /// The registered cabal addresses, in order of registration.
    pub fn cables(&self) -> (r: &Vec<Addr>)
        ensures
            r@.map_values(|a: Addr| a@) == self@.cables,
    {
        &self.cables
    }

    /// The connections made, in order.
    pub fn connections(&self) -> (r: &Vec<Connection>)
        ensures
            r@.map_values(|c: Connection| c@) == self@.connections,
    {
        &self.connections
    }

    /// Writes a status line to the status window.
    pub fn write_status(&mut self, msg: &str)
        requires
            old(self).wf(),
        ensures
            final(self).wf(),
            final(self)@ == old(self)@.with_ui(final(self)@.ui),
            logged(old(self)@.ui, final(self)@.ui, seq![msg@]),
    {
        proof {
            self.ui.lemma_wf();
        }
        self.ui.write_status(msg);
        proof {
            lemma_logged_written(old(self)@.ui, self@.ui, msg@);
            lemma_keys_logged(old(self)@, self@, seq![msg@]);
        }
    }

    /// Draws the active window; gives the bytes for the terminal.
    pub fn update(&mut self) -> (r: String)
        requires
            old(self).wf(),
        ensures
            final(self).wf(),
            final(self)@ == old(self)@.with_ui(final(self)@.ui),
            final(self)@.ui == (UiView {
                tick: crate::ui::next_tick(old(self)@.ui.tick),
                ..old(self)@.ui
            }),
            exists|cs: Seq<Seq<char>>|
                crate::ui::valid_clocks(
                    cs,
                    crate::ui::shown_count(old(self)@.ui.active_view(), old(self)@.ui.size),
                ) && r@ == (if old(self)@.ui.tick == 0 {
                    crate::ui::clear_prefix()
                } else {
                    Seq::empty()
                }) + crate::ui::crlf(
                    crate::ui::diff_output(old(self).ui_differ(), old(self)@.ui.frame_text(cs)),
                ) && crate::ui::diff_frame(final(self).ui_differ()) == old(self)@.ui.frame_text(cs),
    {
        self.ui.update()
    }

    /// The bytes that reset the terminal when the interface closes.
    pub fn finish(&self) -> (r: String)
        ensures
            r@ == seq!['\x1b', 'c'],
    {
        self.ui.finish()
    }

    /// Takes a new terminal size.
    pub fn resize(&mut self, size: TermSize)
        requires
            old(self).wf(),
            size_ok(size),
        ensures
            final(self).wf(),
            final(self)@ == old(self)@.with_ui(UiView { size, ..old(self)@.ui }),
    {
        self.ui.resize(size);
    }

    /// Reads one byte from the keyboard.
    pub fn putc(&mut self, b: u8)
        requires
            old(self).wf(),
        ensures
            final(self).wf(),
            final(self)@ == old(self)@.with_ui(
                UiView { input: old(self)@.ui.input.feed(b), ..old(self)@.ui },
            ),
    {
        self.ui.putc(b);
    }

    /// Takes the oldest event of the line editor.
    pub fn next_event(&mut self) -> (r: Option<InputEvent>)
        requires
            old(self).wf(),
        ensures
            final(self).wf(),
            final(self)@ == old(self)@.with_ui(final(self)@.ui),
            old(self)@.ui.input.events.len() == 0 ==> r is None && final(self)@ == old(self)@,
            old(self)@.ui.input.events.len() > 0 ==> (r matches Some(e) && e@
                == old(self)@.ui.input.events[0]),
    {
        self.ui.next_event()
    }

    /// The active cabal address.
    pub fn get_active_address(&self) -> (r: Option<Addr>)
        ensures
            r matches Some(a) ==> self@.ui.active_address == Some(a@),
            r is None ==> self@.ui.active_address is None,
    {
        match self.ui.get_active_address() {
            Some(a) => Some(a.clone()),
            None => None,
        }
    }

    /// Makes the cabal at `addr` the active one.
    pub fn set_active_address(&mut self, addr: &Addr)
        requires
            old(self).wf(),
        ensures
            final(self).wf(),
            final(self)@ == old(self)@.with_ui(
                UiView { active_address: Some(addr@), ..old(self)@.ui },
            ),
    {
        self.ui.set_active_address(addr);
    }

    /// Writes status lines; a helper for handlers.
    fn log(&mut self, msg: &str, Ghost(before): Ghost<UiView>, Ghost(msgs): Ghost<Seq<Seq<char>>>)
        requires
            old(self).wf(),
            logged(before, old(self)@.ui, msgs),
        ensures
            final(self).wf(),
            final(self)@ == old(self)@.with_ui(final(self)@.ui),
            logged(before, final(self)@.ui, msgs.push(msg@)),
    {
        let ghost mid = self@.ui;
        self.write_status(msg);
        proof {
            lemma_logged_trans(before, mid, self@.ui, msgs, seq![msg@]);
            assert(msgs + seq![msg@] =~= msgs.push(msg@));
        }
    }

    /// Handles `/cabal add ADDR` (registers the cabal, and makes it active
    /// when no cabal is active), `/cabal set ADDR` and `/cabal list`.
    fn cabal_handler(&mut self, args: &Vec<String>) -> (r: Vec<Action>)
        requires
            old(self).wf(),
        ensures
            final(self).wf(),
            effect_holds(cabal_effect(old(self)@, strs_view(args@)), final(self)@, acts_view(r@)),
    {
        let ghost s0 = self@;
        let ghost a = strs_view(args@);
        let mut acts: Vec<Action> = Vec::new();
        proof {
            self.ui.lemma_wf();
            lemma_logged_empty(self@.ui);
            assert(acts_view(acts@) =~= Seq::empty());
        }
        if args.len() > 1 && is_word(&args[1], "add") {
            proof {
                assert(a[1] == args@[1]@);
            }
            if args.len() > 2 {
                proof {
                    assert(a[2] == args@[2]@);
                }
                match hex::from(args[2].as_str()) {
                    Some(addr) => {
                        let promote = self.get_active_address().is_none();
                        let fresh = self.add_cable(&addr);
                        if fresh {
                            let storage = hex::to(addr.as_slice());
                            acts.push(Action::AddCable { address: addr.clone(), storage });
                            proof {
                                assert(acts_view(acts@) =~= seq![
                                    ActionView::AddCable { address: addr@, storage: bytes_text(addr@) },
                                ]);
                            }
                        }
                        if promote {
                            self.set_active_address(&addr);
                        }
                        let ghost mid = self@;
                        proof {
                            self.ui.lemma_wf();
                            lemma_logged_empty(mid.ui);
                        }
                        let m1 = concat(ADDED_CABAL, args[2].as_str());
                        let ghost none = Seq::<Seq<char>>::empty();
                        self.log(m1.as_str(), Ghost(mid.ui), Ghost(none));
                        proof {
                            assert(Seq::<Seq<char>>::empty().push(m1@) =~= seq![m1@]);
                        }
                        if promote {
                            let m2 = concat(SET_ACTIVE_CABAL, args[2].as_str());
                            let ghost one = seq![m1@];
                            self.log(m2.as_str(), Ghost(mid.ui), Ghost(one));
                            proof {
                                assert(seq![m1@].push(m2@) =~= seq![m1@] + seq![m2@]);
                            }
                        } else {
                            proof {
                                assert(seq![m1@] =~= seq![m1@] + Seq::<Seq<char>>::empty());
                            }
                        }
                        proof {
                            let e = cabal_effect(s0, a);
                            assert(e.state == mid);
                        }
                    },
                    None => {
                        let m = concat(INVALID_CABAL, args[2].as_str());
                        self.write_status(m.as_str());
                    },
                }
            } else {
                self.write_status(USAGE_CABAL_ADD);
            }
        } else if args.len() > 1 && is_word(&args[1], "set") {
            proof {
                assert(a[1] == args@[1]@);
            }
            if args.len() > 2 {
                proof {
                    assert(a[2] == args@[2]@);
                }
                match hex::from(args[2].as_str()) {
                    Some(addr) => {
                        self.set_active_address(&addr);
                        let m = concat(SET_ACTIVE_CABAL, args[2].as_str());
                        self.write_status(m.as_str());
                    },
                    None => {
                        let m = concat(INVALID_CABAL, args[2].as_str());
                        self.write_status(m.as_str());
                    },
                }
            } else {
                self.write_status(USAGE_CABAL_SET);
            }
        } else if args.len() > 1 && is_word(&args[1], "list") {
            proof {
                assert(a[1] == args@[1]@);
            }
            self.cabal_list_handler();
        } else {
            proof {
                if args@.len() > 1 {
                    assert(a[1] == args@[1]@);
                }
            }
        }
        acts
    }

    /// Writes one line per registered cabal (see `cabal_list`).
    fn cabal_list_handler(&mut self)
        requires
            old(self).wf(),
        ensures
            final(self).wf(),
            final(self)@ == old(self)@.with_ui(final(self)@.ui),
            logged(old(self)@.ui, final(self)@.ui, cabal_list(old(self)@)),
    {
        let ghost s0 = self@;
        proof {
            self.ui.lemma_wf();
            lemma_logged_empty(self@.ui);
        }
        if self.cables.len() == 0 {
            self.write_status(NO_CABALS);
            return ;
        }
        let active = self.get_active_address();
        let n = self.cables.len();
        let mut i: usize = 0;
        while i < n
            invariant
                self.wf(),
                n == s0.cables.len(),
                i <= n,
                self@ == s0.with_ui(self@.ui),
                active matches Some(x) ==> s0.ui.active_address == Some(x@),
                active is None ==> s0.ui.active_address is None,
                logged(s0.ui, self@.ui, cabal_list(s0).subrange(0, i as int)),
            decreases n - i,
        {
            let mut m = hex::to(self.cables[i].as_slice());
            let star = match &active {
                Some(x) => same_bytes(x, &self.cables[i]),
                None => false,
            };
            if star {
                push_str(&mut m, ACTIVE_MARK);
            }
            proof {
                assert(self.cables@[i as int]@ == s0.cables[i as int]);
                assert(m@ == cabal_list(s0)[i as int]);
            }
            self.log(m.as_str(), Ghost(s0.ui), Ghost(cabal_list(s0).subrange(0, i as int)));
            proof {
                assert(cabal_list(s0).subrange(0, i as int).push(m@) =~= cabal_list(s0).subrange(
                    0,
                    i + 1,
                ));
            }
            i = i + 1;
        }
        proof {
            assert(cabal_list(s0).subrange(0, n as int) =~= cabal_list(s0));
        }
    }

    /// Records a connection, once.
    fn record_connection(&mut self, c: Connection)
        requires
            old(self).wf(),
        ensures
            final(self).wf(),
            final(self)@ == with_connection(old(self)@, c@),
    {
        let mut i: usize = 0;
        while i < self.connections.len()
            invariant
                self == old(self),
                self.wf(),
                i <= self@.connections.len(),
                forall|j: int| 0 <= j < i ==> self@.connections[j] != c@,
            decreases self@.connections.len() - i,
        {
            let same = match (&self.connections[i], &c) {
                (Connection::Connected(x), Connection::Connected(y)) => *x == *y,
                (Connection::Listening(x), Connection::Listening(y)) => *x == *y,
                _ => false,
            };
            proof {
                assert(self@.connections[i as int] == self.connections@[i as int]@);
            }
            if same {
                assert(self@.connections.contains(c@));
                assert(self@ == with_connection(old(self)@, c@));
                return ;
            }
            i = i + 1;
        }
        proof {
            assert(!self@.connections.contains(c@));
        }
        self.connections.push(c);
        proof {
            assert(self@.connections =~= old(self)@.connections.push(c@));
        }
    }

    fn none_done(&self) -> (r: Vec<Action>)
        requires
            self.wf(),
        ensures
            acts_view(r@) == Seq::<ActionView>::empty(),
            logged(self@.ui, self@.ui, Seq::empty()),
    {
        proof {
            self.ui.lemma_wf();
            lemma_logged_empty(self@.ui);
        }
        let r: Vec<Action> = Vec::new();
        assert(acts_view(r@) =~= Seq::empty());
        r
    }

    fn one(&self, a: Action) -> (r: Vec<Action>)
        requires
            self.wf(),
        ensures
            acts_view(r@) == seq![a@],
            logged(self@.ui, self@.ui, Seq::empty()),
    {
        proof {
            self.ui.lemma_wf();
            lemma_logged_empty(self@.ui);
        }
        let mut r: Vec<Action> = Vec::new();
        r.push(a);
        assert(acts_view(r@) =~= seq![a@]);
        r
    }

    /// Writes one status line and hands out nothing.
    fn say_one(&mut self, msg: &str) -> (r: Vec<Action>)
        requires
            old(self).wf(),
        ensures
            final(self).wf(),
            final(self)@ == old(self)@.with_ui(final(self)@.ui),
            logged(old(self)@.ui, final(self)@.ui, seq![msg@]),
            acts_view(r@) == Seq::<ActionView>::empty(),
    {
        self.write_status(msg);
        let r: Vec<Action> = Vec::new();
        assert(acts_view(r@) =~= Seq::empty());
        r
    }

    /// Handles `/connect HOST:PORT`.
    fn connect_handler(&mut self, args: &Vec<String>) -> (r: Vec<Action>)
        requires
            old(self).wf(),
        ensures
            final(self).wf(),
            effect_holds(connect_effect(old(self)@, strs_view(args@)), final(self)@, acts_view(r@)),
    {
        match self.get_active_cable() {
            None => self.say_one(NO_BIND_CABAL),
            Some(addr) => if args.len() > 1 {
                proof {
                    assert(strs_view(args@)[1] == args@[1]@);
                }
                let tcp = args[1].clone();
                self.one(Action::Connect { address: addr, tcp_addr: tcp })
            } else {
                self.say_one(USAGE_CONNECT)
            },
        }
    }

    fn has_colon(s: &String) -> (r: bool)
        ensures
            r == s@.contains(':'),
    {
        let cs = crate::text::chars_of(s.as_str());
        let mut i: usize = 0;
        while i < cs.len()
            invariant
                cs@ == s@,
                i <= cs@.len(),
                forall|j: int| 0 <= j < i ==> cs@[j] != ':',
            decreases cs@.len() - i,
        {
            if cs[i] == ':' {
                assert(s@[i as int] == ':');
                return true;
            }
            i = i + 1;
        }
        false
    }

    /// Handles `/listen [HOST:]PORT`.
    fn listen_handler(&mut self, args: &Vec<String>) -> (r: Vec<Action>)
        requires
            old(self).wf(),
        ensures
            final(self).wf(),
            effect_holds(listen_effect(old(self)@, strs_view(args@)), final(self)@, acts_view(r@)),
    {
        match self.get_active_cable() {
            None => self.say_one(NO_BIND_CABAL),
            Some(addr) => if args.len() > 1 {
                proof {
                    assert(strs_view(args@)[1] == args@[1]@);
                }
                let tcp = if Self::has_colon(&args[1]) {
                    args[1].clone()
                } else {
                    concat(ANY_HOST, args[1].as_str())
                };
                self.one(Action::Listen { address: addr, tcp_addr: tcp })
            } else {
                self.say_one(USAGE_LISTEN)
            },
        }
    }

    /// Handles `/connections`.
    fn connections_handler(&mut self)
        requires
            old(self).wf(),
        ensures
            final(self).wf(),
            final(self)@ == old(self)@.with_ui(final(self)@.ui),
            logged(old(self)@.ui, final(self)@.ui, connections_effect(old(self)@).msgs),
    {
        let ghost s0 = self@;
        let ghost msgs = connections_effect(s0).msgs;
        proof {
            self.ui.lemma_wf();
            lemma_logged_empty(self@.ui);
        }
        if self.connections.len() == 0 {
            self.write_status(NO_CONNECTIONS);
            return ;
        }
        let n = self.connections.len();
        let mut i: usize = 0;
        while i < n
            invariant
                self.wf(),
                n == s0.connections.len(),
                n > 0,
                msgs == connections_effect(s0).msgs,
                i <= n,
                self@ == s0.with_ui(self@.ui),
                logged(s0.ui, self@.ui, msgs.subrange(0, i as int)),
            decreases n - i,
        {
            let m = match &self.connections[i] {
                Connection::Connected(a) => concat(CONNECTED_TO, a.as_str()),
                Connection::Listening(a) => concat(LISTENING_ON, a.as_str()),
            };
            proof {
                assert(self.connections@[i as int]@ == s0.connections[i as int]);
                assert(m@ == msgs[i as int]);
            }
            self.log(m.as_str(), Ghost(s0.ui), Ghost(msgs.subrange(0, i as int)));
            proof {
                assert(msgs.subrange(0, i as int).push(m@) =~= msgs.subrange(0, i + 1));
            }
            i = i + 1;
        }
        proof {
            assert(msgs.subrange(0, n as int) =~= msgs);
        }
    }

    /// Handles `/channels`.
    fn channels_handler(&mut self) -> (r: Vec<Action>)
        requires
            old(self).wf(),
        ensures
            final(self).wf(),
            effect_holds(channels_effect(old(self)@), final(self)@, acts_view(r@)),
    {
        match self.get_active_cable() {
            None => self.say_one(NO_CHANNELS_CABAL),
            Some(addr) => self.one(Action::ListChannels { address: addr }),
        }
    }

    /// Handles `/whoami`.
    fn whoami_handler(&mut self) -> (r: Vec<Action>)
        requires
            old(self).wf(),
        ensures
            final(self).wf(),
            effect_holds(whoami_effect(old(self)@), final(self)@, acts_view(r@)),
    {
        match self.get_active_cable() {
            None => self.say_one(NO_WHOAMI_CABAL),
            Some(addr) => self.one(Action::Whoami { address: addr }),
        }
    }

    /// Handles `/delete nick`.
    fn delete_handler(&mut self, args: &Vec<String>) -> (r: Vec<Action>)
        requires
            old(self).wf(),
        ensures
            final(self).wf(),
            effect_holds(delete_effect(old(self)@, strs_view(args@)), final(self)@, acts_view(r@)),
    {
        match self.get_active_cable() {
            None => self.say_one(NO_DELETE_CABAL),
            Some(addr) => {
                if args.len() > 1 {
                    assert(strs_view(args@)[1] == args@[1]@);
                }
                if args.len() > 1 && is_word(&args[1], "nick") {
                    self.one(Action::DeleteNick { address: addr })
                } else {
                    self.say_one(USAGE_DELETE)
                }
            },
        }
    }

    /// Handles `/join CHANNEL`: the joining itself follows the engine's
    /// answer, in `open_channel`.
    fn join_handler(&mut self, args: &Vec<String>) -> (r: Vec<Action>)
        requires
            old(self).wf(),
        ensures
            final(self).wf(),
            effect_holds(join_effect(old(self)@, strs_view(args@)), final(self)@, acts_view(r@)),
    {
        match self.get_active_cable() {
            None => self.say_one(NO_JOIN_CABAL),
            Some(addr) => if args.len() > 1 {
                assert(strs_view(args@)[1] == args@[1]@);
                self.one(Action::Join { address: addr, channel: args[1].clone() })
            } else {
                self.say_one(USAGE_JOIN)
            },
        }
    }

    /// Handles `/leave CHANNEL`: the leaving itself follows the engine's
    /// answer, in `leave_channel`.
    fn leave_handler(&mut self, args: &Vec<String>) -> (r: Vec<Action>)
        requires
            old(self).wf(),
        ensures
            final(self).wf(),
            effect_holds(leave_effect(old(self)@, strs_view(args@)), final(self)@, acts_view(r@)),
    {
        match self.get_active_cable() {
            None => self.say_one(NO_LEAVE_CABAL),
            Some(addr) => if args.len() > 1 {
                assert(strs_view(args@)[1] == args@[1]@);
                self.one(Action::Leave { address: addr, channel: args[1].clone() })
            } else {
                self.say_one(USAGE_LEAVE)
            },
        }
    }

    /// Handles `/nick NAME`.
    fn nick_handler(&mut self, args: &Vec<String>) -> (r: Vec<Action>)
        requires
            old(self).wf(),
        ensures
            final(self).wf(),
            effect_holds(nick_effect(old(self)@, strs_view(args@)), final(self)@, acts_view(r@)),
    {
        match self.get_active_cable() {
            None => self.say_one(NO_NICK_CABAL),
            Some(addr) => if args.len() > 1 {
                assert(strs_view(args@)[1] == args@[1]@);
                self.one(Action::SetNick { address: addr, nick: args[1].clone() })
            } else {
                self.say_one(USAGE_NICK)
            },
        }
    }

    /// Handles `/members [CHANNEL]`.
    fn members_handler(&mut self, args: &Vec<String>) -> (r: Vec<Action>)
        requires
            old(self).wf(),
        ensures
            final(self).wf(),
            effect_holds(members_effect(old(self)@, strs_view(args@)), final(self)@, acts_view(r@)),
    {
        match self.get_active_cable() {
            None => self.say_one(NO_MEMBERS_CABAL),
            Some(addr) => if args.len() > 1 {
                assert(strs_view(args@)[1] == args@[1]@);
                self.one(Action::ListMembers { address: addr, channel: args[1].clone() })
            } else if self.ui.get_active_index() != 0 {
                let channel = self.ui.get_active_window().channel().clone();
                self.one(Action::ListMembers { address: addr, channel })
            } else {
                self.none_done()
            },
        }
    }

    /// Words joined by single spaces.
    fn spaced_words(ws: &Vec<String>, from: usize) -> (r: String)
        requires
            from <= ws@.len(),
        ensures
            r@ == spaced(strs_view(ws@).subrange(from as int, ws@.len() as int)),
    {
        let ghost v = strs_view(ws@);
        let mut r = String::new();
        let mut i: usize = from;
        while i < ws.len()
            invariant
                from <= i <= ws@.len(),
                v == strs_view(ws@),
                r@ == spaced(v.subrange(from as int, i as int)),
            decreases ws@.len() - i,
        {
            if i > from {
                push_str(&mut r, " ");
                proof {
                    reveal_strlit(" ");
                }
            }
            push_str(&mut r, ws[i].as_str());
            proof {
                let next = v.subrange(from as int, i + 1);
                assert(next.drop_last() =~= v.subrange(from as int, i as int));
                assert(next.last() == ws@[i as int]@);
                if i == from {
                    assert(r@ =~= spaced(next));
                } else {
                    assert(r@ =~= spaced(next));
                }
            }
            i = i + 1;
        }
        r
    }

    /// Handles `/topic TEXT`.
    fn topic_handler(&mut self, args: &Vec<String>) -> (r: Vec<Action>)
        requires
            old(self).wf(),
        ensures
            final(self).wf(),
            effect_holds(topic_effect(old(self)@, strs_view(args@)), final(self)@, acts_view(r@)),
    {
        proof {
            self.ui.lemma_wf();
        }
        match self.get_active_cable() {
            None => self.none_done(),
            Some(addr) => if args.len() > 1 {
                let topic = Self::spaced_words(args, 1);
                let channel = self.ui.get_active_window().channel().clone();
                if !is_word(&channel, STATUS_CHANNEL) {
                    self.one(Action::SetTopic { address: addr, channel, topic })
                } else {
                    self.say_one(TOPIC_ON_STATUS)
                }
            } else {
                self.say_one(USAGE_TOPIC)
            },
        }
    }

    /// Handles `/win INDEX`.
    fn win_handler(&mut self, args: &Vec<String>) -> (r: Vec<Action>)
        requires
            old(self).wf(),
        ensures
            final(self).wf(),
            effect_holds(win_effect(old(self)@, strs_view(args@)), final(self)@, acts_view(r@)),
    {
        if args.len() > 1 {
            assert(strs_view(args@)[1] == args@[1]@);
            match crate::words::parse_index(args[1].as_str()) {
                Some(i) => {
                    self.ui.set_active_index(i);
                    self.none_done()
                },
                None => self.say_one(WIN_NOT_NUMBER),
            }
        } else {
            self.say_one(USAGE_WIN)
        }
    }

    /// Posts `text` to the active window's channel; the status window takes
    /// no posts.
    pub fn post(&mut self, text: &String) -> (r: Vec<Action>)
        requires
            old(self).wf(),
        ensures
            final(self).wf(),
            effect_holds(post_effect(old(self)@, text@), final(self)@, acts_view(r@)),
    {
        proof {
            self.ui.lemma_wf();
        }
        let w = self.ui.get_active_window();
        if is_word(w.channel(), STATUS_CHANNEL) {
            self.say_one(POST_ON_STATUS)
        } else {
            let a = Action::PostText {
                address: w.address().clone(),
                channel: w.channel().clone(),
                text: text.clone(),
            };
            self.one(a)
        }
    }

    /// Handles `/help`.
    fn help_handler(&mut self)
        requires
            old(self).wf(),
        ensures
            final(self).wf(),
            final(self)@ == old(self)@.with_ui(final(self)@.ui),
            logged(old(self)@.ui, final(self)@.ui, help_text()),
    {
        let ghost s0 = self@;
        let ghost msgs = help_text();
        let lines: Vec<&str> = vec![
            "/cabal add ADDR",
            "  add a cabal",
            "/cabal set ADDR",
            "  set the active cabal",
            "/cabal list",
            "  list all known cabals",
            "/channels",
            "  list all known channels",
            "/connections",
            "  list all known network connections",
            "/connect HOST:PORT",
            "  connect to a peer over tcp",
            "/delete nick",
            "  delete the most recent nick",
            "/join CHANNEL",
            "  join a channel (shorthand: /j CHANNEL)",
            "/listen PORT",
            "  listen for incoming tcp connections on 0.0.0.0",
            "/listen HOST:PORT",
            "  listen for incoming tcp connections",
            "/members CHANNEL",
            "  list all known members of the channel",
            "/topic",
            "  list the topic of the active channel",
            "/topic TOPIC",
            "  set the topic of the active channel",
            "/whoami",
            "  list the local public key as a hex string",
            "/win INDEX",
            "  change the active window (shorthand: /w INDEX)",
            "/exit",
            "  exit the cabal process",
            "/quit",
            "  exit the cabal process (shorthand: /q)",
        ];
        proof {
            self.ui.lemma_wf();
            lemma_logged_empty(self@.ui);
            assert(lines@.map_values(|l: &str| l@) =~= msgs);
        }
        let mut i: usize = 0;
        while i < lines.len()
            invariant
                self.wf(),
                lines@.map_values(|l: &str| l@) == msgs,
                i <= lines@.len(),
                self@ == s0.with_ui(self@.ui),
                logged(s0.ui, self@.ui, msgs.subrange(0, i as int)),
            decreases lines@.len() - i,
        {
            let m = lines[i];
            proof {
                assert(m@ == msgs[i as int]);
            }
            self.log(m, Ghost(s0.ui), Ghost(msgs.subrange(0, i as int)));
            proof {
                assert(msgs.subrange(0, i as int).push(m@) =~= msgs.subrange(0, i + 1));
            }
            i = i + 1;
        }
        proof {
            assert(msgs.subrange(0, lines@.len() as int) =~= msgs);
        }
    }

    /// Runs the command whose echo is already written.
    fn run_echoed(&mut self, args: &Vec<String>) -> (r: Vec<Action>)
        requires
            old(self).wf(),
            args@.len() > 0,
        ensures
            final(self).wf(),
            effect_holds(echoed_effect(old(self)@, strs_view(args@)), final(self)@, acts_view(r@)),
    {
        let ghost a = strs_view(args@);
        assert(a[0] == args@[0]@);
        let c = &args[0];
        if is_word(c, "/cabal") {
            self.cabal_handler(args)
        } else if is_word(c, "/channels") {
            self.channels_handler()
        } else if is_word(c, "/connect") {
            self.connect_handler(args)
        } else if is_word(c, "/connections") {
            self.connections_handler();
            self.none_here()
        } else if is_word(c, "/delete") {
            self.delete_handler(args)
        } else if is_word(c, "/help") {
            self.help_handler();
            self.none_here()
        } else if is_word(c, "/listen") {
            self.listen_handler(args)
        } else if is_word(c, "/members") {
            self.members_handler(args)
        } else if is_word(c, "/nick") {
            self.nick_handler(args)
        } else if is_word(c, "/topic") {
            self.topic_handler(args)
        } else if is_word(c, "/quit") || is_word(c, "/exit") || is_word(c, "/q") {
            proof {
                self.ui.lemma_wf();
                lemma_logged_empty(self@.ui);
            }
            self.exit = true;
            self.none_here()
        } else if is_word(c, "/whoami") {
            self.whoami_handler()
        } else {
            let m = concat(NO_SUCH_COMMAND, c.as_str());
            self.say_one(m.as_str())
        }
    }

    fn none_here(&self) -> (r: Vec<Action>)
        ensures
            acts_view(r@) == Seq::<ActionView>::empty(),
    {
        let r: Vec<Action> = Vec::new();
        assert(acts_view(r@) =~= Seq::empty());
        r
    }

    /// Carries out a line of input whose words are `args` (see
    /// `dispatched`); gives the work to hand to the engine or network.
    pub fn dispatch(&mut self, line: &str, args: &Vec<String>) -> (r: Vec<Action>)
        requires
            old(self).wf(),
        ensures
            final(self).wf(),
            dispatched(old(self)@, line@, strs_view(args@), final(self)@, acts_view(r@)),
    {
        let ghost a = strs_view(args@);
        if args.len() == 0 {
            return self.none_here();
        }
        assert(a[0] == args@[0]@);
        let ghost s0 = self@;
        self.write_status(line);
        let ghost e = self@;
        let c = &args[0];
        let r = if is_word(c, "/join") || is_word(c, "/j") {
            self.join_handler(args)
        } else if is_word(c, "/leave") {
            self.leave_handler(args)
        } else if is_word(c, "/win") || is_word(c, "/w") {
            self.win_handler(args)
        } else if c.as_str().unicode_len() > 0 && c.as_str().get_char(0) == '/' {
            self.run_echoed(args)
        } else {
            let text = crate::words::trim_end(line);
            self.post(&text)
        };
        proof {
            assert(echoed(s0, line@, e));
        }
        r
    }

    /// Carries out a line of input, split into words at white space.
    pub fn handle(&mut self, line: &str) -> (r: Vec<Action>)
        requires
            old(self).wf(),
        ensures
            final(self).wf(),
            dispatched(
                old(self)@,
                line@,
                crate::words::words(line@),
                final(self)@,
                acts_view(r@),
            ),
    {
        let args = crate::words::split_whitespace(line);
        self.dispatch(line, &args)
    }

    /// Joins `channel` of the cabal at `address` once the engine has taken
    /// the join, reading the clock for the start of the time range (see
    /// `open_channel_at`).
    pub fn open_channel(&mut self, address: &Addr, channel: &String) -> (r: Option<Subscription>)
        requires
            old(self).wf(),
        ensures
            final(self).wf(),
            effect_holds(opened(old(self)@, address@, channel@), final(self)@, Seq::empty()),
            r matches Some(sub) ==> !has_window(old(self)@.ui.windows, address@, channel@)
                && old(self)@.next_token < u64::MAX && sub.address@ == address@ && sub.channel@
                == channel@ && sub.token == old(self)@.next_token && sub.time_end == 0 && sub.limit
                == SUBSCRIPTION_LIMIT && exists|clock: Result<u64, TimeError>|
                sub.time_start == range_start(clock),
            r is None ==> has_window(old(self)@.ui.windows, address@, channel@)
                || old(self)@.next_token == u64::MAX,
    {
        self.open_channel_at(address, channel, crate::time::now())
    }

    /// Joins `channel` of the cabal at `address` once the engine has taken
    /// the join (see `opened`), given a reading of the clock. Gives the
    /// subscription to start when a new window was added: posts read for it
    /// are handed to `deliver` under its token. Its time range starts two
    /// weeks before the reading (see `range_start`).
    pub fn open_channel_at(
        &mut self,
        address: &Addr,
        channel: &String,
        clock: Result<u64, TimeError>,
    ) -> (r: Option<Subscription>)
        requires
            old(self).wf(),
        ensures
            final(self).wf(),
            effect_holds(opened(old(self)@, address@, channel@), final(self)@, Seq::empty()),
            r matches Some(sub) ==> !has_window(old(self)@.ui.windows, address@, channel@)
                && old(self)@.next_token < u64::MAX && sub.address@ == address@ && sub.channel@
                == channel@ && sub.token == old(self)@.next_token && sub.time_end == 0 && sub.limit
                == SUBSCRIPTION_LIMIT && sub.time_start == range_start(clock),
            r is None ==> has_window(old(self)@.ui.windows, address@, channel@)
                || old(self)@.next_token == u64::MAX,
    {
        let ghost s0 = self@;
        proof {
            self.ui.lemma_wf();
        }
        match self.ui.get_window_index(address, channel) {
            Some(i) => {
                proof {
                    assert(has_window(s0.ui.windows, address@, channel@));
                    lemma_window_of(s0.ui.windows, address@, channel@);
                    lemma_first_match_unique(
                        s0.ui.windows,
                        address@,
                        channel@,
                        i as int,
                        window_of(s0.ui.windows, address@, channel@),
                    );
                }
                self.ui.set_active_index(i);
                proof {
                    lemma_logged_empty(self@.ui);
                }
                None
            },
            None => {
                let i = self.ui.add_window(address.clone(), channel.clone());
                self.ui.set_active_index(i);
                let mut r: Option<Subscription> = None;
                if self.next_token < u64::MAX {
                    let token = self.next_token;
                    self.next_token = token + 1;
                    let time_start = match crate::time::two_weeks_before_reading(clock) {
                        Ok(t) => t,
                        Err(_) => 0,
                    };
                    self.subscriptions.push(
                        Subscription {
                            address: address.clone(),
                            channel: channel.clone(),
                            token,
                            time_start,
                            time_end: 0,
                            limit: SUBSCRIPTION_LIMIT,
                        },
                    );
                    r = Some(
                        Subscription {
                            address: address.clone(),
                            channel: channel.clone(),
                            token,
                            time_start,
                            time_end: 0,
                            limit: SUBSCRIPTION_LIMIT,
                        },
                    );
                }
                proof {
                    let e = opened(s0, address@, channel@);
                    assert(self@.subs =~= e.state.subs);
                    assert(self@.ui.windows =~= e.state.ui.windows);
                    assert(self@ == e.state);
                    lemma_opened_wf(s0, address@, channel@);
                }
                let m = concat(JOINED_CHANNEL, channel.as_str());
                self.write_status(m.as_str());
                r
            },
        }
    }

    fn find_sub(&self, address: &Addr, channel: &String) -> (r: Option<usize>)
        ensures
            r matches Some(k) ==> sub_at(self@.subs, address@, channel@, k as int),
            r is None ==> !has_sub(self@.subs, address@, channel@),
    {
        let mut k: usize = 0;
        while k < self.subscriptions.len()
            invariant
                k <= self@.subs.len(),
                forall|j: int| 0 <= j < k ==> !sub_at(self@.subs, address@, channel@, j),
            decreases self@.subs.len() - k,
        {
            let sub = &self.subscriptions[k];
            if same_bytes(&sub.address, address) && sub.channel == *channel {
                return Some(k);
            }
            k = k + 1;
        }
        None
    }

    /// Leaves `channel` of the cabal at `address` once the engine has taken
    /// the leave (see `left`). Gives the token of the subscription that was
    /// deregistered: its task is to be stopped, and from now on `deliver`
    /// drops whatever it still sends.
    pub fn leave_channel(&mut self, address: &Addr, channel: &String) -> (r: Option<u64>)
        requires
            old(self).wf(),
        ensures
            final(self).wf(),
            effect_holds(left(old(self)@, address@, channel@), final(self)@, Seq::empty()),
            r matches Some(t) ==> has_sub(old(self)@.subs, address@, channel@) && t == old(
                self,
            )@.subs[sub_of(old(self)@.subs, address@, channel@)].token,
            r is None ==> !has_sub(old(self)@.subs, address@, channel@),
    {
        let ghost s0 = self@;
        let ghost e = left(s0, address@, channel@);
        proof {
            self.ui.lemma_wf();
        }
        let mut r: Option<u64> = None;
        match self.find_sub(address, channel) {
            Some(k) => {
                proof {
                    let k0 = sub_of(s0.subs, address@, channel@);
                    assert(sub_at(s0.subs, address@, channel@, k0));
                    if k0 != k as int {
                        if k0 < k {
                            assert(same_key(s0.subs[k0], s0.subs[k as int]));
                        } else {
                            assert(same_key(s0.subs[k as int], s0.subs[k0]));
                        }
                    }
                }
                let sub = self.subscriptions.remove(k);
                r = Some(sub.token);
                proof {
                    assert(self@.subs =~= s0.subs.remove(k as int));
                }
            },
            None => {},
        }
        match self.ui.get_window_index(address, channel) {
            Some(i) => {
                proof {
                    lemma_window_of(s0.ui.windows, address@, channel@);
                    lemma_first_match_unique(
                        s0.ui.windows,
                        address@,
                        channel@,
                        i as int,
                        window_of(s0.ui.windows, address@, channel@),
                    );
                }
                self.ui.remove_window(i);
            },
            None => {},
        }
        self.ui.set_active_index(0);
        proof {
            assert(self@.ui.windows =~= e.state.ui.windows);
            assert(self@.subs =~= e.state.subs);
            assert(self@ == e.state);
            lemma_left_wf(s0, address@, channel@);
        }
        let m = concat(LEFT_CHANNEL, channel.as_str());
        self.write_status(m.as_str());
        r
    }

    fn find_token(&self, token: u64) -> (r: Option<usize>)
        requires
            self.wf(),
        ensures
            r matches Some(k) ==> self@.has_token(token) && k == token_index(self@.subs, token),
            r is None ==> !self@.has_token(token),
    {
        let mut k: usize = 0;
        while k < self.subscriptions.len()
            invariant
                self.wf(),
                k <= self@.subs.len(),
                forall|j: int| 0 <= j < k ==> self@.subs[j].token != token,
            decreases self@.subs.len() - k,
        {
            if self.subscriptions[k].token == token {
                proof {
                    assert(self@.subs[k as int].token == token);
                    let c = token_index(self@.subs, token);
                    if c != k {
                        if c < k {
                            assert(self@.subs[c].token != self@.subs[k as int].token);
                        } else {
                            assert(self@.subs[k as int].token != self@.subs[c].token);
                        }
                    }
                }
                return Some(k);
            }
            k = k + 1;
        }
        None
    }

    /// Shows a post read under subscription token `token` (see
    /// `delivered`); gives whether a window changed.
    pub fn deliver(&mut self, token: u64, post: Post) -> (r: bool)
        requires
            old(self).wf(),
        ensures
            final(self).wf(),
            final(self)@ == delivered(old(self)@, token, post@),
            !r ==> final(self)@ == old(self)@,
    {
        let ghost s0 = self@;
        let ghost pv = post@;
        proof {
            self.ui.lemma_wf();
        }
        let k = match self.find_token(token) {
            Some(k) => k,
            None => {
                return false;
            },
        };
        let address = self.subscriptions[k].address.clone();
        let ghost a = s0.subs[k as int].address;
        let Post { timestamp, author, nickname, body } = post;
        match body {
            PostBody::Text { channel, text } => match self.ui.get_window_index(&address, &channel) {
                Some(i) => {
                    proof {
                        lemma_window_of(s0.ui.windows, a, channel@);
                        lemma_first_match_unique(
                            s0.ui.windows,
                            a,
                            channel@,
                            i as int,
                            window_of(s0.ui.windows, a, channel@),
                        );
                    }
                    if self.ui.shows_post(i, timestamp, &author, &text) {
                        return false;
                    }
                    self.ui.insert_line(i, timestamp, Some(author), nickname, text.as_str());
                    proof {
                        assert(self@ == delivered(s0, token, pv));
                        assert(same_keys(s0.ui.windows, self@.ui.windows)) by {
                            assert forall|j: int| 0 <= j < s0.ui.windows.len() implies (
                            #[trigger] s0.ui.windows[j]).address == self@.ui.windows[j].address
                                && s0.ui.windows[j].channel == self@.ui.windows[j].channel by {
                                if j != i {
                                    assert(self@.ui.windows[j] == s0.ui.windows[j]);
                                }
                            }
                        }
                        lemma_same_keys(s0.ui.windows, self@.ui.windows);
                    }
                    true
                },
                None => false,
            },
            PostBody::Topic { channel, topic } => match self.ui.get_window_index(&address, &channel) {
                Some(i) => {
                    proof {
                        lemma_window_of(s0.ui.windows, a, channel@);
                        lemma_first_match_unique(
                            s0.ui.windows,
                            a,
                            channel@,
                            i as int,
                            window_of(s0.ui.windows, a, channel@),
                        );
                    }
                    self.ui.update_topic(i, topic);
                    proof {
                        assert(self@ == delivered(s0, token, pv));
                        assert(same_keys(s0.ui.windows, self@.ui.windows)) by {
                            assert forall|j: int| 0 <= j < s0.ui.windows.len() implies (
                            #[trigger] s0.ui.windows[j]).address == self@.ui.windows[j].address
                                && s0.ui.windows[j].channel == self@.ui.windows[j].channel by {
                                if j != i {
                                    assert(self@.ui.windows[j] == s0.ui.windows[j]);
                                }
                            }
                        }
                        lemma_same_keys(s0.ui.windows, self@.ui.windows);
                    }
                    true
                },
                None => false,
            },
            PostBody::Other => false,
        }
    }

    /// Lists the channels the engine knows for the active cabal.
    pub fn on_channels(&mut self, channels: &Option<Vec<String>>)
        requires
            old(self).wf(),
        ensures
            final(self).wf(),
            final(self)@ == old(self)@.with_ui(final(self)@.ui),
            logged(
                old(self)@.ui,
                final(self)@.ui,
                channels_text(
                    match channels {
                        Some(cs) => Some(strs_view(cs@)),
                        None => None,
                    },
                ),
            ),
    {
        let ghost s0 = self@;
        proof {
            self.ui.lemma_wf();
            lemma_logged_empty(self@.ui);
        }
        match channels {
            None => {
                self.write_status(NO_KNOWN_CHANNELS);
            },
            Some(cs) => {
                let ghost msgs = channels_text(Some(strs_view(cs@)));
                let mut i: usize = 0;
                while i < cs.len()
                    invariant
                        self.wf(),
                        msgs == channels_text(Some(strs_view(cs@))),
                        i <= cs@.len(),
                        self@ == s0.with_ui(self@.ui),
                        logged(s0.ui, self@.ui, msgs.subrange(0, i as int)),
                    decreases cs@.len() - i,
                {
                    let m = concat(CHANNEL_ITEM, cs[i].as_str());
                    proof {
                        assert(m@ == msgs[i as int]);
                    }
                    self.log(m.as_str(), Ghost(s0.ui), Ghost(msgs.subrange(0, i as int)));
                    proof {
                        assert(msgs.subrange(0, i as int).push(m@) =~= msgs.subrange(0, i + 1));
                    }
                    i = i + 1;
                }
                proof {
                    assert(msgs.subrange(0, cs@.len() as int) =~= msgs);
                }
            },
        }
    }

    /// Lists the members of a channel, by name where known.
    pub fn on_members(&mut self, members: &Option<Vec<(PublicKey, Option<String>)>>)
        requires
            old(self).wf(),
        ensures
            final(self).wf(),
            final(self)@ == old(self)@.with_ui(final(self)@.ui),
            members is None ==> logged(old(self)@.ui, final(self)@.ui, seq![NO_KNOWN_MEMBERS@]),
            members matches Some(ms) ==> logged(
                old(self)@.ui,
                final(self)@.ui,
                Seq::new(
                    ms@.len(),
                    |i: int| member_text(ms@[i].0@, crate::ui::text_view(ms@[i].1)),
                ),
            ),
    {
        let ghost s0 = self@;
        proof {
            self.ui.lemma_wf();
            lemma_logged_empty(self@.ui);
        }
        match members {
            None => {
                self.write_status(NO_KNOWN_MEMBERS);
            },
            Some(ms) => {
                let ghost msgs = Seq::new(
                    ms@.len(),
                    |i: int| member_text(ms@[i].0@, crate::ui::text_view(ms@[i].1)),
                );
                let mut i: usize = 0;
                while i < ms.len()
                    invariant
                        self.wf(),
                        msgs == Seq::new(
                            ms@.len(),
                            |i: int| member_text(ms@[i].0@, crate::ui::text_view(ms@[i].1)),
                        ),
                        i <= ms@.len(),
                        self@ == s0.with_ui(self@.ui),
                        logged(s0.ui, self@.ui, msgs.subrange(0, i as int)),
                    decreases ms@.len() - i,
                {
                    let mut m = MEMBER_ITEM.to_owned();
                    match &ms[i].1 {
                        Some(n) => push_str(&mut m, n.as_str()),
                        None => {
                            let h = hex::to(&ms[i].0);
                            push_str(&mut m, h.as_str());
                        },
                    }
                    proof {
                        assert(m@ =~= msgs[i as int]);
                    }
                    self.log(m.as_str(), Ghost(s0.ui), Ghost(msgs.subrange(0, i as int)));
                    proof {
                        assert(msgs.subrange(0, i as int).push(m@) =~= msgs.subrange(0, i + 1));
                    }
                    i = i + 1;
                }
                proof {
                    assert(msgs.subrange(0, ms@.len() as int) =~= msgs);
                }
            },
        }
    }

    /// Shows the local public key in hexadecimal.
    pub fn on_whoami(&mut self, key: &PublicKey)
        requires
            old(self).wf(),
        ensures
            final(self).wf(),
            final(self)@ == old(self)@.with_ui(final(self)@.ui),
            logged(old(self)@.ui, final(self)@.ui, seq![member_text(key@, None)]),
    {
        let mut m = MEMBER_ITEM.to_owned();
        let h = hex::to(key);
        push_str(&mut m, h.as_str());
        self.write_status(m.as_str());
    }

    /// Reports the nickname the engine has set.
    pub fn on_nick_set(&mut self, nick: &String)
        requires
            old(self).wf(),
        ensures
            final(self).wf(),
            final(self)@ == old(self)@.with_ui(final(self)@.ui),
            logged(old(self)@.ui, final(self)@.ui, seq![NICK_SET@ + quoted(nick@)]),
    {
        let mut m = NICK_SET.to_owned();
        push_quoted(&mut m, nick.as_str());
        self.write_status(m.as_str());
    }

    /// Reports the topic the engine has set for a channel.
    pub fn on_topic_set(&mut self, channel: &String, topic: &String)
        requires
            old(self).wf(),
        ensures
            final(self).wf(),
            final(self)@ == old(self)@.with_ui(final(self)@.ui),
            logged(
                old(self)@.ui,
                final(self)@.ui,
                seq![TOPIC_SET@ + quoted(topic@) + FOR_CHANNEL@ + quoted(channel@)],
            ),
    {
        let mut m = TOPIC_SET.to_owned();
        push_quoted(&mut m, topic.as_str());
        push_str(&mut m, FOR_CHANNEL);
        push_quoted(&mut m, channel.as_str());
        self.write_status(m.as_str());
    }

    /// Reports whether the local nickname was found and deleted.
    pub fn on_nick_deleted(&mut self, found: bool)
        requires
            old(self).wf(),
        ensures
            final(self).wf(),
            final(self)@ == old(self)@.with_ui(final(self)@.ui),
            logged(
                old(self)@.ui,
                final(self)@.ui,
                seq![if found { NICK_DELETED@ } else { NO_NICK_FOUND@ }],
            ),
    {
        if found {
            self.write_status(NICK_DELETED);
        } else {
            self.write_status(NO_NICK_FOUND);
        }
    }

    /// Reports a leave that was not carried out: the engine knows no
    /// channels for the cabal.
    pub fn on_leave_unknown(&mut self, channel: &String)
        requires
            old(self).wf(),
        ensures
            final(self).wf(),
            final(self)@ == old(self)@.with_ui(final(self)@.ui),
            logged(
                old(self)@.ui,
                final(self)@.ui,
                seq![NOT_A_MEMBER@ + channel@ + NO_ACTION_TAKEN@],
            ),
    {
        let mut m = NOT_A_MEMBER.to_owned();
        push_str(&mut m, channel.as_str());
        push_str(&mut m, NO_ACTION_TAKEN);
        self.write_status(m.as_str());
    }

    /// Records a connection made, or a listener bound (once), and reports
    /// it.
    pub fn on_connection(&mut self, c: Connection)
        requires
            old(self).wf(),
        ensures
            final(self).wf(),
            final(self)@ == with_connection(old(self)@, c@).with_ui(final(self)@.ui),
            logged(old(self)@.ui, final(self)@.ui, seq![connection_text(c@)]),
    {
        let m = match &c {
            Connection::Connected(a) => concat(CONNECTED_TO, a.as_str()),
            Connection::Listening(a) => concat(LISTENING_ON, a.as_str()),
        };
        let ghost cv = c@;
        self.record_connection(c);
        self.write_status(m.as_str());
        proof {
            assert(m@ == connection_text(cv));
        }
    }

    /// Whether joining a channel must first announce membership: when the
    /// local peer has a key pair (`member` is known) and is not a member.
    pub fn announce_join(member: Option<bool>) -> (r: bool)
        ensures
            r == (member == Some(false)),
    {
        match member {
            Some(m) => !m,
            None => false,
        }
    }

    /// Whether leaving a channel must announce leaving: when the local peer
    /// has a key pair (`member` is known) and is a member.
    pub fn announce_leave(member: Option<bool>) -> (r: bool)
        ensures
            r == (member == Some(true)),
    {
        match member {
            Some(m) => m,
            None => false,
        }
    }

    /// Decides a leave from the channels the engine knows for the cabal:
    /// go on only when they include `channel`. When the engine knows no
    /// channels at all, that is reported; a channel it does not know is
    /// left alone silently.
    pub fn leave_known(&mut self, channels: &Option<Vec<String>>, channel: &String) -> (r: bool)
        requires
            old(self).wf(),
        ensures
            final(self).wf(),
            channels matches Some(cs) ==> final(self)@ == old(self)@ && r == strs_view(cs@).contains(
                channel@,
            ),
            channels is None ==> !r && final(self)@ == old(self)@.with_ui(final(self)@.ui) && logged(
                old(self)@.ui,
                final(self)@.ui,
                seq![NOT_A_MEMBER@ + channel@ + NO_ACTION_TAKEN@],
            ),
    {
        match channels {
            None => {
                self.on_leave_unknown(channel);
                false
            },
            Some(cs) => {
                let mut i: usize = 0;
                while i < cs.len()
                    invariant
                        self == old(self),
                        self.wf(),
                        *channels == Some::<Vec<String>>(*cs),
                        i <= cs@.len(),
                        forall|j: int| 0 <= j < i ==> strs_view(cs@)[j] != channel@,
                    decreases cs@.len() - i,
                {
                    if cs[i] == *channel {
                        assert(strs_view(cs@)[i as int] == channel@);
                        assert(strs_view(cs@).contains(channel@));
                        return true;
                    }
                    i = i + 1;
                }
                false
            },
        }
    }

    fn is_registered(&self, addr: &Addr) -> (r: bool)
        ensures
            r == self@.cables.contains(addr@),
    {
        let mut i: usize = 0;
        while i < self.cables.len()
            invariant
                i <= self@.cables.len(),
                forall|j: int| 0 <= j < i ==> self@.cables[j] != addr@,
            decreases self@.cables.len() - i,
        {
            if same_bytes(&self.cables[i], addr) {
                assert(self@.cables[i as int] == addr@);
                return true;
            }
            i = i + 1;
        }
        false
    }

    /// Registers the cabal at `addr`; gives whether it was new.
    pub fn add_cable(&mut self, addr: &Addr) -> (r: bool)
        requires
            old(self).wf(),
        ensures
            final(self).wf(),
            r == !old(self)@.cables.contains(addr@),
            r ==> final(self)@ == (AppView { cables: old(self)@.cables.push(addr@), ..old(self)@ }),
            !r ==> final(self)@ == old(self)@,
    {
        if self.is_registered(addr) {
            return false;
        }
        self.cables.push(addr.clone());
        proof {
            assert(self@.cables =~= old(self)@.cables.push(addr@));
        }
        true
    }

    /// The active cabal address, when a cabal is registered under it.
    pub fn get_active_cable(&self) -> (r: Option<Addr>)
        ensures
            r matches Some(a) ==> self@.active_cable() == Some(a@),
            r is None ==> self@.active_cable() is None,
    {
        match self.ui.get_active_address() {
            Some(a) => if self.is_registered(a) {
                Some(a.clone())
            } else {
                None
            },
            None => None,
        }
    }
}

} // verus!
