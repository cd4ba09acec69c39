use cabin::app::{Action, App, Connection, Post, PostBody};
use cabin::input::InputEvent;
use cabin::time::TimeError;

fn status(app: &App) -> Vec<String> {
    app.ui().windows()[0].lines().iter().map(|l| l.text.clone()).collect()
}

/// Types `bytes`, runs each submitted line, and joins channels as the
/// engine would once a join is announced.
fn type_lines(app: &mut App, bytes: &[u8]) -> Vec<Action> {
    let mut out = vec![];
    for b in bytes {
        app.putc(*b);
        while let Some(e) = app.next_event() {
            if let InputEvent::Line(line) = e {
                for a in app.handle(&line) {
                    if let Action::Join { address, channel } = &a {
                        app.open_channel(address, channel);
                    }
                    out.push(a);
                }
            }
        }
    }
    out
}

fn add_cabal(app: &mut App) -> Vec<u8> {
    type_lines(app, b"/cabal add ab12\r");
    vec![0xab, 0x12]
}

#[test]
fn end_to_end_add_join_post() {
    let mut app = App::new((80, 24));
    let acts = type_lines(&mut app, b"/cabal add ab12\r/join test\rhello world\r");
    assert_eq!(app.cables(), &vec![vec![0xab, 0x12]]);
    assert_eq!(acts.len(), 3);
    match &acts[0] {
        Action::AddCable { address, storage } => {
            assert_eq!(address, &vec![0xab, 0x12]);
            assert_eq!(storage, "ab12");
        }
        a => panic!("unexpected {:?}", a),
    }
    match &acts[1] {
        Action::Join { address, channel } => {
            assert_eq!(address, &vec![0xab, 0x12]);
            assert_eq!(channel, "test");
        }
        a => panic!("unexpected {:?}", a),
    }
    match &acts[2] {
        Action::PostText { address, channel, text } => {
            assert_eq!(address, &vec![0xab, 0x12]);
            assert_eq!(channel, "test");
            assert_eq!(text, "hello world");
        }
        a => panic!("unexpected {:?}", a),
    }
    assert_eq!(app.ui().windows().len(), 2);
    assert_eq!(app.ui().windows()[1].channel, "test");
    assert_eq!(app.ui().get_active_index(), 1);
    assert_eq!(
        status(&app),
        vec![
            "/cabal add ab12".to_string(),
            "added cabal: ab12".to_string(),
            "set active cabal to ab12".to_string(),
            "/join test".to_string(),
            "joined channel test".to_string(),
            "hello world".to_string(),
        ]
    );
}

#[test]
fn cabal_commands_report_usage_and_errors() {
    let mut app = App::new((80, 24));
    let acts = type_lines(&mut app, b"/cabal add\r/cabal add xyz\r/cabal set\r/cabal list\r");
    assert!(acts.is_empty());
    assert_eq!(
        status(&app),
        vec![
            "/cabal add",
            "usage: /cabal add ADDR",
            "/cabal add xyz",
            "invalid cabal address: xyz",
            "/cabal set",
            "usage: /cabal set ADDR",
            "/cabal list",
            "{ no cabals in list }",
        ]
    );
}

#[test]
fn a_second_cabal_does_not_take_over_and_list_marks_the_active_one() {
    let mut app = App::new((80, 24));
    let acts = type_lines(&mut app, b"/cabal add 01\r/cabal add 02\r/cabal add 01\r/cabal list\r");
    assert_eq!(acts.len(), 2);
    assert_eq!(app.get_active_address(), Some(vec![1]));
    let s = status(&app);
    assert_eq!(&s[s.len() - 2..], &["1*".to_string(), "2".to_string()]);
    type_lines(&mut app, b"/cabal set 02\r");
    assert_eq!(app.get_active_address(), Some(vec![2]));
}

#[test]
fn commands_need_an_active_cabal() {
    let mut app = App::new((80, 24));
    let acts = type_lines(&mut app, b"/join x\r/leave x\r/connect h:1\r/listen 1\r/channels\r/whoami\r/nick n\r/members\r/delete nick\r/topic t\r");
    assert!(acts.is_empty());
    let s = status(&app);
    assert!(s.contains(&"cannot join channel with no active cabal set. add a cabal with \"/cabal add\" first".to_string()));
    assert!(s.contains(&"cannot leave channel with no active cabal set. add a cabal with \"/cabal add\" first".to_string()));
    assert!(s.contains(&"no active cabal to bind this connection. use \"/cabal add\" first".to_string()));
    assert!(s.contains(&"cannot list channels with no active cabal set. add a cabal with \"/cabal add\" first".to_string()));
    assert!(s.contains(&"cannot list the local public key with no active cabal set. add a cabal with \"/cabal add\" first".to_string()));
    assert!(s.contains(&"cannot assign nickname with no active cabal set. add a cabal with \"/cabal add\" first".to_string()));
    assert!(s.contains(&"cannot list channel members with no active cabal set. add a cabal with \"/cabal add\" first".to_string()));
    assert!(s.contains(&"cannot delete nickname with no active cabal set. add a cabal with \"/cabal add\" first".to_string()));
    // Every line is echoed; /topic without a cabal says nothing more.
    assert!(s.contains(&"/join x".to_string()));
    assert!(s.contains(&"/leave x".to_string()));
    assert_eq!(s.last(), Some(&"/topic t".to_string()));
}

#[test]
fn connections_are_recorded_once_made() {
    let mut app = App::new((80, 24));
    let addr = add_cabal(&mut app);
    let acts = type_lines(&mut app, b"/connect h:1\r/listen 9000\r/listen 1.2.3.4:5\r/connect\r/listen\r");
    assert_eq!(acts.len(), 3);
    match &acts[1] {
        Action::Listen { address, tcp_addr } => {
            assert_eq!(address, &addr);
            assert_eq!(tcp_addr, "0.0.0.0:9000");
        }
        a => panic!("unexpected {:?}", a),
    }
    // Nothing is recorded until the engine reports success.
    assert_eq!(app.connections().len(), 0);
    let s = status(&app);
    assert!(s.contains(&"usage: /connect HOST:PORT".to_string()));
    assert!(s.contains(&"usage: /listen (ADDR:)PORT".to_string()));
    app.on_connection(Connection::Connected("h:1".to_string()));
    assert_eq!(status(&app).last(), Some(&"connected to h:1".to_string()));
    app.on_connection(Connection::Connected("h:1".to_string()));
    app.on_connection(Connection::Listening("0.0.0.0:9000".to_string()));
    assert_eq!(app.connections().len(), 2);
    type_lines(&mut app, b"/connections\r");
    let s = status(&app);
    assert_eq!(&s[s.len() - 2..], &["connected to h:1".to_string(), "listening on 0.0.0.0:9000".to_string()]);
}

#[test]
fn engine_decisions_for_join_and_leave() {
    assert!(App::announce_join(Some(false)));
    assert!(!App::announce_join(Some(true)));
    assert!(!App::announce_join(None));
    assert!(App::announce_leave(Some(true)));
    assert!(!App::announce_leave(Some(false)));
    assert!(!App::announce_leave(None));
    let mut app = App::new((80, 24));
    let c = "room".to_string();
    assert!(app.leave_known(&Some(vec!["a".to_string(), "room".to_string()]), &c));
    assert!(!app.leave_known(&Some(vec!["a".to_string()]), &c));
    assert!(status(&app).is_empty());
    assert!(!app.leave_known(&None, &c));
    assert_eq!(status(&app), vec!["not currently a member of channel room; no action taken"]);
}

#[test]
fn no_connections_are_listed_as_none() {
    let mut app = App::new((80, 24));
    type_lines(&mut app, b"/connections\r");
    assert_eq!(status(&app), vec!["/connections", "{ no connections in list }"]);
}

#[test]
fn joining_twice_reuses_the_window_and_subscribes_once() {
    let mut app = App::new((80, 24));
    let addr = add_cabal(&mut app);
    let chan = "test".to_string();
    let first = app.open_channel(&addr, &chan).unwrap();
    assert_eq!(first.channel, "test");
    assert_eq!(first.time_end, 0);
    assert_eq!(first.limit, 4096);
    let index = app.ui().get_active_index();
    type_lines(&mut app, b"/win 0\r");
    assert_eq!(app.ui().get_active_index(), 0);
    assert!(app.open_channel(&addr, &chan).is_none());
    assert_eq!(app.ui().get_active_index(), index);
    assert_eq!(app.ui().windows().len(), 2);
    let joined = status(&app).iter().filter(|l| *l == "joined channel test").count();
    assert_eq!(joined, 1);
}

fn text_post(channel: &str, text: &str, ts: u64) -> Post {
    Post {
        timestamp: ts,
        author: [3u8; 32],
        nickname: None,
        body: PostBody::Text { channel: channel.to_string(), text: text.to_string() },
    }
}

#[test]
fn posts_reach_the_window_of_their_subscription() {
    let mut app = App::new((80, 24));
    let addr = add_cabal(&mut app);
    let sub = app.open_channel(&addr, &"test".to_string()).unwrap();
    assert!(app.deliver(sub.token, text_post("test", "one", 5)));
    assert!(app.deliver(sub.token, text_post("test", "two", 1)));
    assert!(!app.deliver(sub.token, text_post("elsewhere", "x", 1)));
    assert!(!app.deliver(sub.token + 100, text_post("test", "x", 1)));
    let topic = Post {
        timestamp: 9,
        author: [3u8; 32],
        nickname: Some("n".to_string()),
        body: PostBody::Topic { channel: "test".to_string(), topic: "about".to_string() },
    };
    assert!(app.deliver(sub.token, topic));
    let other = Post { timestamp: 9, author: [3u8; 32], nickname: None, body: PostBody::Other };
    assert!(!app.deliver(sub.token, other));
    let w = &app.ui().windows()[1];
    let texts: Vec<String> = w.lines().iter().map(|l| l.text.clone()).collect();
    assert_eq!(texts, vec!["one", "two"]);
    assert_eq!(w.topic, "about");
}

#[test]
fn leaving_then_rejoining_drops_the_old_subscription() {
    let mut app = App::new((80, 24));
    let addr = add_cabal(&mut app);
    let chan = "test".to_string();
    let old = app.open_channel(&addr, &chan).unwrap();
    assert!(app.deliver(old.token, text_post("test", "before", 1)));
    let acts = type_lines(&mut app, b"/leave test\r");
    match &acts[0] {
        Action::Leave { address, channel } => {
            assert_eq!(address, &addr);
            assert_eq!(channel, "test");
        }
        a => panic!("unexpected {:?}", a),
    }
    assert_eq!(app.leave_channel(&addr, &chan), Some(old.token));
    assert_eq!(app.ui().windows().len(), 1);
    assert_eq!(app.ui().get_active_index(), 0);
    assert_eq!(status(&app).last(), Some(&"left channel test".to_string()));
    let new = app.open_channel(&addr, &chan).unwrap();
    assert_ne!(new.token, old.token);
    // The old stream still sends: nothing shows.
    assert!(!app.deliver(old.token, text_post("test", "before", 1)));
    assert!(app.deliver(new.token, text_post("test", "after", 2)));
    let texts: Vec<String> =
        app.ui().windows()[1].lines().iter().map(|l| l.text.clone()).collect();
    assert_eq!(texts, vec!["after"]);
    assert_eq!(app.leave_channel(&addr, &"nothing".to_string()), None);
}

#[test]
fn posting_from_the_status_window_is_refused() {
    let mut app = App::new((80, 24));
    let acts = type_lines(&mut app, b"hello\r");
    assert!(acts.is_empty());
    assert_eq!(status(&app), vec!["hello", "can't post text in status channel. see /help for command list"]);
}

#[test]
fn trailing_white_space_is_trimmed_from_posts() {
    let mut app = App::new((80, 24));
    let addr = add_cabal(&mut app);
    app.open_channel(&addr, &"c".to_string());
    let acts = app.handle("  hi there \t ");
    match &acts[0] {
        Action::PostText { text, .. } => assert_eq!(text, "  hi there"),
        a => panic!("unexpected {:?}", a),
    }
}

#[test]
fn window_switching() {
    let mut app = App::new((80, 24));
    let addr = add_cabal(&mut app);
    app.open_channel(&addr, &"a".to_string());
    app.open_channel(&addr, &"b".to_string());
    type_lines(&mut app, b"/w 1\r");
    assert_eq!(app.ui().get_active_index(), 1);
    type_lines(&mut app, b"/win 99\r");
    assert_eq!(app.ui().get_active_index(), 2);
    type_lines(&mut app, b"/win x\r/win\r");
    let s = status(&app);
    assert_eq!(
        &s[s.len() - 4..],
        &["/win x", "window index must be a number", "/win", "usage: /win INDEX"]
    );
}

#[test]
fn topic_members_nick_whoami_and_delete() {
    let mut app = App::new((80, 24));
    let addr = add_cabal(&mut app);
    let acts = type_lines(&mut app, b"/topic a b\r/members\r/whoami\r/nick me\r/delete nick\r/delete\r/channels\r");
    assert_eq!(acts.len(), 4);
    assert!(matches!(&acts[0], Action::Whoami { .. }));
    assert!(matches!(&acts[1], Action::SetNick { nick, .. } if nick == "me"));
    assert!(matches!(&acts[2], Action::DeleteNick { .. }));
    assert!(matches!(&acts[3], Action::ListChannels { .. }));
    let s = status(&app);
    assert!(s.contains(&"topic cannot be set for !status window".to_string()));
    assert!(s.contains(&"usage: /delete nick".to_string()));
    app.open_channel(&addr, &"room".to_string());
    let acts = type_lines(&mut app, b"/topic  big   news \r/members\r/members other\r");
    match &acts[0] {
        Action::SetTopic { channel, topic, .. } => {
            assert_eq!(channel, "room");
            assert_eq!(topic, "big news");
        }
        a => panic!("unexpected {:?}", a),
    }
    assert!(matches!(&acts[1], Action::ListMembers { channel, .. } if channel == "room"));
    assert!(matches!(&acts[2], Action::ListMembers { channel, .. } if channel == "other"));
    app.on_topic_set(&"room".to_string(), &"big \"news\"".to_string());
    assert_eq!(status(&app).last(), Some(&"topic set to \"big \\\"news\\\"\" for channel \"room\"".to_string()));
    app.on_nick_set(&"me".to_string());
    assert_eq!(status(&app).last(), Some(&"nickname set to \"me\"".to_string()));
    let mut key = [0u8; 32];
    key[0] = 0xab;
    app.on_members(&Some(vec![(key, Some("ann".to_string())), ([1u8; 32], None)]));
    let s = status(&app);
    assert_eq!(s[s.len() - 2], "  ann");
    assert_eq!(s[s.len() - 1], format!("  {}", "1".repeat(32)));
    app.on_members(&None);
    assert_eq!(status(&app).last(), Some(&"{ no known channel members for the active cabal and channel }".to_string()));
    app.on_whoami(&key);
    assert_eq!(status(&app).last(), Some(&format!("  ab{}", "0".repeat(31))));
    app.on_nick_deleted(true);
    assert_eq!(status(&app).last(), Some(&"deleted most recent nickname".to_string()));
    app.on_nick_deleted(false);
    assert_eq!(status(&app).last(), Some(&"no nickname found for the local peer".to_string()));
    app.on_channels(&Some(vec!["x".to_string(), "y".to_string()]));
    let s = status(&app);
    assert_eq!(&s[s.len() - 2..], &["- x".to_string(), "- y".to_string()]);
    app.on_channels(&None);
    assert_eq!(status(&app).last(), Some(&"{ no known channels for the active cabal }".to_string()));
    app.on_leave_unknown(&"room".to_string());
    assert_eq!(status(&app).last(), Some(&"not currently a member of channel room; no action taken".to_string()));
}

#[test]
fn help_unknown_and_quit() {
    let mut app = App::new((80, 24));
    type_lines(&mut app, b"/help\r");
    let s = status(&app);
    assert_eq!(s.len(), 35);
    assert_eq!(s[1], "/cabal add ADDR");
    assert_eq!(s[34], "  exit the cabal process (shorthand: /q)");
    type_lines(&mut app, b"/bogus 1\r");
    let s = status(&app);
    assert_eq!(&s[s.len() - 2..], &["/bogus 1".to_string(), "no such command: /bogus".to_string()]);
    assert!(!app.is_exit());
    type_lines(&mut app, b"   \r");
    assert_eq!(status(&app).len(), 37);
    type_lines(&mut app, b"/q\r");
    assert!(app.is_exit());
}

#[test]
fn app_renders_and_resizes() {
    let mut app = App::new((40, 6));
    let out = app.update();
    assert!(out.starts_with("\x1bc\x1b[?25l"));
    app.resize((30, 4));
    assert_eq!(app.ui().get_size(), (30, 4));
    assert_eq!(app.finish(), "\x1bc");
}

#[test]
fn a_post_read_twice_shows_once() {
    let mut app = App::new((80, 24));
    let addr = add_cabal(&mut app);
    let sub = app.open_channel(&addr, &"test".to_string()).unwrap();
    assert!(app.deliver(sub.token, text_post("test", "same", 7)));
    assert!(!app.deliver(sub.token, text_post("test", "same", 7)));
    assert!(app.deliver(sub.token, text_post("test", "same", 8)));
    let texts: Vec<String> =
        app.ui().windows()[1].lines().iter().map(|l| l.text.clone()).collect();
    assert_eq!(texts, vec!["same", "same"]);
}

#[test]
fn adding_a_cabal_keeps_an_active_address_set_before() {
    let mut app = App::new((80, 24));
    type_lines(&mut app, b"/cabal set 05\r/cabal add 06\r");
    assert_eq!(app.get_active_address(), Some(vec![5]));
    assert_eq!(app.cables(), &vec![vec![6]]);
    let s = status(&app);
    assert_eq!(s.last(), Some(&"added cabal: 06".to_string()));
}

#[test]
fn subscriptions_ask_for_two_weeks_of_posts() {
    let mut app = App::new((80, 24));
    let addr = add_cabal(&mut app);
    let a = app.open_channel_at(&addr, &"a".to_string(), Ok(2_000_000_000_000)).unwrap();
    assert_eq!(a.time_start, 2_000_000_000_000 - 1_209_600_000);
    let b = app.open_channel_at(&addr, &"b".to_string(), Err(TimeError::BeforeEpoch)).unwrap();
    assert_eq!(b.time_start, 0);
    let c = app.open_channel_at(&addr, &"c".to_string(), Ok(5)).unwrap();
    assert_eq!(c.time_start, 0);
    let d = app.open_channel(&addr, &"d".to_string()).unwrap();
    assert!(d.time_start > 0);
}

#[test]
fn quoted_names_escape_control_characters() {
    let mut app = App::new((80, 24));
    app.on_nick_set(&"a\x1bb\0c\u{85}\"".to_string());
    assert_eq!(
        status(&app).last(),
        Some(&"nickname set to \"a\\u{1b}b\\0c\\u{85}\\\"\"".to_string())
    );
    assert_eq!(
        format!("{:?}", "a\x1bb\0c\u{85}\""),
        "\"a\\u{1b}b\\0c\\u{85}\\\"\""
    );
}
