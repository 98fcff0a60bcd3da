use chat_rs::message::{parse_line, RoutedMessage};
use chat_rs::payload::{format_text, Message, Recipient, UserId};
use chat_rs::registry::Registry;
use chat_rs::router::{DisconnectOutcome, Router};
use chat_rs::session::{LineAction, Session};
use chat_rs::text::{is_space_char, trim_str};
use chat_rs::writer::{Writer, WriterAction, WriterEvent};

fn s(x: &str) -> String {
    x.to_string()
}

fn routed(from: &str, line: &str) -> RoutedMessage {
    parse_line(&s(from), line).expect("a command line")
}

#[test]
fn trim_removes_unicode_space_at_both_ends() {
    assert_eq!(trim_str("  a b \t\n"), "a b");
    assert_eq!(trim_str("\u{3000}x\u{a0}"), "x");
    assert_eq!(trim_str("   "), "");
    assert_eq!(trim_str(""), "");
    assert_eq!(trim_str("abc"), "abc");
}

#[test]
fn space_test_matches_std() {
    for c in ['\t', '\n', ' ', '\u{85}', '\u{a0}', '\u{2003}', '\u{3000}', 'a', ':', ',', '\u{200b}'] {
        assert_eq!(is_space_char(c), c.is_whitespace(), "{c:?}");
    }
}

#[test]
fn parse_single_destination() {
    let m = routed("bob", "alice:hello");
    assert_eq!(m.from, "bob");
    assert_eq!(m.to, vec![s("alice")]);
    assert_eq!(m.body, "hello");
}

#[test]
fn parse_trims_destinations_and_body() {
    let m = routed("bob", " alice , carol ,dave:   hi there  ");
    assert_eq!(m.to, vec![s("alice"), s("carol"), s("dave")]);
    assert_eq!(m.body, "hi there");
}

#[test]
fn parse_splits_at_first_colon_only() {
    let m = routed("bob", "alice:time: 12:30");
    assert_eq!(m.to, vec![s("alice")]);
    assert_eq!(m.body, "time: 12:30");
}

#[test]
fn parse_keeps_empty_and_repeated_pieces() {
    let m = routed("bob", "alice,,alice:x");
    assert_eq!(m.to, vec![s("alice"), s(""), s("alice")]);
    let m = routed("bob", ":only body");
    assert_eq!(m.to, vec![s("")]);
    assert_eq!(m.body, "only body");
}

#[test]
fn line_without_colon_is_no_command() {
    assert!(parse_line(&s("bob"), "hello there").is_none());
    assert!(parse_line(&s("bob"), "").is_none());
}

#[test]
fn delivered_text_format() {
    assert_eq!(format_text("bob", "hello"), "from bob: hello\n");
    assert_eq!(format_text("", ""), "from : \n");
}

#[test]
fn direct_message_fields() {
    let m = Message::direct(&s("bob"), &s("alice"), &s("hi"));
    assert_eq!(m.from, UserId(s("bob")));
    assert_eq!(m.to, Recipient::User(UserId(s("alice"))));
    assert_eq!(m.text, Some(s("from bob: hi\n")));
    assert_eq!(m.media, None);
}

#[test]
fn registry_insert_find_remove() {
    let mut r: Registry<u32> = Registry::new();
    assert_eq!(r.len(), 0);
    r.insert(s("alice"), 1);
    r.insert(s("bob"), 2);
    assert_eq!(r.len(), 2);
    assert!(r.contains(&s("bob")));
    let slot = r.find(&s("bob")).unwrap();
    assert_eq!(*r.handle(slot), 2);
    assert_eq!(r.remove(&s("alice")), Some(1));
    assert_eq!(r.remove(&s("alice")), None);
    assert_eq!(r.len(), 1);
    assert_eq!(*r.handle(r.find(&s("bob")).unwrap()), 2);
    let names = r.take_names();
    assert_eq!(names, vec![s("bob")]);
    assert_eq!(r.len(), 0);
}

#[test]
fn registry_size_counts_registered_minus_disconnected() {
    let mut r: Router<u32> = Router::new();
    assert!(r.register(s("a"), 1));
    assert!(r.register(s("b"), 2));
    assert!(r.register(s("c"), 3));
    assert_eq!(r.len(), 3);
    assert_eq!(r.disconnect(&s("b")), DisconnectOutcome::Removed);
    assert_eq!(r.len(), 2);
    assert!(r.register(s("b"), 4));
    assert_eq!(r.len(), 3);
}

#[test]
fn second_registration_keeps_first_mailbox() {
    let mut r: Router<u32> = Router::new();
    assert!(r.register(s("alice"), 1));
    assert!(!r.register(s("alice"), 2));
    assert_eq!(r.len(), 1);
    let d = r.route(&routed("bob", "alice:hi"));
    assert_eq!(d.len(), 1);
    assert_eq!(*r.handle(d[0].slot), 1);
}

#[test]
fn one_delivery_to_registered_peer() {
    let mut r: Router<u32> = Router::new();
    r.register(s("bob"), 7);
    r.register(s("alice"), 9);
    let d = r.route(&routed("bob", "alice:hello"));
    assert_eq!(d.len(), 1);
    assert_eq!(*r.handle(d[0].slot), 9);
    assert_eq!(d[0].message.from, UserId(s("bob")));
    assert_eq!(d[0].message.to, Recipient::User(UserId(s("alice"))));
    assert_eq!(d[0].message.text, Some(s("from bob: hello\n")));
    assert_eq!(d[0].message.media, None);
}

#[test]
fn duplicate_destination_delivers_twice() {
    let mut r: Router<u32> = Router::new();
    r.register(s("alice"), 9);
    let d = r.route(&routed("bob", "alice,alice:hi"));
    assert_eq!(d.len(), 2);
    for x in &d {
        assert_eq!(*r.handle(x.slot), 9);
        assert_eq!(x.message.text, Some(s("from bob: hi\n")));
    }
}

#[test]
fn unregistered_destination_delivers_nothing() {
    let mut r: Router<u32> = Router::new();
    r.register(s("bob"), 1);
    let d = r.route(&routed("bob", "nobody:hi"));
    assert!(d.is_empty());
    let d = r.route(&routed("bob", "nobody, bob ,ghost:hi"));
    assert_eq!(d.len(), 1);
    assert_eq!(*r.handle(d[0].slot), 1);
}

#[test]
fn disconnected_peer_is_no_longer_delivered_to() {
    let mut r: Router<u32> = Router::new();
    r.register(s("alice"), 1);
    r.register(s("bob"), 2);
    let mut w = Writer::new();
    assert!(matches!(w.on_event(WriterEvent::Item(vec![1])), WriterAction::Write(b) if b == vec![1]));
    assert!(matches!(w.on_event(WriterEvent::WriteFailed), WriterAction::Report));
    assert_eq!(r.disconnect(&s("alice")), DisconnectOutcome::Removed);
    assert!(!r.contains(&s("alice")));
    assert!(r.route(&routed("bob", "alice:still there?")).is_empty());
}

#[test]
fn unknown_notice_while_open() {
    let mut r: Router<u32> = Router::new();
    r.register(s("alice"), 1);
    assert_eq!(r.disconnect(&s("zed")), DisconnectOutcome::Unknown);
    assert_eq!(r.len(), 1);
}

#[test]
fn shutdown_waits_for_every_writer() {
    let mut r: Router<u32> = Router::new();
    r.register(s("a"), 1);
    r.register(s("b"), 2);
    r.register(s("c"), 3);
    r.close();
    assert!(!r.is_open());
    assert_eq!(r.len(), 0);
    assert!(!r.is_drained());
    assert!(r.route(&routed("x", "a,b,c:late")).is_empty());
    assert_eq!(r.disconnect(&s("b")), DisconnectOutcome::Drained);
    assert!(!r.is_drained());
    assert_eq!(r.disconnect(&s("b")), DisconnectOutcome::Unknown);
    assert_eq!(r.disconnect(&s("c")), DisconnectOutcome::Drained);
    assert!(!r.is_drained());
    assert_eq!(r.disconnect(&s("a")), DisconnectOutcome::Drained);
    assert!(r.is_drained());
}

#[test]
fn shutdown_with_no_peers_is_drained_at_once() {
    let mut r: Router<u32> = Router::new();
    assert!(!r.is_drained());
    r.close();
    assert!(r.is_drained());
}

#[test]
fn same_line_twice_delivers_twice() {
    let mut r: Router<u32> = Router::new();
    r.register(s("alice"), 1);
    let m = routed("bob", "alice:again");
    let first = r.route(&m);
    let second = r.route(&m);
    assert_eq!(first.len(), 1);
    assert_eq!(second.len(), 1);
    assert_eq!(first[0].message, second[0].message);
}

#[test]
fn deliveries_follow_listed_order() {
    let mut r: Router<u32> = Router::new();
    r.register(s("a"), 1);
    r.register(s("b"), 2);
    let d = r.route(&routed("x", "b,a,b:m"));
    let handles: Vec<u32> = d.iter().map(|x| *r.handle(x.slot)).collect();
    assert_eq!(handles, vec![2, 1, 2]);
}

#[test]
fn session_registers_then_forwards() {
    let mut sn = Session::new();
    assert!(sn.name().is_none());
    match sn.on_line(s(" bob ")) {
        LineAction::Register(n) => assert_eq!(n, " bob "),
        _ => panic!("first line registers"),
    }
    assert_eq!(sn.name(), Some(s(" bob ")));
    match sn.on_line(s("alice: hi")) {
        LineAction::Forward(m) => {
            assert_eq!(m.from, " bob ");
            assert_eq!(m.to, vec![s("alice")]);
            assert_eq!(m.body, "hi");
        }
        _ => panic!("command line forwards"),
    }
    assert!(matches!(sn.on_line(s("no colon here")), LineAction::Skip));
}

#[test]
fn writer_reports_exactly_once() {
    for end in [WriterEvent::MailboxClosed, WriterEvent::ShutdownClosed, WriterEvent::WriteFailed] {
        let mut w = Writer::new();
        assert!(w.is_running());
        assert!(matches!(w.on_event(end), WriterAction::Report));
        assert!(!w.is_running());
        assert!(matches!(w.on_event(WriterEvent::MailboxClosed), WriterAction::Idle));
        assert!(matches!(w.on_event(WriterEvent::Item(vec![1, 2])), WriterAction::Idle));
    }
}
