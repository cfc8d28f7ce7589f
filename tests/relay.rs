use std::cell::RefCell;

use chat_relay::frame::{decode, encode, FrameError};
use chat_relay::listener::Listener;
use chat_relay::registry::Registry;
use chat_relay::session::{process_command, format_chat_line, Outcome, ReadEvent, Step, User};

const WIDTH: usize = 255;

fn frame(text: &str) -> Vec<u8> {
    encode(text, WIDTH).unwrap()
}

fn send(user: &mut User, text: &str) -> Step {
    user.on_read(ReadEvent::Data(frame(text)), ':')
}

fn broadcast_line(step: Step) -> String {
    match step {
        Step::Broadcast(line) => line,
        Step::Continue => panic!("expected a broadcast, got continue"),
        Step::Close => panic!("expected a broadcast, got close"),
    }
}

/// Delivers `line` to every registered inbox, as the broadcaster does.
fn deliver(registry: &mut Registry<usize>, inboxes: &mut Vec<Vec<String>>, line: &str) {
    let bytes = encode(line, WIDTH).unwrap();
    let boxes = RefCell::new(std::mem::take(inboxes));
    let delivered = registry.fan_out(|inbox| {
        boxes.borrow_mut()[*inbox].push(decode(&bytes).unwrap());
        true
    });
    assert!(delivered.iter().all(|d| *d));
    *inboxes = boxes.into_inner();
}

#[test]
fn encode_pads_with_zeros() {
    assert_eq!(encode("hi", 5), Ok(vec![104, 105, 0, 0, 0]));
}

#[test]
fn encode_rejects_text_as_long_as_the_frame() {
    assert_eq!(encode("hello", 5), Err(FrameError::FrameTooLarge));
    assert_eq!(encode("hell", 5).map(|f| f.len()), Ok(5));
}

#[test]
fn encode_counts_bytes_not_chars() {
    // "é" takes two bytes
    assert_eq!(encode("éé", 4), Err(FrameError::FrameTooLarge));
    assert_eq!(encode("éé", 5), Ok(vec![0xc3, 0xa9, 0xc3, 0xa9, 0]));
}

#[test]
fn decode_round_trips_encode() {
    for text in ["", "hello", "héllo wörld", "日本語", "a b  c"] {
        assert_eq!(decode(&encode(text, WIDTH).unwrap()), Ok(text.to_string()));
    }
}

#[test]
fn decode_drops_every_zero_byte() {
    assert_eq!(decode(&[104, 0, 105, 0, 0]), Ok("hi".to_string()));
}

#[test]
fn decode_rejects_invalid_utf8() {
    assert_eq!(decode(&[0xff, 0x41, 0]), Err(FrameError::InvalidEncoding));
}

#[test]
fn name_then_chat_broadcasts_to_every_session() {
    let mut registry: Registry<usize> = Registry::new();
    let mut inboxes: Vec<Vec<String>> = vec![Vec::new(), Vec::new()];
    let mut a = User::from(1, "10.0.0.1:1111".to_string());
    let b = User::from(2, "10.0.0.2:2222".to_string());
    assert!(registry.add(a.id, 0));
    assert!(registry.add(b.id, 1));

    assert!(matches!(send(&mut a, ":name Alice"), Step::Continue));
    let line = broadcast_line(send(&mut a, "hi"));
    assert_eq!(line, "Alice: hi");
    deliver(&mut registry, &mut inboxes, &line);
    assert_eq!(inboxes[0], vec!["Alice: hi".to_string()]);
    assert_eq!(inboxes[1], vec!["Alice: hi".to_string()]);
}

#[test]
fn name_without_argument_reverts_to_address() {
    let mut a = User::from(1, "10.0.0.1:1111".to_string());
    send(&mut a, ":name Alice");
    assert_eq!(a.get_display_name(), "Alice");
    assert!(matches!(send(&mut a, ":name"), Step::Continue));
    assert_eq!(a.get_display_name(), "10.0.0.1:1111");
    assert_eq!(broadcast_line(send(&mut a, "hi")), "10.0.0.1:1111: hi");
}

#[test]
fn name_joins_arguments_with_single_spaces() {
    let mut a = User::from(1, "10.0.0.1:1111".to_string());
    send(&mut a, ":name   Bob    the  Builder ");
    assert_eq!(a.get_display_name(), "Bob the Builder");
}

#[test]
fn quit_closes_and_leaves_the_registry() {
    let mut registry: Registry<usize> = Registry::new();
    let mut a = User::from(7, "10.0.0.1:1111".to_string());
    registry.add(a.id, 0);
    assert!(matches!(send(&mut a, ":quit"), Step::Close));
    assert!(!a.is_active);
    assert!(registry.remove(a.id));
    assert!(!registry.contains(a.id));
    assert_eq!(registry.len(), 0);
    // nothing more of it is broadcast
    assert!(matches!(send(&mut a, "still here"), Step::Close));
    // a second removal is harmless
    assert!(!registry.remove(a.id));
}

#[test]
fn unknown_command_changes_nothing() {
    let mut a = User::from(1, "10.0.0.1:1111".to_string());
    send(&mut a, ":name Alice");
    assert!(matches!(send(&mut a, ":foo bar"), Step::Continue));
    assert_eq!(a.get_display_name(), "Alice");
    assert!(a.is_active);
}

#[test]
fn sender_address_names_the_line_for_both_sessions() {
    let mut registry: Registry<usize> = Registry::new();
    let mut inboxes: Vec<Vec<String>> = vec![Vec::new(), Vec::new()];
    let a = User::from(1, "10.0.0.1:1111".to_string());
    let mut b = User::from(2, "10.0.0.2:2222".to_string());
    registry.add(a.id, 0);
    registry.add(b.id, 1);
    let line = broadcast_line(send(&mut b, "hello"));
    assert_eq!(line, "10.0.0.2:2222: hello");
    deliver(&mut registry, &mut inboxes, &line);
    assert_eq!(inboxes[0], vec!["10.0.0.2:2222: hello".to_string()]);
    assert_eq!(inboxes[1], vec!["10.0.0.2:2222: hello".to_string()]);
}

#[test]
fn quotes_are_stripped_from_chat_lines() {
    let mut a = User::from(1, "10.0.0.1:1111".to_string());
    send(&mut a, ":name \"Al\"");
    assert_eq!(broadcast_line(send(&mut a, "say \"hi\"")), "Al: say hi");
    assert_eq!(format_chat_line("x\"y", "\"\""), "xy: ");
}

#[test]
fn blank_text_is_not_broadcast() {
    let mut a = User::from(1, "10.0.0.1:1111".to_string());
    assert!(matches!(send(&mut a, "   "), Step::Continue));
    assert!(matches!(send(&mut a, ""), Step::Continue));
    assert!(a.is_active);
}

#[test]
fn text_not_starting_with_prefix_is_chat() {
    let mut a = User::from(1, "addr".to_string());
    match process_command(" :quit", ':', &mut a) {
        Outcome::Chat(t) => assert_eq!(t, " :quit"),
        Outcome::Handled => panic!("expected chat"),
    }
    assert!(a.is_active);
    assert!(matches!(process_command("/quit", '/', &mut a), Outcome::Handled));
    assert!(!a.is_active);
}

#[test]
fn reads_without_data_are_retried() {
    let mut a = User::from(1, "addr".to_string());
    assert!(matches!(a.on_read(ReadEvent::Empty, ':'), Step::Continue));
    assert!(matches!(a.on_read(ReadEvent::WouldBlock, ':'), Step::Continue));
    assert!(matches!(a.on_read(ReadEvent::Data(vec![0xff, 0xfe]), ':'), Step::Continue));
    assert!(a.is_active);
}

#[test]
fn failed_read_closes_the_session() {
    let mut a = User::from(1, "addr".to_string());
    assert!(matches!(a.on_read(ReadEvent::Failed, ':'), Step::Close));
    assert!(!a.is_active);
}

#[test]
fn registry_size_follows_active_sessions() {
    let mut registry: Registry<usize> = Registry::new();
    let mut users: Vec<User> = (0..4).map(|i| User::from(i, format!("10.0.0.{i}:1"))).collect();
    for (i, u) in users.iter().enumerate() {
        registry.add(u.id, i);
    }
    assert_eq!(registry.len(), 4);
    assert!(matches!(send(&mut users[1], ":quit"), Step::Close));
    registry.remove(users[1].id);
    assert!(matches!(users[3].on_read(ReadEvent::Failed, ':'), Step::Close));
    registry.remove(users[3].id);
    let active = users.iter().filter(|u| u.is_active).count();
    assert_eq!(registry.len(), active);
    assert_eq!(registry.len(), 2);
    assert_eq!(registry.id_at(0), 0);
    assert_eq!(registry.id_at(1), 2);
}

#[test]
fn registry_holds_each_session_once() {
    let mut registry: Registry<&str> = Registry::new();
    assert!(registry.add(5, "first"));
    assert!(!registry.add(5, "second"));
    assert_eq!(registry.len(), 1);
    assert_eq!(*registry.handle_at(0), "first");
}

#[test]
fn prune_drops_failed_recipients() {
    let mut registry: Registry<u8> = Registry::new();
    for id in 10..15u64 {
        registry.add(id, 0);
    }
    registry.prune(&vec![true, false, true, false, true]);
    assert_eq!(registry.len(), 3);
    assert_eq!(
        (registry.id_at(0), registry.id_at(1), registry.id_at(2)),
        (10, 12, 14)
    );
}

#[test]
fn fan_out_writes_in_order_and_drops_failures() {
    let mut registry: Registry<u64> = Registry::new();
    for id in 1..5u64 {
        registry.add(id, id * 100);
    }
    let seen = RefCell::new(Vec::new());
    let delivered = registry.fan_out(|h| {
        seen.borrow_mut().push(*h);
        *h != 200 && *h != 400
    });
    assert_eq!(seen.into_inner(), vec![100, 200, 300, 400]);
    assert_eq!(delivered, vec![true, false, true, false]);
    assert_eq!(registry.len(), 2);
    assert_eq!((registry.id_at(0), *registry.handle_at(0)), (1, 100));
    assert_eq!((registry.id_at(1), *registry.handle_at(1)), (3, 300));
}

#[test]
fn new_session_is_active_without_nickname() {
    let a = User::from(3, "192.168.1.2:5000".to_string());
    assert!(a.is_active);
    assert_eq!(a.id, 3);
    assert_eq!(a.member.nick_name, None);
    assert_eq!(a.get_display_name(), "192.168.1.2:5000");
}

#[test]
fn set_nickname_and_disconnect() {
    let mut a = User::from(3, "addr".to_string());
    a.set_nickname(Some("Zed".to_string()));
    assert_eq!(a.get_display_name(), "Zed");
    a.set_nickname(None);
    assert_eq!(a.get_display_name(), "addr");
    a.disconnect();
    assert!(!a.is_active);
}

#[test]
fn listener_registers_sessions_with_fresh_ids() {
    let mut registry: Registry<&str> = Registry::new();
    let mut listener = Listener::new();
    let a = listener.accept(&mut registry, "10.0.0.1:1111".to_string(), "wa").unwrap();
    let b = listener.accept(&mut registry, "10.0.0.2:2222".to_string(), "wb").unwrap();
    assert_eq!((a.id, b.id), (0, 1));
    assert_eq!(a.get_display_name(), "10.0.0.1:1111");
    assert!(a.is_active && b.is_active);
    assert_eq!(registry.len(), 2);
    assert_eq!((registry.id_at(1), *registry.handle_at(1)), (1, "wb"));
    registry.remove(a.id);
    let c = listener.accept(&mut registry, "10.0.0.3:3333".to_string(), "wc").unwrap();
    assert_eq!(c.id, 2);
    assert_eq!(registry.len(), 2);
}
