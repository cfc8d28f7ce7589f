use std::sync::Arc;

use chat_relay::client::{message_to_show, name_command, outgoing_line};
use chat_relay::config::{ConfigError, ConfigHandle};
use chat_relay::frame::encode;
use chat_relay::message::{Destination, Message, MessageKind};
use chat_relay::session::{Member, MemberDataTransferObject};

const FULL: &str = "# chat settings\n[server]\nhost_ip = 127.0.0.1\nhost_port=7070\n  msg_size =  255 \nprefix = :\n";

#[test]
fn member_id_is_a_hyphenated_v4_uuid() {
    let m = Member::new("1.2.3.4:5".to_string());
    let id: Vec<char> = m.id.chars().collect();
    assert_eq!(id.len(), 36);
    for (i, c) in id.iter().enumerate() {
        if [8, 13, 18, 23].contains(&i) {
            assert_eq!(*c, '-');
        } else {
            assert!(c.is_ascii_hexdigit() && !c.is_ascii_uppercase());
        }
    }
    assert_eq!(id[14], '4');
    assert_ne!(Member::new("x".to_string()).id, m.id);
    assert_eq!(m.address, "1.2.3.4:5");
    assert_eq!(m.nick_name, None);
}

#[test]
fn transfer_object_holds_utf8_bytes() {
    let mut m = Member::new("héllo".to_string());
    let dto = MemberDataTransferObject::from(&m);
    assert_eq!(dto.address, "héllo".as_bytes().to_vec());
    assert_eq!(dto.id, m.id.as_bytes().to_vec());
    assert_eq!(dto.nick_name, None);
    m.nick_name = Some("Al".to_string());
    assert_eq!(MemberDataTransferObject::from(&m).nick_name, Some(vec![65, 108]));
}

#[test]
fn message_new_is_an_empty_global_chat() {
    let author = Arc::new(Member::new("10.0.0.1:1111".to_string()));
    let m = Message::new(author);
    assert_eq!(m.address, "10.0.0.1:1111");
    assert!(m.content.is_empty());
    assert!(matches!(m.channel, Destination::Global));
    assert_eq!(m.kind, MessageKind::Message);
    assert_eq!(m.as_string(), "");
}

#[test]
fn message_from_string_keeps_text_and_kind() {
    let author = Arc::new(Member::new("a".to_string()));
    let m = Message::from_string(author, "héllo".to_string(), MessageKind::Command);
    assert_eq!(m.content, "héllo".as_bytes().to_vec());
    assert_eq!(m.kind, MessageKind::Command);
    assert_eq!(m.as_string(), "héllo");
}

#[test]
fn message_as_string_is_empty_for_invalid_utf8() {
    let author = Arc::new(Member::new("a".to_string()));
    let mut m = Message::new(author);
    m.content = vec![0xc3];
    assert_eq!(m.as_string(), "");
}

#[test]
fn config_parses_settings() {
    let h = ConfigHandle::parse(FULL).ok().unwrap();
    assert_eq!(h.get_value_string("host_ip"), Some("127.0.0.1".to_string()));
    assert_eq!(h.get_value_string("prefix"), Some(":".to_string()));
    assert_eq!(h.get_value_usize("host_port"), Some(7070));
    assert_eq!(h.get_value_usize("msg_size"), Some(255));
    assert_eq!(h.get_value_string("nope"), None);
    assert_eq!(h.get_value_usize("nope"), None);
    assert_eq!(h.options.len(), 4);
}

#[test]
fn config_later_lines_override_and_values_keep_equals() {
    let text = "host_ip=a\nhost_port=+1\nmsg_size=2\nprefix=x=y\nhost_ip = b\r\n";
    let h = ConfigHandle::parse(text).ok().unwrap();
    assert_eq!(h.get_value_string("host_ip"), Some("b".to_string()));
    assert_eq!(h.get_value_string("prefix"), Some("x=y".to_string()));
    assert_eq!(h.get_value_usize("host_port"), Some(1));
}

#[test]
fn config_without_settings_is_rejected() {
    let e = ConfigHandle::parse("# only a comment\n\n[section]\nno equals here\n").err().unwrap();
    assert!(matches!(e, ConfigError::NoValidSettings));
    assert_eq!(
        e.message(),
        "No valid settings in provided config file. Review Template."
    );
}

#[test]
fn config_reports_missing_keys_in_order() {
    let e = ConfigHandle::parse("msg_size = 3\nother = 1").err().unwrap();
    match &e {
        ConfigError::MissingKeys(keys) => assert_eq!(
            keys,
            &vec!["host_ip".to_string(), "host_port".to_string(), "prefix".to_string()]
        ),
        _ => panic!("expected missing keys"),
    }
    assert_eq!(
        e.message(),
        "Missing keys: [\"host_ip\", \"host_port\", \"prefix\"]"
    );
}

#[test]
fn config_error_messages() {
    assert_eq!(ConfigError::NoConfigOrFlag.message(), "No config file or flag provided.");
    assert_eq!(
        ConfigError::ConfigReadFailed("denied".to_string()).message(),
        "Config file read failed: denied"
    );
    assert_eq!(
        ConfigError::ConfigParseFailed.message(),
        "Failed to parse the config file, is it valid?"
    );
    assert_eq!(ConfigError::MissingHostIp.message(), "Missing host IP in the config file.");
    assert_eq!(ConfigError::MissingKeys(vec![]).message(), "Missing keys: []");
}

#[test]
fn client_hides_its_own_lines() {
    let own = encode("bob: hi", 255).unwrap();
    let other = encode("amy: hi", 255).unwrap();
    assert_eq!(message_to_show(&own, "bob"), None);
    assert_eq!(message_to_show(&other, "bob"), Some("amy: hi".to_string()));
    let quoting = encode("amy: bob: hi", 255).unwrap();
    assert_eq!(message_to_show(&quoting, "bob"), Some("amy: bob: hi".to_string()));
    let bare = encode("bob:", 255).unwrap();
    assert_eq!(message_to_show(&bare, "bob"), Some("bob:".to_string()));
    assert_eq!(message_to_show(&[0, 0, 0], "bob"), None);
    assert_eq!(message_to_show(&[0xff, 0], "bob"), None);
}

#[test]
fn client_commands() {
    assert_eq!(name_command("bob", ':'), ":name bob");
    assert_eq!(outgoing_line("  hello there \n", ':'), ("hello there".to_string(), false));
    assert_eq!(outgoing_line(" :quit\n", ':'), (":quit".to_string(), true));
    assert_eq!(outgoing_line(":quit now", ':'), (":quit now".to_string(), false));
}
