use std::collections::VecDeque;

use sithra::ai::{
    default_base_url, default_max_history, default_model, default_preamble, history_key,
    shift_history, text_only, Role, Turn,
};
use sithra::basex::BaseXMap;
use sithra::crypt::{decrypt, encrypt, strip_prefix};
use sithra::datapack::{Channel, ChannelType, DataPack};
use sithra::dice::dice;
use sithra::onebot::Inbound;
use sithra::plugin::{
    auth, handle_options, has_flag, init_datapack, mute_member, recv_step, RecvAction, RecvEvent,
    SetMuteError,
};
use sithra::types::CommonSegment;

fn args(v: &[&str]) -> Vec<String> {
    v.iter().map(|s| s.to_string()).collect()
}

#[test]
fn cli_discovery() {
    assert_eq!(handle_options(&args(&["bin", "--version"]), "1.0", "echo"), Some("1.0".to_owned()));
    assert_eq!(handle_options(&args(&["bin", " --name "]), "1.0", "echo"), Some("echo".to_owned()));
    assert_eq!(handle_options(&args(&["bin", "--name", "--version"]), "1.0", "echo"), Some("1.0".to_owned()));
    assert_eq!(handle_options(&args(&["bin"]), "1.0", "echo"), None);
    assert!(!has_flag(&args(&["--names"]), "--name"));
}

#[test]
fn handshake_packet() {
    let p = init_datapack(3, vec![1, 2]);
    assert_eq!(p.path.as_deref(), Some("/initialize"));
    assert_eq!(p.payload, vec![1, 2]);
    assert_eq!(p.correlate, None);
}

#[test]
fn receive_steps() {
    assert!(matches!(recv_step(RecvEvent::Idle), RecvAction::SetHealth(false)));
    assert!(matches!(recv_step(RecvEvent::Error), RecvAction::Stop));
    assert!(matches!(recv_step(RecvEvent::Message(Inbound::Health(true))), RecvAction::SetHealth(true)));
    assert!(matches!(recv_step(RecvEvent::Message(Inbound::Ignore)), RecvAction::Skip));
    let p = DataPack::response(1, vec![]);
    assert!(matches!(recv_step(RecvEvent::Message(Inbound::Forward(p))), RecvAction::Emit(_)));
}

#[test]
fn mute_requests() {
    let mut req = DataPack::request(1, "/event/message.created".to_owned(), vec![]);
    assert!(matches!(mute_member(&req, "u".to_owned(), 60), Err(SetMuteError::ContextNotIncludedChannel)));
    req.channel = Some(Channel {
        id:        "room".to_owned(),
        ty:        ChannelType::Group,
        name:      "n".to_owned(),
        parent_id: Some("g".to_owned()),
        self_id:   None,
    });
    let m = mute_member(&req, "user9".to_owned(), 60).unwrap();
    assert_eq!(m.channel.id, "user9");
    assert_eq!(m.channel.parent_id.as_deref(), Some("g"));
    assert_eq!(m.duration_secs, 60);
    assert!(auth(&"a".to_owned(), &args(&["b", "a"])));
    assert!(!auth(&"c".to_owned(), &args(&["b", "a"])));
}

fn hex() -> BaseXMap {
    BaseXMap::Base16(['0', '1', '2', '3', '4', '5', '6', '7', '8', '9', 'a', 'b', 'c', 'd', 'e', 'f'])
}

fn texts(v: &[CommonSegment]) -> Vec<Option<String>> {
    v.iter().map(|s| s.text_opt().cloned()).collect()
}

#[test]
fn crypt_commands() {
    let msg = vec![
        CommonSegment::text("encrypt hi".to_owned()),
        CommonSegment::at("x".to_owned()),
        CommonSegment::text("".to_owned()),
    ];
    let out = encrypt(&hex(), &msg).unwrap();
    assert_eq!(texts(&out), vec![Some("6869".to_owned()), None, Some("".to_owned())]);
    let msg = vec![CommonSegment::text("decrypt  6869 ".to_owned()), CommonSegment::text("zz".to_owned())];
    let out = decrypt(&hex(), &msg).unwrap();
    assert_eq!(texts(&out), vec![Some("hi".to_owned()), Some("字符 'z' 无效喵".to_owned())]);
    assert!(encrypt(&hex(), &vec![CommonSegment::text("hello".to_owned())]).is_none());
    assert!(decrypt(&hex(), &vec![]).is_none());
    assert_eq!(strip_prefix("encrypt x", "encrypt "), Some("x".to_owned()));
    assert_eq!(strip_prefix("enc", "encrypt "), None);
}

#[test]
fn assistant_helpers() {
    assert_eq!(default_base_url(), "https://openrouter.ai/api/v1");
    assert_eq!(default_model(), "openai/gpt-5-chat");
    assert_eq!(default_preamble(), "You are a helpful assistant.");
    assert_eq!(default_max_history(), 20);
    let msg = vec![CommonSegment::at("bot".to_owned()), CommonSegment::text(" hello ".to_owned()), CommonSegment::text(" you".to_owned())];
    assert_eq!(text_only(&msg), Some("helloyou".to_owned()));
    assert_eq!(text_only(&vec![CommonSegment::text("  ".to_owned())]), None);
    let mut ch = Channel {
        id:        "1".to_owned(),
        ty:        ChannelType::Private,
        name:      "n".to_owned(),
        parent_id: None,
        self_id:   None,
    };
    assert_eq!(history_key(&ch), "global");
    ch.self_id = Some("me".to_owned());
    assert_eq!(history_key(&ch), "me");
    ch.parent_id = Some("g".to_owned());
    assert_eq!(history_key(&ch), "g");
}

#[test]
fn history_is_bounded() {
    let turn = |role, t: &str| Turn { role, text: t.to_owned() };
    let mut h: VecDeque<Turn> = VecDeque::new();
    h.push_back(turn(Role::User, "q1"));
    h.push_back(turn(Role::Assistant, "a1"));
    h.push_back(turn(Role::User, "q2"));
    h.push_back(turn(Role::Assistant, "a2"));
    shift_history(&mut h, 3);
    let left: Vec<&str> = h.iter().map(|t| t.text.as_str()).collect();
    assert_eq!(left, vec!["q2", "a2"]);
    shift_history(&mut h, 5);
    assert_eq!(h.len(), 2);
}

#[test]
fn dice_plugin_reply() {
    let msg = vec![CommonSegment::text("6d0".to_owned())];
    assert_eq!(dice(&msg, None), Some("次数必须大于 0 喵".to_owned()));
    let msg = vec![CommonSegment::text("hello".to_owned())];
    assert_eq!(dice(&msg, None), None);
    let msg = vec![CommonSegment::text("1d3".to_owned())];
    assert_eq!(dice(&msg, None), Some("1 + 1 + 1 = 3".to_owned()));
    let msg = vec![CommonSegment::text("6d1".to_owned())];
    let r = dice(&msg, None).unwrap();
    assert!(["1", "2", "3", "4", "5", "6"].contains(&r.as_str()));
}
