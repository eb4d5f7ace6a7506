use sithra::crypt::echo;
use sithra::datapack::{Channel, ChannelType, DataPack};
use sithra::loader::{read_action, ReadAction};
use sithra::manage::{parse_cmd, parse_u64, split_words, ParseErr};
use sithra::onebot::{group_ban_params, segment_kind};
use sithra::plugin::SetMute;
use sithra::types::{CommonSegment, Segment};

fn text(s: &str) -> CommonSegment {
    CommonSegment::text(s.to_owned())
}

#[test]
fn mute_command_forms() {
    assert_eq!(parse_cmd(&vec![text("mute 123 60")]), Ok(("123".to_owned(), 60)));
    assert_eq!(parse_cmd(&vec![text("mute   123\t60 ")]), Ok(("123".to_owned(), 60)));
    assert_eq!(
        parse_cmd(&vec![text(" mute "), CommonSegment::at("42".to_owned()), text(" 0 ")]),
        Ok(("42".to_owned(), 0))
    );
    assert_eq!(parse_cmd(&vec![text("mute 123")]), Err(ParseErr::NotEnoughArgs));
    assert_eq!(parse_cmd(&vec![text("mute 123 abc")]), Err(ParseErr::InvalidNumber));
    assert_eq!(parse_cmd(&vec![text("unmute 1 2")]), Err(ParseErr::NotMatch));
    assert_eq!(parse_cmd(&vec![]), Err(ParseErr::NotMatch));
    assert_eq!(
        parse_cmd(&vec![text("mute"), CommonSegment::at("42".to_owned()), text("  ")]),
        Err(ParseErr::NotEnoughArgs)
    );
}

#[test]
fn number_parsing() {
    assert_eq!(parse_u64("+7"), Ok(7));
    assert_eq!(parse_u64("18446744073709551615"), Ok(u64::MAX));
    assert_eq!(parse_u64("18446744073709551616"), Err(ParseErr::InvalidNumber));
    assert_eq!(parse_u64("+"), Err(ParseErr::InvalidNumber));
    assert_eq!(parse_u64("-1"), Err(ParseErr::InvalidNumber));
    assert_eq!(parse_u64(""), Err(ParseErr::NotEnoughArgs));
    assert_eq!(split_words("  a bb\u{3000}c  "), vec!["a".to_owned(), "bb".to_owned(), "c".to_owned()]);
    assert!(split_words(" \n ").is_empty());
}

#[test]
fn segment_normalization() {
    let s = Segment { ty: "image".to_owned(), data: "http://x/y.png".to_owned() };
    match CommonSegment::from_segment(s) {
        CommonSegment::Image(u) => assert_eq!(u, "http://x/y.png"),
        other => panic!("unexpected {other:?}"),
    }
    let s = Segment { ty: "face".to_owned(), data: "1".to_owned() };
    let back = CommonSegment::from_segment(s).into_segment();
    assert_eq!((back.ty.as_str(), back.data.as_str()), ("face", "1"));
    let back = CommonSegment::at("9".to_owned()).into_segment();
    assert_eq!((back.ty.as_str(), back.data.as_str()), ("at", "9"));
    assert_eq!(Segment::img("u".to_owned()).ty, "image");
}

#[test]
fn echo_command() {
    let out = echo(&vec![text("echo hello"), CommonSegment::at("1".to_owned())]).unwrap();
    assert_eq!(out[0].text_opt().map(String::as_str), Some("hello"));
    assert!(matches!(&out[1], CommonSegment::At(a) if a == "1"));
    assert!(echo(&vec![text("say hello")]).is_none());
}

#[test]
fn outbound_mapping() {
    assert_eq!(segment_kind(&text("hi")), ("text".to_owned(), "hi".to_owned()));
    assert_eq!(segment_kind(&CommonSegment::image("u".to_owned())), ("image".to_owned(), "u".to_owned()));
    let mute = SetMute {
        channel:       Channel {
            id:        "user".to_owned(),
            ty:        ChannelType::Group,
            name:      "n".to_owned(),
            parent_id: Some("group".to_owned()),
            self_id:   None,
        },
        duration_secs: 600,
    };
    assert_eq!(group_ban_params(&mute), Some(("user".to_owned(), "group".to_owned(), 600)));
    let mut private = mute;
    private.channel.parent_id = None;
    assert_eq!(group_ban_params(&private), None);
}

#[test]
fn read_task_publishes_in_order() {
    let read = vec![
        (DataPack::request(1, "/a".to_owned(), vec![]), false),
        (DataPack::request(2, "/log.create".to_owned(), vec![]), true),
        (DataPack::request(3, "/b".to_owned(), vec![]), false),
        (DataPack::request(4, "/log.create".to_owned(), vec![]), false),
    ];
    let published: Vec<u128> = read
        .iter()
        .filter(|(p, log)| read_action(p, *log) == ReadAction::Broadcast)
        .map(|(p, _)| p.id)
        .collect();
    assert_eq!(published, vec![1, 3]);
}
