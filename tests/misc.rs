use sithra::auth::{auth_verify, check_authorize, check_register, status_code, AuthError, Claims};
use sithra::dice::{dice_reply, parse_dice, parse_expr, roll, sort_rolls, Dice, DiceVerify};
use sithra::ghnotify::{Author, Commit, GithubPushEvent, Repository, Sender};
use sithra::mctools::{apply_template, ApiInfo, ApiInfoMotd, ApiInfoPlayers, ApiInfoProtocol, Template};
use sithra::text::{join, replace, trim, truncate_tail, u128_to_string};
use sithra::types::{channel_of, cmd, BotId, CommonSegment, ErrorString, Initialize, Payload};
use sithra::datapack::DataPack;

fn claims(hex: &str) -> Claims {
    Claims { hex: hex.to_owned(), exp: 0 }
}

#[test]
fn auth_checks() {
    let stored = "abc".to_owned();
    assert!(auth_verify(&claims("abc"), Some(&stored)).is_ok());
    assert_eq!(auth_verify(&claims("abd"), Some(&stored)), Err(AuthError::WrongCredentials));
    assert_eq!(auth_verify(&claims("abc"), None), Err(AuthError::CredentialsNotFound));
    assert_eq!(check_register(&claims(""), None), Err(AuthError::MissingCredentials));
    assert_eq!(check_register(&claims("x"), Some(&stored)), Err(AuthError::CredentialsAlreadyExists));
    assert!(check_register(&claims("x"), None).is_ok());
    assert_eq!(check_authorize(&claims(""), Some(&stored)), Err(AuthError::MissingCredentials));
    assert!(check_authorize(&claims("abc"), Some(&stored)).is_ok());
    assert_eq!(status_code(&AuthError::WrongCredentials), 401);
    assert_eq!(status_code(&AuthError::InvalidToken), 400);
    assert_eq!(status_code(&AuthError::CredentialsNotFound), 500);
}

#[test]
fn dice_parsing() {
    let d = parse_expr("2d6").unwrap();
    assert_eq!((d.face, d.times, d.select), (2, 6, None));
    let d = parse_expr("6d").unwrap();
    assert_eq!((d.face, d.times), (6, 1));
    let d = parse_expr("6d3k").unwrap();
    assert_eq!(d.select, Some((true, 1)));
    let d = parse_expr("6d3q2").unwrap();
    assert_eq!(d.select, Some((false, 2)));
    assert!(parse_expr("d6").is_none());
    assert!(parse_expr("6x3").is_none());
    assert!(parse_expr("6d3z").is_none());
    assert!(parse_expr("6d3k2 ").is_none());
    assert!(parse_expr("99999999999999999999d1").is_none());
    assert!(parse_expr("6d99999999999999999999").is_none());
    let msg = vec![CommonSegment::text("20d2".to_owned()), CommonSegment::at("x".to_owned())];
    assert_eq!(parse_dice(&msg).unwrap().face, 20);
    assert!(parse_dice(&vec![CommonSegment::at("x".to_owned())]).is_none());
}

#[test]
fn dice_checks() {
    let v = |s: &str| parse_expr(s).unwrap().verify();
    assert_eq!(v("0d1"), Err(DiceVerify::Face));
    assert_eq!(v("6d0"), Err(DiceVerify::Times));
    assert_eq!(v("6d3k0"), Err(DiceVerify::Select));
    assert_eq!(v("6d3k4"), Err(DiceVerify::SelectRange));
    assert_eq!(v("6d3k3"), Ok(()));
    assert_eq!(parse_expr("6d3k2").unwrap().describe(), "6d3k2");
    assert_eq!(DiceVerify::Face.message(), "面数必须大于 0 喵");
}

#[test]
fn dice_replies() {
    let d = Dice { face: 6, times: 3, select: None };
    assert_eq!(dice_reply(&d, &vec![5, 1, 3], None).unwrap(), "1 + 3 + 5 = 9");
    let d = Dice { face: 6, times: 3, select: Some((true, 2)) };
    assert_eq!(dice_reply(&d, &vec![5, 1, 3], None).unwrap(), "1, 3, 5\n3 + 5 = 8");
    let d = Dice { face: 6, times: 3, select: Some((false, 2)) };
    assert_eq!(dice_reply(&d, &vec![5, 1, 3], None).unwrap(), "1, 3, 5\n1 + 3 = 4");
    let d = Dice { face: 6, times: 1, select: None };
    assert_eq!(dice_reply(&d, &vec![4], None).unwrap(), "4");
    let d = Dice { face: 6, times: 3, select: Some((true, 2)) };
    assert_eq!(dice_reply(&d, &vec![5, 1, 3], Some(3)).unwrap(), ".. = 8");
    let d = Dice { face: u64::MAX, times: 2, select: None };
    assert_eq!(
        dice_reply(&d, &vec![u64::MAX, u64::MAX], None).unwrap(),
        "18446744073709551615 + 18446744073709551615 = 36893488147419103230"
    );
}

#[test]
fn dice_rolls_in_range() {
    let r = roll(6, 50);
    assert_eq!(r.len(), 50);
    assert!(r.iter().all(|x| (1..=6).contains(x)));
    assert_eq!(sort_rolls(&vec![3, 1, 2, 1]), vec![1, 1, 2, 3]);
}

fn info() -> ApiInfo {
    ApiInfo {
        ip:       "1.2.3.4".to_owned(),
        port:     25565,
        version:  "1.20".to_owned(),
        protocol: Some(ApiInfoProtocol { version: 763 }),
        icon:     None,
        software: None,
        motd:     ApiInfoMotd { clean: vec!["  Hello".to_owned(), "World  ".to_owned()] },
        players:  ApiInfoPlayers { online: 3, max: 20 },
    }
}

#[test]
fn server_card_values() {
    let t = Template::from_api(info());
    assert_eq!(t.the_server_port, "25565");
    assert_eq!(t.online, "3/20");
    assert_eq!(t.protocol_version, "763");
    assert_eq!(t.server_type, "不知道喵");
    assert_eq!(t.info, "  Hello;World  ");
    let mut i = info();
    i.protocol = None;
    assert_eq!(Template::from_api(i).protocol_version, "未知");
}

#[test]
fn server_card_svg() {
    let t = Template::from_api(info());
    let svg = "{{the_server_ip}}:{{the_server_port}} {{online}} [{{info}}] {{image_display}}/{{icon_display}}";
    assert_eq!(apply_template(&t, svg), "1.2.3.4:25565 3/20 [Hello;World] none/inline");
    let mut t = t;
    t.image_url = Some("data:x".to_owned());
    t.info = "a very long message of the day".to_owned();
    let svg = "{{image_url}} {{image_display}} {{icon_display}} {{info}}";
    assert_eq!(apply_template(&t, svg), "data:x block none a very long messag...");
}

#[test]
fn text_helpers() {
    assert_eq!(truncate_tail("hello world", 5), "hel...");
    assert_eq!(truncate_tail("hi", 5), "hi");
    assert_eq!(truncate_tail("hello", 1), "h");
    assert_eq!(u128_to_string(0), "0");
    assert_eq!(u128_to_string(1234567890), "1234567890");
    assert_eq!(join(&vec!["a".to_owned(), "b".to_owned()], ", "), "a, b");
    assert_eq!(join(&vec![], ", "), "");
    assert_eq!(replace("aXbXX", "X", "yy"), "ayybyyyy");
    assert_eq!(replace("aaa", "aa", "b"), "ba");
    assert_eq!(trim("\t hi there \u{3000}\n"), "hi there");
    assert_eq!(trim("   "), "");
}

#[test]
fn push_notice() {
    let commit = |m: &str| Commit {
        id:      "c".to_owned(),
        message: m.to_owned(),
        author:  Author { name: "n".to_owned(), email: "e".to_owned() },
        url:     "u".to_owned(),
    };
    let e = GithubPushEvent {
        ref_name:   "refs/heads/main".to_owned(),
        repository: Repository {
            name:      "r".to_owned(),
            full_name: "o/r".to_owned(),
            html_url:  "h".to_owned(),
        },
        commits:    vec![commit("fix"), commit("feat")],
        sender:     Sender { login: "alice".to_owned() },
    };
    assert_eq!(e.notice(), "由 alice 推送到 refs/heads/main ;\n提交内容: \nfix\nfeat");
}

#[test]
fn shared_types() {
    let init = Initialize::new(5u8, "echo".to_owned(), "data/echo".to_owned());
    assert_eq!(init.id, "echo");
    assert_eq!(Initialize::<u8>::path(), "/initialize");
    assert_eq!(Payload(3).into_inner(), 3);
    let mut p = DataPack::request(1, "/x".to_owned(), vec![]);
    assert_eq!(BotId::from_request(&p).into_option(), None);
    p.bot_id = Some("b".to_owned());
    assert_eq!(BotId::from_request(&p).0.as_deref(), Some("b"));
    assert!(channel_of(&p).is_none());
    assert_eq!(ErrorString::new("e".to_owned()).message(), "e");
    let seg = CommonSegment::text("t".to_owned());
    assert_eq!(seg.text_opt().map(String::as_str), Some("t"));
    assert!(CommonSegment::img("u".to_owned()).text_opt().is_none());
    let msg = vec![
        CommonSegment::text("mc".to_owned()),
        CommonSegment::at("x".to_owned()),
        CommonSegment::text("server".to_owned()),
    ];
    assert_eq!(cmd(&msg), "mcserver");
}
