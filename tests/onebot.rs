use sithra::datapack::{Channel, ChannelType};
use sithra::onebot::{
    bearer, convert_file_base64, default_health_check_interval, eq_ignore_ascii_case,
    health_step, host_is_loopback, inline_file, ipv4_first, is_loopback, jitter_ms,
    onebot_adaptation, random_in, send_message_action, supervisor_step, ApiData, ApiResponse,
    Attempt, Backoff, HealthAction, HealthEvent, HealthFailure, HealthState, Inbound,
    OneBotMessage, RawEvent, Supervisor, SupervisorAction, SupervisorEvent,
};

#[test]
fn connect_backoff_sequence() {
    let mut b = Backoff::for_connect();
    let mut sleeps = Vec::new();
    loop {
        match b.on_failure(0) {
            Attempt::Retry { sleep_ms } => sleeps.push(sleep_ms),
            Attempt::GiveUp => break,
        }
    }
    assert_eq!(sleeps, vec![500, 1000, 2000, 4000, 8000, 16000]);
    assert_eq!(sleeps.len() + 1, 7);
    assert_eq!(b.on_failure(0), Attempt::GiveUp);
}

#[test]
fn backoff_adds_jitter_and_saturates() {
    let mut b = Backoff::new(3, 100, 30_000);
    assert_eq!(b.on_failure(7), Attempt::Retry { sleep_ms: 100 });
    assert_eq!(b.delay_ms, 207);
    let mut big = Backoff::new(1, u64::MAX - 1, u64::MAX);
    big.on_failure(5);
    assert_eq!(big.delay_ms, u64::MAX);
}

#[test]
fn jitter_is_below_a_second() {
    for _ in 0..100 {
        assert!(jitter_ms() < 1000);
    }
    for _ in 0..100 {
        let r = random_in(3, 5);
        assert!((3..=5).contains(&r));
    }
}

#[test]
fn reconnect_after_close() {
    assert_eq!(
        supervisor_step(Supervisor::Connected, SupervisorEvent::ConnectionEnded),
        (Supervisor::Pausing, SupervisorAction::Sleep { ms: 5000 })
    );
    assert_eq!(
        supervisor_step(Supervisor::Pausing, SupervisorEvent::PauseOver),
        (Supervisor::Connecting, SupervisorAction::Connect)
    );
    assert_eq!(
        supervisor_step(Supervisor::Connecting, SupervisorEvent::ConnectOk),
        (Supervisor::Connected, SupervisorAction::RunConnection)
    );
    assert_eq!(
        supervisor_step(Supervisor::Connecting, SupervisorEvent::ConnectFailed),
        (Supervisor::Pausing, SupervisorAction::Sleep { ms: 5000 })
    );
    assert_eq!(
        supervisor_step(Supervisor::Connected, SupervisorEvent::PauseOver),
        (Supervisor::Connected, SupervisorAction::Wait)
    );
}

#[test]
fn health_check_timeout() {
    let interval = default_health_check_interval() * 1000;
    assert_eq!(interval, 30_000);
    let (s, a) = health_step(HealthState::Idle, HealthEvent::Changed(true), interval);
    assert_eq!(s, HealthState::Probing);
    assert_eq!(a, HealthAction::Probe { deadline_ms: 15_000 });
    let (_, a) = health_step(s, HealthEvent::Deadline, interval);
    assert_eq!(a, HealthAction::Stop(HealthFailure::Timeout));
    let (_, a) = health_step(s, HealthEvent::Changed(false), interval);
    assert_eq!(a, HealthAction::Stop(HealthFailure::Unhealthy));
    let (s2, a) = health_step(s, HealthEvent::Changed(true), interval);
    assert_eq!((s2, a), (HealthState::Idle, HealthAction::Wait));
    assert_eq!(
        health_step(HealthState::Idle, HealthEvent::Deadline, interval),
        (HealthState::Idle, HealthAction::Wait)
    );
}

#[test]
fn loopback_urls() {
    assert!(is_loopback("ws://127.0.0.1:3001"));
    assert!(is_loopback("ws://localhost:3001/ws"));
    assert!(is_loopback("ws://LocalHost"));
    assert!(!is_loopback("ws://example.com:3001"));
    assert!(is_loopback("ws://[::1]:3001"));
    assert!(is_loopback("ws://[0:0:0:0:0:0:0:1]:3001"));
    assert!(!is_loopback("ws://[::2]:3001"));
    assert!(!is_loopback("not a url"));
    assert!(!is_loopback("ws://10.0.0.1"));
}

#[test]
fn loopback_hosts() {
    assert!(host_is_loopback("127.1.2.3"));
    assert!(host_is_loopback("LOCALHOST"));
    assert!(host_is_loopback("[::1]"));
    assert!(!host_is_loopback("127.001.0.1"));
    assert!(!host_is_loopback("128.0.0.1"));
    assert!(!host_is_loopback("127.0.0"));
    assert!(!host_is_loopback("127.0.0.1.5"));
    assert!(!host_is_loopback("127.0.0.256"));
    assert!(!host_is_loopback("localhost."));
    assert_eq!(ipv4_first("192.168.0.1"), Some(192));
    assert_eq!(ipv4_first("1..2.3"), None);
    assert_eq!(ipv4_first(""), None);
}

#[test]
fn base64_default_follows_loopback() {
    assert!(!convert_file_base64(None, "ws://127.0.0.1:3001"));
    assert!(convert_file_base64(None, "ws://example.com"));
    assert!(convert_file_base64(Some(true), "ws://127.0.0.1"));
    assert!(!convert_file_base64(Some(false), "ws://example.com"));
}

#[test]
fn inline_file_text() {
    assert_eq!(inline_file(b"hi"), "base64://aGk=");
    assert_eq!(inline_file(b""), "base64://");
    assert_eq!(inline_file(b"abcd"), "base64://YWJjZA==");
    assert_eq!(inline_file(&[0xfb, 0xff]), "base64://+/8=");
    assert_eq!(sithra::onebot::jitter_of(12_345), 345);
}

#[test]
fn status_answer_sets_health_only() {
    let m = OneBotMessage::Api(ApiResponse { echo: 0, data: ApiData::GetStatus { good: false } });
    assert!(matches!(onebot_adaptation(m, "bot", 1), Inbound::Health(false)));
}

#[test]
fn api_answer_becomes_response() {
    let m = OneBotMessage::Api(ApiResponse { echo: 99, data: ApiData::Other(vec![1, 2]) });
    match onebot_adaptation(m, "bot", 5) {
        Inbound::Forward(p) => {
            assert_eq!(p.id, 5);
            assert_eq!(p.correlate, Some(99));
            assert_eq!(p.path, None);
            assert_eq!(p.payload, vec![1, 2]);
            assert_eq!(p.bot_id.as_deref(), Some("bot"));
        }
        _ => panic!("expected a forwarded response"),
    }
}

#[test]
fn event_becomes_request() {
    let ch = Channel {
        id:        "1".to_owned(),
        ty:        ChannelType::Private,
        name:      "n".to_owned(),
        parent_id: None,
        self_id:   None,
    };
    let m = OneBotMessage::Event(RawEvent {
        path:    Some("/event/message.created".to_owned()),
        channel: Some(ch),
        payload: vec![3],
    });
    match onebot_adaptation(m, "bot", 6) {
        Inbound::Forward(p) => {
            assert_eq!(p.path.as_deref(), Some("/event/message.created"));
            assert_eq!(p.correlate, None);
            assert!(p.channel.is_some());
        }
        _ => panic!("expected a forwarded request"),
    }
    let m = OneBotMessage::Event(RawEvent { path: None, channel: None, payload: vec![] });
    assert!(matches!(onebot_adaptation(m, "bot", 7), Inbound::Ignore));
}

#[test]
fn outbound_actions() {
    assert_eq!(send_message_action(ChannelType::Private), "send_private_msg");
    assert_eq!(send_message_action(ChannelType::Group), "send_group_msg");
    assert_eq!(bearer("tok"), "Bearer tok");
    assert!(eq_ignore_ascii_case("AbC", "aBc"));
    assert!(!eq_ignore_ascii_case("abc", "abd"));
}
