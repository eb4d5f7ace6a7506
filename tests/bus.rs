use sithra::correlate::PendingTable;
use sithra::datapack::{
    decode_frame, decode_frame_eof, encode_frame, Channel, ChannelType, DataPack, Decoded,
    FrameError,
};
use sithra::router::{reply_packet, Reply, Router};

fn channel() -> Channel {
    Channel {
        id:        "42".to_owned(),
        ty:        ChannelType::Group,
        name:      "room".to_owned(),
        parent_id: Some("7".to_owned()),
        self_id:   None,
    }
}

#[test]
fn frame_round_trip() {
    let framed = encode_frame(&[1, 2, 3]).unwrap();
    assert_eq!(framed, vec![3, 0, 0, 0, 1, 2, 3]);
    let mut buf = framed.clone();
    buf.push(9);
    match decode_frame(&buf) {
        Decoded::Frame { body, consumed } => {
            assert_eq!(body, vec![1, 2, 3]);
            assert_eq!(consumed, 7);
        }
        Decoded::Incomplete => panic!("frame expected"),
    }
}

#[test]
fn frame_long_header() {
    let body = vec![7u8; 300];
    let framed = encode_frame(&body).unwrap();
    assert_eq!(&framed[..4], &[44, 1, 0, 0]);
}

#[test]
fn frame_incomplete_and_partial() {
    assert!(matches!(decode_frame(&[3, 0, 0]), Decoded::Incomplete));
    assert!(matches!(decode_frame(&[3, 0, 0, 0, 1]), Decoded::Incomplete));
    assert_eq!(decode_frame_eof(&[3, 0, 0, 0, 1]).unwrap_err(), FrameError::PartialFrame);
    assert!(matches!(decode_frame_eof(&[]), Ok(None)));
}

#[test]
fn link_copies_bot_and_channel() {
    let mut parent = DataPack::request(7, "/event/message.created".to_owned(), vec![]);
    parent.bot_id = Some("bot".to_owned());
    parent.channel = Some(channel());
    let child = DataPack::request(8, "/command/message.create".to_owned(), vec![1]).link(&parent);
    assert_eq!(child.correlate, Some(7));
    assert_eq!(child.bot_id.as_deref(), Some("bot"));
    assert!(child.channel == Some(channel()));
    assert_eq!(child.id, 8);

    let mut own = DataPack::request(9, "/x".to_owned(), vec![]);
    own.bot_id = Some("other".to_owned());
    let child = own.link(&parent);
    assert_eq!(child.bot_id.as_deref(), Some("other"));
}

#[test]
fn channel_equality_ignores_name() {
    let mut other = channel();
    other.name = "renamed".to_owned();
    other.self_id = Some("me".to_owned());
    assert!(other == channel());
    other.parent_id = None;
    assert!(other != channel());
}

#[test]
fn pending_table_reserve_and_resolve() {
    let mut t: PendingTable<u32> = PendingTable::new();
    assert!(t.reserve(5, 10).is_ok());
    assert_eq!(t.reserve(5, 11), Err(11));
    let mut resp = DataPack::response(6, vec![]);
    resp.correlate = Some(5);
    assert_eq!(t.resolve(&resp), Some(10));
    assert_eq!(t.resolve(&resp), None);
    assert_eq!(t.len(), 0);
}

#[test]
fn abandoned_waiter_leaves_no_entry() {
    let mut t: PendingTable<&str> = PendingTable::new();
    t.reserve(1, "a").unwrap();
    assert!(t.contains(1));
    assert!(t.cancel(1));
    assert!(!t.contains(1));
    assert!(!t.cancel(1));
    let mut late = DataPack::response(2, vec![]);
    late.correlate = Some(1);
    assert_eq!(t.resolve(&late), None);
    assert_eq!(t.len(), 0);
}

#[test]
fn post_assigns_fresh_id() {
    let mut t: PendingTable<u8> = PendingTable::new();
    let p = DataPack::request(0, "/command/message.create".to_owned(), vec![]);
    let q = t.post_with_id(p, 77, 1).unwrap();
    assert_eq!(q.id, 77);
    assert!(t.contains(77));
    let p = DataPack::request(0, "/command/message.create".to_owned(), vec![]);
    let q = t.post(p, 2).unwrap();
    assert_ne!(q.id, 0);
    assert!(t.contains(q.id));
    let p = DataPack::request(77, "/x".to_owned(), vec![]);
    assert!(t.post_with_id(p, 78, 3).is_err());
}

#[test]
fn fresh_ids_differ() {
    assert_ne!(sithra::correlate::fresh_id(), sithra::correlate::fresh_id());
}

#[test]
fn unmatched_path_is_dropped() {
    let mut r: Router<u32> = Router::new();
    r.route("/command/message.create".to_owned(), 1);
    let p = DataPack::request(1, "/command/unknown".to_owned(), vec![]);
    assert!(r.dispatch(&p).is_none());
    let resp = DataPack::response(1, vec![]);
    assert!(r.dispatch(&resp).is_none());
    let p = DataPack::request(1, "/command/message.create".to_owned(), vec![]);
    assert_eq!(r.dispatch(&p), Some(&1));
    r.route("/command/message.create".to_owned(), 2);
    assert_eq!(r.dispatch(&p), Some(&2));
}

#[test]
fn reply_correlates_to_request() {
    let mut req = DataPack::request(40, "/command/message.create".to_owned(), b"hi".to_vec());
    req.bot_id = Some("bot".to_owned());
    let resp = reply_packet(&req, Reply::Value(b"m1".to_vec()), 41).unwrap();
    assert_eq!(resp.correlate, Some(40));
    assert_eq!(resp.payload, b"m1".to_vec());
    assert_eq!(resp.path, None);
    assert_eq!(resp.bot_id.as_deref(), Some("bot"));
    assert!(reply_packet(&req, Reply::Nothing, 42).is_none());
    let err = reply_packet(&req, Reply::Rejected(b"bad".to_vec()), 43).unwrap();
    assert_eq!(err.correlate, Some(40));
    let event = DataPack::response(44, vec![]);
    assert!(reply_packet(&event, Reply::Rejected(b"bad".to_vec()), 45).is_none());
}

#[test]
fn request_response_correlation() {
    // plugin A posts a request; plugin B's router answers; A's table resolves
    let mut a: PendingTable<&str> = PendingTable::new();
    let req = DataPack::request(0, "/command/message.create".to_owned(), b"hi".to_vec());
    let req = a.post_with_id(req, 1000, "waiter").unwrap();
    let mut b: Router<fn(&[u8]) -> Vec<u8>> = Router::new();
    fn handler(_: &[u8]) -> Vec<u8> {
        b"m1".to_vec()
    }
    b.route("/command/message.create".to_owned(), handler);
    let h = b.dispatch(&req).unwrap();
    let resp = reply_packet(&req, Reply::Value(h(&req.payload)), 1001).unwrap();
    assert_eq!(a.resolve(&resp), Some("waiter"));
    assert_eq!(resp.payload, b"m1".to_vec());
}
