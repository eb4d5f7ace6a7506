use sithra::conf::{parse_document, BaseConfig, Config};
use sithra::datapack::DataPack;
use sithra::loader::{
    check_init_reply, is_init_reply, read_action, write_error_ends, LoadStep, Loader, LoaderError,
    PluginInitError, ReadAction, TaskPair,
};

fn loader() -> Loader<u32> {
    let doc = parse_document("[a]\npath = \"a\"\n[b]\npath = \"b\"\nenable = false\n").ok().unwrap();
    let entry = |p: &str, enable: bool| BaseConfig {
        path: p.to_owned(),
        enable,
        args: vec![],
        ref_: None,
        config: None,
        raw_config: None,
    };
    let config = Config::new(
        "c".to_owned(),
        "d".to_owned(),
        doc,
        vec![("a".to_owned(), entry("a", true)), ("b".to_owned(), entry("b", false))],
    );
    Loader::new(config)
}

#[test]
fn load_steps() {
    let mut l = loader();
    assert_eq!(l.begin_load("zzz"), LoadStep::Missing);
    assert_eq!(l.begin_load("b"), LoadStep::Disabled);
    assert_eq!(l.begin_load("a"), LoadStep::Spawn);
    assert!(l.finish_load("a", TaskPair { write: 1, read: 2 }).is_ok());
    assert_eq!(l.begin_load("a"), LoadStep::AlreadyRunning);
    let again = l.finish_load("a", TaskPair { write: 3, read: 4 });
    assert!(matches!(again, Err(TaskPair { write: 3, read: 4 })));
}

#[test]
fn plugins_list_running() {
    let mut l = loader();
    l.finish_load("a", TaskPair { write: 1, read: 2 }).unwrap();
    let ps = l.plugins();
    assert_eq!(ps.len(), 2);
    assert_eq!(ps[0].id, "a");
    assert!(ps[0].running);
    assert_eq!(ps[1].id, "b");
    assert!(!ps[1].running);
}

#[test]
fn abort_hands_back_both_tasks() {
    let mut l = loader();
    l.finish_load("a", TaskPair { write: 1, read: 2 }).unwrap();
    let t = l.abort("a").unwrap();
    assert_eq!((t.write, t.read), (1, 2));
    assert!(!l.is_running("a"));
    assert!(l.abort("a").is_none());
}

#[test]
fn abort_then_load_when_stopped() {
    let mut l = loader();
    let alone = l.begin_load("a");
    assert!(l.abort("a").is_none());
    assert_eq!(l.begin_load("a"), alone);
    assert_eq!(alone, LoadStep::Spawn);
}

#[test]
fn abort_all_drains() {
    let mut l = loader();
    l.finish_load("a", TaskPair { write: 1, read: 2 }).unwrap();
    l.finish_load("b", TaskPair { write: 3, read: 4 }).unwrap();
    let all = l.abort_all();
    assert_eq!(all.len(), 2);
    assert!(!l.is_running("a") && !l.is_running("b"));
}

#[test]
fn init_error_is_reported_and_not_live() {
    let mut l = loader();
    assert_eq!(l.begin_load("a"), LoadStep::Spawn);
    let reply = Err(PluginInitError::ConfigDeserializeError("unknown field `invalid_field`".to_owned()));
    match check_init_reply(reply) {
        Err(LoaderError::PluginInitError(PluginInitError::ConfigDeserializeError(d))) => {
            assert!(d.contains("invalid_field"))
        }
        other => panic!("unexpected {other:?}"),
    }
    assert!(!l.is_running("a"));
    assert!(check_init_reply(Ok(())).is_ok());
    let _ = &mut l;
}

#[test]
fn log_packets_are_replayed_not_broadcast() {
    let log = DataPack::request(1, "/log.create".to_owned(), vec![]);
    assert_eq!(read_action(&log, true), ReadAction::Replay);
    assert_eq!(read_action(&log, false), ReadAction::Drop);
    let other = DataPack::request(2, "/command/message.create".to_owned(), vec![]);
    assert_eq!(read_action(&other, true), ReadAction::Broadcast);
}

#[test]
fn handshake_reply_and_write_errors() {
    assert!(is_init_reply(&DataPack::request(1, "/initialize".to_owned(), vec![])));
    assert!(!is_init_reply(&DataPack::request(1, "/log.create".to_owned(), vec![])));
    assert!(!is_init_reply(&DataPack::response(1, vec![])));
    assert!(write_error_ends(true));
    assert!(!write_error_ends(false));
}
