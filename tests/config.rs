use sithra::conf::{parse_document, BaseConfig, Config, LoadConfigError};

const BASE: &str = "# plugins\n[echo]\npath = \"./echo\"\nenable = true\n\n[dice]\npath = \"./dice\" # roller\nenable = false\n";

fn entry(path: &str, enable: bool, ref_: Option<&str>) -> BaseConfig {
    BaseConfig {
        path: path.to_owned(),
        enable,
        args: vec!["-v".to_owned()],
        ref_: ref_.map(str::to_owned),
        config: None,
        raw_config: None,
    }
}

fn store() -> Config {
    let doc = parse_document(BASE).ok().unwrap();
    Config::new(
        "config.toml".to_owned(),
        "config.d".to_owned(),
        doc,
        vec![
            ("echo".to_owned(), entry("./echo", true, None)),
            ("dice".to_owned(), entry("./dice", false, Some("shared"))),
        ],
    )
}

#[test]
fn keys_in_order() {
    let c = store();
    assert_eq!(c.keys(), vec!["echo".to_owned(), "dice".to_owned()]);
    assert_eq!(c.keys_enabled(), vec!["echo".to_owned()]);
    assert!(sithra::conf::true_());
}

#[test]
fn duplicate_ids_keep_first() {
    let doc = parse_document(BASE).ok().unwrap();
    let c = Config::new(
        "c".to_owned(),
        "d".to_owned(),
        doc,
        vec![
            ("echo".to_owned(), entry("./first", true, None)),
            ("echo".to_owned(), entry("./second", true, None)),
        ],
    );
    assert_eq!(c.keys(), vec!["echo".to_owned()]);
    assert_eq!(c.get("echo").unwrap().path, "./first");
}

#[test]
fn set_enable_updates_entry_and_document() {
    let mut c = store();
    c.set_enable("echo", false);
    assert!(!c.get("echo").unwrap().enable);
    let text = c.doc.to_string();
    assert!(text.contains("[echo]\npath = \"./echo\"\nenable = false"));
    assert!(text.contains("# plugins"));
    assert!(text.contains("# roller"));
}

#[test]
fn duplicate_then_remove_leaves_source() {
    let mut c = store();
    let before = c.doc.to_string();
    c.duplicate("echo", "echo2");
    let copy = c.get("echo2").unwrap();
    assert!(!copy.enable);
    assert_eq!(copy.path, "./echo");
    assert_eq!(copy.args, vec!["-v".to_owned()]);
    assert!(c.doc.to_string().contains("[echo2]"));
    let removed = c.remove("echo2");
    assert!(removed.is_some());
    let echo = c.get("echo").unwrap();
    assert!(echo.enable);
    assert_eq!(echo.path, "./echo");
    assert_eq!(c.doc.to_string(), before);
    assert_eq!(c.keys(), vec!["echo".to_owned(), "dice".to_owned()]);
}

#[test]
fn duplicate_of_missing_does_nothing() {
    let mut c = store();
    c.duplicate("nope", "other");
    assert!(c.get("other").is_none());
}

#[test]
fn set_config_errors() {
    let mut c = store();
    assert!(matches!(c.set_config("echo", "a = "), Err(LoadConfigError::ParseError(_))));
    match c.set_config("ghost", "a = 1") {
        Err(LoadConfigError::PluginNotExists(id)) => assert_eq!(id, "ghost"),
        _ => panic!("expected PluginNotExists"),
    }
    assert!(c.set_config("echo", "# greeting\na = 1\n").is_ok());
    let e = c.get("echo").unwrap();
    assert!(e.config.is_some());
    assert_eq!(e.raw_config.as_ref().unwrap().to_string(), "# greeting\na = 1\n");
}

#[test]
fn fragment_files() {
    let c = store();
    assert_eq!(c.fragment_file("echo"), "config.d/echo.toml");
    assert_eq!(c.fragment_file("dice"), "config.d/shared.toml");
    assert_eq!(sithra::conf::join_path("dir/", "a.toml"), "dir/a.toml");
    assert_eq!(sithra::conf::join_path("", "a.toml"), "a.toml");
}

#[test]
fn fragment_round_trip_keeps_comments() {
    let text = "# fragment\nkey = \"value\" # why\n\n[table]\nx = 1\n";
    let doc = parse_document(text).ok().unwrap();
    assert_eq!(doc.to_string(), text);
    let again = parse_document(&doc.to_string()).ok().unwrap();
    assert_eq!(again.to_string(), text);
}

#[test]
fn attach_fragment_replaces_config() {
    let mut c = store();
    let v = sithra::conf::parse_value("a = 2").unwrap();
    let d = parse_document("a = 2").ok().unwrap();
    assert!(c.attach_fragment("dice", v, d));
    assert!(c.get("dice").unwrap().config.is_some());
    let v = sithra::conf::parse_value("a = 2").unwrap();
    let d = parse_document("a = 2").ok().unwrap();
    assert!(!c.attach_fragment("nope", v, d));
}

#[test]
fn entries_without_document_item_are_left_out() {
    let doc = parse_document("[echo]\npath = \"./echo\"\n").ok().unwrap();
    let c = Config::new(
        "c".to_owned(),
        "d".to_owned(),
        doc,
        vec![("echo".to_owned(), entry("./echo", true, None)), ("ghost".to_owned(), entry("g", true, None))],
    );
    assert_eq!(c.keys(), vec!["echo".to_owned()]);
}

#[test]
fn duplicate_copies_config_and_document_item() {
    let mut c = store();
    assert!(c.set_config("echo", "a = 1\n").is_ok());
    c.duplicate("echo", "echo2");
    let copy = c.get("echo2").unwrap();
    assert_eq!(copy.raw_config.as_ref().unwrap().to_string(), "a = 1\n");
    assert!(copy.config.is_some());
    let text = c.doc.to_string();
    assert!(text.contains("[echo2]\npath = \"./echo\"\nenable = false"));
    let (removed, item) = c.remove("echo2").unwrap();
    assert!(!removed.enable);
    assert!(item.to_string().contains("enable = false"));
}
