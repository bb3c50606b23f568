use sshx::app::App;
use sshx::app::InputMode;
use sshx::codec::encode_recent;
use sshx::codec::encode_servers;
use sshx::codec::parse_recent;
use sshx::codec::parse_servers;
use sshx::server::Server;

fn srv(name: &str, user: &str, host: &str, port: &str, jump_host: &str) -> Server {
    Server {
        name: name.to_string(),
        user: user.to_string(),
        host: host.to_string(),
        port: port.to_string(),
        jump_host: jump_host.to_string(),
    }
}

fn same(a: &Server, b: &Server) -> bool {
    a.name == b.name && a.user == b.user && a.host == b.host && a.port == b.port
        && a.jump_host == b.jump_host
}

#[test]
fn round_trip_plain_list() {
    let list = vec![
        srv("web", "root", "10.0.0.5", "22", ""),
        srv("db", "alice", "db.internal", "2222", "bob@j:2022"),
    ];
    let text = encode_servers(&list);
    let back = parse_servers(&text).expect("the written form must read back");
    assert_eq!(back.len(), list.len());
    for (a, b) in back.iter().zip(list.iter()) {
        assert!(same(a, b));
    }
}

#[test]
fn round_trip_awkward_characters() {
    let list = vec![
        srv("qu\"ote", "back\\slash", "h\"o\\st", "2\"2", "a \\\"b\\\" c"),
        srv("naïve 名前", "ütf", "hôst", "22", ""),
        srv("spaces and , commas", "a: b", "{h}", "22", "[j]"),
    ];
    let text = encode_servers(&list);
    let back = parse_servers(&text).expect("escaped fields must read back");
    assert_eq!(back.len(), list.len());
    for (a, b) in back.iter().zip(list.iter()) {
        assert!(same(a, b));
    }
}

#[test]
fn round_trip_empty_list() {
    let text = encode_servers(&vec![]);
    assert_eq!(text, "[]");
    let back = parse_servers(&text).expect("an empty store must read back");
    assert_eq!(back.len(), 0);
}

#[test]
fn written_form_is_stable() {
    let list = vec![srv("web", "root", "10.0.0.5", "22", "")];
    let text = encode_servers(&list);
    assert_eq!(
        text,
        "[\n  {\"name\": \"web\", \"user\": \"root\", \"host\": \"10.0.0.5\", \"port\": \"22\", \"jump_host\": \"\"}\n]"
    );
}

#[test]
fn record_without_relay_field_reads_as_empty() {
    // Text written before relays were stored lacks the jump_host field.
    let text = "[\n  {\"name\": \"web\", \"user\": \"root\", \"host\": \"h\", \"port\": \"22\"}\n]";
    let back = parse_servers(text).expect("the old form must still read");
    assert_eq!(back.len(), 1);
    assert_eq!(back[0].name, "web");
    assert_eq!(back[0].jump_host, "");
}

#[test]
fn malformed_text_is_rejected() {
    assert!(parse_servers("").is_none());
    assert!(parse_servers("[").is_none());
    assert!(parse_servers("[\n]").is_none());
    assert!(parse_servers("{}").is_none());
    assert!(parse_servers("[\n  {\"name\": \"web\"}\n]").is_none());
    assert!(parse_servers("[\n  {\"name\": \"w\", \"user\": \"r\", \"host\": \"h\", \"port\": \"22\", \"jump_host\": \"\"}\n] ").is_none());
    assert!(parse_servers("[\n  {\"name\": \"w\", \"user\": \"r\", \"host\": \"h\", \"port\": \"22\", \"jump_host\": \"").is_none());
}

#[test]
fn recency_round_trip() {
    let text = encode_recent(&None);
    assert_eq!(text, "null");
    assert_eq!(parse_recent(&text), Some(None));

    let key = Some("alice@h:22".to_string());
    let text = encode_recent(&key);
    assert_eq!(text, "\"alice@h:22\"");
    assert_eq!(parse_recent(&text), Some(key));

    let tricky = Some("we\"ird\\key".to_string());
    let text = encode_recent(&tricky);
    assert_eq!(parse_recent(&text), Some(tricky));
}

#[test]
fn malformed_recency_is_rejected() {
    assert!(parse_recent("").is_none());
    assert!(parse_recent("nul").is_none());
    assert!(parse_recent("\"unterminated").is_none());
    assert!(parse_recent("\"extra\" ").is_none());
    assert!(parse_recent("42").is_none());
}

#[test]
fn startup_without_files_is_empty() {
    let (app, degraded) = App::new(None, None);
    assert!(!degraded);
    assert_eq!(app.servers.len(), 0);
    assert_eq!(app.selected, None);
    assert!(matches!(app.input_mode, InputMode::Normal));
    assert_eq!(app.recent_key, None);
}

#[test]
fn startup_reads_store_and_selects_first() {
    let list = vec![srv("A", "u", "h", "1", ""), srv("B", "u", "h", "2", "")];
    let text = encode_servers(&list);
    let (app, degraded) = App::new(Some(&text), None);
    assert!(!degraded);
    assert_eq!(app.servers.len(), 2);
    assert_eq!(app.selected, Some(0));
}

#[test]
fn startup_promotes_remembered_profile() {
    let list = vec![srv("A", "ua", "ha", "1", ""), srv("B", "ub", "hb", "2", "")];
    let text = encode_servers(&list);
    let recent = encode_recent(&Some("ub@hb:2".to_string()));
    let (app, degraded) = App::new(Some(&text), Some(&recent));
    assert!(!degraded);
    let names: Vec<&str> = app.servers.iter().map(|s| s.name.as_str()).collect();
    assert_eq!(names, vec!["B", "A"]);
    assert_eq!(app.selected, Some(0));
    assert_eq!(app.recent_key.as_deref(), Some("ub@hb:2"));
}

#[test]
fn startup_with_unknown_key_keeps_order() {
    let list = vec![srv("A", "ua", "ha", "1", ""), srv("B", "ub", "hb", "2", "")];
    let text = encode_servers(&list);
    let recent = encode_recent(&Some("gone@x:9".to_string()));
    let (app, _) = App::new(Some(&text), Some(&recent));
    let names: Vec<&str> = app.servers.iter().map(|s| s.name.as_str()).collect();
    assert_eq!(names, vec!["A", "B"]);
}

#[test]
fn startup_degrades_on_malformed_store() {
    let (app, degraded) = App::new(Some("not the written form"), None);
    assert!(degraded);
    assert_eq!(app.servers.len(), 0);
    assert_eq!(app.selected, None);
}

#[test]
fn startup_degrades_on_nameless_profile() {
    // Structurally fine text whose profile lacks a name: dropped, flagged.
    let text = "[\n  {\"name\": \"\", \"user\": \"r\", \"host\": \"h\", \"port\": \"22\", \"jump_host\": \"\"}\n]";
    let (app, degraded) = App::new(Some(text), None);
    assert!(degraded);
    assert_eq!(app.servers.len(), 0);
}

#[test]
fn startup_swallows_malformed_recency() {
    let list = vec![srv("A", "u", "h", "1", "")];
    let text = encode_servers(&list);
    let (app, degraded) = App::new(Some(&text), Some("?!"));
    assert!(!degraded);
    assert_eq!(app.recent_key, None);
    assert_eq!(app.servers.len(), 1);
}

#[test]
fn mutations_survive_a_save_and_reload() {
    let mut app = App {
        servers: vec![srv("A", "ua", "ha", "1", ""), srv("B", "ub", "hb", "2", "x@y:1")],
        selected: Some(0),
        input_mode: InputMode::Normal,
        recent_key: None,
    };
    app.delete_current();
    assert_eq!(app.servers.len(), 1);
    let text = encode_servers(&app.servers);
    let back = parse_servers(&text).expect("the written form must read back");
    assert_eq!(back.len(), 1);
    assert!(same(&back[0], &app.servers[0]));
}
