use sshx::app::App;
use sshx::app::Effect;
use sshx::app::InputAction;
use sshx::app::InputMode;
use sshx::server::Server;

fn srv(name: &str, user: &str, host: &str, port: &str, jump_host: &str) -> Server {
    Server {
        name: name.to_string(),
        user: user.to_string(),
        host: host.to_string(),
        port: port.to_string(),
        jump_host: jump_host.to_string(),
    }
}

fn abc() -> App {
    App {
        servers: vec![
            srv("A", "ua", "ha", "1", ""),
            srv("B", "ub", "hb", "2", ""),
            srv("C", "uc", "hc", "3", ""),
        ],
        selected: Some(0),
        input_mode: InputMode::Normal,
        recent_key: None,
    }
}

#[test]
fn next_cycles_back_after_len_steps() {
    let mut app = abc();
    app.selected = Some(1);
    for _ in 0..3 {
        app.handle_input(InputAction::MoveNext);
    }
    assert_eq!(app.selected, Some(1));
}

#[test]
fn next_and_previous_wrap() {
    let mut app = abc();
    app.selected = Some(2);
    app.handle_input(InputAction::MoveNext);
    assert_eq!(app.selected, Some(0));
    app.handle_input(InputAction::MovePrevious);
    assert_eq!(app.selected, Some(2));
}

#[test]
fn jump_first_and_last() {
    let mut app = abc();
    app.handle_input(InputAction::JumpLast);
    assert_eq!(app.selected, Some(2));
    app.handle_input(InputAction::JumpFirst);
    assert_eq!(app.selected, Some(0));
}

#[test]
fn moves_ignore_empty_list() {
    let mut app = App {
        servers: vec![],
        selected: None,
        input_mode: InputMode::Normal,
        recent_key: None,
    };
    app.handle_input(InputAction::MoveNext);
    assert_eq!(app.selected, None);
    app.handle_input(InputAction::MovePrevious);
    assert_eq!(app.selected, None);
    app.handle_input(InputAction::JumpLast);
    assert_eq!(app.selected, None);
}

#[test]
fn delete_middle_keeps_index_on_successor() {
    // ConfirmDelete on index 1 of [A, B, C], then Confirm: [A, C] with the
    // selection at index 1, now denoting C.
    let mut app = abc();
    app.selected = Some(1);
    app.handle_input(InputAction::BeginDelete);
    assert!(matches!(app.input_mode, InputMode::ConfirmDelete(1)));
    let e = app.handle_input(InputAction::ConfirmYes);
    assert!(matches!(e, Effect::PersistServers));
    assert_eq!(app.servers.len(), 2);
    assert_eq!(app.servers[0].name, "A");
    assert_eq!(app.servers[1].name, "C");
    assert_eq!(app.selected, Some(1));
    assert!(matches!(app.input_mode, InputMode::Normal));
}

#[test]
fn delete_last_steps_back() {
    let mut app = abc();
    app.selected = Some(2);
    app.handle_input(InputAction::BeginDelete);
    app.handle_input(InputAction::ConfirmYes);
    assert_eq!(app.selected, Some(1));
    assert_eq!(app.servers.len(), 2);
}

#[test]
fn delete_only_item_clears_selection() {
    let mut app = App {
        servers: vec![srv("A", "u", "h", "22", "")],
        selected: Some(0),
        input_mode: InputMode::Normal,
        recent_key: None,
    };
    app.handle_input(InputAction::BeginDelete);
    let e = app.handle_input(InputAction::ConfirmYes);
    assert!(matches!(e, Effect::PersistServers));
    assert_eq!(app.servers.len(), 0);
    assert_eq!(app.selected, None);
}

#[test]
fn delete_declined_changes_nothing() {
    let mut app = abc();
    app.selected = Some(1);
    app.handle_input(InputAction::BeginDelete);
    let e = app.handle_input(InputAction::ConfirmNo);
    assert!(matches!(e, Effect::Nothing));
    assert_eq!(app.servers.len(), 3);
    assert_eq!(app.selected, Some(1));
    assert!(matches!(app.input_mode, InputMode::Normal));
}

#[test]
fn add_profile_applies_defaults() {
    // name "web1", host "10.0.0.5", everything else left blank: the stored
    // profile gets user "root", port "22" and an empty relay.
    let mut app = App {
        servers: vec![],
        selected: None,
        input_mode: InputMode::Normal,
        recent_key: None,
    };
    app.handle_input(InputAction::BeginAdd);
    for c in "web1".chars() {
        app.handle_input(InputAction::FieldChar(c));
    }
    app.handle_input(InputAction::FieldAdvance);
    app.handle_input(InputAction::FieldAdvance);
    for c in "10.0.0.5".chars() {
        app.handle_input(InputAction::FieldChar(c));
    }
    // Clear the pre-filled port so the default has to kick in.
    app.handle_input(InputAction::FieldAdvance);
    app.handle_input(InputAction::FieldBackspace);
    app.handle_input(InputAction::FieldBackspace);
    let e = app.handle_input(InputAction::Commit);
    assert!(matches!(e, Effect::PersistServers));
    assert_eq!(app.servers.len(), 1);
    let s = &app.servers[0];
    assert_eq!(s.name, "web1");
    assert_eq!(s.user, "root");
    assert_eq!(s.host, "10.0.0.5");
    assert_eq!(s.port, "22");
    assert_eq!(s.jump_host, "");
    assert_eq!(app.selected, Some(0));
    assert!(matches!(app.input_mode, InputMode::Normal));
}

#[test]
fn commit_with_empty_host_is_swallowed() {
    let mut app = abc();
    app.handle_input(InputAction::BeginAdd);
    for c in "only-a-name".chars() {
        app.handle_input(InputAction::FieldChar(c));
    }
    let e = app.handle_input(InputAction::Commit);
    assert!(matches!(e, Effect::Nothing));
    assert_eq!(app.servers.len(), 3);
    match &app.input_mode {
        InputMode::Adding(st) => {
            assert_eq!(st.name, "only-a-name");
            assert_eq!(st.host, "");
        }
        _ => panic!("commit with an empty host must stay in the form"),
    }
}

#[test]
fn commit_with_empty_name_is_swallowed() {
    let mut app = abc();
    app.selected = Some(0);
    app.handle_input(InputAction::BeginEdit);
    // Erase the name ("A") and try to commit.
    app.handle_input(InputAction::FieldBackspace);
    let e = app.handle_input(InputAction::Commit);
    assert!(matches!(e, Effect::Nothing));
    assert!(matches!(app.input_mode, InputMode::Editing(_)));
    assert_eq!(app.servers[0].name, "A");
}

#[test]
fn cancel_discards_draft() {
    let mut app = abc();
    app.handle_input(InputAction::BeginAdd);
    for c in "zzz".chars() {
        app.handle_input(InputAction::FieldChar(c));
    }
    let e = app.handle_input(InputAction::Cancel);
    assert!(matches!(e, Effect::Nothing));
    assert!(matches!(app.input_mode, InputMode::Normal));
    assert_eq!(app.servers.len(), 3);
}

#[test]
fn edit_commit_replaces_in_place() {
    let mut app = abc();
    app.selected = Some(1);
    app.handle_input(InputAction::BeginEdit);
    match &app.input_mode {
        InputMode::Editing(st) => {
            assert_eq!(st.server_index, 1);
            assert_eq!(st.name, "B");
            assert_eq!(st.port, "2");
        }
        _ => panic!("BeginEdit with a selection must open the form"),
    }
    for c in "2".chars() {
        app.handle_input(InputAction::FieldChar(c));
    }
    let e = app.handle_input(InputAction::Commit);
    assert!(matches!(e, Effect::PersistServers));
    assert_eq!(app.servers[1].name, "B2");
    assert_eq!(app.servers[1].host, "hb");
    assert_eq!(app.selected, Some(1));
    assert!(matches!(app.input_mode, InputMode::Normal));
}

#[test]
fn field_cursor_wraps_both_ways() {
    let mut app = abc();
    app.handle_input(InputAction::BeginAdd);
    for _ in 0..5 {
        app.handle_input(InputAction::FieldAdvance);
    }
    match &app.input_mode {
        InputMode::Adding(st) => assert_eq!(st.field_idx, 0),
        _ => panic!("still adding"),
    }
    app.handle_input(InputAction::FieldRetreat);
    match &app.input_mode {
        InputMode::Adding(st) => assert_eq!(st.field_idx, 4),
        _ => panic!("still adding"),
    }
}

#[test]
fn begin_edit_without_selection_is_ignored() {
    let mut app = App {
        servers: vec![],
        selected: None,
        input_mode: InputMode::Normal,
        recent_key: None,
    };
    app.handle_input(InputAction::BeginEdit);
    assert!(matches!(app.input_mode, InputMode::Normal));
    app.handle_input(InputAction::BeginDelete);
    assert!(matches!(app.input_mode, InputMode::Normal));
}

#[test]
fn connect_promotes_selected_profile() {
    // [A, B, C] with C selected: a secure-shell connect persists C's key,
    // reorders to [C, A, B] and selects index 0.
    let mut app = abc();
    app.selected = Some(2);
    let e = app.handle_input(InputAction::ConnectSecureShell);
    match e {
        Effect::Launch(plan) => {
            assert_eq!(plan.program, "ssh");
            assert_eq!(plan.args, vec!["uc@hc".to_string(), "-p".to_string(), "3".to_string()]);
            assert!(plan.save_recency);
            assert!(plan.save_servers);
        }
        _ => panic!("a connect with a selection must launch"),
    }
    let names: Vec<&str> = app.servers.iter().map(|s| s.name.as_str()).collect();
    assert_eq!(names, vec!["C", "A", "B"]);
    assert_eq!(app.selected, Some(0));
    assert_eq!(app.recent_key.as_deref(), Some("uc@hc:3"));
    assert!(matches!(app.input_mode, InputMode::Normal));
}

#[test]
fn connect_first_profile_moves_nothing() {
    let mut app = abc();
    app.selected = Some(0);
    let e = app.handle_input(InputAction::ConnectMobileShell);
    match e {
        Effect::Launch(plan) => {
            assert_eq!(plan.program, "mosh");
            assert!(plan.save_recency);
            assert!(!plan.save_servers);
        }
        _ => panic!("a connect with a selection must launch"),
    }
    let names: Vec<&str> = app.servers.iter().map(|s| s.name.as_str()).collect();
    assert_eq!(names, vec!["A", "B", "C"]);
    assert_eq!(app.selected, Some(0));
}

#[test]
fn copy_id_leaves_recency_alone() {
    let mut app = abc();
    app.selected = Some(2);
    let e = app.handle_input(InputAction::ConnectCopyId);
    match e {
        Effect::Launch(plan) => {
            assert_eq!(plan.program, "ssh-copy-id");
            assert!(!plan.save_recency);
            assert!(!plan.save_servers);
        }
        _ => panic!("a connect with a selection must launch"),
    }
    let names: Vec<&str> = app.servers.iter().map(|s| s.name.as_str()).collect();
    assert_eq!(names, vec!["A", "B", "C"]);
    assert_eq!(app.selected, Some(2));
    assert_eq!(app.recent_key, None);
}

#[test]
fn connect_without_selection_is_ignored() {
    let mut app = App {
        servers: vec![],
        selected: None,
        input_mode: InputMode::Normal,
        recent_key: None,
    };
    let e = app.handle_input(InputAction::ConnectSecureShell);
    assert!(matches!(e, Effect::Nothing));
}

#[test]
fn quit_only_from_normal_mode() {
    let mut app = abc();
    let e = app.handle_input(InputAction::Quit);
    assert!(matches!(e, Effect::Quit));
}

#[test]
fn failure_message_is_modal() {
    let mut app = abc();
    app.note_command_result(false, "ssh exited with status 255".to_string());
    match &app.input_mode {
        InputMode::ShowMessage(text) => assert_eq!(text, "ssh exited with status 255"),
        _ => panic!("a failed launch must show a message"),
    }
    // Other actions are swallowed while the message shows.
    app.handle_input(InputAction::MoveNext);
    assert!(matches!(app.input_mode, InputMode::ShowMessage(_)));
    assert_eq!(app.selected, Some(0));
    app.handle_input(InputAction::DismissMessage);
    assert!(matches!(app.input_mode, InputMode::Normal));
}

#[test]
fn success_shows_no_message() {
    let mut app = abc();
    app.note_command_result(true, String::new());
    assert!(matches!(app.input_mode, InputMode::Normal));
}

#[test]
fn ssh_args_with_relay_and_port() {
    let s = srv("n", "alice", "h", "2222", "bob@j:2022");
    assert_eq!(
        s.to_ssh_args(),
        vec![
            "-J".to_string(),
            "bob@j:2022".to_string(),
            "alice@h".to_string(),
            "-p".to_string(),
            "2222".to_string(),
        ]
    );
}

#[test]
fn ssh_args_without_port() {
    let s = srv("n", "alice", "h", "", "");
    assert_eq!(s.to_ssh_args(), vec!["alice@h".to_string()]);
}

#[test]
fn sftp_args_use_capital_port_flag() {
    // The file-transfer client spells its port flag -P, unlike the others.
    let s = srv("n", "alice", "h", "2222", "bob@j:2022");
    assert_eq!(
        s.to_sftp_args(),
        vec![
            "-J".to_string(),
            "bob@j:2022".to_string(),
            "-P".to_string(),
            "2222".to_string(),
            "alice@h".to_string(),
        ]
    );
}

#[test]
fn mosh_args_bundle_transport_options() {
    let s = srv("n", "alice", "h", "2222", "bob@j:2022");
    assert_eq!(
        s.to_mosh_args(),
        vec![
            "--ssh".to_string(),
            "ssh -p 2222 -J bob@j:2022".to_string(),
            "alice@h".to_string(),
        ]
    );
    let bare = srv("n", "alice", "h", "", "");
    assert_eq!(bare.to_mosh_args(), vec!["alice@h".to_string()]);
    let port_only = srv("n", "alice", "h", "22", "");
    assert_eq!(
        port_only.to_mosh_args(),
        vec!["--ssh".to_string(), "ssh -p 22".to_string(), "alice@h".to_string()]
    );
    let jump_only = srv("n", "alice", "h", "", "j");
    assert_eq!(
        jump_only.to_mosh_args(),
        vec!["--ssh".to_string(), "ssh -J j".to_string(), "alice@h".to_string()]
    );
}

#[test]
fn copy_id_args_use_proxy_jump_option() {
    let s = srv("n", "alice", "h", "2222", "bob@j:2022");
    assert_eq!(
        s.to_copy_id_args(),
        vec![
            "-o".to_string(),
            "ProxyJump=bob@j:2022".to_string(),
            "-p".to_string(),
            "2222".to_string(),
            "alice@h".to_string(),
        ]
    );
    let bare = srv("n", "alice", "h", "", "");
    assert_eq!(bare.to_copy_id_args(), vec!["alice@h".to_string()]);
}

#[test]
fn address_and_identity_key() {
    let s = srv("display name", "alice", "h", "2222", "");
    assert_eq!(s.address(), "alice@h");
    assert_eq!(s.identity_key(), "alice@h:2222");
}
