use apfs_fastindex::server::{HelperAction, HelperCommand, HelperState};

fn scan(state: &mut HelperState, path: &str) -> HelperAction {
    state.on_command(HelperCommand::Scan { path: path.to_string() })
}

#[test]
fn server_refuses_nul_paths_and_unknown_commands() {
    let mut state = HelperState::new();
    match scan(&mut state, "/Users/a\0b") {
        HelperAction::ReplyErr(m) => assert_eq!(m, "path contains a NUL byte"),
        other => panic!("unexpected {other:?}"),
    }
    match state.on_command(HelperCommand::Unknown) {
        HelperAction::ReplyErr(m) => assert_eq!(m, "unknown command"),
        other => panic!("unexpected {other:?}"),
    }
    match scan(&mut state, "/Users/a") {
        HelperAction::RunScan(p) => assert_eq!(p, "/Users/a"),
        other => panic!("unexpected {other:?}"),
    }
    assert!(state.outputs_held().is_empty());
}

#[test]
fn server_releases_only_its_own_outputs() {
    let mut state = HelperState::new();
    state.scan_finished("/tmp/apfs-fastindex-out-1.msgpack");
    state.scan_finished("/tmp/apfs-fastindex-out-2.msgpack");
    let cmd = HelperCommand::Release {
        paths: vec![
            "/etc/passwd".to_string(),
            "/tmp/apfs-fastindex-out-1.msgpack".to_string(),
            "/tmp/apfs-fastindex-out-1.msgpack".to_string(),
        ],
    };
    match state.on_command(cmd) {
        HelperAction::Release { unlink, refused } => {
            assert_eq!(unlink, vec!["/tmp/apfs-fastindex-out-1.msgpack".to_string()]);
            assert_eq!(refused, vec!["/etc/passwd".to_string(), "/tmp/apfs-fastindex-out-1.msgpack".to_string()]);
        }
        other => panic!("unexpected {other:?}"),
    }
    assert_eq!(state.outputs_held(), vec!["/tmp/apfs-fastindex-out-2.msgpack".to_string()]);
    match state.on_command(HelperCommand::Quit) {
        HelperAction::Quit { unlink } => assert_eq!(unlink, vec!["/tmp/apfs-fastindex-out-2.msgpack".to_string()]),
        other => panic!("unexpected {other:?}"),
    }
    assert!(state.outputs_held().is_empty());
}

#[test]
fn server_release_compares_paths_by_components() {
    let mut state = HelperState::new();
    state.scan_finished("/tmp/out.msgpack");
    match state.on_command(HelperCommand::Release { paths: vec!["/tmp//out.msgpack".to_string()] }) {
        HelperAction::Release { unlink, refused } => {
            assert_eq!(unlink, vec!["/tmp//out.msgpack".to_string()]);
            assert!(refused.is_empty());
        }
        other => panic!("unexpected {other:?}"),
    }
    assert!(state.outputs_held().is_empty());
}
