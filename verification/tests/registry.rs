use comet::model::{Chat, ChatConfig, Device, EngineError, HarnessId, SandboxLevel, Session, Space};
use comet::registry::{
    device_name_on_boot, gitdir_target, merge_sessions, message_preview, worktree_root_len,
    SpaceChoice, WorkspaceHost, WorkspaceHostConfig, UTC_MAX_MILLIS, UTC_MIN_MILLIS,
};

fn host(device: &str) -> WorkspaceHost {
    WorkspaceHost::new(WorkspaceHostConfig {
        device_id: device.into(),
        device_name: "Mac".into(),
        platform: "macos".into(),
    })
}

fn chat(id: &str, device: &str) -> Chat {
    Chat {
        id: id.into(),
        device_id: device.into(),
        title: None,
        archived: false,
        cwd: None,
        branch: None,
        checkout_id: None,
        config: None,
        last_message_preview: None,
        last_message_at: None,
        created_at: 5,
        harness_session_id: None,
        harness_session_cwd: None,
        space_id: None,
        last_seen_at: None,
    }
}

fn space(id: &str, device: &str, path: &str) -> Space {
    Space {
        id: id.into(),
        device_id: device.into(),
        path: path.into(),
        name: None,
        git_detected: false,
        git_checked_at: None,
        checkout_id: None,
        created_at: 1,
    }
}

fn session(chat_id: &str, device: &str, running: bool) -> Session {
    Session { chat_id: chat_id.into(), device_id: device.into(), running }
}

#[test]
fn boot_repairs_the_legacy_unknown_device_sentinel() {
    assert_eq!(
        device_name_on_boot(Some("unknown-device"), "MacBook Pro"),
        "MacBook Pro"
    );
}

#[test]
fn boot_preserves_a_user_selected_device_name() {
    assert_eq!(
        device_name_on_boot(Some("Work laptop"), "MacBook Pro"),
        "Work laptop"
    );
}

#[test]
fn boot_replaces_blank_and_padded_sentinel_names() {
    assert_eq!(device_name_on_boot(Some("   "), "Mac"), "Mac");
    assert_eq!(device_name_on_boot(Some("\t unknown-device \n"), "Mac"), "Mac");
    assert_eq!(device_name_on_boot(None, "Mac"), "Mac");
    // A kept name is written back untrimmed.
    assert_eq!(device_name_on_boot(Some(" Desk "), "Mac"), " Desk ");
}

#[test]
fn boot_name_is_stable_across_boots() {
    let first = device_name_on_boot(Some("unknown-device"), "Mac");
    let second = device_name_on_boot(Some(first.as_str()), "Mac");
    assert_eq!(first, second);
}

#[test]
fn boot_device_keeps_first_seen_time() {
    let config = WorkspaceHostConfig {
        device_id: "d1".into(),
        device_name: "Mac".into(),
        platform: "macos".into(),
    };
    let existing = Device {
        id: "d1".into(),
        name: "Desk".into(),
        platform: "old".into(),
        last_seen_at: Some(3),
        created_at: Some(2),
        version: None,
    };
    let h = WorkspaceHost::new(config);
    let d = h.boot_device(Some(&existing), 100, "0.1.0");
    assert_eq!(d.name, "Desk");
    assert_eq!(d.platform, "macos");
    assert_eq!(d.created_at, Some(2));
    assert_eq!(d.last_seen_at, Some(100));
    assert_eq!(d.version.as_deref(), Some("0.1.0"));
    let fresh = h.boot_device(None, 100, "0.1.0");
    assert_eq!(fresh.name, "Mac");
    assert_eq!(fresh.created_at, Some(100));
}

#[test]
fn host_is_this_device_unless_recorded_elsewhere() {
    assert!(host("d1").is_host(None));
    assert!(host("d1").is_host(Some(&chat("c", "d1"))));
    assert!(!host("d1").is_host(Some(&chat("c", "d2"))));
}

#[test]
fn create_chat_paths() {
    assert_eq!(
        host("d1").create_chat(true, None, Some("d2"), "c", None, None, 9),
        Ok(None)
    );
    assert_eq!(
        host("d1").create_chat(false, Some(space("s", "d2", "/p")), None, "c", None, None, 9),
        Err(EngineError::Other("local mode cannot create a remote chat".into()))
    );
    assert_eq!(
        host("d1").create_chat(false, None, Some("d2"), "c", None, None, 9),
        Err(EngineError::Other("local mode has one device".into()))
    );
    let c = host("d1").create_chat(false, Some(space("s", "d1", "/p")), None, "c", None, None, 9)
        .unwrap()
        .unwrap();
    assert_eq!(c.cwd.as_deref(), Some("/p"));
    assert_eq!(c.space_id.as_deref(), Some("s"));
    assert_eq!(c.created_at, 9);
    let c = host("d1").create_chat(false, None, Some("d1"), "c", None, None, 9).unwrap().unwrap();
    assert_eq!(c.cwd.as_deref(), Some("~"));
    let c = host("d1").create_chat(false, None, None, "c", None, Some("/w".into()), 9)
        .unwrap()
        .unwrap();
    assert_eq!(c.cwd.as_deref(), Some("/w"));
    assert_eq!(c.device_id, "d1");
}

#[test]
fn create_space_paths() {
    let spaces = vec![space("s1", "d1", "/a")];
    assert_eq!(
        host("d1").create_space(&spaces, "s2", "d2", "/b", None, false, 3),
        Err(EngineError::Other("local mode has one device".into()))
    );
    assert_eq!(host("d1").create_space(&spaces, "s1", "d1", "/b", None, false, 3), Ok(None));
    assert_eq!(host("d1").create_space(&spaces, "s2", "d1", "/a", None, false, 3), Ok(None));
    let s = host("d1").create_space(&spaces, "s2", "d1", "/b", Some("B".into()), true, 3)
        .unwrap()
        .unwrap();
    assert_eq!(s.id, "s2");
    assert_eq!(s.path, "/b");
    assert_eq!(s.name.as_deref(), Some("B"));
    assert!(s.git_detected);
}

#[test]
fn space_git_only_for_own_spaces() {
    assert!(host("d1").set_space_git(Some(&space("s", "d1", "/a"))));
    assert!(!host("d1").set_space_git(Some(&space("s", "d2", "/a"))));
    assert!(!host("d1").set_space_git(None));
}

#[test]
fn activity_times_follow_chrono_range() {
    let updated = host("d1").set_chat_activity(Some(chat("c", "d1")), Some(1_700_000_000_000), Some(42)).unwrap();
    assert_eq!(updated.last_message_at, Some(1_700_000_000_000));
    assert_eq!(updated.created_at, 42);
    let mut stamped = chat("c", "d1");
    stamped.last_message_at = Some(7);
    let cleared = host("d1").set_chat_activity(Some(stamped), Some(i64::MAX), Some(i64::MIN)).unwrap();
    assert_eq!(cleared.last_message_at, None);
    assert_eq!(cleared.created_at, 5);
    assert_eq!(host("d1").set_chat_activity(None, Some(1), None), None);
}

#[test]
fn activity_times_at_the_edges_of_chrono_range() {
    let at = |ms: i64| {
        host("d1")
            .set_chat_activity(Some(chat("c", "d1")), Some(ms), None)
            .unwrap()
            .last_message_at
    };
    assert_eq!(at(UTC_MIN_MILLIS), Some(UTC_MIN_MILLIS));
    assert_eq!(at(UTC_MAX_MILLIS), Some(UTC_MAX_MILLIS));
    assert_eq!(at(UTC_MIN_MILLIS - 1), None);
    assert_eq!(at(UTC_MAX_MILLIS + 1), None);
}

#[test]
fn chat_host_moves_only_within_this_device() {
    assert_eq!(
        host("d1").set_chat_host(Some(chat("c", "d1")), "d2"),
        Err(EngineError::Other("local mode has one device".into()))
    );
    assert_eq!(host("d1").set_chat_host(None, "d1"), Ok(None));
    let moved = host("d1").set_chat_host(Some(chat("c", "old")), "d1").unwrap().unwrap();
    assert_eq!(moved.device_id, "d1");
    assert!(host("d1").rename_device("d1"));
    assert!(!host("d1").rename_device("d2"));
}

#[test]
fn chat_row_projections() {
    let mut c = chat("c", "d1");
    assert_eq!(host("d1").chat_config(Some(c.clone())), None);
    c.config = Some(ChatConfig {
        harness: HarnessId::Codex,
        model: None,
        reasoning: None,
        model_options: vec![],
        sandbox: SandboxLevel::ReadOnly,
    });
    c.harness_session_id = Some("h".into());
    c.harness_session_cwd = Some("/w".into());
    assert_eq!(host("d1").chat_config(Some(c.clone())).unwrap().harness, HarnessId::Codex);
    assert_eq!(
        host("d1").chat_harness_session(Some(c)),
        Some(("h".to_string(), Some("/w".to_string())))
    );
    assert_eq!(host("d1").chat_harness_session(None), None);
}

#[test]
fn preview_keeps_first_120_characters() {
    let long: String = "é".repeat(130);
    assert_eq!(message_preview(&long).chars().count(), 120);
    assert_eq!(message_preview("short"), "short");
}

#[test]
fn space_for_path_prefers_existing_then_worktree_root() {
    let spaces = vec![space("s1", "d2", "/a"), space("s2", "d1", "/a"), space("s3", "d1", "/root")];
    assert_eq!(
        host("d1").space_for_path(&spaces, "/a", None, "new".into(), 4),
        SpaceChoice::Existing("s2".into())
    );
    assert_eq!(
        host("d1").space_for_path(&spaces, "/wt", Some("/root".into()), "new".into(), 4),
        SpaceChoice::Existing("s3".into())
    );
    match host("d1").space_for_path(&spaces, "/wt", Some("/other".into()), "new".into(), 4) {
        SpaceChoice::Create(s) => {
            assert_eq!(s.id, "new");
            assert_eq!(s.path, "/other");
            assert_eq!(s.device_id, "d1");
        }
        other => panic!("unexpected {other:?}"),
    }
    match host("d1").space_for_path(&spaces, "/b", None, "new".into(), 4) {
        SpaceChoice::Create(s) => assert_eq!(s.path, "/b"),
        other => panic!("unexpected {other:?}"),
    }
}

#[test]
fn merge_prefers_live_sessions_and_sorts() {
    let rows = vec![
        session("b", "d2", false),
        session("a", "d1", false),
        session("c", "d2", false),
        session("b", "d3", true),
    ];
    let local = vec![session("c", "d1", true), session("z", "d1", false)];
    let merged = merge_sessions("d1", &rows, &local);
    assert_eq!(
        merged,
        vec![
            session("b", "d3", true),
            session("c", "d1", true),
            session("z", "d1", false)
        ]
    );
}

#[test]
fn gitdir_line_is_found_and_trimmed() {
    assert_eq!(
        gitdir_target("gitdir: /r/.git/worktrees/wt\n").as_deref(),
        Some("/r/.git/worktrees/wt")
    );
    assert_eq!(
        gitdir_target("other\r\ngitdir:  rel/path \r\n").as_deref(),
        Some("rel/path")
    );
    assert_eq!(gitdir_target("nothing here\n"), None);
    assert_eq!(gitdir_target(""), None);
}

#[test]
fn worktree_root_needs_dot_git_worktrees() {
    let parts = |v: &[Option<&str>]| -> Vec<Option<String>> {
        v.iter().map(|p| p.map(|s| s.to_string())).collect()
    };
    assert_eq!(
        worktree_root_len(&parts(&[None, Some("r"), Some(".git"), Some("worktrees"), Some("wt")])),
        Some(2)
    );
    assert_eq!(worktree_root_len(&parts(&[Some("r"), Some(".git"), Some("wt")])), None);
    assert_eq!(worktree_root_len(&parts(&[Some("worktrees"), Some("wt")])), None);
}
