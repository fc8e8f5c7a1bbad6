use comet::archived::{archived_chats, archived_count, archived_project_groups, heading_before};
use comet::model::{Chat, Space};

fn chat(id: &str, archived: bool) -> Chat {
    Chat {
        id: id.into(),
        device_id: "d".into(),
        title: None,
        archived,
        cwd: None,
        branch: None,
        checkout_id: None,
        config: None,
        last_message_preview: None,
        last_message_at: None,
        created_at: 0,
        harness_session_id: None,
        harness_session_cwd: None,
        space_id: None,
        last_seen_at: None,
    }
}

fn chat_in_space(id: &str, archived: bool, space_id: Option<&str>) -> Chat {
    let mut chat = chat(id, archived);
    chat.space_id = space_id.map(str::to_owned);
    chat
}

fn space(id: &str, name: &str) -> Space {
    Space {
        id: id.into(),
        device_id: "d".into(),
        path: format!("/tmp/{name}"),
        name: Some(name.into()),
        git_detected: false,
        git_checked_at: None,
        checkout_id: None,
        created_at: 0,
    }
}

#[test]
fn only_archived_rows_show() {
    let chats = vec![chat("a", false), chat("b", true), chat("c", true)];
    let rows = archived_chats(&chats);
    let ids: Vec<&str> = rows.iter().map(|c| c.id.as_str()).collect();
    assert_eq!(ids, ["b", "c"]);
}

#[test]
fn archived_rows_group_by_project() {
    let chats = vec![
        chat_in_space("beta-thread", true, Some("s2")),
        chat_in_space("alpha-first", true, Some("s1")),
        chat_in_space("active", false, Some("s1")),
        chat_in_space("no-project", true, None),
        chat_in_space("alpha-second", true, Some("s1")),
    ];
    let spaces = vec![space("s1", "Alpha"), space("s2", "Beta")];

    let groups = archived_project_groups(chats, &spaces);

    assert_eq!(
        groups
            .iter()
            .map(|group| group.name.as_str())
            .collect::<Vec<_>>(),
        ["Alpha", "Beta", "No project"]
    );
    assert_eq!(
        groups
            .iter()
            .map(|group| group.chats.len())
            .collect::<Vec<_>>(),
        [2, 1, 1]
    );
    assert_eq!(
        groups[0]
            .chats
            .iter()
            .map(|chat| chat.id.as_str())
            .collect::<Vec<_>>(),
        ["alpha-first", "alpha-second"]
    );
}

#[test]
fn headings_sort_ignoring_case_with_missing_spaces_visible() {
    let chats = vec![
        chat_in_space("x", true, Some("s2")),
        chat_in_space("y", true, Some("gone")),
        chat_in_space("z", true, Some("s1")),
        chat_in_space("w", true, None),
    ];
    let mut unnamed = space("s2", "ignored");
    unnamed.name = None;
    unnamed.path = "/work/Beta".into();
    let spaces = vec![space("s1", "alpha"), unnamed];
    let groups = archived_project_groups(chats, &spaces);
    let names: Vec<&str> = groups.iter().map(|g| g.name.as_str()).collect();
    assert_eq!(names, ["/work/Beta", "alpha", "Unknown project", "No project"]);
    let keys: Vec<&str> = groups.iter().map(|g| g.key.as_str()).collect();
    assert_eq!(keys, ["s2", "s1", "gone", "__no-project__"]);
}

#[test]
fn lowercase_decides_heading_order() {
    let chats = vec![chat_in_space("b", true, Some("s2")), chat_in_space("a", true, Some("s1"))];
    let spaces = vec![space("s1", "alpha"), space("s2", "Beta")];
    let groups = archived_project_groups(chats, &spaces);
    let names: Vec<&str> = groups.iter().map(|g| g.name.as_str()).collect();
    assert_eq!(names, ["alpha", "Beta"]);
}

#[test]
fn nothing_archived_gives_no_groups() {
    let groups = archived_project_groups(vec![chat("a", false)], &vec![]);
    assert!(groups.is_empty());
}

#[test]
fn heading_count_matches_archived_rows() {
    let chats = vec![
        chat_in_space("a", true, Some("s1")),
        chat_in_space("b", false, Some("s1")),
        chat_in_space("c", true, None),
        chat_in_space("d", true, Some("s1")),
    ];
    let rows = archived_chats(&chats).len();
    let groups = archived_project_groups(chats, &vec![space("s1", "One")]);
    assert_eq!(archived_count(&groups), 3);
    assert_eq!(archived_count(&groups), rows);
}

#[test]
fn headings_order_by_lowercased_name_then_key() {
    assert!(heading_before("Alpha", "alpha", "s1", "Beta", "beta", "s2"));
    assert!(!heading_before("Beta", "beta", "s2", "Alpha", "alpha", "s1"));
    assert!(heading_before("alpha", "alpha", "s1", "Alpha", "alpha", "s2"));
    assert!(!heading_before("alpha", "alpha", "s2", "Alpha", "alpha", "s1"));
    assert!(heading_before("Zed", "zed", "s9", "No project", "no project", "__no-project__"));
    assert!(!heading_before("No project", "no project", "__no-project__", "Alpha", "alpha", "s1"));
}
