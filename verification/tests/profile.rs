use comet::model::WorkspaceScope;
use comet::profile::{join_path, EngineProfile};

#[test]
fn local_profile_layout() {
    let id = [
        0x00, 0x11, 0x22, 0x33, 0x44, 0x55, 0x66, 0x77, 0x88, 0x99, 0xaa, 0xbb, 0xcc, 0xdd, 0xee,
        0xff,
    ];
    let p = EngineProfile::local("/home/u/.zeron", id);
    assert_eq!(p.device_root(), "/home/u/.zeron");
    assert_eq!(p.store_root(), "/home/u/.zeron/profiles/local");
    assert_eq!(p.uploads_root(), "/home/u/.zeron/profiles/local/uploads");
    assert_eq!(p.org_id(), "local");
    assert_eq!(p.user_id(), "00112233-4455-6677-8899-aabbccddeeff");
    assert_eq!(p.scope(), WorkspaceScope::Local);
}

#[test]
fn join_adds_one_separator() {
    assert_eq!(join_path("/a/", "b"), "/a/b");
    assert_eq!(join_path("/a", "b"), "/a/b");
    assert_eq!(join_path("", "b"), "b");
}
