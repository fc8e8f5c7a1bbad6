use comet::debounce::SaveDebounce;
use comet::doc_cache::DocCache;
use comet::mirror::{on_document_change, on_recovery, on_watch, MirrorAction};

#[test]
fn open_reuses_and_purge_forgets() {
    let mut table: DocCache<&str> = DocCache::new();
    assert_eq!(table.len(), 0);
    assert!(table.insert_if_absent("c1".into(), 1, "first"));
    assert!(!table.insert_if_absent("c1".into(), 2, "second"));
    assert_eq!(table.get("c1"), Some(&"first"));
    assert!(table.insert_if_absent("c2".into(), 3, "other"));
    assert_eq!(table.len(), 2);
    assert!(table.touch("c1", 10));
    assert!(!table.touch("zz", 10));
    let mut ages = table.ages();
    ages.sort();
    assert_eq!(ages, vec![(3, "c2".to_string()), (10, "c1".to_string())]);
    assert_eq!(table.remove("c1"), Some("first"));
    assert_eq!(table.remove("c1"), None);
    assert!(!table.contains("c1"));
    assert!(table.contains("c2"));
    assert_eq!(table.get("c1"), None);
}

#[test]
fn mirror_refreshes_for_watchers() {
    assert_eq!(on_document_change(0), (true, MirrorAction::Clear));
    assert_eq!(on_document_change(2), (false, MirrorAction::Publish));
    assert_eq!(on_watch(true), (false, MirrorAction::Publish));
    assert_eq!(on_watch(false), (false, MirrorAction::Keep));
    assert_eq!(on_recovery(true, 0), (true, MirrorAction::Keep));
    assert_eq!(on_recovery(true, 1), (false, MirrorAction::Publish));
}

#[test]
fn debounce_saves_once_per_burst() {
    let mut d = SaveDebounce::new();
    assert!(!d.on_deadline());
    d.on_change(100);
    assert_eq!(d.deadline, Some(1100));
    d.on_change(900);
    assert_eq!(d.deadline, Some(1100));
    assert!(d.on_deadline());
    assert_eq!(d.deadline, None);
    d.on_change(2000);
    assert_eq!(d.deadline, Some(3000));
}
