use comet::chat_doc::{DocHost, DocHostConfig};
use comet::eviction::{sort_for_eviction, ResidentDoc};
use comet::model::HarnessId;

fn evict_over_budget(docs: Vec<ResidentDoc>, now: i64, budget: usize) -> Vec<String> {
    DocHost::new(DocHostConfig { device_id: "d".into(), default_harness: HarnessId::Claude })
        .evict_over_budget(docs, now, budget)
}

fn doc(id: &str, last_access: i64, resident: usize, pinned: bool) -> ResidentDoc {
    ResidentDoc { chat_id: id.into(), last_access, resident, pinned }
}

#[test]
fn evicts_oldest_unpinned_until_within_budget() {
    let now = 100_000;
    let docs = vec![
        doc("c", 10, 400, false),
        doc("a", 10, 400, true),
        doc("b", 5, 400, false),
        doc("d", 20, 400, false),
    ];
    // Sorted: b(5), a(10), c(10), d(20); 1600 bytes open, budget 900.
    let evicted = evict_over_budget(docs, now, 900);
    assert_eq!(evicted, vec!["b".to_string(), "c".to_string()]);
}

#[test]
fn recent_documents_stay() {
    let docs = vec![doc("a", 90_000, 10_000, false)];
    assert!(evict_over_budget(docs, 100_000, 0).is_empty());
}

#[test]
fn within_cap_and_budget_nothing_leaves() {
    let docs: Vec<ResidentDoc> = (0..12).map(|i| doc(&format!("c{i:02}"), i, 1, false)).collect();
    assert!(evict_over_budget(docs, 1_000_000, 100).is_empty());
    let docs: Vec<ResidentDoc> = (0..13).map(|i| doc(&format!("c{i:02}"), i, 1, false)).collect();
    assert_eq!(evict_over_budget(docs, 1_000_000, 100), vec!["c00".to_string()]);
}

#[test]
fn sort_orders_by_access_then_id() {
    let sorted = sort_for_eviction(vec![doc("b", 1, 0, false), doc("a", 1, 0, false), doc("z", 0, 0, false)]);
    let ids: Vec<&str> = sorted.iter().map(|d| d.chat_id.as_str()).collect();
    assert_eq!(ids, ["z", "a", "b"]);
}
