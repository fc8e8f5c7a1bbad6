//! Which open chat documents leave memory: the least recently used go
//! first, once they have been idle long enough, while more documents than the
//! warm cap are open or their estimated residency exceeds the byte budget;
//! pinned documents are passed over.

use vstd::prelude::*;

use crate::chat_doc::DocHost;
use crate::text::{lemma_text_lt_irreflexive, lemma_text_lt_transitive, text_lt, text_order, TextOrder};

verus! {

/// How many documents may stay open regardless of their size.
pub const WARM_DOC_CAP: usize = 12;

/// How long a document must have been idle before it may be evicted.
pub const EVICT_MIN_IDLE_MS: i64 = 30000;

/// What the eviction pass reads of an open document.
#[derive(Clone, Debug, PartialEq)]
pub struct ResidentDoc {
    pub chat_id: String,
    /// Last access, Unix milliseconds.
    pub last_access: i64,
    /// Estimated bytes the document holds in memory.
    pub resident: usize,
    /// Whether the document must stay (watched, shared, or with work left).
    pub pinned: bool,
}

/// Least recently used first; equal access times by chat id.
pub open spec fn doc_before(a: ResidentDoc, b: ResidentDoc) -> bool {
    a.last_access < b.last_access || (a.last_access == b.last_access && text_lt(
        a.chat_id@,
        b.chat_id@,
    ))
}

/// Documents in eviction order.
pub open spec fn docs_sorted(v: Seq<ResidentDoc>) -> bool {
    forall|i: int, j: int| 0 <= i < j < v.len() ==> !doc_before(#[trigger] v[j], #[trigger] v[i])
}

proof fn lemma_doc_before_transitive(a: ResidentDoc, b: ResidentDoc, c: ResidentDoc)
    requires
        doc_before(a, b),
        doc_before(b, c),
    ensures
        doc_before(a, c),
{
    if a.last_access == b.last_access && b.last_access == c.last_access {
        lemma_text_lt_transitive(a.chat_id@, b.chat_id@, c.chat_id@);
    }
}

fn doc_before_exec(a: &ResidentDoc, b: &ResidentDoc) -> (r: bool)
    ensures
        r == doc_before(*a, *b),
{
    if a.last_access < b.last_access {
        true
    } else if a.last_access == b.last_access {
        text_order(a.chat_id.as_str(), b.chat_id.as_str()) == TextOrder::Less
    } else {
        false
    }
}

/// The documents in eviction order: a sorted rearrangement of `docs`.
pub fn sort_for_eviction(docs: Vec<ResidentDoc>) -> (r: Vec<ResidentDoc>)
    ensures
        docs_sorted(r@),
        r@.to_multiset() == docs@.to_multiset(),
{
    let mut docs = docs;
    let ghost orig = docs@;
    let mut v: Vec<ResidentDoc> = Vec::new();
    proof {
        assert(orig.subrange(0, 0) =~= Seq::<ResidentDoc>::empty());
        assert(docs@ =~= orig.subrange(0, orig.len() as int));
    }
    while docs.len() > 0
        invariant
            docs_sorted(v@),
            docs@.len() <= orig.len(),
            docs@ == orig.subrange(orig.len() - docs@.len(), orig.len() as int),
            v@.to_multiset() == orig.subrange(0, orig.len() - docs@.len()).to_multiset(),
        decreases docs.len(),
    {
        let ghost taken = orig.len() - docs@.len();
        let ghost rest = docs@;
        assert(rest == orig.subrange(taken, orig.len() as int));
        assert(rest.len() > 0);
        assert(rest[0] == orig.subrange(taken, orig.len() as int)[0]);
        assert(rest[0] == orig[taken]);
        let x = docs.remove(0);
        assert(docs@ =~= rest.subrange(1, rest.len() as int));
        assert(x == orig[taken]);
        assert(docs@ =~= orig.subrange(orig.len() - docs@.len(), orig.len() as int));
        assert(orig.subrange(0, taken + 1) =~= orig.subrange(0, taken).push(x));
        let mut p: usize = 0;
        while p < v.len() && !doc_before_exec(&x, &v[p])
            invariant
                p <= v.len(),
                forall|i: int| 0 <= i < p ==> !doc_before(x, #[trigger] v@[i]),
            decreases v.len() - p,
        {
            p = p + 1;
        }
        let ghost old_v = v@;
        proof {
            vstd::seq_lib::to_multiset_insert(old_v, p as int, x);
            vstd::seq_lib::to_multiset_build(orig.subrange(0, taken), x);
        }
        v.insert(p, x);
        proof {
            assert forall|i: int, j: int| 0 <= i < j < v@.len() implies !doc_before(
                #[trigger] v@[j],
                #[trigger] v@[i],
            ) by {
                if j < p {
                    assert(!doc_before(old_v[j], old_v[i]));
                } else if j == p {
                    assert(v@[i] == old_v[i]);
                } else if i < p {
                    assert(v@[j] == old_v[j - 1]);
                    assert(v@[i] == old_v[i]);
                    assert(!doc_before(old_v[j - 1], old_v[i]));
                } else if i == p {
                    assert(v@[j] == old_v[j - 1]);
                    lemma_text_lt_irreflexive(old_v[p as int].chat_id@);
                    if j - 1 > p {
                        assert(!doc_before(old_v[j - 1], old_v[p as int]));
                    }
                    if doc_before(old_v[j - 1], x) {
                        lemma_doc_before_transitive(old_v[j - 1], x, old_v[p as int]);
                    }
                } else {
                    assert(!doc_before(old_v[j - 1], old_v[i - 1]));
                }
            }
        }
    }
    assert(orig.subrange(0, orig.len() as int) =~= orig);
    v
}

/// The summed residency of the documents from position `i` on.
pub open spec fn total_from(v: Seq<ResidentDoc>, i: int) -> int
    decreases v.len() - i,
{
    if i < 0 || i >= v.len() {
        0
    } else {
        v[i].resident + total_from(v, i + 1)
    }
}

/// The chat ids evicted, walking sorted documents from `i` on with `count`
/// documents and `total` estimated bytes still open: stop at the first one
/// idle for less than the minimum, or once within the warm cap and the
/// budget; evict each unpinned one passed.
pub open spec fn evictions_from(
    v: Seq<ResidentDoc>,
    i: int,
    now_ms: int,
    count: int,
    total: int,
    budget: int,
) -> Seq<Seq<char>>
    decreases v.len() - i,
{
    if i < 0 || i >= v.len() {
        Seq::empty()
    } else if now_ms - v[i].last_access < EVICT_MIN_IDLE_MS {
        Seq::empty()
    } else if count <= WARM_DOC_CAP && total <= budget {
        Seq::empty()
    } else if !v[i].pinned {
        seq![v[i].chat_id@] + evictions_from(
            v,
            i + 1,
            now_ms,
            count - 1,
            total - v[i].resident,
            budget,
        )
    } else {
        evictions_from(v, i + 1, now_ms, count, total, budget)
    }
}

proof fn lemma_total_from_bound(v: Seq<ResidentDoc>, i: int)
    requires
        0 <= i <= v.len(),
    ensures
        0 <= total_from(v, i) <= (v.len() - i) * usize::MAX,
    decreases v.len() - i,
{
    if i < v.len() {
        lemma_total_from_bound(v, i + 1);
        assert((v.len() - i) * usize::MAX == (v.len() - (i + 1)) * usize::MAX + usize::MAX)
            by (nonlinear_arith);
    }
}

/// The chat ids to evict from documents already in eviction order.
pub fn plan_evictions(sorted: &Vec<ResidentDoc>, now_ms: i64, budget: usize) -> (r: Vec<String>)
    requires
        docs_sorted(sorted@),
        sorted@.len() <= u64::MAX,
    ensures
        r@.map_values(|s: String| s@) == evictions_from(
            sorted@,
            0,
            now_ms as int,
            sorted@.len() as int,
            total_from(sorted@, 0),
            budget as int,
        ),
{
    let n = sorted.len();
    let mut total: u128 = 0;
    let mut k: usize = n;
    while k > 0
        invariant
            n == sorted@.len(),
            n <= u64::MAX,
            k <= n,
            total as int == total_from(sorted@, k as int),
        decreases k,
    {
        proof {
            lemma_total_from_bound(sorted@, k as int);
            assert((n - k) * usize::MAX <= u64::MAX * usize::MAX) by (nonlinear_arith)
                requires
                    k <= n,
                    n <= u64::MAX,
            ;
        }
        total = total + sorted[k - 1].resident as u128;
        k = k - 1;
    }
    let ghost whole = evictions_from(
        sorted@,
        0,
        now_ms as int,
        sorted@.len() as int,
        total_from(sorted@, 0),
        budget as int,
    );
    let mut count: u128 = n as u128;
    let mut r: Vec<String> = Vec::new();
    let mut i: usize = 0;
    let mut stop = false;
    assert(r@.map_values(|s: String| s@) =~= Seq::<Seq<char>>::empty());
    while i < n && !stop
        invariant
            n == sorted@.len(),
            i <= n,
            count + i >= n,
            count <= n,
            total >= total_from(sorted@, i as int),
            whole == evictions_from(
                sorted@,
                0,
                now_ms as int,
                sorted@.len() as int,
                total_from(sorted@, 0),
                budget as int,
            ),
            whole == r@.map_values(|s: String| s@) + evictions_from(
                sorted@,
                i as int,
                now_ms as int,
                count as int,
                total as int,
                budget as int,
            ),
            stop ==> evictions_from(
                sorted@,
                i as int,
                now_ms as int,
                count as int,
                total as int,
                budget as int,
            ) == Seq::<Seq<char>>::empty(),
        decreases n - i + (if stop {
            0int
        } else {
            1int
        }),
    {
        let d = &sorted[i];
        let idle = (now_ms as i128) - (d.last_access as i128);
        if idle < EVICT_MIN_IDLE_MS as i128 {
            stop = true;
        } else if count <= WARM_DOC_CAP as u128 && total <= budget as u128 {
            stop = true;
        } else {
            proof {
                lemma_total_from_bound(sorted@, i + 1);
            }
            if !d.pinned {
                let ghost before = r@.map_values(|s: String| s@);
                let ghost tail = evictions_from(
                    sorted@,
                    i + 1,
                    now_ms as int,
                    count - 1,
                    total - d.resident,
                    budget as int,
                );
                r.push(d.chat_id.clone());
                assert(r@.map_values(|s: String| s@) =~= before.push(d.chat_id@));
                assert(before.push(d.chat_id@) + tail =~= before + (seq![d.chat_id@] + tail));
                proof {
                    lemma_total_from_bound(sorted@, i + 1);
                }
                count = count - 1;
                total = total - d.resident as u128;
            }
            i = i + 1;
        }
    }
    r
}


impl DocHost {
    /// The chat ids evicted from the open documents, in eviction order (chat
    /// ids are the documents' keys, so the order is fully determined).
    pub fn evict_over_budget(&self, docs: Vec<ResidentDoc>, now_ms: i64, budget: usize) -> (r: Vec<String>)
        requires
            docs@.len() <= u64::MAX,
        ensures
            exists|s: Seq<ResidentDoc>|
                docs_sorted(s) && s.to_multiset() == docs@.to_multiset() && r@.map_values(
                    |t: String| t@,
                ) == evictions_from(
                    s,
                    0,
                    now_ms as int,
                    s.len() as int,
                    total_from(s, 0),
                    budget as int,
                ),
    {
        let sorted = sort_for_eviction(docs);
        proof {
            vstd::seq_lib::to_multiset_len(sorted@);
            vstd::seq_lib::to_multiset_len(docs@);
        }
        let r = plan_evictions(&sorted, now_ms, budget);
        assert(docs_sorted(sorted@) && sorted@.to_multiset() == docs@.to_multiset());
        r
    }
}

} // verus!
