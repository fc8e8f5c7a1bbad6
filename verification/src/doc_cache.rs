//! The table of open chat documents, keyed by chat id: opening reuses an
//! open document, a concurrent open keeps the first one, purging and
//! eviction drop documents, and each access stamps the time.

use vstd::prelude::*;

use crate::text::str_eq;

verus! {

/// An open document with the time it was last accessed.
pub struct OpenEntry<T> {
    pub chat_id: String,
    pub last_access: i64,
    pub handle: T,
}

/// The open documents, at most one per chat id.
pub struct DocCache<T> {
    entries: Vec<OpenEntry<T>>,
}

/// The open documents as a map from chat id to (last access, document).
pub open spec fn map_of<T>(s: Seq<OpenEntry<T>>) -> Map<Seq<char>, (i64, T)>
    decreases s.len(),
{
    if s.len() == 0 {
        Map::empty()
    } else {
        map_of(s.drop_last()).insert(s.last().chat_id@, (s.last().last_access, s.last().handle))
    }
}

/// No chat id occurs twice.
pub open spec fn ids_unique<T>(s: Seq<OpenEntry<T>>) -> bool {
    forall|i: int, j: int|
        0 <= i < j < s.len() ==> (#[trigger] s[i]).chat_id@ != (#[trigger] s[j]).chat_id@
}

proof fn lemma_map_of_index<T>(s: Seq<OpenEntry<T>>, k: int)
    requires
        ids_unique(s),
        0 <= k < s.len(),
    ensures
        map_of(s).contains_key(s[k].chat_id@),
        map_of(s)[s[k].chat_id@] == (s[k].last_access, s[k].handle),
    decreases s.len(),
{
    if k < s.len() - 1 {
        lemma_map_of_index(s.drop_last(), k);
        assert(s.drop_last()[k] == s[k]);
    }
}

proof fn lemma_map_of_absent<T>(s: Seq<OpenEntry<T>>, id: Seq<char>)
    requires
        forall|i: int| 0 <= i < s.len() ==> (#[trigger] s[i]).chat_id@ != id,
    ensures
        !map_of(s).contains_key(id),
    decreases s.len(),
{
    if s.len() > 0 {
        assert forall|i: int| 0 <= i < s.drop_last().len() implies (
        #[trigger] s.drop_last()[i]).chat_id@ != id by {
            assert(s.drop_last()[i] == s[i]);
        }
        lemma_map_of_absent(s.drop_last(), id);
    }
}

proof fn lemma_map_of_dom<T>(s: Seq<OpenEntry<T>>, id: Seq<char>)
    requires
        map_of(s).contains_key(id),
    ensures
        exists|i: int| 0 <= i < s.len() && (#[trigger] s[i]).chat_id@ == id,
{
    if forall|i: int| 0 <= i < s.len() ==> (#[trigger] s[i]).chat_id@ != id {
        lemma_map_of_absent(s, id);
    }
}

proof fn lemma_map_of_update<T>(s: Seq<OpenEntry<T>>, k: int, e: OpenEntry<T>)
    requires
        ids_unique(s),
        0 <= k < s.len(),
        e.chat_id@ == s[k].chat_id@,
    ensures
        map_of(s.update(k, e)) =~= map_of(s).insert(e.chat_id@, (e.last_access, e.handle)),
        ids_unique(s.update(k, e)),
    decreases s.len(),
{
    let u = s.update(k, e);
    assert forall|i: int, j: int| 0 <= i < j < u.len() implies (#[trigger] u[i]).chat_id@ != (
    #[trigger] u[j]).chat_id@ by {
        assert(s[i].chat_id@ != s[j].chat_id@);
    }
    if k == s.len() - 1 {
        assert(u.drop_last() =~= s.drop_last());
        lemma_map_of_absent(s.drop_last(), e.chat_id@);
        assert forall|i: int| 0 <= i < s.drop_last().len() implies (
        #[trigger] s.drop_last()[i]).chat_id@ != e.chat_id@ by {
            assert(s.drop_last()[i] == s[i]);
        }
    } else {
        assert(u.drop_last() =~= s.drop_last().update(k, e));
        assert forall|i: int, j: int| 0 <= i < j < s.drop_last().len() implies (
        #[trigger] s.drop_last()[i]).chat_id@ != (#[trigger] s.drop_last()[j]).chat_id@ by {
            assert(s[i].chat_id@ != s[j].chat_id@);
        }
        lemma_map_of_update(s.drop_last(), k, e);
        assert(s.last().chat_id@ != e.chat_id@) by {
            assert(s[k].chat_id@ != s[s.len() - 1].chat_id@);
        }
    }
}

proof fn lemma_map_of_remove<T>(s: Seq<OpenEntry<T>>, k: int)
    requires
        ids_unique(s),
        0 <= k < s.len(),
    ensures
        map_of(s.remove(k)) =~= map_of(s).remove(s[k].chat_id@),
        ids_unique(s.remove(k)),
    decreases s.len(),
{
    let r = s.remove(k);
    assert forall|i: int, j: int| 0 <= i < j < r.len() implies (#[trigger] r[i]).chat_id@ != (
    #[trigger] r[j]).chat_id@ by {
        let a = if i < k { i } else { i + 1 };
        let b = if j < k { j } else { j + 1 };
        assert(s[a].chat_id@ != s[b].chat_id@);
    }
    let id = s[k].chat_id@;
    if k == s.len() - 1 {
        assert(r =~= s.drop_last());
        assert forall|i: int| 0 <= i < s.drop_last().len() implies (
        #[trigger] s.drop_last()[i]).chat_id@ != id by {
            assert(s.drop_last()[i] == s[i]);
        }
        lemma_map_of_absent(s.drop_last(), id);
    } else {
        assert(r.drop_last() =~= s.drop_last().remove(k));
        assert(r.last() == s.last());
        assert forall|i: int, j: int| 0 <= i < j < s.drop_last().len() implies (
        #[trigger] s.drop_last()[i]).chat_id@ != (#[trigger] s.drop_last()[j]).chat_id@ by {
            assert(s[i].chat_id@ != s[j].chat_id@);
        }
        lemma_map_of_remove(s.drop_last(), k);
        assert(s.last().chat_id@ != id) by {
            assert(s[k].chat_id@ != s[s.len() - 1].chat_id@);
        }
    }
}

/// The table after recording a document opened at `at` for `chat_id`,
/// unless the chat already has one, which then stays.
pub open spec fn after_insert_if_absent<T>(
    table: Map<Seq<char>, (i64, T)>,
    chat_id: Seq<char>,
    at: i64,
    handle: T,
) -> Map<Seq<char>, (i64, T)> {
    if table.contains_key(chat_id) {
        table
    } else {
        table.insert(chat_id, (at, handle))
    }
}

impl<T> View for DocCache<T> {
    type V = Map<Seq<char>, (i64, T)>;

    closed spec fn view(&self) -> Map<Seq<char>, (i64, T)> {
        map_of(self.entries@)
    }
}

impl<T> DocCache<T> {
    #[verifier::type_invariant]
    spec fn inv(self) -> bool {
        ids_unique(self.entries@)
    }

    /// An empty table.
    pub fn new() -> (c: Self)
        ensures
            c@ == Map::<Seq<char>, (i64, T)>::empty(),
    {
        DocCache { entries: Vec::new() }
    }

    fn find(&self, chat_id: &str) -> (r: Option<usize>)
        ensures
            r matches Some(k) ==> k < self.entries@.len() && self.entries@[k as int].chat_id@
                == chat_id@,
            r is None ==> forall|i: int|
                0 <= i < self.entries@.len() ==> (#[trigger] self.entries@[i]).chat_id@
                    != chat_id@,
    {
        let mut k: usize = 0;
        while k < self.entries.len()
            invariant
                k <= self.entries@.len(),
                forall|i: int| 0 <= i < k ==> (#[trigger] self.entries@[i]).chat_id@ != chat_id@,
            decreases self.entries@.len() - k,
        {
            if str_eq(self.entries[k].chat_id.as_str(), chat_id) {
                return Some(k);
            }
            k = k + 1;
        }
        None
    }

    /// The number of open documents.
    pub fn len(&self) -> (n: usize)
        ensures
            n == self@.len(),
    {
        proof {
            use_type_invariant(self);
            lemma_map_of_len(self.entries@);
        }
        self.entries.len()
    }

    /// Whether a document is open for the chat.
    pub fn contains(&self, chat_id: &str) -> (r: bool)
        ensures
            r == self@.contains_key(chat_id@),
    {
        proof {
            use_type_invariant(self);
        }
        match self.find(chat_id) {
            Some(k) => {
                proof {
                    lemma_map_of_index(self.entries@, k as int);
                }
                true
            },
            None => {
                proof {
                    lemma_map_of_absent(self.entries@, chat_id@);
                }
                false
            },
        }
    }

    /// The open document of the chat.
    pub fn get(&self, chat_id: &str) -> (r: Option<&T>)
        ensures
            self@.contains_key(chat_id@) ==> r == Some(&self@[chat_id@].1),
            !self@.contains_key(chat_id@) ==> r is None,
    {
        proof {
            use_type_invariant(self);
        }
        match self.find(chat_id) {
            Some(k) => {
                proof {
                    lemma_map_of_index(self.entries@, k as int);
                }
                Some(&self.entries[k].handle)
            },
            None => {
                proof {
                    lemma_map_of_absent(self.entries@, chat_id@);
                }
                None
            },
        }
    }

    /// Stamps an access to the chat's document, if it is open.
    pub fn touch(&mut self, chat_id: &str, now_ms: i64) -> (found: bool)
        ensures
            found == old(self)@.contains_key(chat_id@),
            found ==> final(self)@ == old(self)@.insert(
                chat_id@,
                (now_ms, old(self)@[chat_id@].1),
            ),
            !found ==> final(self)@ == old(self)@,
    {
        proof {
            use_type_invariant(&*self);
        }
        match self.find(chat_id) {
            Some(k) => {
                proof {
                    lemma_map_of_index(self.entries@, k as int);
                }
                let ghost old_entries = self.entries@;
                let mut entries: Vec<OpenEntry<T>> = Vec::new();
                std::mem::swap(&mut entries, &mut self.entries);
                let mut e = entries.remove(k);
                e.last_access = now_ms;
                let ghost e2 = e;
                entries.insert(k, e);
                proof {
                    assert(entries@ =~= old_entries.update(k as int, e2));
                    lemma_map_of_update(old_entries, k as int, e2);
                }
                self.entries = entries;
                true
            },
            None => {
                proof {
                    lemma_map_of_absent(self.entries@, chat_id@);
                }
                false
            },
        }
    }

    /// Records a newly opened document, unless a document for the chat was
    /// opened meanwhile, which is then kept (`false`).
    pub fn insert_if_absent(&mut self, chat_id: String, now_ms: i64, handle: T) -> (inserted: bool)
        ensures
            inserted == !old(self)@.contains_key(chat_id@),
            inserted ==> final(self)@ == old(self)@.insert(chat_id@, (now_ms, handle)),
            !inserted ==> final(self)@ == old(self)@,
            final(self)@ == after_insert_if_absent(old(self)@, chat_id@, now_ms, handle),
    {
        proof {
            use_type_invariant(&*self);
        }
        match self.find(chat_id.as_str()) {
            Some(k) => {
                proof {
                    lemma_map_of_index(self.entries@, k as int);
                }
                false
            },
            None => {
                proof {
                    lemma_map_of_absent(self.entries@, chat_id@);
                }
                let ghost old_entries = self.entries@;
                let ghost id = chat_id@;
                let mut entries: Vec<OpenEntry<T>> = Vec::new();
                std::mem::swap(&mut entries, &mut self.entries);
                entries.push(OpenEntry { chat_id, last_access: now_ms, handle });
                proof {
                    assert(entries@.drop_last() =~= old_entries);
                    assert forall|i: int, j: int| 0 <= i < j < entries@.len() implies (
                    #[trigger] entries@[i]).chat_id@ != (#[trigger] entries@[j]).chat_id@ by {
                        if j == entries@.len() - 1 {
                            assert(old_entries[i].chat_id@ != id);
                        } else {
                            assert(old_entries[i].chat_id@ != old_entries[j].chat_id@);
                        }
                    }
                }
                self.entries = entries;
                true
            },
        }
    }

    /// Drops the chat's document from the table, handing it back.
    pub fn remove(&mut self, chat_id: &str) -> (r: Option<T>)
        ensures
            old(self)@.contains_key(chat_id@) ==> r == Some(old(self)@[chat_id@].1),
            !old(self)@.contains_key(chat_id@) ==> r is None,
            final(self)@ == old(self)@.remove(chat_id@),
    {
        proof {
            use_type_invariant(&*self);
        }
        match self.find(chat_id) {
            Some(k) => {
                proof {
                    lemma_map_of_index(self.entries@, k as int);
                    lemma_map_of_remove(self.entries@, k as int);
                }
                let mut entries: Vec<OpenEntry<T>> = Vec::new();
                std::mem::swap(&mut entries, &mut self.entries);
                let e = entries.remove(k);
                self.entries = entries;
                Some(e.handle)
            },
            None => {
                proof {
                    lemma_map_of_absent(self.entries@, chat_id@);
                    assert(self@.remove(chat_id@) =~= self@);
                }
                None
            },
        }
    }

    /// The (last access, chat id) of every open document.
    pub fn ages(&self) -> (r: Vec<(i64, String)>)
        ensures
            r@.len() == self@.len(),
            forall|i: int|
                0 <= i < r@.len() ==> self@.contains_key((#[trigger] r@[i]).1@) && self@[r@[i].1@].0
                    == r@[i].0,
            forall|id: Seq<char>|
                #[trigger] self@.contains_key(id) ==> exists|i: int|
                    0 <= i < r@.len() && (#[trigger] r@[i]).1@ == id,
    {
        proof {
            use_type_invariant(self);
            lemma_map_of_len(self.entries@);
        }
        let mut r: Vec<(i64, String)> = Vec::new();
        let mut k: usize = 0;
        while k < self.entries.len()
            invariant
                k <= self.entries@.len(),
                ids_unique(self.entries@),
                r@.len() == k,
                forall|i: int|
                    0 <= i < k ==> (#[trigger] r@[i]).1@ == self.entries@[i].chat_id@ && r@[i].0
                        == self.entries@[i].last_access,
            decreases self.entries@.len() - k,
        {
            r.push((self.entries[k].last_access, self.entries[k].chat_id.clone()));
            k = k + 1;
        }
        proof {
            assert forall|i: int| 0 <= i < r@.len() implies self@.contains_key(
                (#[trigger] r@[i]).1@,
            ) && self@[r@[i].1@].0 == r@[i].0 by {
                lemma_map_of_index(self.entries@, i);
            }
            assert forall|id: Seq<char>| #[trigger] self@.contains_key(id) implies exists|i: int|
                0 <= i < r@.len() && (#[trigger] r@[i]).1@ == id by {
                lemma_map_of_dom(self.entries@, id);
                let i = choose|i: int| 0 <= i < self.entries@.len() && (#[trigger] self.entries@[i]).chat_id@ == id;
                assert(r@[i].1@ == id);
            }
        }
        r
    }
}

proof fn lemma_map_of_len<T>(s: Seq<OpenEntry<T>>)
    requires
        ids_unique(s),
    ensures
        map_of(s).dom().finite(),
        map_of(s).len() == s.len(),
    decreases s.len(),
{
    if s.len() > 0 {
        assert forall|i: int, j: int| 0 <= i < j < s.drop_last().len() implies (
        #[trigger] s.drop_last()[i]).chat_id@ != (#[trigger] s.drop_last()[j]).chat_id@ by {
            assert(s[i].chat_id@ != s[j].chat_id@);
        }
        lemma_map_of_len(s.drop_last());
        assert forall|i: int| 0 <= i < s.drop_last().len() implies (
        #[trigger] s.drop_last()[i]).chat_id@ != s.last().chat_id@ by {
            assert(s[i].chat_id@ != s[s.len() - 1].chat_id@);
        }
        lemma_map_of_absent(s.drop_last(), s.last().chat_id@);
    }
}

} // verus!
