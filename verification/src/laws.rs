//! Properties that hold across calls of the engine's rules.

use vstd::prelude::*;

use crate::archived::{archived_with_key, grouping};
use crate::chat_doc::{drainable, next_drainable_from, skipped_has};
use crate::debounce::{after_change, SNAPSHOT_DEBOUNCE_MS};
use crate::doc_cache::after_insert_if_absent;
use crate::eviction::{evictions_from, ResidentDoc, EVICT_MIN_IDLE_MS};
use crate::model::{Chat, Session, SessionCommandEntry, Space};
use crate::registry::{
    boot_device_name, find_space, find_space_from, is_new_chat, last_with, merge_input, remote_rows,
    worktree_root_len_of,
};
use crate::model::ChatConfig;

verus! {

/// Booting twice with the same detected name writes the same device name as
/// booting once: the name written on boot is kept by the next boot.
pub proof fn lemma_boot_name_stable(existing: Option<Seq<char>>, detected: Seq<char>)
    ensures
        boot_device_name(Some(boot_device_name(existing, detected)), detected) == boot_device_name(
            existing,
            detected,
        ),
{
}

/// Whether `id` is the chat id of a document at or after `i` that is not
/// pinned and has been idle for at least the minimum idle time.
pub open spec fn evictable_doc(v: Seq<ResidentDoc>, i: int, now_ms: int, id: Seq<char>) -> bool {
    exists|j: int|
        i <= j < v.len() && (#[trigger] v[j]).chat_id@ == id && !v[j].pinned && now_ms
            - v[j].last_access >= EVICT_MIN_IDLE_MS
}

/// Every chat id an eviction pass evicts belongs to a document that is not
/// pinned and has been idle for at least the minimum idle time.
pub proof fn lemma_evictions_spare_pinned_and_recent(
    v: Seq<ResidentDoc>,
    i: int,
    now_ms: int,
    count: int,
    total: int,
    budget: int,
)
    ensures
        forall|k: int|
            0 <= k < evictions_from(v, i, now_ms, count, total, budget).len() ==> evictable_doc(
                v,
                i,
                now_ms,
                #[trigger] evictions_from(v, i, now_ms, count, total, budget)[k],
            ),
    decreases v.len() - i,
{
    if 0 <= i < v.len() {
        lemma_evictions_spare_pinned_and_recent(
            v,
            i + 1,
            now_ms,
            count - 1,
            total - v[i].resident,
            budget,
        );
        lemma_evictions_spare_pinned_and_recent(v, i + 1, now_ms, count, total, budget);
        let e = evictions_from(v, i, now_ms, count, total, budget);
        if now_ms - v[i].last_access >= EVICT_MIN_IDLE_MS && !(count <= 12 && total <= budget)
            && !v[i].pinned {
            let tail = evictions_from(v, i + 1, now_ms, count - 1, total - v[i].resident, budget);
            assert(e == seq![v[i].chat_id@] + tail);
            assert forall|k: int| 0 <= k < e.len() implies evictable_doc(v, i, now_ms, #[trigger] e[k]) by {
                if k == 0 {
                    assert(v[i].chat_id@ == e[0]);
                } else {
                    assert(e[k] == tail[k - 1]);
                    assert(evictable_doc(v, i + 1, now_ms, tail[k - 1]));
                    let j = choose|j: int|
                        i + 1 <= j < v.len() && (#[trigger] v[j]).chat_id@ == tail[k - 1] && !v[j].pinned
                            && now_ms - v[j].last_access >= EVICT_MIN_IDLE_MS;
                    assert(v[j].chat_id@ == e[k]);
                }
            }
        } else if now_ms - v[i].last_access >= EVICT_MIN_IDLE_MS && !(count <= 12 && total <= budget) {
            let tail = evictions_from(v, i + 1, now_ms, count, total, budget);
            assert forall|k: int| 0 <= k < e.len() implies evictable_doc(v, i, now_ms, #[trigger] e[k]) by {
                assert(evictable_doc(v, i + 1, now_ms, tail[k]));
                let j = choose|j: int|
                    i + 1 <= j < v.len() && (#[trigger] v[j]).chat_id@ == tail[k] && !v[j].pinned
                        && now_ms - v[j].last_access >= EVICT_MIN_IDLE_MS;
                assert(v[j].chat_id@ == e[k]);
            }
        }
    }
}

/// Once the processed ledger records the command the drain took up, the
/// drain never takes up a command with that id again, however many more
/// commands it passes over.
pub proof fn lemma_claimed_command_not_taken_again(
    commands: Seq<SessionCommandEntry>,
    skipped: Seq<String>,
    more_skipped: Seq<String>,
    processed: Seq<bool>,
    claimed: Seq<bool>,
    i: int,
)
    requires
        processed.len() == commands.len(),
        claimed.len() == commands.len(),
        next_drainable_from(commands, skipped, processed, 0) == Some(i),
        forall|k: int|
            0 <= k < commands.len() ==> #[trigger] claimed[k] == (processed[k] || commands[k].id@
                == commands[i].id@),
    ensures
        next_drainable_from(commands, more_skipped, claimed, 0) matches Some(j) ==> commands[j].id@
            != commands[i].id@,
{
    lemma_next_drainable_is_drainable(commands, more_skipped, claimed, 0);
}

/// How many commands from position `i` on the drain may still take up.
pub open spec fn drainable_count(
    commands: Seq<SessionCommandEntry>,
    skipped: Seq<String>,
    processed: Seq<bool>,
    i: int,
) -> nat
    decreases commands.len() - i,
{
    if i < 0 || i >= commands.len() {
        0
    } else {
        (if drainable(commands[i], skipped, processed[i]) {
            1nat
        } else {
            0nat
        }) + drainable_count(commands, skipped, processed, i + 1)
    }
}

/// A drain pass runs to completion: every step that does not halt records
/// the command it took up in the ledger and keeps everything skipped so far
/// skipped, so it leaves strictly fewer commands to take up. Over a fixed
/// list of commands, a pass ends after at most as many steps as it had
/// commands to take.
pub proof fn lemma_drain_step_shrinks(
    commands: Seq<SessionCommandEntry>,
    skipped: Seq<String>,
    more_skipped: Seq<String>,
    processed: Seq<bool>,
    claimed: Seq<bool>,
    i: int,
)
    requires
        processed.len() == commands.len(),
        claimed.len() == commands.len(),
        next_drainable_from(commands, skipped, processed, 0) == Some(i),
        forall|k: int|
            0 <= k < commands.len() ==> #[trigger] claimed[k] == (processed[k] || commands[k].id@
                == commands[i].id@),
        forall|x: Seq<char>| #[trigger] skipped_has(skipped, x) ==> skipped_has(more_skipped, x),
    ensures
        drainable_count(commands, more_skipped, claimed, 0) < drainable_count(
            commands,
            skipped,
            processed,
            0,
        ),
{
    lemma_next_drainable_is_drainable(commands, skipped, processed, 0);
    lemma_count_shrinks(commands, skipped, more_skipped, processed, claimed, i, 0);
}

proof fn lemma_count_shrinks(
    commands: Seq<SessionCommandEntry>,
    skipped: Seq<String>,
    more_skipped: Seq<String>,
    processed: Seq<bool>,
    claimed: Seq<bool>,
    i: int,
    j: int,
)
    requires
        processed.len() == commands.len(),
        claimed.len() == commands.len(),
        0 <= i < commands.len(),
        0 <= j,
        drainable(commands[i], skipped, processed[i]),
        forall|k: int|
            0 <= k < commands.len() ==> #[trigger] claimed[k] == (processed[k] || commands[k].id@
                == commands[i].id@),
        forall|x: Seq<char>| #[trigger] skipped_has(skipped, x) ==> skipped_has(more_skipped, x),
    ensures
        drainable_count(commands, more_skipped, claimed, j) <= drainable_count(
            commands,
            skipped,
            processed,
            j,
        ),
        j <= i ==> drainable_count(commands, more_skipped, claimed, j) < drainable_count(
            commands,
            skipped,
            processed,
            j,
        ),
    decreases commands.len() - j,
{
    if j < commands.len() {
        lemma_count_shrinks(commands, skipped, more_skipped, processed, claimed, i, j + 1);
        let c = commands[j];
        assert(claimed[j] == (processed[j] || c.id@ == commands[i].id@));
        if drainable(c, more_skipped, claimed[j]) {
            if skipped_has(skipped, c.id@) {
                assert(skipped_has(more_skipped, c.id@));
            }
            assert(drainable(c, skipped, processed[j]));
        }
        if j == i {
            assert(claimed[i]);
            assert(!drainable(c, more_skipped, claimed[j]));
        }
    }
}

/// A command the drain passed over is not taken up again in the same pass.
pub proof fn lemma_skipped_command_not_taken_again(
    commands: Seq<SessionCommandEntry>,
    skipped: Seq<String>,
    command_id: String,
    processed: Seq<bool>,
)
    requires
        processed.len() == commands.len(),
    ensures
        next_drainable_from(commands, skipped.push(command_id), processed, 0) matches Some(j)
            ==> commands[j].id@ != command_id@,
{
    let more = skipped.push(command_id);
    lemma_next_drainable_is_drainable(commands, more, processed, 0);
    assert(more[more.len() - 1] == command_id);
    assert(skipped_has(more, command_id@));
}

proof fn lemma_next_drainable_is_drainable(
    commands: Seq<SessionCommandEntry>,
    skipped: Seq<String>,
    processed: Seq<bool>,
    i: int,
)
    requires
        processed.len() == commands.len(),
    ensures
        next_drainable_from(commands, skipped, processed, i) matches Some(j) ==> 0 <= j
            < commands.len() && drainable(commands[j], skipped, processed[j]),
    decreases commands.len() - i,
{
    if 0 <= i < commands.len() && !drainable(commands[i], skipped, processed[i]) {
        lemma_next_drainable_is_drainable(commands, skipped, processed, i + 1);
    }
}


/// A gitdir target names a linked worktree exactly when it sits at
/// `<root>/.git/worktrees/<name>`: the root is every component before the
/// `.git` that is third from the end, and nothing else (a submodule's
/// `<root>/.git/modules/<name>`, say) is taken for one.
pub proof fn lemma_worktree_root_shape(parts: Seq<Option<String>>)
    ensures
        worktree_root_len_of(parts) matches Some(k) ==> {
            &&& k + 3 == parts.len()
            &&& parts[k] matches Some(g) && g@ == ".git"@
            &&& parts[k + 1] matches Some(w) && w@ == "worktrees"@
        },
        parts.len() >= 3 && (parts[parts.len() - 3] matches Some(g) && g@ == ".git"@) && (
        parts[parts.len() - 2] matches Some(w) && w@ == "worktrees"@) ==> worktree_root_len_of(
            parts,
        ) == Some(parts.len() - 3),
{
}

/// A chat row made for a new chat is live and blank: not archived, with no
/// title, branch, checkout, last message, harness session or seen time, and
/// created at the time given.
pub proof fn lemma_new_chat_is_blank(
    c: Chat,
    chat_id: Seq<char>,
    own_device: Seq<char>,
    config: Option<ChatConfig>,
    cwd: Seq<char>,
    space: Option<Space>,
    now_ms: i64,
)
    requires
        is_new_chat(c, chat_id, own_device, config, cwd, space, now_ms),
    ensures
        !c.archived,
        c.title is None,
        c.branch is None,
        c.checkout_id is None,
        c.last_message_preview is None,
        c.last_message_at is None,
        c.harness_session_id is None,
        c.last_seen_at is None,
        c.created_at == now_ms,
        c.id@ == chat_id,
        c.device_id@ == own_device,
{
}

/// The space lookup finds a space of this device whose path is exactly the
/// one asked for, the first such; when it finds none, there is none.
pub proof fn lemma_find_space_exact(spaces: Seq<Space>, own_device: Seq<char>, path: Seq<char>)
    ensures
        find_space(spaces, own_device, path) matches Some(k) ==> {
            &&& 0 <= k < spaces.len()
            &&& spaces[k].device_id@ == own_device
            &&& spaces[k].path@ == path
            &&& forall|j: int|
                0 <= j < k ==> !((#[trigger] spaces[j]).device_id@ == own_device && spaces[j].path@
                    == path)
        },
        find_space(spaces, own_device, path) is None ==> forall|k: int|
            0 <= k < spaces.len() ==> !((#[trigger] spaces[k]).device_id@ == own_device
                && spaces[k].path@ == path),
{
    lemma_find_space_from(spaces, own_device, path, 0);
}

proof fn lemma_find_space_from(spaces: Seq<Space>, own_device: Seq<char>, path: Seq<char>, i: int)
    requires
        0 <= i,
    ensures
        find_space_from(spaces, own_device, path, i) matches Some(k) ==> {
            &&& i <= k < spaces.len()
            &&& spaces[k].device_id@ == own_device
            &&& spaces[k].path@ == path
            &&& forall|j: int|
                i <= j < k ==> !((#[trigger] spaces[j]).device_id@ == own_device && spaces[j].path@
                    == path)
        },
        find_space_from(spaces, own_device, path, i) is None ==> forall|k: int|
            i <= k < spaces.len() ==> !((#[trigger] spaces[k]).device_id@ == own_device
                && spaces[k].path@ == path),
    decreases spaces.len() - i,
{
    if i < spaces.len() {
        lemma_find_space_from(spaces, own_device, path, i + 1);
    }
}

/// Whether `rows[k]` is another device's registry row for chat `id`.
pub open spec fn remote_row_for(rows: Seq<Session>, device_id: Seq<char>, id: Seq<char>, k: int) -> bool {
    0 <= k < rows.len() && rows[k].chat_id@ == id && rows[k].device_id@ != device_id
}

/// Every registry row of another device takes part in the merge, running or
/// not: among the other devices' rows, the one a merge sees for a chat is
/// the last such row given for it, and there is none only when no other
/// device has a row for the chat.
pub proof fn lemma_remote_rows_all_other_devices(rows: Seq<Session>, device_id: Seq<char>, id: Seq<char>)
    ensures
        (forall|k: int| !#[trigger] remote_row_for(rows, device_id, id, k)) ==> last_with(
            remote_rows(rows, device_id),
            id,
        ) is None,
        forall|k: int|
            #[trigger] remote_row_for(rows, device_id, id, k) && (forall|j: int|
                k < j ==> !#[trigger] remote_row_for(rows, device_id, id, j)) ==> last_with(
                remote_rows(rows, device_id),
                id,
            ) == Some(rows[k]),
{
    if forall|k: int| !#[trigger] remote_row_for(rows, device_id, id, k) {
        lemma_remote_none(rows, device_id, id);
    }
    assert forall|k: int|
        #[trigger] remote_row_for(rows, device_id, id, k) && (forall|j: int|
            k < j ==> !#[trigger] remote_row_for(rows, device_id, id, j)) implies last_with(
        remote_rows(rows, device_id),
        id,
    ) == Some(rows[k]) by {
        lemma_remote_last(rows, device_id, id, k);
    }
}

proof fn lemma_remote_none(rows: Seq<Session>, device_id: Seq<char>, id: Seq<char>)
    requires
        forall|k: int| !#[trigger] remote_row_for(rows, device_id, id, k),
    ensures
        last_with(remote_rows(rows, device_id), id) is None,
    decreases rows.len(),
{
    if rows.len() > 0 {
        let prev = rows.drop_last();
        let n = rows.len() - 1;
        assert(!remote_row_for(rows, device_id, id, n));
        assert forall|k: int| !#[trigger] remote_row_for(prev, device_id, id, k) by {
            if 0 <= k < n {
                assert(prev[k] == rows[k]);
                assert(!remote_row_for(rows, device_id, id, k));
            }
        }
        lemma_remote_none(prev, device_id, id);
        if rows.last().device_id@ != device_id {
            let rp = remote_rows(prev, device_id).push(rows.last());
            assert(rp.drop_last() =~= remote_rows(prev, device_id));
            assert(rows.last() == rows[n]);
        }
    }
}

proof fn lemma_remote_last(rows: Seq<Session>, device_id: Seq<char>, id: Seq<char>, k: int)
    requires
        remote_row_for(rows, device_id, id, k),
        forall|j: int| k < j ==> !#[trigger] remote_row_for(rows, device_id, id, j),
    ensures
        last_with(remote_rows(rows, device_id), id) == Some(rows[k]),
    decreases rows.len(),
{
    let prev = rows.drop_last();
    let n = rows.len() - 1;
    assert(rows.last() == rows[n]);
    if k == n {
        let rp = remote_rows(prev, device_id).push(rows.last());
        assert(rp.last() == rows.last());
    } else {
        assert(!remote_row_for(rows, device_id, id, n));
        assert(prev[k] == rows[k]);
        assert(remote_row_for(prev, device_id, id, k));
        assert forall|j: int| k < j implies !#[trigger] remote_row_for(prev, device_id, id, j) by {
            if j < n {
                assert(prev[j] == rows[j]);
                assert(!remote_row_for(rows, device_id, id, j));
            }
        }
        lemma_remote_last(prev, device_id, id, k);
        if rows.last().device_id@ != device_id {
            let rp = remote_rows(prev, device_id).push(rows.last());
            assert(rp.drop_last() =~= remote_rows(prev, device_id));
            assert(rp.last().chat_id@ != id);
        }
    }
}

/// What the merge shows for a chat: this device's last live session for it
/// when there is one; otherwise the last registry row another device wrote
/// for it, running or not; nothing when neither exists.
pub proof fn lemma_merge_row_for_chat(
    rows: Seq<Session>,
    local: Seq<Session>,
    device_id: Seq<char>,
    id: Seq<char>,
)
    ensures
        last_with(local, id) is Some ==> last_with(merge_input(rows, local, device_id), id)
            == last_with(local, id),
        last_with(local, id) is None && (forall|k: int| !#[trigger] remote_row_for(rows, device_id, id, k))
            ==> last_with(merge_input(rows, local, device_id), id) is None,
        forall|k: int|
            last_with(local, id) is None && #[trigger] remote_row_for(rows, device_id, id, k) && (
            forall|j: int| k < j ==> !#[trigger] remote_row_for(rows, device_id, id, j))
                ==> last_with(merge_input(rows, local, device_id), id) == Some(rows[k]),
{
    lemma_last_with_concat(remote_rows(rows, device_id), local, id);
    lemma_remote_rows_all_other_devices(rows, device_id, id);
}

/// Every registry row of another device is among the rows a merge reads.
pub proof fn lemma_remote_row_read(rows: Seq<Session>, device_id: Seq<char>, k: int)
    requires
        0 <= k < rows.len(),
        rows[k].device_id@ != device_id,
    ensures
        exists|m: int|
            0 <= m < remote_rows(rows, device_id).len() && #[trigger] remote_rows(rows, device_id)[m]
                == rows[k],
    decreases rows.len(),
{
    let prev = rows.drop_last();
    if k == rows.len() - 1 {
        assert(rows.last() == rows[k]);
        let rp = remote_rows(prev, device_id).push(rows.last());
        assert(remote_rows(rows, device_id) == rp);
        assert(remote_rows(rows, device_id)[rp.len() - 1] == rows[k]);
    } else {
        assert(prev[k] == rows[k]);
        lemma_remote_row_read(prev, device_id, k);
        let m = choose|m: int|
            0 <= m < remote_rows(prev, device_id).len() && #[trigger] remote_rows(prev, device_id)[m]
                == rows[k];
        if rows.last().device_id@ != device_id {
            let rp = remote_rows(prev, device_id).push(rows.last());
            assert(remote_rows(rows, device_id) == rp);
            assert(remote_rows(rows, device_id)[m] == rows[k]);
        } else {
            assert(remote_rows(rows, device_id)[m] == rows[k]);
        }
    }
}

proof fn lemma_last_with_concat(a: Seq<Session>, b: Seq<Session>, id: Seq<char>)
    ensures
        last_with(a + b, id) == (match last_with(b, id) {
            Some(s) => Some(s),
            None => last_with(a, id),
        }),
    decreases b.len(),
{
    if b.len() == 0 {
        assert(a + b =~= a);
    } else {
        assert((a + b).drop_last() =~= a + b.drop_last());
        assert((a + b).last() == b.last());
        lemma_last_with_concat(a, b.drop_last(), id);
    }
}

proof fn lemma_remote_rows_other_devices(rows: Seq<Session>, device_id: Seq<char>, id: Seq<char>)
    ensures
        last_with(remote_rows(rows, device_id), id) matches Some(s) ==> s.device_id@ != device_id,
    decreases rows.len(),
{
    if rows.len() > 0 {
        lemma_remote_rows_other_devices(rows.drop_last(), device_id, id);
        if rows.last().device_id@ != device_id {
            let p = remote_rows(rows.drop_last(), device_id).push(rows.last());
            assert(p.drop_last() =~= remote_rows(rows.drop_last(), device_id));
        }
    }
}

/// A live session of this device always wins the merge for its chat, and a
/// merged row of this device always is one of its live sessions: registry
/// rows this device wrote never shadow or stand in for its live state.
pub proof fn lemma_merge_prefers_live_sessions(
    rows: Seq<Session>,
    local: Seq<Session>,
    device_id: Seq<char>,
    id: Seq<char>,
)
    ensures
        last_with(local, id) is Some ==> last_with(merge_input(rows, local, device_id), id)
            == last_with(local, id),
        last_with(merge_input(rows, local, device_id), id) is Some && last_with(
            merge_input(rows, local, device_id),
            id,
        )->0.device_id@ == device_id ==> last_with(local, id) == last_with(
            merge_input(rows, local, device_id),
            id,
        ),
{
    lemma_last_with_concat(remote_rows(rows, device_id), local, id);
    lemma_remote_rows_other_devices(rows, device_id, id);
}

proof fn lemma_archived_with_key_archived(chats: Seq<Chat>, key: Seq<char>)
    ensures
        forall|k: int|
            0 <= k < archived_with_key(chats, key).len() ==> (#[trigger] archived_with_key(
                chats,
                key,
            )[k]).archived,
    decreases chats.len(),
{
    if chats.len() > 0 {
        lemma_archived_with_key_archived(chats.drop_last(), key);
    }
}

/// Every chat listed under an archived-sessions heading is archived.
pub proof fn lemma_groups_hold_only_archived(
    groups: Seq<crate::archived::ArchivedProjectGroup>,
    chats: Seq<Chat>,
    spaces: Seq<Space>,
    i: int,
    k: int,
)
    requires
        grouping(groups, chats, spaces),
        0 <= i < groups.len(),
        0 <= k < groups[i].chats@.len(),
    ensures
        groups[i].chats@[k].archived,
{
    lemma_archived_with_key_archived(chats, groups[i].key@);
}


/// Opening a chat whose document is already open keeps the first document:
/// after two opens of the same chat, the table maps it to the document it
/// already had, or else to the first open's, never to the second's, and the
/// second open changes nothing.
pub proof fn lemma_reopen_keeps_first_document<T>(
    table: Map<Seq<char>, (i64, T)>,
    chat_id: Seq<char>,
    first_at: i64,
    first: T,
    second_at: i64,
    second: T,
)
    ensures
        ({
            let once = after_insert_if_absent(table, chat_id, first_at, first);
            let twice = after_insert_if_absent(once, chat_id, second_at, second);
            &&& twice == once
            &&& twice.contains_key(chat_id)
            &&& twice[chat_id] == (if table.contains_key(chat_id) {
                table[chat_id]
            } else {
                (first_at, first)
            })
        }),
{
}

/// The deadline after applying changes at the given times, in order.
pub open spec fn after_changes(deadline: Option<i64>, times: Seq<i64>) -> Option<i64>
    decreases times.len(),
{
    if times.len() == 0 {
        deadline
    } else {
        after_change(after_changes(deadline, times.drop_last()), times.last())
    }
}

/// A burst of changes never postpones the snapshot: after any changes, the
/// save is due one debounce interval after the first change that found
/// nothing pending.
pub proof fn lemma_changes_do_not_postpone_save(times: Seq<i64>)
    requires
        times.len() > 0,
    ensures
        after_changes(None, times) == Some((times[0] + SNAPSHOT_DEBOUNCE_MS) as i64),
    decreases times.len(),
{
    if times.len() > 1 {
        lemma_changes_do_not_postpone_save(times.drop_last());
        assert(times.drop_last()[0] == times[0]);
    } else {
        assert(times.drop_last().len() == 0);
        assert(times.last() == times[0]);
        assert(after_changes(None, times.drop_last()) == None::<i64>);
    }
}

} // verus!
