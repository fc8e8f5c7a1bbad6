//! Rules of the local workspace registry: which chats this device hosts,
//! how chats and spaces are created and updated, the device row written on
//! boot, and how session rows are merged for watchers.

use vstd::prelude::*;

use crate::model::{is_other_error, other_error, Chat, ChatConfig, Device, EngineError, Session, Space};
use crate::text::{
    lemma_text_lt_irreflexive, lemma_text_lt_total, lemma_text_lt_transitive, str_eq, text_lt,
    text_order, trim, trim_str, TextOrder,
};

verus! {

/// The device name an older build stored when it could not detect one.
pub open spec fn legacy_unknown_device_name() -> Seq<char> {
    "unknown-device"@
}

/// Identity of this device in the registry.
#[derive(Clone, Debug, PartialEq)]
pub struct WorkspaceHostConfig {
    pub device_id: String,
    pub device_name: String,
    pub platform: String,
}

/// Whether a stored device name is one the user kept: not blank and not the
/// legacy placeholder.
pub open spec fn keeps_device_name(name: Seq<char>) -> bool {
    trim(name).len() > 0 && trim(name) != legacy_unknown_device_name()
}

/// The name written for this device on boot: the stored name when the user
/// kept one, the detected name otherwise.
pub open spec fn boot_device_name(existing: Option<Seq<char>>, detected: Seq<char>) -> Seq<char> {
    match existing {
        Some(name) => if keeps_device_name(name) {
            name
        } else {
            detected
        },
        None => detected,
    }
}

pub fn device_name_on_boot(existing_name: Option<&str>, detected_name: &str) -> (r: String)
    ensures
        r@ == boot_device_name(
            match existing_name {
                Some(n) => Some(n@),
                None => None,
            },
            detected_name@,
        ),
{
    if let Some(name) = existing_name {
        let t = trim_str(name);
        if t.unicode_len() > 0 && !str_eq(t, "unknown-device") {
            return String::from_str(name);
        }
    }
    String::from_str(detected_name)
}


/// This device hosts a chat unless the registry records another device.
pub open spec fn hosts_chat(chat: Option<Chat>, device_id: Seq<char>) -> bool {
    match chat {
        Some(c) => c.device_id@ == device_id,
        None => true,
    }
}


/// The working directory a new chat records: the requested one, else the
/// space's path, else the home directory.
pub open spec fn new_chat_cwd(cwd: Option<String>, space: Option<Space>) -> Seq<char> {
    match cwd {
        Some(c) => c@,
        None => match space {
            Some(s) => s.path@,
            None => "~"@,
        },
    }
}

/// A freshly created chat row.
pub open spec fn is_new_chat(
    c: Chat,
    chat_id: Seq<char>,
    own_device: Seq<char>,
    config: Option<ChatConfig>,
    cwd: Seq<char>,
    space: Option<Space>,
    now_ms: i64,
) -> bool {
    &&& c.id@ == chat_id
    &&& c.device_id@ == own_device
    &&& c.title is None
    &&& !c.archived
    &&& c.cwd matches Some(d) && d@ == cwd
    &&& c.branch is None
    &&& c.checkout_id is None
    &&& c.config == config
    &&& c.last_message_preview is None
    &&& c.last_message_at is None
    &&& c.created_at == now_ms
    &&& c.harness_session_id is None
    &&& c.harness_session_cwd is None
    &&& c.space_id == (match space {
        Some(s) => Some(s.id),
        None => None,
    })
    &&& c.last_seen_at is None
}



/// Whether a space has this id, or this device and path.
pub open spec fn space_conflict(s: Space, space_id: Seq<char>, device_id: Seq<char>, path: Seq<
    char,
>) -> bool {
    s.id@ == space_id || (s.device_id@ == device_id && s.path@ == path)
}

/// Whether some space already has this id, or this device and path.
pub open spec fn space_conflicts(
    spaces: Seq<Space>,
    space_id: Seq<char>,
    device_id: Seq<char>,
    path: Seq<char>,
) -> bool {
    exists|k: int| 0 <= k < spaces.len() && #[trigger] space_conflict(spaces[k], space_id, device_id, path)
}



/// The first millisecond chrono's `DateTime<Utc>` represents:
/// `-262143-01-01T00:00:00Z` (`DateTime::<Utc>::MIN_UTC`).
pub const UTC_MIN_MILLIS: i64 = -8334601228800000i64;

/// The last millisecond chrono's `DateTime<Utc>` represents:
/// `+262142-12-31T23:59:59.999Z` (`DateTime::<Utc>::MAX_UTC`).
pub const UTC_MAX_MILLIS: i64 = 8210266876799999i64;

/// Unix milliseconds as chrono holds them: the same milliseconds when they
/// lie within the range of `DateTime<Utc>`, else nothing.
pub open spec fn utc_millis_of(ms: i64) -> Option<i64> {
    if UTC_MIN_MILLIS <= ms <= UTC_MAX_MILLIS {
        Some(ms)
    } else {
        None
    }
}

/// `chrono::DateTime::<Utc>::from_timestamp_millis`, read back with
/// `timestamp_millis`. Claimed: `Some` exactly for the milliseconds between
/// `DateTime::<Utc>::MIN_UTC` and `MAX_UTC` (the dates from `NaiveDate::MIN`,
/// year -262143, to `NaiveDate::MAX`, year 262142), and then the same
/// milliseconds, the round trip its documentation guarantees.
#[verifier::external_body]
fn utc_millis(ms: i64) -> (r: Option<i64>)
    ensures
        r == utc_millis_of(ms),
{
    chrono::DateTime::<chrono::Utc>::from_timestamp_millis(ms).map(|t| t.timestamp_millis())
}

/// The chat row after recording activity times: a given last-message time
/// replaces the stored one (cleared when chrono cannot represent it); a given
/// creation time replaces the stored one only when representable.
pub open spec fn with_activity(
    chat: Chat,
    last_message_at: Option<i64>,
    created_at: Option<i64>,
) -> Chat {
    Chat {
        last_message_at: match last_message_at {
            Some(ms) => utc_millis_of(ms),
            None => chat.last_message_at,
        },
        created_at: match created_at {
            Some(ms) => match utc_millis_of(ms) {
                Some(t) => t,
                None => chat.created_at,
            },
            None => chat.created_at,
        },
        ..chat
    }
}






/// The last-message preview: the first 120 characters of the text.
pub open spec fn message_preview_of(text: Seq<char>) -> Seq<char> {
    if text.len() <= 120 {
        text
    } else {
        text.subrange(0, 120)
    }
}

pub fn message_preview(text: &str) -> (r: String)
    ensures
        r@ == message_preview_of(text@),
{
    let n = text.unicode_len();
    let m = if n <= 120 {
        n
    } else {
        120
    };
    let p = text.substring_char(0, m);
    proof {
        if n <= 120 {
            assert(text@.subrange(0, n as int) =~= text@);
        }
    }
    String::from_str(p)
}

/// Where a chat opened in a directory belongs.
#[derive(Clone, Debug, PartialEq)]
pub enum SpaceChoice {
    /// An existing space of this device, by id.
    Existing(String),
    /// A new space to upsert.
    Create(Space),
}

/// Whether a space is this device's space at `path`.
pub open spec fn space_at(s: Space, own_device: Seq<char>, path: Seq<char>) -> bool {
    s.device_id@ == own_device && s.path@ == path
}

/// The index of the first space of this device at `path`, from `i` on.
pub open spec fn find_space_from(
    spaces: Seq<Space>,
    own_device: Seq<char>,
    path: Seq<char>,
    i: int,
) -> Option<int>
    decreases spaces.len() - i,
{
    if i < 0 || i >= spaces.len() {
        None
    } else if space_at(spaces[i], own_device, path) {
        Some(i)
    } else {
        find_space_from(spaces, own_device, path, i + 1)
    }
}

pub open spec fn find_space(spaces: Seq<Space>, own_device: Seq<char>, path: Seq<char>) -> Option<
    int,
> {
    find_space_from(spaces, own_device, path, 0)
}

fn find_space_exec(spaces: &Vec<Space>, own_device: &str, path: &str) -> (r: Option<usize>)
    ensures
        r matches Some(k) ==> find_space(spaces@, own_device@, path@) == Some(k as int) && k
            < spaces.len(),
        r is None ==> find_space(spaces@, own_device@, path@) is None,
{
    let mut k: usize = 0;
    while k < spaces.len()
        invariant
            k <= spaces.len(),
            find_space(spaces@, own_device@, path@) == find_space_from(
                spaces@,
                own_device@,
                path@,
                k as int,
            ),
        decreases spaces.len() - k,
    {
        if str_eq(spaces[k].device_id.as_str(), own_device) && str_eq(
            spaces[k].path.as_str(),
            path,
        ) {
            return Some(k);
        }
        k = k + 1;
    }
    None
}



/// Session rows sorted by chat id, each id once.
pub open spec fn sessions_sorted(v: Seq<Session>) -> bool {
    forall|i: int, j: int|
        0 <= i < j < v.len() ==> text_lt(#[trigger] v[i].chat_id@, #[trigger] v[j].chat_id@)
}

/// The last row for a chat id in `ss`, if any.
pub open spec fn last_with(ss: Seq<Session>, id: Seq<char>) -> Option<Session>
    decreases ss.len(),
{
    if ss.len() == 0 {
        None
    } else if ss.last().chat_id@ == id {
        Some(ss.last())
    } else {
        last_with(ss.drop_last(), id)
    }
}

/// The registry rows of other devices, in order.
pub open spec fn remote_rows(rows: Seq<Session>, device_id: Seq<char>) -> Seq<Session>
    decreases rows.len(),
{
    if rows.len() == 0 {
        Seq::empty()
    } else if rows.last().device_id@ != device_id {
        remote_rows(rows.drop_last(), device_id).push(rows.last())
    } else {
        remote_rows(rows.drop_last(), device_id)
    }
}

/// The rows a merge reads, in the order later ones override earlier ones:
/// the other devices' registry rows, then this device's live sessions.
pub open spec fn merge_input(rows: Seq<Session>, local: Seq<Session>, device_id: Seq<char>) -> Seq<
    Session,
> {
    remote_rows(rows, device_id) + local
}

/// Whether some row of `v` is for chat `id`.
pub open spec fn has_chat(v: Seq<Session>, id: Seq<char>) -> bool {
    exists|i: int| 0 <= i < v.len() && (#[trigger] v[i]).chat_id@ == id
}

fn copy_session(s: &Session) -> (r: Session)
    ensures
        r == *s,
{
    Session { chat_id: s.chat_id.clone(), device_id: s.device_id.clone(), running: s.running }
}

/// The merge state after `p` more rows: sorted, each row the latest for its
/// chat, every chat seen so far present.
pub open spec fn merge_state(v: Seq<Session>, p: Seq<Session>) -> bool {
    &&& sessions_sorted(v)
    &&& forall|i: int| 0 <= i < v.len() ==> Some(#[trigger] v[i]) == last_with(p, v[i].chat_id@)
    &&& forall|k: int| 0 <= k < p.len() ==> has_chat(v, (#[trigger] p[k]).chat_id@)
}

fn upsert_latest(v: &mut Vec<Session>, x: Session, Ghost(p): Ghost<Seq<Session>>)
    requires
        merge_state(old(v)@, p),
    ensures
        merge_state(final(v)@, p.push(x)),
{
    let ghost pp = p.push(x);
    assert(pp.drop_last() =~= p);
    let mut k: usize = 0;
    while k < v.len() && text_order(v[k].chat_id.as_str(), x.chat_id.as_str()) == TextOrder::Less
        invariant
            k <= v.len(),
            forall|i: int| 0 <= i < k ==> text_lt(#[trigger] v@[i].chat_id@, x.chat_id@),
        decreases v.len() - k,
    {
        k = k + 1;
    }
    let ghost old_v = v@;
    if k < v.len() && text_order(v[k].chat_id.as_str(), x.chat_id.as_str()) == TextOrder::Equal {
        v.set(k, x);
        proof {
            assert forall|i: int| 0 <= i < v@.len() && i != k implies (#[trigger] v@[i]).chat_id@
                != x.chat_id@ by {
                if i < k {
                    lemma_text_lt_irreflexive(x.chat_id@);
                } else {
                    assert(text_lt(old_v[k as int].chat_id@, old_v[i].chat_id@));
                    lemma_text_lt_irreflexive(x.chat_id@);
                }
            }
            assert forall|i: int, j: int| 0 <= i < j < v@.len() implies text_lt(
                #[trigger] v@[i].chat_id@,
                #[trigger] v@[j].chat_id@,
            ) by {
                assert(text_lt(old_v[i].chat_id@, old_v[j].chat_id@));
            }
            assert forall|i: int| 0 <= i < v@.len() implies Some(#[trigger] v@[i]) == last_with(
                pp,
                v@[i].chat_id@,
            ) by {
                if i != k {
                    assert(Some(old_v[i]) == last_with(p, old_v[i].chat_id@));
                }
            }
            assert forall|j: int| 0 <= j < pp.len() implies has_chat(v@, (#[trigger] pp[j]).chat_id@) by {
                if j < p.len() {
                    assert(pp[j] == p[j]);
                    let w = choose|i: int| 0 <= i < old_v.len() && (#[trigger] old_v[i]).chat_id@ == p[j].chat_id@;
                    assert(v@[w].chat_id@ == old_v[w].chat_id@);
                } else {
                    assert(v@[k as int].chat_id@ == pp[j].chat_id@);
                }
            }
        }
    } else {
        proof {
            if k < v.len() {
                lemma_text_lt_total(v@[k as int].chat_id@, x.chat_id@);
            }
        }
        let ghost xid = x.chat_id@;
        v.insert(k, x);
        proof {
            assert forall|i: int| k < i < v@.len() implies text_lt(xid, (#[trigger] v@[i]).chat_id@) by {
                assert(v@[i] == old_v[i - 1]);
                if i - 1 > k {
                    assert(text_lt(old_v[k as int].chat_id@, old_v[i - 1].chat_id@));
                    lemma_text_lt_transitive(xid, old_v[k as int].chat_id@, old_v[i - 1].chat_id@);
                }
            }
            assert forall|i: int, j: int| 0 <= i < j < v@.len() implies text_lt(
                #[trigger] v@[i].chat_id@,
                #[trigger] v@[j].chat_id@,
            ) by {
                if j < k {
                    assert(text_lt(old_v[i].chat_id@, old_v[j].chat_id@));
                } else if j == k {
                } else if i < k {
                    assert(text_lt(v@[i].chat_id@, xid));
                    assert(text_lt(xid, v@[j].chat_id@));
                    lemma_text_lt_transitive(v@[i].chat_id@, xid, v@[j].chat_id@);
                } else if i == k {
                } else {
                    assert(text_lt(old_v[i - 1].chat_id@, old_v[j - 1].chat_id@));
                }
            }
            assert forall|i: int| 0 <= i < v@.len() implies Some(#[trigger] v@[i]) == last_with(
                pp,
                v@[i].chat_id@,
            ) by {
                if i < k {
                    assert(v@[i] == old_v[i]);
                    lemma_text_lt_irreflexive(xid);
                    assert(Some(old_v[i]) == last_with(p, old_v[i].chat_id@));
                } else if i > k {
                    assert(v@[i] == old_v[i - 1]);
                    lemma_text_lt_irreflexive(xid);
                    assert(Some(old_v[i - 1]) == last_with(p, old_v[i - 1].chat_id@));
                }
            }
            assert forall|j: int| 0 <= j < pp.len() implies has_chat(v@, (#[trigger] pp[j]).chat_id@) by {
                if j < p.len() {
                    assert(pp[j] == p[j]);
                    let w = choose|i: int| 0 <= i < old_v.len() && (#[trigger] old_v[i]).chat_id@ == p[j].chat_id@;
                    if w < k {
                        assert(v@[w].chat_id@ == old_v[w].chat_id@);
                    } else {
                        assert(v@[w + 1].chat_id@ == old_v[w].chat_id@);
                    }
                } else {
                    assert(v@[k as int].chat_id@ == pp[j].chat_id@);
                }
            }
        }
    }
}

/// The sessions watchers see: this device's live sessions, plus the registry
/// rows of other devices for chats with no live session here; one row per
/// chat (the last one given), sorted by chat id.
pub fn merge_sessions(device_id: &str, rows: &Vec<Session>, local: &Vec<Session>) -> (r: Vec<
    Session,
>)
    ensures
        sessions_sorted(r@),
        forall|i: int|
            0 <= i < r@.len() ==> Some(#[trigger] r@[i]) == last_with(
                merge_input(rows@, local@, device_id@),
                r@[i].chat_id@,
            ),
        forall|k: int|
            0 <= k < merge_input(rows@, local@, device_id@).len() ==> has_chat(
                r@,
                (#[trigger] merge_input(rows@, local@, device_id@)[k]).chat_id@,
            ),
        forall|k: int|
            0 <= k < rows@.len() && (#[trigger] rows@[k]).device_id@ != device_id@ ==> has_chat(
                r@,
                rows@[k].chat_id@,
            ),
        forall|k: int| 0 <= k < local@.len() ==> has_chat(r@, (#[trigger] local@[k]).chat_id@),
{
    let mut v: Vec<Session> = Vec::new();
    let mut i: usize = 0;
    while i < rows.len()
        invariant
            i <= rows.len(),
            merge_state(v@, remote_rows(rows@.take(i as int), device_id@)),
        decreases rows.len() - i,
    {
        assert(rows@.take(i + 1).drop_last() =~= rows@.take(i as int));
        if !str_eq(rows[i].device_id.as_str(), device_id) {
            let x = copy_session(&rows[i]);
            upsert_latest(&mut v, x, Ghost(remote_rows(rows@.take(i as int), device_id@)));
        }
        i = i + 1;
    }
    assert(rows@.take(rows.len() as int) =~= rows@);
    let ghost base = remote_rows(rows@, device_id@);
    assert(base + local@.take(0) =~= base);
    let mut j: usize = 0;
    while j < local.len()
        invariant
            j <= local.len(),
            base == remote_rows(rows@, device_id@),
            merge_state(v@, base + local@.take(j as int)),
        decreases local.len() - j,
    {
        assert(base + local@.take(j + 1) =~= (base + local@.take(j as int)).push(local@[j as int]));
        let x = copy_session(&local[j]);
        upsert_latest(&mut v, x, Ghost(base + local@.take(j as int)));
        j = j + 1;
    }
    assert(local@.take(local.len() as int) =~= local@);
    proof {
        let input = merge_input(rows@, local@, device_id@);
        assert forall|k: int|
            0 <= k < rows@.len() && (#[trigger] rows@[k]).device_id@ != device_id@ implies has_chat(
            v@,
            rows@[k].chat_id@,
        ) by {
            crate::laws::lemma_remote_row_read(rows@, device_id@, k);
            let m = choose|m: int|
                0 <= m < base.len() && #[trigger] base[m] == rows@[k];
            assert(input[m] == base[m]);
        }
        assert forall|k: int| 0 <= k < local@.len() implies has_chat(
            v@,
            (#[trigger] local@[k]).chat_id@,
        ) by {
            assert(input[base.len() + k] == local@[k]);
        }
    }
    v
}


/// The index of the first `'\n'` at or after `i`, or the length.
pub open spec fn line_end(s: Seq<char>, i: int) -> int
    decreases s.len() - i,
{
    if i < 0 || i >= s.len() {
        s.len() as int
    } else if s[i] == '\n' {
        i
    } else {
        line_end(s, i + 1)
    }
}

/// The line starting at `i` as `str::lines` yields it: up to the next
/// `'\n'`, without a `'\r'` just before that `'\n'`.
pub open spec fn line_at(s: Seq<char>, i: int) -> Seq<char> {
    let j = line_end(s, i);
    if j < s.len() && j > i && s[j - 1] == '\r' {
        s.subrange(i, j - 1)
    } else {
        s.subrange(i, j)
    }
}

/// The trimmed target of the first `gitdir:` line from position `i` on.
pub open spec fn gitdir_from(s: Seq<char>, i: int) -> Option<Seq<char>>
    decreases s.len() - i,
{
    if i < 0 || i >= s.len() {
        None
    } else {
        let line = line_at(s, i);
        if line.len() >= 7 && line.subrange(0, 7) == "gitdir:"@ {
            Some(trim(line.subrange(7, line.len() as int)))
        } else {
            if i <= line_end(s, i) < s.len() {
                gitdir_from(s, line_end(s, i) + 1)
            } else {
                None
            }
        }
    }
}

proof fn lemma_line_end_bounds(s: Seq<char>, i: int)
    requires
        0 <= i <= s.len(),
    ensures
        i <= line_end(s, i) <= s.len(),
        line_end(s, i) < s.len() ==> s[line_end(s, i)] == '\n',
        forall|k: int| i <= k < line_end(s, i) ==> s[k] != '\n',
    decreases s.len() - i,
{
    if i < s.len() && s[i] != '\n' {
        lemma_line_end_bounds(s, i + 1);
    }
}

/// Whether `s` starts with `gitdir:`.
fn starts_with_gitdir(s: &str) -> (r: bool)
    ensures
        r == (s@.len() >= 7 && s@.subrange(0, 7) == "gitdir:"@),
{
    let n = s.unicode_len();
    if n < 7 {
        return false;
    }
    let head = s.substring_char(0, 7);
    str_eq(head, "gitdir:")
}

/// The target of the first `gitdir:` line of a linked worktree's `.git`
/// file, trimmed.
pub fn gitdir_target(content: &str) -> (r: Option<String>)
    ensures
        r matches Some(t) ==> gitdir_from(content@, 0) == Some(t@),
        r is None ==> gitdir_from(content@, 0) is None,
{
    let n = content.unicode_len();
    let mut i: usize = 0;
    while i < n
        invariant
            n == content@.len(),
            i <= n,
            gitdir_from(content@, 0) == gitdir_from(content@, i as int),
        decreases n - i,
    {
        let mut j: usize = i;
        while j < n && content.get_char(j) != '\n'
            invariant
                n == content@.len(),
                i <= j <= n,
                line_end(content@, i as int) == line_end(content@, j as int),
            decreases n - j,
        {
            j = j + 1;
        }
        proof {
            lemma_line_end_bounds(content@, i as int);
        }
        let end = if j < n && j > i && content.get_char(j - 1) == '\r' {
            j - 1
        } else {
            j
        };
        let line = content.substring_char(i, end);
        assert(line@ == line_at(content@, i as int));
        if starts_with_gitdir(line) {
            let rest = line.substring_char(7, line.unicode_len());
            return Some(String::from_str(trim_str(rest)));
        }
        if j >= n {
            proof {
                assert(gitdir_from(content@, j + 1) is None);
            }
            return None;
        }
        i = j + 1;
    }
    None
}

/// For the components of a resolved gitdir target (`None` for a component
/// that is not a plain name), how many leading components form the checkout
/// root: the target must sit at `<root>/.git/worktrees/<name>`.
pub open spec fn worktree_root_len_of(parts: Seq<Option<String>>) -> Option<int> {
    let n = parts.len();
    if n >= 3 && (parts[n - 2] matches Some(w) && w@ == "worktrees"@) && (parts[n - 3] matches Some(
        g,
    ) && g@ == ".git"@) {
        Some(n - 3)
    } else {
        None
    }
}

pub fn worktree_root_len(parts: &Vec<Option<String>>) -> (r: Option<usize>)
    ensures
        r matches Some(k) ==> worktree_root_len_of(parts@) == Some(k as int),
        r is None ==> worktree_root_len_of(parts@) is None,
        r matches Some(k) ==> k + 3 == parts@.len() && (parts@[k as int] matches Some(g) && g@
            == ".git"@) && (parts@[k + 1] matches Some(w) && w@ == "worktrees"@),
        parts@.len() >= 3 && (parts@[parts@.len() - 3] matches Some(g) && g@ == ".git"@) && (
        parts@[parts@.len() - 2] matches Some(w) && w@ == "worktrees"@) ==> r == Some(
            (parts@.len() - 3) as usize,
        ),
{
    proof {
        crate::laws::lemma_worktree_root_shape(parts@);
    }
    let n = parts.len();
    if n < 3 {
        return None;
    }
    let w = match &parts[n - 2] {
        Some(w) => str_eq(w.as_str(), "worktrees"),
        None => false,
    };
    let g = match &parts[n - 3] {
        Some(g) => str_eq(g.as_str(), ".git"),
        None => false,
    };
    if w && g {
        Some(n - 3)
    } else {
        None
    }
}


/// The workspace registry's rules for this device. The registry rows a rule
/// reads are handed in; the rows it would write are handed back.
#[derive(Clone, Debug, PartialEq)]
pub struct WorkspaceHost {
    pub config: WorkspaceHostConfig,
}

impl WorkspaceHost {
    pub fn new(config: WorkspaceHostConfig) -> (h: WorkspaceHost)
        ensures
            h.config == config,
    {
        WorkspaceHost { config }
    }

    pub fn device_id(&self) -> (r: &str)
        ensures
            r@ == self.config.device_id@,
    {
        self.config.device_id.as_str()
    }

    /// Local persistence is always available once the host is open.
    pub fn connected(&self) -> (r: bool)
        ensures
            r,
    {
        true
    }

    /// The device row upserted when the registry opens: identity from the
    /// configuration, the kept name, `now` as last seen, the first-seen time
    /// preserved from an existing row (or `now` when it had none).
    pub fn boot_device(
        &self,
        existing: Option<&Device>,
        now_ms: i64,
        version: &str,
    ) -> (d: Device)
        ensures
            d.id == self.config.device_id,
            d.name@ == boot_device_name(
                match existing {
                    Some(e) => Some(e.name@),
                    None => None,
                },
                self.config.device_name@,
            ),
            d.platform == self.config.platform,
            d.last_seen_at == Some(now_ms),
            d.created_at == (match existing {
                Some(e) => match e.created_at {
                    Some(t) => Some(t),
                    None => Some(now_ms),
                },
                None => Some(now_ms),
            }),
            d.version matches Some(v) && v@ == version@,
    {
        let name = match existing {
            Some(e) => device_name_on_boot(Some(e.name.as_str()), self.config.device_name.as_str()),
            None => device_name_on_boot(None, self.config.device_name.as_str()),
        };
        let created_at = match existing {
            Some(e) => match e.created_at {
                Some(t) => Some(t),
                None => Some(now_ms),
            },
            None => Some(now_ms),
        };
        Device {
            id: self.config.device_id.clone(),
            name,
            platform: self.config.platform.clone(),
            last_seen_at: Some(now_ms),
            created_at,
            version: Some(String::from_str(version)),
        }
    }

    pub fn is_host(&self, chat: Option<&Chat>) -> (r: bool)
        ensures
            r == hosts_chat(
                match chat {
                    Some(c) => Some(*c),
                    None => None,
                },
                self.config.device_id@,
            ),
    {
        match chat {
            Some(c) => str_eq(c.device_id.as_str(), self.config.device_id.as_str()),
            None => true,
        }
    }

    /// Creating a chat: nothing to write when it already exists (`Ok(None)`);
    /// refused when its space or its requested host is another device; otherwise
    /// the row to upsert.
    pub fn create_chat(
        &self,
        exists: bool,
        space: Option<Space>,
        requested_device: Option<&str>,
        chat_id: &str,
        config: Option<ChatConfig>,
        cwd: Option<String>,
        now_ms: i64,
    ) -> (r: Result<Option<Chat>, EngineError>)
        ensures
            exists ==> r == Ok::<Option<Chat>, EngineError>(None),
            !exists && (space matches Some(s) && s.device_id@ != self.config.device_id@) ==> (r matches Err(e)
                && is_other_error(e, "local mode cannot create a remote chat"@)),
            !exists && !(space matches Some(s) && s.device_id@ != self.config.device_id@) && (
            requested_device matches Some(d) && d@ != self.config.device_id@) ==> (r matches Err(e)
                && is_other_error(e, "local mode has one device"@)),
            !exists && !(space matches Some(s) && s.device_id@ != self.config.device_id@) && !(
            requested_device matches Some(d) && d@ != self.config.device_id@) ==> (r matches Ok(Some(c))
                && is_new_chat(
                c,
                chat_id@,
                self.config.device_id@,
                config,
                new_chat_cwd(cwd, space),
                space,
                now_ms,
            )),
            r matches Ok(Some(c)) ==> !c.archived && c.title is None && c.branch is None
                && c.last_message_preview is None && c.last_message_at is None && c.id@ == chat_id@
                && c.device_id@ == self.config.device_id@,
    {
        if exists {
            return Ok(None);
        }
        if let Some(s) = &space {
            if !str_eq(s.device_id.as_str(), self.config.device_id.as_str()) {
                return Err(other_error("local mode cannot create a remote chat"));
            }
        }
        if let Some(d) = requested_device {
            if !str_eq(d, self.config.device_id.as_str()) {
                return Err(other_error("local mode has one device"));
            }
        }
        let ghost cwd0 = cwd;
        let cwd_value = match cwd {
            Some(c) => c,
            None => match &space {
                Some(s) => s.path.clone(),
                None => String::from_str("~"),
            },
        };
        let space_id = match &space {
            Some(s) => Some(s.id.clone()),
            None => None,
        };
        assert(cwd_value@ == new_chat_cwd(cwd0, space));
        let c = Chat {
            id: String::from_str(chat_id),
            device_id: String::from_str(self.config.device_id.as_str()),
            title: None,
            archived: false,
            cwd: Some(cwd_value),
            branch: None,
            checkout_id: None,
            config,
            last_message_preview: None,
            last_message_at: None,
            created_at: now_ms,
            harness_session_id: None,
            harness_session_cwd: None,
            space_id,
            last_seen_at: None,
        };
        proof {
            crate::laws::lemma_new_chat_is_blank(
                c,
                chat_id@,
                self.config.device_id@,
                config,
                new_chat_cwd(cwd0, space),
                space,
                now_ms,
            );
        }
        Ok(Some(c))
    }

    /// Creating a space: refused for another device, nothing to write when the
    /// id or the (device, path) pair is taken, otherwise the row to upsert.
    pub fn create_space(
        &self,
        spaces: &Vec<Space>,
        space_id: &str,
        device_id: &str,
        path: &str,
        name: Option<String>,
        git_detected: bool,
        now_ms: i64,
    ) -> (r: Result<Option<Space>, EngineError>)
        ensures
            device_id@ != self.config.device_id@ ==> (r matches Err(e) && is_other_error(
                e,
                "local mode has one device"@,
            )),
            device_id@ == self.config.device_id@ && space_conflicts(spaces@, space_id@, device_id@, path@) ==> r
                == Ok::<Option<Space>, EngineError>(None),
            device_id@ == self.config.device_id@ && !space_conflicts(spaces@, space_id@, device_id@, path@) ==> (
            r matches Ok(Some(s)) && s.id@ == space_id@ && s.device_id@ == device_id@ && s.path@
                == path@ && s.name == name && s.git_detected == git_detected && s.git_checked_at is None
                && s.checkout_id is None && s.created_at == now_ms),
    {
        if !str_eq(device_id, self.config.device_id.as_str()) {
            return Err(other_error("local mode has one device"));
        }
        let mut k: usize = 0;
        while k < spaces.len()
            invariant
                k <= spaces.len(),
                device_id@ == self.config.device_id@,
                forall|j: int|
                    0 <= j < k ==> !#[trigger] space_conflict(spaces@[j], space_id@, device_id@, path@),
            decreases spaces.len() - k,
        {
            let s = &spaces[k];
            if str_eq(s.id.as_str(), space_id) || (str_eq(s.device_id.as_str(), device_id) && str_eq(
                s.path.as_str(),
                path,
            )) {
                assert(space_conflict(spaces@[k as int], space_id@, device_id@, path@));
                return Ok(None);
            }
            assert(!space_conflict(spaces@[k as int], space_id@, device_id@, path@));
            k = k + 1;
        }
        Ok(
            Some(
                Space {
                    id: String::from_str(space_id),
                    device_id: String::from_str(device_id),
                    path: String::from_str(path),
                    name,
                    git_detected,
                    git_checked_at: None,
                    checkout_id: None,
                    created_at: now_ms,
                },
            ),
        )
    }

    /// Whether the git state of a space may be written: only for a space this
    /// device owns.
    pub fn set_space_git(&self, space: Option<&Space>) -> (r: bool)
        ensures
            r == (space matches Some(s) && s.device_id@ == self.config.device_id@),
    {
        match space {
            Some(s) => str_eq(s.device_id.as_str(), self.config.device_id.as_str()),
            None => false,
        }
    }

    /// Recording activity on a chat: `None` when the chat is unknown, else the row
    /// to upsert.
    pub fn set_chat_activity(
        &self,
        chat: Option<Chat>,
        last_message_at: Option<i64>,
        created_at: Option<i64>,
    ) -> (r: Option<Chat>)
        ensures
            r == (match chat {
                Some(c) => Some(with_activity(c, last_message_at, created_at)),
                None => None,
            }),
    {
        let mut chat = match chat {
            Some(c) => c,
            None => return None,
        };
        if let Some(ms) = last_message_at {
            chat.last_message_at = utc_millis(ms);
        }
        if let Some(ms) = created_at {
            if let Some(at) = utc_millis(ms) {
                chat.created_at = at;
            }
        }
        Some(chat)
    }

    /// Moving a chat to a host: refused for another device; `Ok(None)` when the
    /// chat is unknown; otherwise the row to upsert.
    pub fn set_chat_host(&self, chat: Option<Chat>, device_id: &str) -> (r: Result<
        Option<Chat>,
        EngineError,
    >)
        ensures
            device_id@ != self.config.device_id@ ==> (r matches Err(e) && is_other_error(
                e,
                "local mode has one device"@,
            )),
            device_id@ == self.config.device_id@ && chat is None ==> r == Ok::<Option<Chat>, EngineError>(None),
            device_id@ == self.config.device_id@ && chat is Some ==> (r matches Ok(Some(c)) && c.device_id@
                == device_id@ && c == (Chat { device_id: c.device_id, ..chat->0 })),
    {
        if !str_eq(device_id, self.config.device_id.as_str()) {
            return Err(other_error("local mode has one device"));
        }
        match chat {
            Some(mut c) => {
                c.device_id = String::from_str(device_id);
                Ok(Some(c))
            },
            None => Ok(None),
        }
    }

    /// Only this device's own row may be renamed.
    pub fn rename_device(&self, device_id: &str) -> (r: bool)
        ensures
            r == (device_id@ == self.config.device_id@),
    {
        str_eq(device_id, self.config.device_id.as_str())
    }

    /// The stored run configuration of a chat, if the chat and its config exist.
    pub fn chat_config(&self, chat: Option<Chat>) -> (r: Option<ChatConfig>)
        ensures
            r == (match chat {
                Some(c) => c.config,
                None => None,
            }),
    {
        match chat {
            Some(c) => c.config,
            None => None,
        }
    }

    /// The harness-native session recorded for a chat, with its directory.
    pub fn chat_harness_session(&self, chat: Option<Chat>) -> (r: Option<(String, Option<String>)>)
        ensures
            r == (match chat {
                Some(c) => match c.harness_session_id {
                    Some(id) => Some((id, c.harness_session_cwd)),
                    None => None,
                },
                None => None,
            }),
    {
        match chat {
            Some(c) => match c.harness_session_id {
                Some(id) => Some((id, c.harness_session_cwd)),
                None => None,
            },
            None => None,
        }
    }

    /// The space a chat opened at `path` belongs to: this device's space at the
    /// path; else this device's space at the checkout root of the linked worktree
    /// the path is in (`worktree_root`, when it is one); else a new space, at that
    /// root or at the path.
    pub fn space_for_path(
        &self,
        spaces: &Vec<Space>,
        path: &str,
        worktree_root: Option<String>,
        new_space_id: String,
        now_ms: i64,
    ) -> (r: SpaceChoice)
        ensures
            find_space(spaces@, self.config.device_id@, path@) matches Some(k) ==> r == SpaceChoice::Existing(
                spaces@[k].id,
            ),
            find_space(spaces@, self.config.device_id@, path@) is None && (worktree_root matches Some(root)
                && find_space(spaces@, self.config.device_id@, root@) is Some) ==> r == SpaceChoice::Existing(
                spaces@[find_space(spaces@, self.config.device_id@, worktree_root->0@)->0].id,
            ),
            find_space(spaces@, self.config.device_id@, path@) is None && !(worktree_root matches Some(root)
                && find_space(spaces@, self.config.device_id@, root@) is Some) ==> (r matches SpaceChoice::Create(
                s) && s.id == new_space_id && s.device_id@ == self.config.device_id@ && s.path@ == (
            match worktree_root {
                Some(root) => root@,
                None => path@,
            }) && s.name is None && !s.git_detected && s.git_checked_at is None
                && s.checkout_id is None && s.created_at == now_ms),
            r matches SpaceChoice::Existing(id) ==> exists|k: int|
                0 <= k < spaces@.len() && (#[trigger] spaces@[k]).id == id && spaces@[k].device_id@
                    == self.config.device_id@ && (spaces@[k].path@ == path@ || (worktree_root matches Some(
                    root,
                ) && spaces@[k].path@ == root@)),
            (exists|k: int|
                0 <= k < spaces@.len() && (#[trigger] spaces@[k]).device_id@ == self.config.device_id@
                    && spaces@[k].path@ == path@) ==> r is Existing,
            r is Create ==> forall|k: int|
                0 <= k < spaces@.len() ==> !((#[trigger] spaces@[k]).device_id@
                    == self.config.device_id@ && (spaces@[k].path@ == path@ || (worktree_root matches Some(
                    root,
                ) && spaces@[k].path@ == root@))),
    {
        proof {
            crate::laws::lemma_find_space_exact(spaces@, self.config.device_id@, path@);
            if worktree_root is Some {
                crate::laws::lemma_find_space_exact(
                    spaces@,
                    self.config.device_id@,
                    worktree_root->0@,
                );
            }
        }
        if let Some(k) = find_space_exec(spaces, self.config.device_id.as_str(), path) {
            return SpaceChoice::Existing(spaces[k].id.clone());
        }
        if let Some(root) = &worktree_root {
            if let Some(k) = find_space_exec(spaces, self.config.device_id.as_str(), root.as_str()) {
                return SpaceChoice::Existing(spaces[k].id.clone());
            }
        }
        let space_path = match worktree_root {
            Some(root) => root,
            None => String::from_str(path),
        };
        SpaceChoice::Create(
            Space {
                id: new_space_id,
                device_id: String::from_str(self.config.device_id.as_str()),
                path: space_path,
                name: None,
                git_detected: false,
                git_checked_at: None,
                checkout_id: None,
                created_at: now_ms,
            },
        )
    }
}

} // verus!
