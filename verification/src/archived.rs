//! The archived-sessions list of the settings page: which chats show, and
//! how they are grouped by project.

use vstd::prelude::*;

use crate::model::{Chat, Space};
use crate::text::{
    lemma_text_lt_irreflexive, lemma_text_lt_total, lemma_text_lt_transitive, str_eq, text_lt,
    text_order, TextOrder,
};

verus! {

/// The archived chats, in their given (recency) order.
pub open spec fn archived_of(chats: Seq<Chat>) -> Seq<Chat>
    decreases chats.len(),
{
    if chats.len() == 0 {
        Seq::empty()
    } else if chats.last().archived {
        archived_of(chats.drop_last()).push(chats.last())
    } else {
        archived_of(chats.drop_last())
    }
}

/// The archived rows, in order.
pub fn archived_chats(chats: &Vec<Chat>) -> (r: Vec<&Chat>)
    ensures
        r@.len() == archived_of(chats@).len(),
        forall|i: int| 0 <= i < r@.len() ==> *r@[i] == archived_of(chats@)[i],
{
    let mut r: Vec<&Chat> = Vec::new();
    let mut i: usize = 0;
    while i < chats.len()
        invariant
            i <= chats.len(),
            r@.len() == archived_of(chats@.take(i as int)).len(),
            forall|k: int| 0 <= k < r@.len() ==> *r@[k] == archived_of(chats@.take(i as int))[k],
        decreases chats.len() - i,
    {
        assert(chats@.take(i + 1).drop_last() =~= chats@.take(i as int));
        if chats[i].archived {
            r.push(&chats[i]);
        }
        i = i + 1;
    }
    assert(chats@.take(chats.len() as int) =~= chats@);
    r
}

/// Lowercase text (`str::to_lowercase`).
pub uninterp spec fn lowercase(s: Seq<char>) -> Seq<char>;

/// Whether every character of the text is ASCII.
pub open spec fn is_ascii_text(s: Seq<char>) -> bool {
    forall|i: int| 0 <= i < s.len() ==> (#[trigger] s[i] as u32) < 128
}

/// The ASCII lowercase of a character: `A`..`Z` become `a`..`z`, every
/// other character stays.
pub open spec fn ascii_lower(c: char) -> char {
    if 65 <= (c as u32) <= 90 {
        ((c as u32) + 32) as char
    } else {
        c
    }
}

/// The text with each character ASCII-lowercased, one for one.
pub open spec fn ascii_lowered(s: Seq<char>) -> Seq<char> {
    Seq::new(s.len(), |i: int| ascii_lower(s[i]))
}

/// `str::to_lowercase`. Claimed: the result is a function of the text, and
/// on ASCII text it is the text with each letter `A`..`Z` lowercased and
/// every other character kept, one for one (ASCII is where `to_lowercase`
/// and `to_ascii_lowercase` agree). The Unicode case mapping of other text
/// is left unstated.
#[verifier::external_body]
fn to_lowercase(s: &str) -> (r: String)
    ensures
        r@ == lowercase(s@),
        is_ascii_text(s@) ==> r@ == ascii_lowered(s@),
{
    s.to_lowercase()
}

/// How a project heading names a space: its name, or its path when unnamed.
/// This is assumed to be the rule of the shared `Space::display_name`, whose
/// definition lives outside this crate and is not checked here.
pub open spec fn display_name(s: Space) -> Seq<char> {
    match s.name {
        Some(n) => n@,
        None => s.path@,
    }
}

/// The first space with the given id.
pub open spec fn space_with_id(spaces: Seq<Space>, id: Seq<char>, i: int) -> Option<Space>
    decreases spaces.len() - i,
{
    if i < 0 || i >= spaces.len() {
        None
    } else if spaces[i].id@ == id {
        Some(spaces[i])
    } else {
        space_with_id(spaces, id, i + 1)
    }
}

/// The group key of a chat: its space id, or a reserved key when it has none.
pub open spec fn group_key(c: Chat) -> Seq<char> {
    match c.space_id {
        Some(id) => id@,
        None => "__no-project__"@,
    }
}

/// The heading of a chat's group: its space's display name; `Unknown project`
/// when the space is gone; `No project` when it has none.
pub open spec fn group_name(c: Chat, spaces: Seq<Space>) -> Seq<char> {
    match c.space_id {
        Some(id) => match space_with_id(spaces, id@, 0) {
            Some(s) => display_name(s),
            None => "Unknown project"@,
        },
        None => "No project"@,
    }
}

/// The archived chats of the group with `key`, in order.
pub open spec fn archived_with_key(chats: Seq<Chat>, key: Seq<char>) -> Seq<Chat>
    decreases chats.len(),
{
    if chats.len() == 0 {
        Seq::empty()
    } else if chats.last().archived && group_key(chats.last()) == key {
        archived_with_key(chats.drop_last(), key).push(chats.last())
    } else {
        archived_with_key(chats.drop_last(), key)
    }
}

/// Archived chats of one project.
#[derive(Clone, Debug, PartialEq)]
pub struct ArchivedProjectGroup {
    pub key: String,
    pub name: String,
    pub chats: Vec<Chat>,
}

/// Headings order over the headings' names, their lowercased forms and their
/// keys: named projects by lowercased name, then by key; `No project` last.
pub open spec fn heading_order(
    a_name: Seq<char>,
    a_lower: Seq<char>,
    a_key: Seq<char>,
    b_name: Seq<char>,
    b_lower: Seq<char>,
    b_key: Seq<char>,
) -> bool {
    let an = a_name == "No project"@;
    let bn = b_name == "No project"@;
    (!an && bn) || (an == bn && (text_lt(a_lower, b_lower) || (a_lower == b_lower && text_lt(
        a_key,
        b_key,
    ))))
}

/// Headings order: named projects alphabetically (ignoring case, then by
/// key), `No project` last.
pub open spec fn group_before(a_name: Seq<char>, a_key: Seq<char>, b_name: Seq<char>, b_key: Seq<char>) -> bool {
    heading_order(a_name, lowercase(a_name), a_key, b_name, lowercase(b_name), b_key)
}

pub open spec fn groups_sorted(g: Seq<ArchivedProjectGroup>) -> bool {
    forall|i: int, j: int|
        0 <= i < j < g.len() ==> group_before(
            (#[trigger] g[i]).name@,
            g[i].key@,
            (#[trigger] g[j]).name@,
            g[j].key@,
        )
}

proof fn lemma_group_before_transitive(
    an: Seq<char>,
    ak: Seq<char>,
    bn: Seq<char>,
    bk: Seq<char>,
    cn: Seq<char>,
    ck: Seq<char>,
)
    requires
        group_before(an, ak, bn, bk),
        group_before(bn, bk, cn, ck),
    ensures
        group_before(an, ak, cn, ck),
{
    let (la, lb, lc) = (lowercase(an), lowercase(bn), lowercase(cn));
    if text_lt(la, lb) && text_lt(lb, lc) {
        lemma_text_lt_transitive(la, lb, lc);
    }
    if la == lb && lb == lc && text_lt(ak, bk) && text_lt(bk, ck) {
        lemma_text_lt_transitive(ak, bk, ck);
    }
}

proof fn lemma_group_before_total(an: Seq<char>, ak: Seq<char>, bn: Seq<char>, bk: Seq<char>)
    requires
        ak != bk,
    ensures
        group_before(an, ak, bn, bk) || group_before(bn, bk, an, ak),
        !(group_before(an, ak, bn, bk) && group_before(bn, bk, an, ak)),
{
    lemma_text_lt_total(lowercase(an), lowercase(bn));
    lemma_text_lt_total(ak, bk);
}

/// How many chats the groups list in all.
pub open spec fn total_chats(g: Seq<ArchivedProjectGroup>) -> int
    decreases g.len(),
{
    if g.len() == 0 {
        0
    } else {
        total_chats(g.drop_last()) + g.last().chats@.len()
    }
}

proof fn lemma_total_chats_update(g: Seq<ArchivedProjectGroup>, i: int, x: ArchivedProjectGroup)
    requires
        0 <= i < g.len(),
    ensures
        total_chats(g.update(i, x)) == total_chats(g) - g[i].chats@.len() + x.chats@.len(),
    decreases g.len(),
{
    if i == g.len() - 1 {
        assert(g.update(i, x).drop_last() =~= g.drop_last());
    } else {
        assert(g.update(i, x).drop_last() =~= g.drop_last().update(i, x));
        lemma_total_chats_update(g.drop_last(), i, x);
    }
}

proof fn lemma_total_chats_insert(g: Seq<ArchivedProjectGroup>, i: int, x: ArchivedProjectGroup)
    requires
        0 <= i <= g.len(),
    ensures
        total_chats(g.insert(i, x)) == total_chats(g) + x.chats@.len(),
    decreases g.len(),
{
    if i == g.len() {
        assert(g.insert(i, x).drop_last() =~= g);
    } else {
        assert(g.insert(i, x).drop_last() =~= g.drop_last().insert(i, x));
        lemma_total_chats_insert(g.drop_last(), i, x);
    }
}

/// The grouping state after the chats `p`: headings sorted, each group the
/// archived chats of its key with the heading of its first chat, and every
/// archived chat seen so far grouped.
pub open spec fn grouping(g: Seq<ArchivedProjectGroup>, p: Seq<Chat>, spaces: Seq<Space>) -> bool {
    &&& groups_sorted(g)
    &&& forall|i: int|
        0 <= i < g.len() ==> {
            &&& (#[trigger] g[i]).chats@ == archived_with_key(p, g[i].key@)
            &&& g[i].chats@.len() > 0
            &&& g[i].key@ == group_key(g[i].chats@[0])
            &&& g[i].name@ == group_name(g[i].chats@[0], spaces)
        }
    &&& forall|k: int|
        0 <= k < p.len() && (#[trigger] p[k]).archived ==> has_group(g, group_key(p[k]))
    &&& total_chats(g) == archived_of(p).len()
}

/// Every heading's lowercase form, for an ASCII heading, is its ASCII
/// lowercase.
pub open spec fn lowered_names(g: Seq<ArchivedProjectGroup>) -> bool {
    forall|i: int|
        0 <= i < g.len() && is_ascii_text((#[trigger] g[i]).name@) ==> lowercase(g[i].name@)
            == ascii_lowered(g[i].name@)
}

/// ASCII project headings stand in the order of their whole lowercased
/// names: of two such headings (neither `No project`) whose lowercased names
/// differ, the earlier one's lowercased name is the smaller.
pub open spec fn ascii_headings_ordered(g: Seq<ArchivedProjectGroup>) -> bool {
    forall|i: int, j: int|
        0 <= i < j < g.len() && is_ascii_text((#[trigger] g[i]).name@) && is_ascii_text(
            (#[trigger] g[j]).name@,
        ) && g[i].name@ != "No project"@ && g[j].name@ != "No project"@ && ascii_lowered(
            g[i].name@,
        ) != ascii_lowered(g[j].name@) ==> text_lt(ascii_lowered(g[i].name@), ascii_lowered(g[j].name@))
}

/// Sorted headings whose ASCII names were lowercased as ASCII stand in the
/// order of their whole lowercased names.
pub proof fn lemma_ascii_headings_ordered(g: Seq<ArchivedProjectGroup>)
    requires
        groups_sorted(g),
        lowered_names(g),
    ensures
        ascii_headings_ordered(g),
{
    assert forall|i: int, j: int|
        0 <= i < j < g.len() && is_ascii_text((#[trigger] g[i]).name@) && is_ascii_text(
            (#[trigger] g[j]).name@,
        ) && g[i].name@ != "No project"@ && g[j].name@ != "No project"@ && ascii_lowered(
            g[i].name@,
        ) != ascii_lowered(g[j].name@) implies text_lt(
        ascii_lowered(g[i].name@),
        ascii_lowered(g[j].name@),
    ) by {
        assert(group_before(g[i].name@, g[i].key@, g[j].name@, g[j].key@));
    }
}

/// Whether some group has this key.
pub open spec fn has_group(g: Seq<ArchivedProjectGroup>, key: Seq<char>) -> bool {
    exists|i: int| 0 <= i < g.len() && (#[trigger] g[i]).key@ == key
}

proof fn lemma_archived_with_key_nonempty(p: Seq<Chat>, key: Seq<char>)
    requires
        archived_with_key(p, key).len() > 0,
    ensures
        exists|k: int| 0 <= k < p.len() && (#[trigger] p[k]).archived && group_key(p[k]) == key,
    decreases p.len(),
{
    if p.last().archived && group_key(p.last()) == key {
        assert(p[p.len() - 1] == p.last());
    } else {
        lemma_archived_with_key_nonempty(p.drop_last(), key);
        let k = choose|k: int|
            0 <= k < p.drop_last().len() && (#[trigger] p.drop_last()[k]).archived && group_key(
                p.drop_last()[k],
            ) == key;
        assert(p[k] == p.drop_last()[k]);
    }
}

fn chat_group_heading(c: &Chat, spaces: &Vec<Space>) -> (r: (String, String))
    ensures
        r.0@ == group_key(*c),
        r.1@ == group_name(*c, spaces@),
{
    match &c.space_id {
        Some(id) => {
            let mut k: usize = 0;
            while k < spaces.len()
                invariant
                    k <= spaces.len(),
                    c.space_id matches Some(s) && s@ == id@,
                    space_with_id(spaces@, id@, 0) == space_with_id(spaces@, id@, k as int),
                decreases spaces.len() - k,
            {
                if str_eq(spaces[k].id.as_str(), id.as_str()) {
                    let name = match &spaces[k].name {
                        Some(n) => n.clone(),
                        None => spaces[k].path.clone(),
                    };
                    return (spaces[k].id.clone(), name);
                }
                k = k + 1;
            }
            (id.clone(), String::from_str("Unknown project"))
        },
        None => (String::from_str("__no-project__"), String::from_str("No project")),
    }
}

/// Whether heading `a` comes before heading `b`, given each heading's
/// name, its lowercased name and its key.
pub fn heading_before(
    a_name: &str,
    a_lower: &str,
    a_key: &str,
    b_name: &str,
    b_lower: &str,
    b_key: &str,
) -> (r: bool)
    ensures
        r == heading_order(a_name@, a_lower@, a_key@, b_name@, b_lower@, b_key@),
{
    let an = str_eq(a_name, "No project");
    let bn = str_eq(b_name, "No project");
    if an != bn {
        return !an;
    }
    match text_order(a_lower, b_lower) {
        TextOrder::Less => true,
        TextOrder::Greater => false,
        TextOrder::Equal => text_order(a_key, b_key) == TextOrder::Less,
    }
}

fn group_before_exec(a_name: &str, a_lower: &str, a_key: &str, b_name: &str, b_key: &str) -> (r: bool)
    requires
        a_lower@ == lowercase(a_name@),
    ensures
        r == group_before(a_name@, a_key@, b_name@, b_key@),
{
    let lb = to_lowercase(b_name);
    heading_before(a_name, a_lower, a_key, b_name, lb.as_str(), b_key)
}

fn add_to_groups(
    g: &mut Vec<ArchivedProjectGroup>,
    c: Chat,
    spaces: &Vec<Space>,
    Ghost(p): Ghost<Seq<Chat>>,
)
    requires
        grouping(old(g)@, p, spaces@),
        lowered_names(old(g)@),
    ensures
        grouping(final(g)@, p.push(c), spaces@),
        lowered_names(final(g)@),
{
    let ghost pp = p.push(c);
    assert(pp.drop_last() =~= p);
    assert(pp.last() == c);
    let ghost old_g = g@;
    if !c.archived {
        assert forall|i: int| 0 <= i < g@.len() implies (#[trigger] g@[i]).chats@
            == archived_with_key(pp, g@[i].key@) by {}
        assert forall|k: int|
            0 <= k < pp.len() && (#[trigger] pp[k]).archived implies has_group(
            g@,
            group_key(pp[k]),
        ) by {
            assert(pp[k] == p[k]);
        }
        return ;
    }
    let (key, name) = chat_group_heading(&c, spaces);
    let mut f: usize = 0;
    while f < g.len() && !str_eq(g[f].key.as_str(), key.as_str())
        invariant
            f <= g.len(),
            forall|i: int| 0 <= i < f ==> (#[trigger] g@[i]).key@ != key@,
        decreases g.len() - f,
    {
        f = f + 1;
    }
    if f < g.len() {
        let mut grp = g.remove(f);
        let ghost old_grp = grp;
        grp.chats.push(c);
        g.insert(f, grp);
        proof {
            assert(g@ =~= old_g.update(f as int, grp));
            assert(grp.chats@ =~= old_grp.chats@.push(c));
            lemma_total_chats_update(old_g, f as int, grp);
            assert(grp.chats@[0] == old_grp.chats@[0]);
            assert forall|i: int| 0 <= i < g@.len() && i != f implies (#[trigger] g@[i]).key@
                != key@ by {
                lemma_text_lt_irreflexive(key@);
                if i < f {
                    assert(group_before(
                        old_g[i].name@,
                        old_g[i].key@,
                        old_g[f as int].name@,
                        old_g[f as int].key@,
                    ));
                } else {
                    assert(group_before(
                        old_g[f as int].name@,
                        old_g[f as int].key@,
                        old_g[i].name@,
                        old_g[i].key@,
                    ));
                }
                if old_g[i].key@ == key@ {
                    lemma_text_lt_irreflexive(lowercase(old_g[i].name@));
                    lemma_text_lt_irreflexive(lowercase(old_g[f as int].name@));
                    lemma_text_lt_total(lowercase(old_g[i].name@), lowercase(old_g[f as int].name@));
                }
            }
            assert forall|i: int, j: int| 0 <= i < j < g@.len() implies group_before(
                (#[trigger] g@[i]).name@,
                g@[i].key@,
                (#[trigger] g@[j]).name@,
                g@[j].key@,
            ) by {
                assert(group_before(old_g[i].name@, old_g[i].key@, old_g[j].name@, old_g[j].key@));
            }
            assert forall|k: int|
                0 <= k < pp.len() && (#[trigger] pp[k]).archived implies has_group(
                g@,
                group_key(pp[k]),
            ) by {
                if k < p.len() {
                    assert(pp[k] == p[k]);
                    let w = choose|w: int| 0 <= w < old_g.len() && (#[trigger] old_g[w]).key@ == group_key(p[k]);
                    assert(g@[w].key@ == old_g[w].key@);
                } else {
                    assert(g@[f as int].key@ == key@);
                }
            }
        }
    } else {
        proof {
            assert(!has_group(old_g, key@));
            if archived_with_key(p, key@).len() > 0 {
                lemma_archived_with_key_nonempty(p, key@);
                let k = choose|k: int|
                    0 <= k < p.len() && (#[trigger] p[k]).archived && group_key(p[k]) == key@;
                assert(has_group(old_g, group_key(p[k])));
            }
            assert(archived_with_key(p, key@) =~= Seq::<Chat>::empty());
        }
        let lname = to_lowercase(name.as_str());
        let mut q: usize = 0;
        while q < g.len() && !group_before_exec(
            name.as_str(),
            lname.as_str(),
            key.as_str(),
            g[q].name.as_str(),
            g[q].key.as_str(),
        )
            invariant
                q <= g.len(),
                lname@ == lowercase(name@),
                forall|i: int|
                    0 <= i < q ==> !group_before(
                        name@,
                        key@,
                        (#[trigger] g@[i]).name@,
                        g@[i].key@,
                    ),
            decreases g.len() - q,
        {
            q = q + 1;
        }
        let mut chats: Vec<Chat> = Vec::new();
        chats.push(c);
        let grp = ArchivedProjectGroup { key, name, chats };
        assert(grp.chats@ =~= seq![c]);
        g.insert(q, grp);
        proof {
            lemma_total_chats_insert(old_g, q as int, grp);
            assert forall|i: int| 0 <= i < old_g.len() implies (#[trigger] old_g[i]).key@ != grp.key@ by {}
            assert forall|i: int| 0 <= i < q implies group_before(
                (#[trigger] old_g[i]).name@,
                old_g[i].key@,
                grp.name@,
                grp.key@,
            ) by {
                lemma_group_before_total(old_g[i].name@, old_g[i].key@, grp.name@, grp.key@);
            }
            assert forall|i: int, j: int| 0 <= i < j < g@.len() implies group_before(
                (#[trigger] g@[i]).name@,
                g@[i].key@,
                (#[trigger] g@[j]).name@,
                g@[j].key@,
            ) by {
                if j < q {
                    assert(group_before(old_g[i].name@, old_g[i].key@, old_g[j].name@, old_g[j].key@));
                } else if j == q {
                } else if i < q {
                    assert(g@[j] == old_g[j - 1]);
                    assert(group_before(old_g[i].name@, old_g[i].key@, old_g[j - 1].name@, old_g[j - 1].key@));
                } else if i == q {
                    assert(g@[j] == old_g[j - 1]);
                    assert(group_before(grp.name@, grp.key@, old_g[q as int].name@, old_g[q as int].key@));
                    if j - 1 > q {
                        assert(group_before(
                            old_g[q as int].name@,
                            old_g[q as int].key@,
                            old_g[j - 1].name@,
                            old_g[j - 1].key@,
                        ));
                        lemma_group_before_transitive(
                            grp.name@,
                            grp.key@,
                            old_g[q as int].name@,
                            old_g[q as int].key@,
                            old_g[j - 1].name@,
                            old_g[j - 1].key@,
                        );
                    }
                } else {
                    assert(group_before(old_g[i - 1].name@, old_g[i - 1].key@, old_g[j - 1].name@, old_g[j - 1].key@));
                }
            }
            assert forall|i: int| 0 <= i < g@.len() implies {
                &&& (#[trigger] g@[i]).chats@ == archived_with_key(pp, g@[i].key@)
                &&& g@[i].chats@.len() > 0
                &&& g@[i].key@ == group_key(g@[i].chats@[0])
                &&& g@[i].name@ == group_name(g@[i].chats@[0], spaces@)
            } by {
                if i < q {
                    assert(g@[i] == old_g[i]);
                } else if i > q {
                    assert(g@[i] == old_g[i - 1]);
                }
            }
            assert forall|k: int|
                0 <= k < pp.len() && (#[trigger] pp[k]).archived implies has_group(
                g@,
                group_key(pp[k]),
            ) by {
                if k < p.len() {
                    assert(pp[k] == p[k]);
                    let w = choose|w: int| 0 <= w < old_g.len() && (#[trigger] old_g[w]).key@ == group_key(p[k]);
                    if w < q {
                        assert(g@[w].key@ == old_g[w].key@);
                    } else {
                        assert(g@[w + 1].key@ == old_g[w].key@);
                    }
                } else {
                    assert(g@[q as int].key@ == key@);
                }
            }
        }
    }
}

/// Groups the archived chats by project, keeping each project's chats in
/// their given order; headings are sorted with `No project` last, and a
/// chat whose space is gone stays visible under `Unknown project`.
pub fn archived_project_groups(chats: Vec<Chat>, spaces: &Vec<Space>) -> (r: Vec<
    ArchivedProjectGroup,
>)
    ensures
        grouping(r@, chats@, spaces@),
        total_chats(r@) == archived_of(chats@).len(),
        ascii_headings_ordered(r@),
{
    let mut chats = chats;
    let ghost orig = chats@;
    let mut g: Vec<ArchivedProjectGroup> = Vec::new();
    proof {
        assert(orig.subrange(0, 0) =~= Seq::<Chat>::empty());
        assert(chats@ =~= orig.subrange(0, orig.len() as int));
    }
    while chats.len() > 0
        invariant
            chats@.len() <= orig.len(),
            chats@ == orig.subrange(orig.len() - chats@.len(), orig.len() as int),
            grouping(g@, orig.subrange(0, orig.len() - chats@.len()), spaces@),
            lowered_names(g@),
        decreases chats.len(),
    {
        let ghost taken = orig.len() - chats@.len();
        let ghost rest = chats@;
        assert(rest[0] == orig.subrange(taken, orig.len() as int)[0]);
        let c = chats.remove(0);
        assert(chats@ =~= orig.subrange(orig.len() - chats@.len(), orig.len() as int));
        assert(orig.subrange(0, taken + 1) =~= orig.subrange(0, taken).push(c));
        add_to_groups(&mut g, c, spaces, Ghost(orig.subrange(0, taken)));
    }
    assert(orig.subrange(0, orig.len() as int) =~= orig);
    proof {
        lemma_ascii_headings_ordered(g@);
    }
    g
}

/// The number of archived sessions the page heading shows: all chats listed
/// in the groups.
pub fn archived_count(groups: &Vec<ArchivedProjectGroup>) -> (n: usize)
    requires
        total_chats(groups@) <= usize::MAX,
    ensures
        n == total_chats(groups@),
{
    let mut n: usize = 0;
    let mut k: usize = 0;
    while k < groups.len()
        invariant
            k <= groups.len(),
            n == total_chats(groups@.take(k as int)),
            total_chats(groups@) <= usize::MAX,
        decreases groups.len() - k,
    {
        proof {
            assert(groups@.take(k + 1).drop_last() =~= groups@.take(k as int));
            lemma_total_chats_prefix(groups@, k + 1);
        }
        n = n + groups[k].chats.len();
        k = k + 1;
    }
    assert(groups@.take(groups.len() as int) =~= groups@);
    n
}

proof fn lemma_total_chats_prefix(g: Seq<ArchivedProjectGroup>, k: int)
    requires
        0 <= k <= g.len(),
    ensures
        0 <= total_chats(g.take(k)) <= total_chats(g),
    decreases g.len(),
{
    if g.len() > 0 {
        if k == g.len() {
            assert(g.take(k) =~= g);
            lemma_total_chats_prefix(g.drop_last(), k - 1);
            assert(g.drop_last().take(k - 1) =~= g.drop_last());
        } else {
            assert(g.take(k) =~= g.drop_last().take(k));
            lemma_total_chats_prefix(g.drop_last(), k);
        }
    }
}

} // verus!
