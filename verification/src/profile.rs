//! The single local profile: where its data lives under the data directory
//! and which identity it reports.

use vstd::prelude::*;

use crate::model::WorkspaceScope;

verus! {

/// `path` with the relative component `comp` appended, as `Path::join`
/// does on Unix: a separator is added unless the path is empty or already
/// ends with one.
pub open spec fn path_join(path: Seq<char>, comp: Seq<char>) -> Seq<char> {
    if path.len() == 0 {
        comp
    } else if path.last() == '/' {
        path + comp
    } else {
        path + "/"@ + comp
    }
}

pub fn join_path(path: &str, comp: &str) -> (r: String)
    ensures
        r@ == path_join(path@, comp@),
{
    let n = path.unicode_len();
    let mut s = String::from_str(path);
    if n > 0 && path.get_char(n - 1) != '/' {
        s.append("/");
    }
    s.append(comp);
    proof {
        if n == 0 {
            assert(path@ =~= Seq::<char>::empty());
            assert(s@ =~= comp@);
        }
    }
    s
}

/// The lowercase hexadecimal digit of a value below 16.
pub open spec fn hex_digit(n: int) -> char {
    if n < 10 {
        (48 + n) as char
    } else {
        (87 + n) as char
    }
}

/// Lowercase hexadecimal, two digits per byte.
pub open spec fn hex_of(b: Seq<u8>) -> Seq<char>
    decreases b.len(),
{
    if b.len() == 0 {
        Seq::empty()
    } else {
        seq![hex_digit(b[0] as int / 16), hex_digit(b[0] as int % 16)] + hex_of(b.drop_first())
    }
}

/// The hyphenated lowercase text of a UUID's sixteen bytes
/// (`8-4-4-4-12` hexadecimal digits).
pub open spec fn uuid_text(b: Seq<u8>) -> Seq<char> {
    hex_of(b.subrange(0, 4)) + "-"@ + hex_of(b.subrange(4, 6)) + "-"@ + hex_of(b.subrange(6, 8))
        + "-"@ + hex_of(b.subrange(8, 10)) + "-"@ + hex_of(b.subrange(10, 16))
}

/// `uuid::Uuid::from_bytes(bytes).to_string()`. Claimed: the hyphenated
/// lowercase hexadecimal form, which is what `Uuid`'s `Display` (its
/// `LowerHex` formatting) writes.
#[verifier::external_body]
fn uuid_string(bytes: [u8; 16]) -> (r: String)
    ensures
        r@ == uuid_text(bytes@),
{
    uuid::Uuid::from_bytes(bytes).to_string()
}

/// The local profile of this machine.
#[derive(Clone, Debug, PartialEq)]
pub struct EngineProfile {
    device_root: String,
    store_root: String,
    uploads_root: String,
    profile_id: String,
}

/// What a profile holds, as texts.
pub struct EngineProfileView {
    pub device_root: Seq<char>,
    pub store_root: Seq<char>,
    pub uploads_root: Seq<char>,
    pub profile_id: Seq<char>,
}

impl View for EngineProfile {
    type V = EngineProfileView;

    closed spec fn view(&self) -> EngineProfileView {
        EngineProfileView {
            device_root: self.device_root@,
            store_root: self.store_root@,
            uploads_root: self.uploads_root@,
            profile_id: self.profile_id@,
        }
    }
}

impl EngineProfile {
    /// The profile for a data directory and the stored profile UUID: the
    /// store lives at `<data>/profiles/local`, uploads under its `uploads`,
    /// and the user id is the UUID's hyphenated text.
    pub fn local(data_dir: &str, profile_uuid: [u8; 16]) -> (p: EngineProfile)
        ensures
            p@.device_root == data_dir@,
            p@.store_root == path_join(path_join(data_dir@, "profiles"@), "local"@),
            p@.uploads_root == path_join(p@.store_root, "uploads"@),
            p@.profile_id == uuid_text(profile_uuid@),
    {
        let profiles = join_path(data_dir, "profiles");
        let store_root = join_path(profiles.as_str(), "local");
        let uploads_root = join_path(store_root.as_str(), "uploads");
        EngineProfile {
            device_root: String::from_str(data_dir),
            uploads_root,
            store_root,
            profile_id: uuid_string(profile_uuid),
        }
    }

    /// The scope of the profile's workspace data: always local.
    pub fn scope(&self) -> (s: WorkspaceScope)
        ensures
            s == WorkspaceScope::Local,
    {
        WorkspaceScope::Local
    }

    pub fn device_root(&self) -> (r: &str)
        ensures
            r@ == self@.device_root,
    {
        self.device_root.as_str()
    }

    pub fn store_root(&self) -> (r: &str)
        ensures
            r@ == self@.store_root,
    {
        self.store_root.as_str()
    }

    pub fn uploads_root(&self) -> (r: &str)
        ensures
            r@ == self@.uploads_root,
    {
        self.uploads_root.as_str()
    }

    /// The organization id of a local profile: always `local`.
    pub fn org_id(&self) -> (r: &str)
        ensures
            r@ == "local"@,
    {
        "local"
    }

    /// The user id: the profile's UUID text.
    pub fn user_id(&self) -> (r: &str)
        ensures
            r@ == self@.profile_id,
    {
        self.profile_id.as_str()
    }
}

} // verus!
