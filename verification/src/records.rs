//! The records that the desktop app keeps in its database and announces to
//! its user interface: the user, friends, relay servers and scene settings.

use vstd::prelude::*;
use vstd::string::StrSliceExecFns;

use crate::common::{is_skin_hash, is_white_space, is_white_space_char, skin_hash_spec, Profile};
use crate::network::check_friend_id;
use crate::identity::key_from_text;

verus! {

/// A public user identity: `id` is the user's Ed25519 public key.
#[derive(Debug, Clone)]
pub struct User {
    pub id: String,
    pub display_name: String,
    pub skin_hash: Option<String>,
}

/// The local profile changed.
#[derive(Debug, Clone)]
pub struct ProfileChanged {
    pub profile: User,
}

/// A friend: a public key, with the display name and skin learned from the
/// friend's signed profile once known.
#[derive(Debug, Clone)]
pub struct Friend {
    pub id: String,
    pub display_name: Option<String>,
    pub skin_hash: Option<String>,
}

/// The friend list changed.
#[derive(Debug, Clone)]
pub struct FriendsChanged {
    pub friends: Vec<Friend>,
}

/// A configured relay server.
#[derive(Debug, Clone)]
pub struct Remote {
    pub id: String,
    pub address: String,
    pub name: Option<String>,
    pub port: Option<u16>,
}

/// What the user enters to add or edit a relay server.
#[derive(Debug, Clone)]
pub struct RemoteInput {
    pub address: String,
    pub name: Option<String>,
    pub port: Option<u16>,
}

/// The list of relay servers changed.
#[derive(Debug, Clone)]
pub struct RemotesChanged {
    pub remotes: Vec<Remote>,
}

/// Where puppets may move on the screen.
#[derive(Debug, Clone, Copy, PartialEq, Eq, Structural)]
pub enum PuppetMovementMode {
    Free,
    Bottom,
}

impl Default for PuppetMovementMode {
    /// Puppets move freely unless configured otherwise.
    fn default() -> (r: PuppetMovementMode)
        ensures
            r == PuppetMovementMode::Free,
    {
        PuppetMovementMode::Free
    }
}

/// The display name shown for a stored profile name: `Anonymous` when none
/// was entered.
pub fn display_name_or_anonymous(stored: String) -> (r: String)
    ensures
        r@ == if stored@.len() == 0 {
            "Anonymous"@
        } else {
            stored@
        },
{
    if stored.as_str().unicode_len() == 0 {
        "Anonymous".to_owned()
    } else {
        stored
    }
}

/// An exact copy of an optional string.
pub fn copy_optional(s: &Option<String>) -> (r: Option<String>)
    ensures
        r == *s,
{
    match s {
        Some(v) => Some(v.clone()),
        None => None,
    }
}

/// An exact copy of a relay server record.
pub fn copy_remote(remote: &Remote) -> (r: Remote)
    ensures
        r == *remote,
{
    Remote {
        id: remote.id.clone(),
        address: remote.address.clone(),
        name: copy_optional(&remote.name),
        port: remote.port,
    }
}

/// The relay server record made from the user's input and a fresh id.
pub fn remote_from_input(id: String, input: RemoteInput) -> (r: Remote)
    ensures
        r.id == id,
        r.address == input.address,
        r.name == input.name,
        r.port == input.port,
{
    Remote { id, address: input.address, name: input.name, port: input.port }
}

/// The text of an error, as commands answer it to the user interface.
pub fn command_error<E: std::fmt::Display>(error: E) -> (r: String)
    ensures
        vstd::string::to_string_from_display_ensures::<E>(&error, r),
{
    error.to_string()
}

/// `text` without the white space at either end: the characters from the
/// first to the last that are not white space.
pub open spec fn trimmed(text: Seq<char>) -> Seq<char> {
    if forall|i: int| 0 <= i < text.len() ==> is_white_space(#[trigger] text[i]) {
        Seq::empty()
    } else {
        let first = choose|i: int|
            0 <= i < text.len() && !is_white_space(text[i]) && forall|j: int|
                0 <= j < i ==> is_white_space(#[trigger] text[j]);
        let last = choose|i: int|
            0 <= i < text.len() && !is_white_space(text[i]) && forall|j: int|
                i < j < text.len() ==> is_white_space(#[trigger] text[j]);
        text.subrange(first, last + 1)
    }
}

/// `text` without the white space at either end.
pub fn trim(text: &str) -> (r: String)
    ensures
        r@ == trimmed(text@),
{
    let n = text.unicode_len();
    let mut first: usize = 0;
    while first < n && is_white_space_char(text.get_char(first))
        invariant
            n == text@.len(),
            first <= n,
            forall|j: int| 0 <= j < first ==> is_white_space(#[trigger] text@[j]),
        decreases n - first,
    {
        first = first + 1;
    }
    if first == n {
        return String::new();
    }
    let mut last: usize = n - 1;
    while is_white_space_char(text.get_char(last))
        invariant
            n == text@.len(),
            first <= last < n,
            !is_white_space(text@[first as int]),
            forall|j: int| last < j < n ==> is_white_space(#[trigger] text@[j]),
        decreases last,
    {
        last = last - 1;
    }
    proof {
        let f = choose|i: int|
            0 <= i < text@.len() && !is_white_space(text@[i]) && forall|j: int|
                0 <= j < i ==> is_white_space(#[trigger] text@[j]);
        assert(0 <= first < n && !is_white_space(text@[first as int]));
        if f < first {
            assert(is_white_space(text@[f]));
        }
        if f > first {
            assert(is_white_space(text@[first as int]));
        }
        let l = choose|i: int|
            0 <= i < text@.len() && !is_white_space(text@[i]) && forall|j: int|
                i < j < text@.len() ==> is_white_space(#[trigger] text@[j]);
        assert(!is_white_space(text@[last as int]));
        if l < last {
            assert(is_white_space(text@[last as int]));
        }
        if l > last {
            assert(is_white_space(text@[l]));
        }
    }
    text.substring_char(first, last + 1).to_owned()
}

/// The friend record for an id the user entered: the id without surrounding
/// white space, once it is an Ed25519 public key other than the user's own.
pub fn new_friend(entered: &str, own_id: &str) -> (r: Result<Friend, String>)
    ensures
        r matches Ok(f) ==> f.id@ == trimmed(entered@) && f.display_name is None && f.skin_hash is None,
        r is Ok <==> (key_from_text(trimmed(entered@)) is Ok && trimmed(entered@) != own_id@),
{
    let id = trim(entered);
    check_friend_id(id.as_str(), own_id)?;
    Ok(Friend { id, display_name: None, skin_hash: None })
}

/// Whether a friend's profile may be stored: any skin hash in it is well
/// formed.
pub fn profile_is_storable(profile: &Profile) -> (r: bool)
    ensures
        r == (profile.skin_hash matches Some(h) ==> skin_hash_spec(h@)),
{
    match &profile.skin_hash {
        Some(h) => is_skin_hash(h.as_str()),
        None => true,
    }
}

/// Whether the local database was written by a newer version of the app:
/// it has a migration history whose latest migration is newer than the
/// latest this version knows.
pub fn requires_newer_app(has_history: bool, latest_applied: Option<i64>, latest_supported: Option<i64>) -> (r:
    bool)
    ensures
        r == (has_history && match (latest_applied, latest_supported) {
            (Some(a), Some(s)) => a > s,
            _ => false,
        }),
{
    if !has_history {
        return false;
    }
    match (latest_applied, latest_supported) {
        (Some(applied), Some(supported)) => applied > supported,
        _ => false,
    }
}

} // verus!
