//! The messages that the desktop app exchanges with a relay server over one
//! connection: the handshake, the signed messages it sends, and how it reads
//! the answers to its lookups.

use vstd::prelude::*;

use crate::common::{
    friends_bytes, friends_spec, interaction_bytes, interaction_spec, message_bytes, message_spec,
    profile_bytes, profile_spec, register_bytes, register_spec, ClientMessage, Profile,
    ServerMessage, VERSION,
};
use crate::identity::{key_from_text, signed_by, AppKeypair};
use crate::records::{copy_optional, User};
use crate::relay::{admissible, copy_profile};
use crate::strings::{str_eq, views};

verus! {

/// The challenge to sign, if the server's first message is a challenge of
/// this protocol version.
pub fn accept_challenge(message: &ServerMessage) -> (r: Option<String>)
    ensures
        r matches Some(c) ==> message matches ServerMessage::Challenge { version, challenge } && version
            == VERSION && c@ == challenge@,
        r is None ==> !(message matches ServerMessage::Challenge { version, .. } && version == VERSION),
{
    match message {
        ServerMessage::Challenge { version, challenge } => if *version == VERSION {
            Some(challenge.clone())
        } else {
            None
        },
        _ => None,
    }
}

/// The public profile of the local user.
pub fn profile_of(user: &User) -> (r: Profile)
    ensures
        r.id == user.id,
        r.display_name == user.display_name,
        r.skin_hash == user.skin_hash,
{
    Profile {
        id: user.id.clone(),
        display_name: user.display_name.clone(),
        skin_hash: copy_optional(&user.skin_hash),
    }
}

/// Whether a signature, under the key that the local user id stands for,
/// covers `bytes`.
pub open spec fn signed_by_user(keypair: AppKeypair, bytes: Seq<u8>, signature: Seq<char>) -> bool {
    key_from_text(keypair.id()) matches Ok(key) && signed_by(key, bytes, signature)
}

/// The registration that answers `challenge`: the profile and friend list,
/// signed together with the challenge. A relay server admits it when the
/// profile is the user's own and any skin hash in it is well formed.
pub fn registration(keypair: &AppKeypair, challenge: &str, profile: Profile, friends: Vec<String>) -> (r:
    ClientMessage)
    ensures
        r matches ClientMessage::Register { profile: p, friends: f, signature } && p == profile && f
            == friends && signed_by_user(
            *keypair,
            register_spec(challenge@, profile, views(friends@)),
            signature@,
        ),
        r matches ClientMessage::Register { signature, .. } ==> (profile.id@ == keypair.id() && (
        profile.skin_hash matches Some(h) ==> crate::common::skin_hash_spec(h@)) ==> admissible(
            challenge@,
            profile,
            friends@,
            signature@,
        )),
{
    let signature = keypair.sign(register_bytes(challenge, &profile, friends.as_slice()).as_slice());
    ClientMessage::Register { profile, friends, signature }
}

/// Live data, signed.
pub fn live_data_message(keypair: &AppKeypair, payload: String) -> (r: ClientMessage)
    ensures
        r matches ClientMessage::Signed { payload: p, signature } && p == payload && signed_by_user(
            *keypair,
            message_spec(payload@),
            signature@,
        ),
{
    let signature = keypair.sign(message_bytes(payload.as_str()).as_slice());
    ClientMessage::Signed { payload, signature }
}

/// An interaction for `recipient_id`, signed.
pub fn interaction_message(
    keypair: &AppKeypair,
    interaction_id: String,
    recipient_id: String,
    payload: String,
) -> (r: ClientMessage)
    ensures
        r matches ClientMessage::Interaction {
            interaction_id: i,
            recipient_id: t,
            payload: p,
            signature,
        } && i == interaction_id && t == recipient_id && p == payload && signed_by_user(
            *keypair,
            interaction_spec(interaction_id@, recipient_id@, payload@),
            signature@,
        ),
{
    let signature = keypair.sign(
        interaction_bytes(interaction_id.as_str(), recipient_id.as_str(), payload.as_str()).as_slice(),
    );
    ClientMessage::Interaction { interaction_id, recipient_id, payload, signature }
}

/// A profile update, signed.
pub fn profile_message(keypair: &AppKeypair, profile: Profile) -> (r: ClientMessage)
    ensures
        r matches ClientMessage::ProfileUpdated { profile: p, signature } && p == profile
            && signed_by_user(*keypair, profile_spec(profile), signature@),
{
    let signature = keypair.sign(profile_bytes(&profile).as_slice());
    ClientMessage::ProfileUpdated { profile, signature }
}

/// A friend list update, signed.
pub fn friends_message(keypair: &AppKeypair, friends: Vec<String>) -> (r: ClientMessage)
    ensures
        r matches ClientMessage::FriendsUpdated { friends: f, signature } && f == friends
            && signed_by_user(*keypair, friends_spec(views(friends@)), signature@),
{
    let signature = keypair.sign(friends_bytes(friends.as_slice()).as_slice());
    ClientMessage::FriendsUpdated { friends, signature }
}

/// The display name that answers a lookup of `user_id`: that of the profile
/// found, if it is that user's.
pub fn resolved_display_name(user_id: &str, profile: Option<Profile>) -> (r: Option<String>)
    ensures
        r == match profile {
            Some(p) => if p.id@ == user_id@ {
                Some(p.display_name)
            } else {
                None::<String>
            },
            None => None::<String>,
        },
{
    match profile {
        Some(p) => if str_eq(p.id.as_str(), user_id) {
            Some(p.display_name)
        } else {
            None
        },
        None => None,
    }
}

/// The skin data that answers a request for skin `expected_hash` of
/// `expected_user`: the data of a response about that user and that skin.
pub fn resolved_skin(
    expected_user: &str,
    expected_hash: &str,
    user_id: &str,
    skin_hash: &str,
    data: Option<String>,
) -> (r: Option<String>)
    ensures
        r == if user_id@ == expected_user@ && skin_hash@ == expected_hash@ {
            data
        } else {
            None
        },
{
    if str_eq(user_id, expected_user) && str_eq(skin_hash, expected_hash) {
        data
    } else {
        None
    }
}

/// Whether to provide the skin a friend asks for: only the skin that the
/// user's profile currently advertises.
pub fn provides_skin(own_skin: &Option<String>, requested: &str) -> (r: bool)
    ensures
        r == (own_skin matches Some(h) && h@ == requested@),
{
    match own_skin {
        Some(h) => str_eq(h.as_str(), requested),
        None => false,
    }
}

} // verus!
