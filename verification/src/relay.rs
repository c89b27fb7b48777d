//! The relay server's registry of connected clients and the decisions it
//! makes for them: who is admitted, who sees whose presence, profile and live
//! data, and where an interaction or a skin request goes. A client is known by
//! its user id and by the id of its current connection; a request from a
//! connection that is no longer current is refused.

use vstd::prelude::*;
use vstd::utf8::encode_utf8;

use crate::common::{
    content_error, MAX_IMAGE_DIMENSION,
    friends_bytes, friends_spec, interaction_bytes, interaction_spec, is_skin_hash, message_bytes,
    message_spec, profile_bytes, profile_spec, register_bytes, register_spec, skin_hash_spec,
    InteractionContent, InteractionDeliveryStatus, Profile, MAX_INTERACTION_PAYLOAD_BYTES,
    MAX_SKIN_B64_SIZE,
};
use crate::identity::{decode_standard, key_from_text, public_key, signed_by, standard_decoded, verify};
use crate::media::{dimensions, guess_format, guessed_format, header_dimensions, ImageFormat};
use crate::strings::{str_eq, strictly_sorted, views, StringMap, StringSet};

verus! {

/// A registered client.
pub struct Client {
    pub connection_id: u128,
    pub key: [u8; 32],
    pub profile: Profile,
    pub friends: Vec<String>,
}

/// Whether `friends` names `id`.
pub open spec fn lists(friends: Seq<String>, id: Seq<char>) -> bool {
    views(friends).contains(id)
}

/// Whether each of two users lists the other as a friend.
pub open spec fn mutual(a: Seq<char>, a_friends: Seq<String>, b: Seq<char>, b_friends: Seq<String>) -> bool {
    lists(a_friends, b) && lists(b_friends, a)
}

/// The registered users other than `id` who are mutual friends of `id`, were
/// its friends `friends`.
pub open spec fn mutual_set(reg: Map<Seq<char>, Client>, id: Seq<char>, friends: Seq<String>) -> Set<
    Seq<char>,
> {
    reg.dom().filter(|f: Seq<char>| f != id && mutual(id, friends, f, reg[f].friends@))
}

/// The registered users other than `id` who list `id` as a friend: those who
/// follow its profile.
pub open spec fn subscriber_set(reg: Map<Seq<char>, Client>, id: Seq<char>) -> Set<Seq<char>> {
    reg.dom().filter(|f: Seq<char>| f != id && lists(reg[f].friends@, id))
}

/// Whether `connection_id` is the current connection of `id`.
pub open spec fn current(reg: Map<Seq<char>, Client>, id: Seq<char>, connection_id: u128) -> bool {
    reg.dom().contains(id) && reg[id].connection_id == connection_id
}

/// A list of user ids in increasing order, each once, that are the set `s`.
pub open spec fn lists_exactly(v: Seq<String>, s: Set<Seq<char>>) -> bool {
    strictly_sorted(views(v)) && views(v).to_set() == s
}

/// Whether `friends` names `id`.
pub fn names(friends: &[String], id: &str) -> (r: bool)
    ensures
        r == lists(friends@, id@),
{
    let mut i: usize = 0;
    while i < friends.len()
        invariant
            i <= friends@.len(),
            forall|j: int| 0 <= j < i ==> friends@[j]@ != id@,
        decreases friends.len() - i,
    {
        if str_eq(friends[i].as_str(), id) {
            assert(views(friends@)[i as int] == id@);
            return true;
        }
        i = i + 1;
    }
    assert(!views(friends@).contains(id@)) by {
        if views(friends@).contains(id@) {
            let k = choose|k: int| 0 <= k < views(friends@).len() && views(friends@)[k] == id@;
            assert(friends@[k]@ == id@);
        }
    }
    false
}

/// The number of times `id` occurs in `ids`.
pub open spec fn occurrences(ids: Seq<Seq<char>>, id: Seq<char>) -> nat
    decreases ids.len(),
{
    if ids.len() == 0 {
        0
    } else {
        occurrences(ids.drop_last(), id) + if ids.last() == id {
            1nat
        } else {
            0nat
        }
    }
}

/// The registered profiles among `ids` (taken in order), each repeated as
/// often as `friends` names it.
pub open spec fn friend_profiles(reg: Map<Seq<char>, Client>, ids: Seq<Seq<char>>, friends: Seq<String>) -> Seq<
    Profile,
>
    decreases ids.len(),
{
    if ids.len() == 0 {
        Seq::empty()
    } else {
        friend_profiles(reg, ids.drop_last(), friends) + Seq::new(
            occurrences(views(friends), ids.last()),
            |_i: int| reg[ids.last()].profile,
        )
    }
}

/// The elements of a finite set of strings in increasing order.
pub open spec fn in_order(s: Set<Seq<char>>) -> Seq<Seq<char>> {
    choose|q: Seq<Seq<char>>| strictly_sorted(q) && q.to_set() == s
}

/// The number of times `friends` names `id`.
pub fn count_names(friends: &[String], id: &str) -> (r: usize)
    ensures
        r == occurrences(views(friends@), id@),
{
    let ghost v = views(friends@);
    let mut c: usize = 0;
    let mut j: usize = 0;
    while j < friends.len()
        invariant
            v == views(friends@),
            j <= friends@.len(),
            c <= j,
            c == occurrences(v.take(j as int), id@),
        decreases friends.len() - j,
    {
        proof {
            assert(v.take(j + 1).drop_last() =~= v.take(j as int));
        }
        if str_eq(friends[j].as_str(), id) {
            c = c + 1;
        }
        j = j + 1;
    }
    assert(v.take(friends@.len() as int) =~= v);
    c
}

/// Whether `source_id` (with friends `source_friends`) and `viewer_id` (with
/// friends `viewer_friends`) list each other.
pub fn mutual_friends(
    source_id: &str,
    source_friends: &[String],
    viewer_id: &str,
    viewer_friends: &[String],
) -> (r: bool)
    ensures
        r == mutual(source_id@, source_friends@, viewer_id@, viewer_friends@),
{
    names(source_friends, viewer_id) && names(viewer_friends, source_id)
}

/// Whether `viewer` sees the presence of `source`: they are mutual friends.
pub fn visible_to(source_id: &str, source: &Client, viewer_id: &str, viewer: &Client) -> (r: bool)
    ensures
        r == mutual(source_id@, source.friends@, viewer_id@, viewer.friends@),
{
    mutual_friends(source_id, source.friends.as_slice(), viewer_id, viewer.friends.as_slice())
}

/// An exact copy of a profile.
pub fn copy_profile(p: &Profile) -> (r: Profile)
    ensures
        r == *p,
{
    Profile {
        id: p.id.clone(),
        display_name: p.display_name.clone(),
        skin_hash: match &p.skin_hash {
            Some(h) => Some(h.clone()),
            None => None,
        },
    }
}

/// An exact copy of a list of strings.
pub fn copy_strings(v: &[String]) -> (r: Vec<String>)
    ensures
        r@ == v@,
{
    let mut r: Vec<String> = Vec::new();
    let mut i: usize = 0;
    while i < v.len()
        invariant
            i <= v@.len(),
            r@ == v@.take(i as int),
        decreases v.len() - i,
    {
        r.push(v[i].clone());
        i = i + 1;
        assert(r@ =~= v@.take(i as int));
    }
    assert(v@.take(v@.len() as int) =~= v@);
    r
}

/// Whom to tell that a user came online and whom that it went offline.
pub struct StatusChanges {
    pub online: Vec<String>,
    pub offline: Vec<String>,
}

/// The answer to a friend list update: the friends now online, and the
/// friends to tell of the change.
pub struct FriendsUpdate {
    pub friend_ids: Vec<String>,
    pub changes: StatusChanges,
}

/// What becomes of an interaction that a client sends.
#[derive(Debug, Clone, Copy, PartialEq, Eq, Structural)]
pub enum InteractionRelay {
    /// The request is not from a current connection or not signed: the
    /// connection ends.
    Close,
    /// The sender is answered at once.
    Respond(InteractionDeliveryStatus),
    /// The interaction goes to the recipient.
    Deliver,
}

/// How handing a message to a recipient's queue went.
#[derive(Debug, Clone, Copy, PartialEq, Eq, Structural)]
pub enum QueueOutcome {
    Queued,
    Full,
    Closed,
}

/// What becomes of a request for a friend's skin.
#[derive(Debug, Clone, Copy, PartialEq, Eq, Structural)]
pub enum SkinRequest {
    /// The request is not from a current connection: the connection ends.
    StaleSession,
    /// The request goes to the friend who advertises that skin.
    Forward,
    /// The requester is told at once that the skin is not available.
    Unavailable,
}

/// Whether a profile advertises the skin hash `hash`.
pub open spec fn advertises(p: Profile, hash: Seq<char>) -> bool {
    p.skin_hash matches Some(h) && h@ == hash
}

/// Whether a registration is admitted: any skin hash is well formed, the
/// user id is an Ed25519 public key, and the signature covers the challenge,
/// the profile and the friend list under that key.
pub open spec fn admissible(
    challenge: Seq<char>,
    profile: Profile,
    friends: Seq<String>,
    signature: Seq<char>,
) -> bool {
    &&& profile.skin_hash matches Some(h) ==> skin_hash_spec(h@)
    &&& key_from_text(profile.id@) matches Ok(k) && signed_by(
        k,
        register_spec(challenge, profile, views(friends)),
        signature,
    )
}

/// Whether interaction content is fit to deliver: it passes the shared
/// validation and, for an image, its data is standard Base64 of a WebP or
/// JPEG image of the announced format, 1 to `MAX_IMAGE_DIMENSION` pixels
/// wide and high.
pub open spec fn deliverable(content: Option<InteractionContent>) -> bool {
    match content {
        None => false,
        Some(c) => content_error(c) is None && match c {
            InteractionContent::Image { media_type, data } => match standard_decoded(data@) {
                None => false,
                Some(bytes) => {
                    let format = if media_type@ == "image/webp"@ {
                        ImageFormat::WebP
                    } else {
                        ImageFormat::Jpeg
                    };
                    &&& guessed_format(bytes) == Some(format)
                    &&& header_dimensions(bytes, format) matches Some((w, h)) && 0 < w
                        <= MAX_IMAGE_DIMENSION && 0 < h <= MAX_IMAGE_DIMENSION
                },
            },
            _ => true,
        },
    }
}

/// Whether interaction content, as parsed from its payload (`None` where the
/// payload is not such content), is fit to deliver.
pub fn content_is_deliverable(content: Option<&InteractionContent>) -> (r: bool)
    ensures
        r == deliverable(
            match content {
                Some(c) => Some(*c),
                None => None,
            },
        ),
{
    let content = match content {
        Some(c) => c,
        None => return false,
    };
    if content.validate().is_err() {
        return false;
    }
    match content {
        InteractionContent::Image { media_type, data } => {
            let bytes = match decode_standard(data.as_str()) {
                Ok(bytes) => bytes,
                Err(_) => return false,
            };
            proof {
                reveal_strlit("image/webp");
            }
            let format = if str_eq(media_type.as_str(), "image/webp") {
                ImageFormat::WebP
            } else {
                ImageFormat::Jpeg
            };
            match guess_format(bytes.as_slice()) {
                Some(guessed) => if guessed != format {
                    return false;
                },
                None => return false,
            }
            match dimensions(bytes.as_slice(), format) {
                Some((w, h)) => w > 0 && h > 0 && w <= MAX_IMAGE_DIMENSION && h
                    <= MAX_IMAGE_DIMENSION,
                None => false,
            }
        },
        _ => true,
    }
}

/// The status reported to the sender of an interaction once it was handed to
/// the recipient's queue.
pub fn delivery_status(outcome: QueueOutcome) -> (r: InteractionDeliveryStatus)
    ensures
        r == match outcome {
            QueueOutcome::Queued => InteractionDeliveryStatus::Delivered,
            QueueOutcome::Full => InteractionDeliveryStatus::Busy,
            QueueOutcome::Closed => InteractionDeliveryStatus::Unavailable,
        },
{
    match outcome {
        QueueOutcome::Queued => InteractionDeliveryStatus::Delivered,
        QueueOutcome::Full => InteractionDeliveryStatus::Busy,
        QueueOutcome::Closed => InteractionDeliveryStatus::Unavailable,
    }
}

/// Checks a registration; answers the user's public key when it is admitted.
pub fn check_registration(challenge: &str, profile: &Profile, friends: &[String], signature: &str) -> (r: Option<
    [u8; 32],
>)
    ensures
        r is Some <==> admissible(challenge@, *profile, friends@, signature@),
        r matches Some(k) ==> key_from_text(profile.id@) == Ok::<Seq<u8>, crate::identity::KeyError>(k@),
{
    if let Some(hash) = &profile.skin_hash {
        if !is_skin_hash(hash.as_str()) {
            return None;
        }
    }
    let key = match public_key(profile.id.as_str()) {
        Ok(key) => key,
        Err(_) => return None,
    };
    if !verify(&key, register_bytes(challenge, profile, friends).as_slice(), signature) {
        return None;
    }
    Some(key)
}

/// The clients connected to a relay server, by user id.
pub struct Registry {
    clients: StringMap<Client>,
}

impl View for Registry {
    type V = Map<Seq<char>, Client>;

    closed spec fn view(&self) -> Map<Seq<char>, Client> {
        self.clients@
    }
}

impl Registry {
    /// No client is connected.
    pub fn new() -> (r: Registry)
        ensures
            r@ == Map::<Seq<char>, Client>::empty(),
    {
        Registry { clients: StringMap::new() }
    }

    /// Whether `id` is registered.
    pub fn contains(&self, id: &str) -> (r: bool)
        ensures
            r == self@.dom().contains(id@),
    {
        self.clients.contains_key(id)
    }

    /// The friends that `id` registered, if it is registered.
    pub fn friends_of(&self, id: &str) -> (r: Option<Vec<String>>)
        ensures
            match r {
                Some(f) => self@.dom().contains(id@) && f@ == self@[id@].friends@,
                None => !self@.dom().contains(id@),
            },
    {
        match self.clients.get(id) {
            Some(c) => Some(copy_strings(c.friends.as_slice())),
            None => None,
        }
    }

    /// Whether `connection_id` is the current connection of `id`.
    pub fn is_current(&self, id: &str, connection_id: u128) -> (r: bool)
        ensures
            r == current(self@, id@, connection_id),
    {
        match self.clients.get(id) {
            Some(c) => c.connection_id == connection_id,
            None => false,
        }
    }

    /// Registers `client` under its profile's id, replacing an earlier
    /// connection of the same user; answers the friends that connection had.
    pub fn register(&mut self, client: Client) -> (r: Option<Vec<String>>)
        ensures
            final(self)@ == old(self)@.insert(client.profile.id@, client),
            match r {
                Some(f) => old(self)@.dom().contains(client.profile.id@) && f@ == old(
                    self,
                )@[client.profile.id@].friends@,
                None => !old(self)@.dom().contains(client.profile.id@),
            },
    {
        let id = client.profile.id.clone();
        match self.clients.insert(id, client) {
            Some(previous) => Some(previous.friends),
            None => None,
        }
    }

    /// Whom to tell that `id` came online or went offline: its registered
    /// mutual friends; nobody if `id` is not registered.
    pub fn status_recipients(&self, id: &str) -> (r: Vec<String>)
        ensures
            lists_exactly(
                r@,
                if self@.dom().contains(id@) {
                    mutual_set(self@, id@, self@[id@].friends@)
                } else {
                    Set::empty()
                },
            ),
    {
        match self.clients.get(id) {
            Some(source) => self.mutual_ids(id, source.friends.as_slice()).to_vec(),
            None => {
                let r: Vec<String> = Vec::new();
                assert(views(r@) =~= Seq::<Seq<char>>::empty());
                assert(views(r@).to_set() =~= Set::<Seq<char>>::empty());
                r
            },
        }
    }

    /// The mutual friends of `id` that are online, for its current connection.
    pub fn friend_statuses(&self, id: &str, connection_id: u128) -> (r: Option<Vec<String>>)
        ensures
            r is Some == current(self@, id@, connection_id),
            r matches Some(v) ==> lists_exactly(v@, mutual_set(self@, id@, self@[id@].friends@)),
    {
        match self.clients.get(id) {
            Some(source) => if source.connection_id == connection_id {
                Some(self.mutual_ids(id, source.friends.as_slice()).to_vec())
            } else {
                None
            },
            None => None,
        }
    }

    /// Whom to tell what, once `id` (registered) has friends other than
    /// `previous`: those who became mutual friends that it is online, those
    /// who ceased to be that it is offline. Nobody if `id` is not registered.
    pub fn friendship_changes(&self, id: &str, previous: &[String]) -> (r: StatusChanges)
        ensures
            self@.dom().contains(id@) ==> lists_exactly(
                r.online@,
                mutual_set(self@, id@, self@[id@].friends@).difference(
                    mutual_set(self@, id@, previous@),
                ),
            ),
            self@.dom().contains(id@) ==> lists_exactly(
                r.offline@,
                mutual_set(self@, id@, previous@).difference(
                    mutual_set(self@, id@, self@[id@].friends@),
                ),
            ),
            !self@.dom().contains(id@) ==> r.online@.len() == 0 && r.offline@.len() == 0,
    {
        match self.clients.get(id) {
            Some(source) => {
                let now = self.mutual_ids(id, source.friends.as_slice());
                let before = self.mutual_ids(id, previous);
                StatusChanges {
                    online: now.difference(&before).to_vec(),
                    offline: before.difference(&now).to_vec(),
                }
            },
            None => StatusChanges { online: Vec::new(), offline: Vec::new() },
        }
    }

    /// Whom to tell what once `id` has registered: if it replaced an earlier
    /// connection with friends `previous`, the changes of its friendships;
    /// else its mutual friends, that it is online.
    pub fn connected(&self, id: &str, previous: Option<Vec<String>>) -> (r: StatusChanges)
        ensures
            previous is None ==> r.offline@.len() == 0 && lists_exactly(
                r.online@,
                if self@.dom().contains(id@) {
                    mutual_set(self@, id@, self@[id@].friends@)
                } else {
                    Set::empty()
                },
            ),
            previous matches Some(p) ==> self@.dom().contains(id@) ==> lists_exactly(
                r.online@,
                mutual_set(self@, id@, self@[id@].friends@).difference(mutual_set(self@, id@, p@)),
            ) && lists_exactly(
                r.offline@,
                mutual_set(self@, id@, p@).difference(mutual_set(self@, id@, self@[id@].friends@)),
            ),
            previous is Some ==> !self@.dom().contains(id@) ==> r.online@.len() == 0
                && r.offline@.len() == 0,
    {
        match previous {
            Some(p) => self.friendship_changes(id, p.as_slice()),
            None => StatusChanges { online: self.status_recipients(id), offline: Vec::new() },
        }
    }

    /// Replaces the friends of `id`, for its current connection and when
    /// `signature` signs the new list under its key. Answers the mutual
    /// friends now online, and whom to tell that `id` came online or went
    /// offline for them; `None` (and no change) otherwise.
    pub fn update_friends(
        &mut self,
        id: &str,
        connection_id: u128,
        friends: Vec<String>,
        signature: &str,
    ) -> (r: Option<FriendsUpdate>)
        ensures
            r is Some <==> (current(old(self)@, id@, connection_id) && signed_by(
                old(self)@[id@].key@,
                friends_spec(views(friends@)),
                signature@,
            )),
            r is None ==> final(self)@ == old(self)@,
            r matches Some(u) ==> {
                let c = old(self)@[id@];
                &&& final(self)@ == old(self)@.insert(
                    id@,
                    Client {
                        connection_id: c.connection_id,
                        key: c.key,
                        profile: c.profile,
                        friends: friends,
                    },
                )
                &&& lists_exactly(u.friend_ids@, mutual_set(old(self)@, id@, friends@))
                &&& lists_exactly(
                    u.changes.online@,
                    mutual_set(old(self)@, id@, friends@).difference(
                        mutual_set(old(self)@, id@, c.friends@),
                    ),
                )
                &&& lists_exactly(
                    u.changes.offline@,
                    mutual_set(old(self)@, id@, c.friends@).difference(
                        mutual_set(old(self)@, id@, friends@),
                    ),
                )
            },
    {
        let (connection, key, profile, previous) = match self.clients.get(id) {
            Some(c) => {
                if c.connection_id != connection_id {
                    return None;
                }
                (c.connection_id, c.key, copy_profile(&c.profile), self.mutual_ids(id, c.friends.as_slice()))
            },
            None => return None,
        };
        if !verify(&key, friends_bytes(friends.as_slice()).as_slice(), signature) {
            return None;
        }
        let now = self.mutual_ids(id, friends.as_slice());
        let changes = StatusChanges {
            online: now.difference(&previous).to_vec(),
            offline: previous.difference(&now).to_vec(),
        };
        let friend_ids = now.to_vec();
        let key_text = id.to_owned();
        self.clients.insert(
            key_text,
            Client { connection_id: connection, key, profile, friends },
        );
        Some(FriendsUpdate { friend_ids, changes })
    }

    /// Removes `id` when `connection_id` is its current connection, and
    /// answers whom to tell that it went offline: its mutual friends. `None`
    /// (and no change) for a connection that is not current.
    pub fn disconnect(&mut self, id: &str, connection_id: u128) -> (r: Option<Vec<String>>)
        ensures
            r is Some == current(old(self)@, id@, connection_id),
            r is None ==> final(self)@ == old(self)@,
            r matches Some(v) ==> final(self)@ == old(self)@.remove(id@) && lists_exactly(
                v@,
                mutual_set(old(self)@, id@, old(self)@[id@].friends@),
            ),
    {
        let recipients = match self.clients.get(id) {
            Some(c) => {
                if c.connection_id != connection_id {
                    return None;
                }
                self.mutual_ids(id, c.friends.as_slice()).to_vec()
            },
            None => return None,
        };
        self.clients.remove(id);
        Some(recipients)
    }

    /// The mutual friends that live data from `id` goes to, when it comes from
    /// the current connection of `id` and `signature` signs it under its key;
    /// `None` otherwise, which ends the connection.
    pub fn relay_live_data(&self, id: &str, connection_id: u128, payload: &str, signature: &str) -> (r:
        Option<Vec<String>>)
        ensures
            r is Some <==> (current(self@, id@, connection_id) && signed_by(
                self@[id@].key@,
                message_spec(payload@),
                signature@,
            )),
            r matches Some(v) ==> lists_exactly(v@, mutual_set(self@, id@, self@[id@].friends@)),
    {
        match self.clients.get(id) {
            Some(source) => {
                if source.connection_id != connection_id || !verify(
                    &source.key,
                    message_bytes(payload).as_slice(),
                    signature,
                ) {
                    return None;
                }
                Some(self.mutual_ids(id, source.friends.as_slice()).to_vec())
            },
            None => None,
        }
    }

    /// What becomes of interaction `interaction_id` from `id` to
    /// `recipient_id`, given the content parsed from its payload (`None`
    /// where the payload is no interaction content).
    pub fn relay_interaction(
        &self,
        id: &str,
        connection_id: u128,
        interaction_id: &str,
        recipient_id: &str,
        payload: &str,
        content: Option<&InteractionContent>,
        signature: &str,
    ) -> (r: InteractionRelay)
        ensures
            r == if !current(self@, id@, connection_id) || !signed_by(
                self@[id@].key@,
                interaction_spec(interaction_id@, recipient_id@, payload@),
                signature@,
            ) {
                InteractionRelay::Close
            } else if encode_utf8(payload@).len() > MAX_INTERACTION_PAYLOAD_BYTES || recipient_id@
                == id@ || !deliverable(
                match content {
                    Some(c) => Some(*c),
                    None => None,
                },
            ) {
                InteractionRelay::Respond(InteractionDeliveryStatus::Rejected)
            } else if !(self@.dom().contains(recipient_id@) && mutual(
                id@,
                self@[id@].friends@,
                recipient_id@,
                self@[recipient_id@].friends@,
            )) {
                InteractionRelay::Respond(InteractionDeliveryStatus::Unavailable)
            } else {
                InteractionRelay::Deliver
            },
    {
        let source = match self.clients.get(id) {
            Some(c) => c,
            None => return InteractionRelay::Close,
        };
        if source.connection_id != connection_id {
            return InteractionRelay::Close;
        }
        let reachable = match self.clients.get(recipient_id) {
            Some(recipient) => visible_to(id, source, recipient_id, recipient),
            None => false,
        };
        if !verify(
            &source.key,
            interaction_bytes(interaction_id, recipient_id, payload).as_slice(),
            signature,
        ) {
            return InteractionRelay::Close;
        }
        if payload.as_bytes().len() > MAX_INTERACTION_PAYLOAD_BYTES || str_eq(recipient_id, id)
            || !content_is_deliverable(content) {
            return InteractionRelay::Respond(InteractionDeliveryStatus::Rejected);
        }
        assert(reachable == (self@.dom().contains(recipient_id@) && mutual(
                id@,
                self@[id@].friends@,
                recipient_id@,
                self@[recipient_id@].friends@,
            )));
        if !reachable {
            return InteractionRelay::Respond(InteractionDeliveryStatus::Unavailable);
        }
        InteractionRelay::Deliver
    }

    /// Replaces the profile of `id`, for its current connection, when the new
    /// profile has the same id and `signature` signs it under its key; answers
    /// whom to send it: those who list `id` as a friend. `None` (and no
    /// change) otherwise, which ends the connection.
    pub fn update_profile(&mut self, id: &str, connection_id: u128, profile: Profile, signature: &str) -> (r:
        Option<Vec<String>>)
        ensures
            r is Some <==> (current(old(self)@, id@, connection_id) && profile.id@ == id@
                && signed_by(old(self)@[id@].key@, profile_spec(profile), signature@)),
            r is None ==> final(self)@ == old(self)@,
            r matches Some(v) ==> {
                let c = old(self)@[id@];
                &&& final(self)@ == old(self)@.insert(
                    id@,
                    Client {
                        connection_id: c.connection_id,
                        key: c.key,
                        profile: profile,
                        friends: c.friends,
                    },
                )
                &&& lists_exactly(v@, subscriber_set(old(self)@, id@))
            },
    {
        let key = match self.clients.get(id) {
            Some(c) => {
                if c.connection_id != connection_id {
                    return None;
                }
                c.key
            },
            None => return None,
        };
        if !str_eq(profile.id.as_str(), id) || !verify(
            &key,
            profile_bytes(&profile).as_slice(),
            signature,
        ) {
            return None;
        }
        let subscribers = self.subscriber_ids(id).to_vec();
        let ghost before = self@;
        let c = match self.clients.remove(id) {
            Some(c) => c,
            None => return None,
        };
        self.clients.insert(
            id.to_owned(),
            Client { connection_id: c.connection_id, key: c.key, profile, friends: c.friends },
        );
        assert(self@ =~= before.insert(
            id@,
            Client {
                connection_id: before[id@].connection_id,
                key: before[id@].key,
                profile: profile,
                friends: before[id@].friends,
            },
        ));
        Some(subscribers)
    }

    /// The profile of `id` and whom to send it, for its current connection:
    /// those who list `id` as a friend.
    pub fn profile_broadcast(&self, id: &str, connection_id: u128) -> (r: Option<(Profile, Vec<String>)>)
        ensures
            r is Some == current(self@, id@, connection_id),
            r matches Some((p, v)) ==> p == self@[id@].profile && lists_exactly(
                v@,
                subscriber_set(self@, id@),
            ),
    {
        match self.clients.get(id) {
            Some(c) => if c.connection_id == connection_id {
                Some((copy_profile(&c.profile), self.subscriber_ids(id).to_vec()))
            } else {
                None
            },
            None => None,
        }
    }

    /// The profiles of the registered users that `id` lists as friends, in
    /// increasing id order (a friend listed twice appears twice), for the
    /// current connection of `id`.
    pub fn profile_snapshot(&self, id: &str, connection_id: u128) -> (r: Option<Vec<Profile>>)
        ensures
            r is Some == current(self@, id@, connection_id),
            r matches Some(v) ==> v@ == friend_profiles(
                self@,
                in_order(self@.dom()),
                self@[id@].friends@,
            ),
    {
        let client = match self.clients.get(id) {
            Some(c) => c,
            None => return None,
        };
        if client.connection_id != connection_id {
            return None;
        }
        let friends = client.friends.as_slice();
        proof {
            use_type_invariant(&self.clients);
            self.clients.lemma_ordered();
            let keys = self.clients.ordered_keys();
            let q = in_order(self@.dom());
            assert(strictly_sorted(q) && q.to_set() == self@.dom());
            crate::strings::lemma_sorted_unique(keys, q);
        }
        let ghost keys = self.clients.ordered_keys();
        let n = self.clients.len();
        let mut out: Vec<Profile> = Vec::new();
        let mut i: usize = 0;
        while i < n
            invariant
                n == keys.len(),
                keys == self.clients.ordered_keys(),
                forall|j: int| 0 <= j < keys.len() ==> self@[#[trigger] keys[j]] == self.clients.value_at_spec(j),
                i <= n,
                out@ == friend_profiles(self@, keys.take(i as int), friends@),
            decreases n - i,
        {
            let key = self.clients.key_at(i);
            let c = self.clients.value_at(i);
            let count = count_names(friends, key.as_str());
            let ghost base = out@;
            let mut t: usize = 0;
            while t < count
                invariant
                    t <= count,
                    out@ == base + Seq::new(t as nat, |_i: int| c.profile),
                decreases count - t,
            {
                out.push(copy_profile(&c.profile));
                t = t + 1;
                assert(out@ =~= base + Seq::new(t as nat, |_i: int| c.profile));
            }
            proof {
                let t1 = keys.take(i + 1);
                assert(t1.drop_last() =~= keys.take(i as int));
                assert(t1.last() == keys[i as int]);
                assert(self@[keys[i as int]] == *c);
            }
            i = i + 1;
        }
        assert(keys.take(n as int) =~= keys);
        Some(out)
    }

    /// The profile of `user_id`, if registered, for the current connection of
    /// `requester`.
    pub fn resolve_profile(&self, requester: &str, connection_id: u128, user_id: &str) -> (r: Option<
        Option<Profile>,
    >)
        ensures
            r is Some == current(self@, requester@, connection_id),
            r matches Some(p) ==> p == if self@.dom().contains(user_id@) {
                Some(self@[user_id@].profile)
            } else {
                None
            },
    {
        if !self.is_current(requester, connection_id) {
            return None;
        }
        match self.clients.get(user_id) {
            Some(c) => Some(Some(copy_profile(&c.profile))),
            None => Some(None),
        }
    }

    /// What becomes of a request from `requester` for the skin `skin_hash`
    /// of `user_id`: it goes to `user_id` when they are mutual friends and
    /// `user_id` advertises exactly that skin.
    pub fn request_skin(&self, requester: &str, connection_id: u128, user_id: &str, skin_hash: &str) -> (r:
        SkinRequest)
        ensures
            r == if !current(self@, requester@, connection_id) {
                SkinRequest::StaleSession
            } else if self@.dom().contains(user_id@) && mutual(
                requester@,
                self@[requester@].friends@,
                user_id@,
                self@[user_id@].friends@,
            ) && advertises(self@[user_id@].profile, skin_hash@) {
                SkinRequest::Forward
            } else {
                SkinRequest::Unavailable
            },
    {
        let source = match self.clients.get(requester) {
            Some(c) => c,
            None => return SkinRequest::StaleSession,
        };
        if source.connection_id != connection_id {
            return SkinRequest::StaleSession;
        }
        let target = match self.clients.get(user_id) {
            Some(t) => t,
            None => return SkinRequest::Unavailable,
        };
        let advertised = match &target.profile.skin_hash {
            Some(h) => str_eq(h.as_str(), skin_hash),
            None => false,
        };
        if visible_to(requester, source, user_id, target) && advertised {
            SkinRequest::Forward
        } else {
            SkinRequest::Unavailable
        }
    }

    /// What becomes of the skin data that `provider` sends for a request of
    /// `requester_id`: `None` (the connection ends) when the data is too long,
    /// the connection is not current or the provider does not advertise that
    /// skin; else whether it goes to the requester, a registered mutual friend.
    pub fn provide_skin(
        &self,
        provider: &str,
        connection_id: u128,
        requester_id: &str,
        skin_hash: &str,
        data: Option<&str>,
    ) -> (r: Option<bool>)
        ensures
            r is None <==> ((data matches Some(d) && encode_utf8(d@).len() > MAX_SKIN_B64_SIZE)
                || !current(self@, provider@, connection_id) || !advertises(
                self@[provider@].profile,
                skin_hash@,
            )),
            r matches Some(deliver) ==> deliver == (self@.dom().contains(requester_id@) && mutual(
                provider@,
                self@[provider@].friends@,
                requester_id@,
                self@[requester_id@].friends@,
            )),
    {
        if let Some(d) = data {
            if d.as_bytes().len() > MAX_SKIN_B64_SIZE {
                return None;
            }
        }
        let source = match self.clients.get(provider) {
            Some(c) => c,
            None => return None,
        };
        if source.connection_id != connection_id {
            return None;
        }
        match &source.profile.skin_hash {
            Some(h) => if !str_eq(h.as_str(), skin_hash) {
                return None;
            },
            None => return None,
        }
        match self.clients.get(requester_id) {
            Some(r) => Some(visible_to(provider, source, requester_id, r)),
            None => Some(false),
        }
    }

    /// The registered users other than `id` who are mutual friends of `id`,
    /// were its friends `friends`.
    fn mutual_ids(&self, id: &str, friends: &[String]) -> (r: StringSet)
        ensures
            r@ == mutual_set(self@, id@, friends@),
    {
        proof {
            use_type_invariant(&self.clients);
            self.clients.lemma_ordered();
        }
        let ghost keys = self.clients.ordered_keys();
        let ghost pred = |f: Seq<char>| f != id@ && mutual(id@, friends@, f, self@[f].friends@);
        let mut acc = StringSet::new();
        let mut i: usize = 0;
        let n = self.clients.len();
        while i < n
            invariant
                n == keys.len(),
                keys == self.clients.ordered_keys(),
                keys.to_set() == self@.dom(),
                pred == (|f: Seq<char>| f != id@ && mutual(id@, friends@, f, self@[f].friends@)),
                i <= n,
                acc@ == keys.take(i as int).to_set().filter(pred),
            decreases n - i,
        {
            let key = self.clients.key_at(i);
            let client = self.clients.value_at(i);
            let hit = !str_eq(key.as_str(), id) && mutual_friends(
                id,
                friends,
                key.as_str(),
                client.friends.as_slice(),
            );
            let ghost before = acc@;
            if hit {
                acc.insert(key.clone());
            }
            proof {
                assert(keys.take(i + 1) =~= keys.take(i as int).push(keys[i as int]));
                keys.take(i as int).lemma_push_to_set_commute(keys[i as int]);
                assert(hit == pred(keys[i as int]));
                assert(acc@ =~= keys.take(i + 1).to_set().filter(pred));
            }
            i = i + 1;
        }
        proof {
            assert(keys.take(n as int) =~= keys);
            assert(acc@ =~= mutual_set(self@, id@, friends@));
        }
        acc
    }

    /// The registered users other than `id` who list `id` as a friend.
    fn subscriber_ids(&self, id: &str) -> (r: StringSet)
        ensures
            r@ == subscriber_set(self@, id@),
    {
        proof {
            use_type_invariant(&self.clients);
            self.clients.lemma_ordered();
        }
        let ghost keys = self.clients.ordered_keys();
        let ghost pred = |f: Seq<char>| f != id@ && lists(self@[f].friends@, id@);
        let mut acc = StringSet::new();
        let mut i: usize = 0;
        let n = self.clients.len();
        while i < n
            invariant
                n == keys.len(),
                keys == self.clients.ordered_keys(),
                keys.to_set() == self@.dom(),
                pred == (|f: Seq<char>| f != id@ && lists(self@[f].friends@, id@)),
                i <= n,
                acc@ == keys.take(i as int).to_set().filter(pred),
            decreases n - i,
        {
            let key = self.clients.key_at(i);
            let client = self.clients.value_at(i);
            let hit = !str_eq(key.as_str(), id) && names(client.friends.as_slice(), id);
            if hit {
                acc.insert(key.clone());
            }
            proof {
                assert(keys.take(i + 1) =~= keys.take(i as int).push(keys[i as int]));
                keys.take(i as int).lemma_push_to_set_commute(keys[i as int]);
                assert(hit == pred(keys[i as int]));
                assert(acc@ =~= keys.take(i + 1).to_set().filter(pred));
            }
            i = i + 1;
        }
        proof {
            assert(keys.take(n as int) =~= keys);
            assert(acc@ =~= subscriber_set(self@, id@));
        }
        acc
    }
}

/// Presence is mutual: between two registered users, each sees the other
/// online exactly when the other sees them.
pub proof fn law_presence_is_mutual(reg: Map<Seq<char>, Client>, a: Seq<char>, b: Seq<char>)
    requires
        reg.dom().contains(a),
        reg.dom().contains(b),
    ensures
        mutual_set(reg, a, reg[a].friends@).contains(b) == mutual_set(reg, b, reg[b].friends@).contains(
            a,
        ),
{
}

/// Once a user's connection ends, no remaining user counts them among its
/// online friends.
pub proof fn law_disconnected_user_is_offline_for_everyone(
    reg: Map<Seq<char>, Client>,
    id: Seq<char>,
    other: Seq<char>,
    friends: Seq<String>,
)
    ensures
        !mutual_set(reg.remove(id), other, friends).contains(id),
{
}

/// A new registration of a user makes every other connection of that user
/// stale: requests from it are refused from then on.
pub proof fn law_registration_replaces_the_connection(
    reg: Map<Seq<char>, Client>,
    client: Client,
    connection_id: u128,
)
    requires
        connection_id != client.connection_id,
    ensures
        !current(reg.insert(client.profile.id@, client), client.profile.id@, connection_id),
        current(reg.insert(client.profile.id@, client), client.profile.id@, client.connection_id),
{
}

/// A friend list update tells each affected friend exactly once: nobody is
/// told both that the user came online and that it went offline.
pub proof fn law_friendship_changes_are_disjoint(
    reg: Map<Seq<char>, Client>,
    id: Seq<char>,
    before: Seq<String>,
    after: Seq<String>,
)
    ensures
        mutual_set(reg, id, after).difference(mutual_set(reg, id, before)).disjoint(
            mutual_set(reg, id, before).difference(mutual_set(reg, id, after)),
        ),
{
}

/// An image is delivered only when its header, read in the format its media
/// type announces, gives a width and a height both from 1 to
/// `MAX_IMAGE_DIMENSION` pixels.
pub proof fn law_deliverable_images_fit_the_limit(media_type: String, data: String, format: ImageFormat)
    requires
        format == (if media_type@ == "image/webp"@ {
            ImageFormat::WebP
        } else {
            ImageFormat::Jpeg
        }),
    ensures
        deliverable(Some(InteractionContent::Image { media_type, data })) ==> (standard_decoded(
            data@,
        ) matches Some(bytes) && header_dimensions(bytes, format) matches Some((w, h)) && 1 <= w
            <= MAX_IMAGE_DIMENSION && 1 <= h <= MAX_IMAGE_DIMENSION),
{
}

/// An image whose header is wider or higher than `MAX_IMAGE_DIMENSION`, or
/// empty in either direction, is refused whatever else holds of it.
pub proof fn law_oversized_images_are_refused(
    media_type: String,
    data: String,
    bytes: Seq<u8>,
    format: ImageFormat,
    w: u32,
    h: u32,
)
    requires
        format == (if media_type@ == "image/webp"@ {
            ImageFormat::WebP
        } else {
            ImageFormat::Jpeg
        }),
        standard_decoded(data@) == Some(bytes),
        header_dimensions(bytes, format) == Some((w, h)),
        w > MAX_IMAGE_DIMENSION || h > MAX_IMAGE_DIMENSION || w == 0 || h == 0,
    ensures
        !deliverable(Some(InteractionContent::Image { media_type, data })),
{
}

} // verus!
