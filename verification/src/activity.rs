//! Rich presence: what each user is doing, reported by several sources (the
//! foreground application, media players), kept per user and source, and
//! bounded so that it fits in one live-data message.

use vstd::prelude::*;
use vstd::string::StringExecFns;
use vstd::utf8::encode_utf8;

use crate::common::{blank, is_blank};
use crate::records::copy_optional;
use crate::strings::{decimal_string, decimal_text, str_eq, views, StringMap};

verus! {

broadcast use vstd::string::group_string_axioms;

/// The most activity sources per user.
pub const MAX_ACTIVITY_SOURCES: usize = 8;

/// The longest source name, in bytes.
pub const MAX_ACTIVITY_SOURCE_BYTES: usize = 64;

/// The longest activity name or details, in bytes.
pub const MAX_ACTIVITY_TEXT_BYTES: usize = 512;

/// The longest activity icon, in bytes.
pub const MAX_ACTIVITY_ICON_BYTES: usize = 50_000;

/// The room kept in a live-data message for its envelope.
pub const LIVE_DATA_ENVELOPE_BYTES: usize = 1024;

/// The activity source of the foreground application.
pub const FOREGROUND_APP_SOURCE: &'static str = "foreground-app";

/// What a user is doing.
#[derive(Debug, Clone, Copy, PartialEq, Eq, Structural)]
pub enum ActivityKind {
    Application,
    Listening,
    Watching,
    Playing,
    Custom,
}

/// One source's report of what a user is doing.
#[derive(Debug, Clone)]
pub struct Activity {
    pub kind: ActivityKind,
    pub name: Option<String>,
    pub details: Option<String>,
    pub icon: Option<String>,
}

/// A user's activities changed.
pub struct ActivitiesChanged {
    pub user_id: String,
    pub activities: StringMap<Activity>,
}

/// Whether an optional text is longer than `max` bytes.
pub open spec fn longer_than(text: Option<String>, max: usize) -> bool {
    text matches Some(t) && encode_utf8(t@).len() > max
}

/// What `Activity::validate` answers.
pub open spec fn activity_error(a: Activity) -> Option<Seq<char>> {
    if longer_than(a.name, MAX_ACTIVITY_TEXT_BYTES) {
        Some("activity name exceeds 512 bytes"@)
    } else if longer_than(a.details, MAX_ACTIVITY_TEXT_BYTES) {
        Some("activity details exceeds 512 bytes"@)
    } else if longer_than(a.icon, MAX_ACTIVITY_ICON_BYTES) {
        Some("activity icon exceeds 50000 bytes"@)
    } else {
        None
    }
}

/// Whether an optional text is longer than `max` bytes.
fn exceeds(text: &Option<String>, max: usize) -> (r: bool)
    ensures
        r == longer_than(*text, max),
{
    match text {
        Some(t) => t.as_str().as_bytes().len() > max,
        None => false,
    }
}

impl Activity {
    /// Checks the size of each field.
    pub fn validate(&self) -> (r: Result<(), String>)
        ensures
            r is Ok <==> activity_error(*self) is None,
            r matches Err(e) ==> activity_error(*self) == Some(e@),
    {
        if exceeds(&self.name, MAX_ACTIVITY_TEXT_BYTES) {
            return Err("activity name exceeds 512 bytes".to_owned());
        }
        if exceeds(&self.details, MAX_ACTIVITY_TEXT_BYTES) {
            return Err("activity details exceeds 512 bytes".to_owned());
        }
        if exceeds(&self.icon, MAX_ACTIVITY_ICON_BYTES) {
            return Err("activity icon exceeds 50000 bytes".to_owned());
        }
        Ok(())
    }
}

/// An exact copy of an activity.
pub fn copy_activity(a: &Activity) -> (r: Activity)
    ensures
        r == *a,
{
    Activity {
        kind: a.kind,
        name: copy_optional(&a.name),
        details: copy_optional(&a.details),
        icon: copy_optional(&a.icon),
    }
}

/// An exact copy of a user's activities.
pub fn copy_activities(m: &StringMap<Activity>) -> (r: StringMap<Activity>)
    ensures
        r@ == m@,
{
    proof {
        use_type_invariant(m);
        m.lemma_ordered();
    }
    let ghost keys = m.ordered_keys();
    let mut r: StringMap<Activity> = StringMap::new();
    let n = m.len();
    let mut i: usize = 0;
    while i < n
        invariant
            n == keys.len(),
            keys == m.ordered_keys(),
            keys.to_set() == m@.dom(),
            forall|j: int| 0 <= j < keys.len() ==> m@[#[trigger] keys[j]] == m.value_at_spec(j),
            i <= n,
            r@ == m@.restrict(keys.take(i as int).to_set()),
        decreases n - i,
    {
        r.insert(m.key_at(i).clone(), copy_activity(m.value_at(i)));
        proof {
            assert(keys.take(i + 1) =~= keys.take(i as int).push(keys[i as int]));
            keys.take(i as int).lemma_push_to_set_commute(keys[i as int]);
            assert(r@ =~= m@.restrict(keys.take(i + 1).to_set()));
        }
        i = i + 1;
    }
    assert(keys.take(n as int) =~= keys);
    assert(r@ =~= m@);
    r
}

/// An activity is accepted exactly when its name and details have at most
/// `MAX_ACTIVITY_TEXT_BYTES` bytes and its icon at most
/// `MAX_ACTIVITY_ICON_BYTES`; details that are too long are reported as such
/// once the name fits.
pub proof fn law_accepted_activities_fit_their_limits(a: Activity)
    ensures
        activity_error(a) is None <==> {
            &&& !(a.name matches Some(t) && encode_utf8(t@).len() > 512)
            &&& !(a.details matches Some(t) && encode_utf8(t@).len() > 512)
            &&& !(a.icon matches Some(t) && encode_utf8(t@).len() > 50_000)
        },
        (a.details matches Some(t) && encode_utf8(t@).len() > 512) && !(a.name matches Some(t)
            && encode_utf8(t@).len() > 512) ==> activity_error(a) == Some(
            "activity details exceeds 512 bytes"@,
        ),
{
}

/// A user's activities are accepted only when every source's activity passes
/// its own checks: none with too long a name, details or icon is kept.
pub proof fn law_accepted_activity_sets_hold_no_oversized_activity(
    activities: Map<Seq<char>, Activity>,
    keys: Seq<Seq<char>>,
    serialized_len: usize,
    max_set_bytes: usize,
    k: Seq<char>,
)
    requires
        keys.contains(k),
        activities_error(activities, keys, serialized_len, max_set_bytes) is None,
    ensures
        activity_error(activities[k]) is None,
        !(activities[k].details matches Some(t) && encode_utf8(t@).len() > 512),
{
    lemma_no_faulty_key(activities, keys, k);
}

/// Where no key is faulty, each key's activity passes its checks.
proof fn lemma_no_faulty_key(activities: Map<Seq<char>, Activity>, keys: Seq<Seq<char>>, k: Seq<char>)
    requires
        keys.contains(k),
        first_faulty(activities, keys) is None,
    ensures
        activity_error(activities[k]) is None,
    decreases keys.len(),
{
    if keys.last() != k {
        let i = choose|i: int| 0 <= i < keys.len() && keys[i] == k;
        assert(keys.drop_last()[i] == k);
        lemma_no_faulty_key(activities, keys.drop_last(), k);
    }
}

/// A source name fits when it is not blank and has at most
/// `MAX_ACTIVITY_SOURCE_BYTES` bytes.
pub open spec fn source_fits(source: Seq<char>) -> bool {
    !blank(source) && encode_utf8(source).len() <= MAX_ACTIVITY_SOURCE_BYTES
}

/// What `validate_activities` answers for a user's activities, given the size
/// of their serialized form and the limit on it. Of several faulty sources,
/// the first in increasing name order is reported.
pub open spec fn activities_error(
    activities: Map<Seq<char>, Activity>,
    keys: Seq<Seq<char>>,
    serialized_len: usize,
    max_set_bytes: usize,
) -> Option<Seq<char>> {
    if activities.dom().len() > MAX_ACTIVITY_SOURCES {
        Some("activity update exceeds 8 sources"@)
    } else {
        match first_faulty(activities, keys) {
            Some(e) => Some(e),
            None => if serialized_len > max_set_bytes {
                Some(
                    "activity update exceeds "@ + decimal_text(max_set_bytes as nat)
                        + " serialized bytes"@,
                )
            } else {
                None
            },
        }
    }
}

/// The error of the first source in `keys` whose name or activity is faulty.
pub open spec fn first_faulty(activities: Map<Seq<char>, Activity>, keys: Seq<Seq<char>>) -> Option<
    Seq<char>,
>
    decreases keys.len(),
{
    if keys.len() == 0 {
        None
    } else {
        match first_faulty(activities, keys.drop_last()) {
            Some(e) => Some(e),
            None => if !source_fits(keys.last()) {
                Some("activity source must contain 1 to 64 bytes"@)
            } else {
                activity_error(activities[keys.last()])
            },
        }
    }
}

/// A faulty source among the first keys is the first faulty source of all.
proof fn lemma_first_faulty_prefix(activities: Map<Seq<char>, Activity>, keys: Seq<Seq<char>>, j: int)
    requires
        0 <= j <= keys.len(),
        first_faulty(activities, keys.take(j)) is Some,
    ensures
        first_faulty(activities, keys) == first_faulty(activities, keys.take(j)),
    decreases keys.len(),
{
    if j < keys.len() {
        assert(keys.drop_last().take(j) =~= keys.take(j));
        lemma_first_faulty_prefix(activities, keys.drop_last(), j);
    } else {
        assert(keys.take(j) =~= keys);
    }
}

/// Checks a user's activities: at most `MAX_ACTIVITY_SOURCES` sources, each
/// with a fitting name and activity, and a serialized form of at most
/// `max_set_bytes` bytes (`serialized_len`).
pub fn validate_activities(activities: &StringMap<Activity>, serialized_len: usize, max_set_bytes: usize) -> (r:
    Result<(), String>)
    ensures
        r is Ok <==> activities_error(
            activities@,
            activities.ordered_keys(),
            serialized_len,
            max_set_bytes,
        ) is None,
        r matches Err(e) ==> activities_error(
            activities@,
            activities.ordered_keys(),
            serialized_len,
            max_set_bytes,
        ) == Some(e@),
{
    proof {
        use_type_invariant(activities);
        activities.lemma_ordered();
    }
    let ghost keys = activities.ordered_keys();
    let n = activities.len();
    if n > MAX_ACTIVITY_SOURCES {
        return Err("activity update exceeds 8 sources".to_owned());
    }
    let mut i: usize = 0;
    while i < n
        invariant
            n == keys.len(),
            keys == activities.ordered_keys(),
            forall|j: int| 0 <= j < keys.len() ==> activities@[#[trigger] keys[j]] == activities.value_at_spec(j),
            n == activities@.dom().len(),
            n <= MAX_ACTIVITY_SOURCES,
            i <= n,
            first_faulty(activities@, keys.take(i as int)) is None,
        decreases n - i,
    {
        let source = activities.key_at(i);
        let activity = activities.value_at(i);
        proof {
            assert(keys.take(i + 1).drop_last() =~= keys.take(i as int));
        }
        proof {
            assert(keys.take(i + 1).last() == keys[i as int]);
        }
        if is_blank(source.as_str()) || source.as_str().as_bytes().len() > MAX_ACTIVITY_SOURCE_BYTES {
            proof {
                lemma_first_faulty_prefix(activities@, keys, i + 1);
            }
            return Err("activity source must contain 1 to 64 bytes".to_owned());
        }
        match activity.validate() {
            Ok(()) => {},
            Err(e) => {
                proof {
                    lemma_first_faulty_prefix(activities@, keys, i + 1);
                }
                return Err(e);
            },
        }
        i = i + 1;
    }
    assert(keys.take(n as int) =~= keys);
    if serialized_len > max_set_bytes {
        proof {
            reveal_strlit("activity update exceeds ");
            reveal_strlit(" serialized bytes");
        }
        let mut message = "activity update exceeds ".to_owned();
        message.append(decimal_string(max_set_bytes).as_str());
        message.append(" serialized bytes");
        return Err(message);
    }
    Ok(())
}

/// The activities of each user, by user id.
pub struct ActivityState {
    users: StringMap<StringMap<Activity>>,
    max_set_bytes: usize,
}

impl ActivityState {
    /// The activities of each user.
    pub closed spec fn users(&self) -> Map<Seq<char>, Map<Seq<char>, Activity>> {
        self.users@.map_values(|m: StringMap<Activity>| m@)
    }

    /// The largest serialized activity set, in bytes.
    pub closed spec fn max_set_bytes(&self) -> usize {
        self.max_set_bytes
    }

    /// No activity, for live-data messages of at most `max_payload_bytes`
    /// bytes, of which `LIVE_DATA_ENVELOPE_BYTES` are kept for the envelope.
    pub fn new(max_payload_bytes: usize) -> (r: ActivityState)
        requires
            max_payload_bytes >= LIVE_DATA_ENVELOPE_BYTES,
        ensures
            r.users() == Map::<Seq<char>, Map<Seq<char>, Activity>>::empty(),
            r.max_set_bytes() == max_payload_bytes - LIVE_DATA_ENVELOPE_BYTES,
    {
        let r = ActivityState {
            users: StringMap::new(),
            max_set_bytes: max_payload_bytes - LIVE_DATA_ENVELOPE_BYTES,
        };
        assert(r.users() =~= Map::<Seq<char>, Map<Seq<char>, Activity>>::empty());
        r
    }

    /// The activities of `user_id`, if any.
    pub fn get(&self, user_id: &str) -> (r: Option<StringMap<Activity>>)
        ensures
            match r {
                Some(m) => self.users().dom().contains(user_id@) && m@ == self.users()[user_id@],
                None => !self.users().dom().contains(user_id@),
            },
    {
        match self.users.get(user_id) {
            Some(m) => Some(copy_activities(m)),
            None => None,
        }
    }

    /// The activities of `user_id` once `source` reports `activity` (or, for
    /// `None`, stops reporting): what `replace` is then asked to keep.
    pub fn with_source(&self, user_id: &str, source: String, activity: Option<Activity>) -> (r: StringMap<
        Activity,
    >)
        ensures
            r@ == {
                let current = if self.users().dom().contains(user_id@) {
                    self.users()[user_id@]
                } else {
                    Map::empty()
                };
                match activity {
                    Some(a) => current.insert(source@, a),
                    None => current.remove(source@),
                }
            },
    {
        let mut current = match self.users.get(user_id) {
            Some(m) => copy_activities(m),
            None => StringMap::new(),
        };
        match activity {
            Some(a) => {
                current.insert(source, a);
            },
            None => {
                current.remove(source.as_str());
            },
        }
        current
    }

    /// Keeps `activities` as those of `user_id` once they pass the checks
    /// (`serialized_len` is the size of their serialized form); no activity
    /// at all forgets the user. On an error nothing changes.
    pub fn replace(&mut self, user_id: String, activities: StringMap<Activity>, serialized_len: usize) -> (r:
        Result<(), String>)
        ensures
            r is Ok <==> activities_error(
                activities@,
                activities.ordered_keys(),
                serialized_len,
                old(self).max_set_bytes(),
            ) is None,
            r matches Err(e) ==> activities_error(
                activities@,
                activities.ordered_keys(),
                serialized_len,
                old(self).max_set_bytes(),
            ) == Some(e@),
            final(self).max_set_bytes() == old(self).max_set_bytes(),
            r is Err ==> final(self).users() == old(self).users(),
            r is Ok ==> final(self).users() == if activities@.dom().len() == 0 {
                old(self).users().remove(user_id@)
            } else {
                old(self).users().insert(user_id@, activities@)
            },
    {
        validate_activities(&activities, serialized_len, self.max_set_bytes)?;
        let ghost before = self.users();
        if activities.len() == 0 {
            self.users.remove(user_id.as_str());
        } else {
            self.users.insert(user_id, activities);
        }
        proof {
            assert(self.users() =~= if activities@.dom().len() == 0 {
                before.remove(user_id@)
            } else {
                before.insert(user_id@, activities@)
            });
        }
        Ok(())
    }

    /// Forgets the users among `user_ids` that had activities; answers them,
    /// in the order given.
    pub fn remove_users(&mut self, user_ids: &[String]) -> (r: Vec<String>)
        ensures
            final(self).max_set_bytes() == old(self).max_set_bytes(),
            final(self).users() == old(self).users().remove_keys(views(user_ids@).to_set()),
            views(r@).to_set() == old(self).users().dom().intersect(views(user_ids@).to_set()),
            views(r@).no_duplicates(),
    {
        let ghost original = self.users();
        let mut removed: Vec<String> = Vec::new();
        let mut i: usize = 0;
        while i < user_ids.len()
            invariant
                i <= user_ids@.len(),
                self.max_set_bytes() == old(self).max_set_bytes(),
                original == old(self).users(),
                self.users() == original.remove_keys(views(user_ids@).take(i as int).to_set()),
                views(removed@).to_set() == original.dom().intersect(views(user_ids@).take(i as int).to_set()),
                views(removed@).no_duplicates(),
            decreases user_ids.len() - i,
        {
            let ghost before = self.users();
            let ghost removed_before = views(removed@);
            let ghost before_map = self.users@;
            let was = self.users.remove(user_ids[i].as_str());
            proof {
                let t = views(user_ids@).take(i + 1);
                let prev = views(user_ids@).take(i as int).to_set();
                assert(views(user_ids@)[i as int] == user_ids@[i as int]@);
                assert(t =~= views(user_ids@).take(i as int).push(user_ids@[i as int]@));
                views(user_ids@).take(i as int).lemma_push_to_set_commute(user_ids@[i as int]@);
                assert(self.users() =~= before.remove(user_ids@[i as int]@));
                assert(original.remove_keys(prev).remove(user_ids@[i as int]@) =~= original.remove_keys(
                    prev.insert(user_ids@[i as int]@),
                ));
                assert(self.users() =~= original.remove_keys(t.to_set()));
                assert(was is Some ==> before.dom().contains(user_ids@[i as int]@));
                assert(was is Some ==> !prev.contains(user_ids@[i as int]@));
            }
            if was.is_some() {
                removed.push(user_ids[i].clone());
                proof {
                    assert(views(removed@) =~= removed_before.push(user_ids@[i as int]@));
                    removed_before.lemma_push_to_set_commute(user_ids@[i as int]@);
                    assert(!removed_before.contains(user_ids@[i as int]@)) by {
                        if removed_before.contains(user_ids@[i as int]@) {
                            assert(removed_before.to_set().contains(user_ids@[i as int]@));
                            assert(views(user_ids@).take(i as int).to_set().contains(user_ids@[i as int]@));
                        }
                    }
                    assert(views(removed@).no_duplicates()) by {
                        assert forall|a: int, b: int|
                            0 <= a < b < views(removed@).len() implies views(removed@)[a] != views(removed@)[b] by {
                            if b == removed_before.len() {
                                assert(views(removed@)[a] == removed_before[a]);
                            }
                        }
                    }
                }
            }
            proof {
                let t = views(user_ids@).take(i + 1);
                assert(views(removed@).to_set() =~= original.dom().intersect(t.to_set()));
            }
            i = i + 1;
        }
        assert(views(user_ids@).take(user_ids@.len() as int) =~= views(user_ids@));
        removed
    }

    /// The activities of every user.
    pub fn snapshot(&self) -> (r: StringMap<StringMap<Activity>>)
        ensures
            r@.map_values(|m: StringMap<Activity>| m@) == self.users(),
    {
        proof {
            use_type_invariant(&self.users);
            self.users.lemma_ordered();
        }
        let ghost keys = self.users.ordered_keys();
        let mut r: StringMap<StringMap<Activity>> = StringMap::new();
        let n = self.users.len();
        let mut i: usize = 0;
        while i < n
            invariant
                n == keys.len(),
                keys == self.users.ordered_keys(),
                keys.to_set() == self.users@.dom(),
                forall|j: int| 0 <= j < keys.len() ==> self.users@[#[trigger] keys[j]] == self.users.value_at_spec(j),
                i <= n,
                r@.map_values(|m: StringMap<Activity>| m@) == self.users().restrict(keys.take(i as int).to_set()),
            decreases n - i,
        {
            let ghost before = r@.map_values(|m: StringMap<Activity>| m@);
            let copy = copy_activities(self.users.value_at(i));
            r.insert(self.users.key_at(i).clone(), copy);
            proof {
                assert(r@.map_values(|m: StringMap<Activity>| m@) =~= before.insert(keys[i as int], copy@));
                assert(self.users()[keys[i as int]] == copy@);
                assert(keys.take(i + 1) =~= keys.take(i as int).push(keys[i as int]));
                keys.take(i as int).lemma_push_to_set_commute(keys[i as int]);
                assert(r@.map_values(|m: StringMap<Activity>| m@) =~= self.users().restrict(
                    keys.take(i + 1).to_set(),
                ));
            }
            i = i + 1;
        }
        assert(keys.take(n as int) =~= keys);
        assert(r@.map_values(|m: StringMap<Activity>| m@) =~= self.users());
        r
    }
}

/// The activity reported for the foreground application, from its localized
/// and unlocalized names and its icon: named by the localized name if there
/// is one, with the unlocalized name as details when it differs.
pub fn foreground_app_activity(local: Option<String>, unlocal: Option<String>, icon: Option<String>) -> (r:
    Activity)
    ensures
        r.kind == ActivityKind::Application,
        r.icon == icon,
        r.details == match (local, unlocal) {
            (Some(l), Some(u)) => if l@ != u@ {
                Some(u)
            } else {
                None::<String>
            },
            _ => None::<String>,
        },
        r.name == match local {
            Some(l) => Some(l),
            None => unlocal,
        },
{
    let details = match (&local, &unlocal) {
        (Some(l), Some(u)) => if !str_eq(l.as_str(), u.as_str()) {
            Some(u.clone())
        } else {
            None
        },
        _ => None,
    };
    let name = match local {
        Some(l) => Some(l),
        None => unlocal,
    };
    Activity { kind: ActivityKind::Application, name, details, icon }
}

} // verus!
