//! Which friends are online, as reported by each connected relay server, and
//! what changes when a report arrives.

use vstd::prelude::*;

use crate::strings::{
    lemma_sorted_unique, str_eq, strictly_sorted, views, StringMap, StringSet,
};

verus! {

/// Friend sets by relay server.
pub type PresenceMap = Map<Seq<char>, Set<Seq<char>>>;

/// The friends that at least one relay server reports online.
pub open spec fn aggregate(m: PresenceMap) -> Set<Seq<char>> {
    Set::new(
        |f: Seq<char>| exists|r: Seq<char>| #[trigger] m.dom().contains(r) && m[r].contains(f),
    )
}

/// Whether some relay server now reports a friend it did not report before:
/// live data must then be published again so that the new route receives it.
pub open spec fn route_added(before: PresenceMap, after: PresenceMap) -> bool {
    exists|r: Seq<char>|
        #[trigger] after.dom().contains(r) && (!before.dom().contains(r) || !after[r].subset_of(
            before[r],
        ))
}

/// A list of strings that holds exactly the elements of `s`, in increasing order.
pub open spec fn lists(v: Seq<String>, s: Set<Seq<char>>) -> bool {
    strictly_sorted(views(v)) && views(v).to_set() == s
}

/// The observable effect of a presence update.
#[derive(Debug, PartialEq, Eq)]
pub struct Change {
    pub online: Vec<String>,
    pub came_online: Vec<String>,
    pub went_offline: Vec<String>,
    pub online_changed: bool,
    pub route_added: bool,
}

/// `c` is the change from `before` to `after`.
pub open spec fn describes(c: Change, before: PresenceMap, after: PresenceMap) -> bool {
    &&& lists(c.online@, aggregate(after))
    &&& lists(c.came_online@, aggregate(after).difference(aggregate(before)))
    &&& lists(c.went_offline@, aggregate(before).difference(aggregate(after)))
    &&& c.online_changed == (aggregate(before) != aggregate(after))
    &&& c.route_added == route_added(before, after)
}

/// What an update reports: nothing when the state did not change, else the change.
pub open spec fn reports(r: Option<Change>, before: PresenceMap, after: PresenceMap) -> bool {
    &&& (r is None <==> before == after)
    &&& (r matches Some(c) ==> describes(c, before, after))
}

/// No relay server is recorded with an empty friend set.
pub open spec fn no_empty_remote(m: PresenceMap) -> bool {
    forall|r: Seq<char>| #[trigger] m.dom().contains(r) ==> m[r] != Set::<Seq<char>>::empty()
}

/// The state after a relay server reports that `f` went online or offline.
pub open spec fn updated(m: PresenceMap, r: Seq<char>, f: Seq<char>, online: bool) -> PresenceMap {
    if online {
        m.insert(
            r,
            if m.dom().contains(r) {
                m[r].insert(f)
            } else {
                Set::empty().insert(f)
            },
        )
    } else if m.dom().contains(r) {
        if m[r].remove(f) == Set::<Seq<char>>::empty() {
            m.remove(r)
        } else {
            m.insert(r, m[r].remove(f))
        }
    } else {
        m
    }
}

/// The state after a relay server reports its full set of online friends.
pub open spec fn replaced(m: PresenceMap, r: Seq<char>, s: Set<Seq<char>>) -> PresenceMap {
    if s == Set::<Seq<char>>::empty() {
        m.remove(r)
    } else {
        m.insert(r, s)
    }
}

/// The state after forgetting every friend that is not `known`.
pub open spec fn retained(m: PresenceMap, known: Set<Seq<char>>) -> PresenceMap {
    Map::new(
        |r: Seq<char>| m.dom().contains(r) && m[r].intersect(known) != Set::<Seq<char>>::empty(),
        |r: Seq<char>| m[r].intersect(known),
    )
}

/// Online friends by relay server.
pub struct FriendPresence {
    by_remote: StringMap<StringSet>,
}

/// The set views of a map of string sets.
pub open spec fn set_views(m: Map<Seq<char>, StringSet>) -> PresenceMap {
    m.map_values(|s: StringSet| s@)
}

impl View for FriendPresence {
    type V = PresenceMap;

    closed spec fn view(&self) -> PresenceMap {
        set_views(self.by_remote@)
    }
}

/// A copy of a map of string sets.
fn copy_map(m: &StringMap<StringSet>) -> (r: StringMap<StringSet>)
    ensures
        set_views(r@) == set_views(m@),
{
    proof {
        use_type_invariant(m);
        m.lemma_ordered();
    }
    let mut r: StringMap<StringSet> = StringMap::new();
    let mut i: usize = 0;
    while i < m.len()
        invariant
            i <= m.ordered_keys().len(),
            strictly_sorted(m.ordered_keys()),
            m.ordered_keys().to_set() == m@.dom(),
            forall|j: int|
                0 <= j < m.ordered_keys().len() ==> m@[#[trigger] m.ordered_keys()[j]]
                    == m.value_at_spec(j),
            r@.dom() == m.ordered_keys().take(i as int).to_set(),
            forall|k: Seq<char>| #[trigger] r@.dom().contains(k) ==> r@[k]@ == m@[k]@,
        decreases m.ordered_keys().len() - i,
    {
        let k = m.key_at(i).clone();
        let v = m.value_at(i).duplicate();
        r.insert(k, v);
        proof {
            let t = m.ordered_keys().take(i + 1);
            let t0 = m.ordered_keys().take(i as int);
            assert forall|x| t.to_set().contains(x) == (t0.to_set().contains(x) || x
                == m.ordered_keys()[i as int]) by {
                if t.to_set().contains(x) {
                    let q = choose|q: int| 0 <= q < t.len() && t[q] == x;
                    if q < i {
                        assert(t0[q] == x);
                    }
                }
                if t0.to_set().contains(x) {
                    let q = choose|q: int| 0 <= q < t0.len() && t0[q] == x;
                    assert(t[q] == x);
                }
                if x == m.ordered_keys()[i as int] {
                    assert(t[i as int] == x);
                }
            }
            assert(r@.dom() =~= t.to_set());
        }
        i = i + 1;
    }
    assert(m.ordered_keys().take(m.ordered_keys().len() as int) =~= m.ordered_keys());
    assert(set_views(r@) =~= set_views(m@));
    r
}

/// The union of all friend sets of a map.
fn aggregate_of(m: &StringMap<StringSet>) -> (r: StringSet)
    ensures
        r@ == aggregate(set_views(m@)),
{
    proof {
        use_type_invariant(m);
        m.lemma_ordered();
    }
    let mut r = StringSet::new();
    let mut i: usize = 0;
    while i < m.len()
        invariant
            i <= m.ordered_keys().len(),
            forall|j: int|
                0 <= j < m.ordered_keys().len() ==> m@[#[trigger] m.ordered_keys()[j]]
                    == m.value_at_spec(j),
            r@ == Set::new(
                |f: Seq<char>|
                    exists|j: int| 0 <= j < i && (#[trigger] m.value_at_spec(j))@.contains(f),
            ),
        decreases m.ordered_keys().len() - i,
    {
        let ghost before = r@;
        r.union_with(m.value_at(i));
        proof {
            assert forall|f: Seq<char>| r@.contains(f) == (exists|j: int|
                0 <= j < i + 1 && (#[trigger] m.value_at_spec(j))@.contains(f)) by {
                if r@.contains(f) && !m.value_at_spec(i as int)@.contains(f) {
                    assert(before.contains(f));
                }
                if exists|j: int| 0 <= j < i + 1 && (#[trigger] m.value_at_spec(j))@.contains(f) {
                    let j = choose|j: int|
                        0 <= j < i + 1 && (#[trigger] m.value_at_spec(j))@.contains(f);
                    if j < i {
                        assert(before.contains(f));
                    }
                }
            }
            assert(r@ =~= Set::new(
                |f: Seq<char>|
                    exists|j: int| 0 <= j < i + 1 && (#[trigger] m.value_at_spec(j))@.contains(f),
            ));
        }
        i = i + 1;
    }
    proof {
        let a = aggregate(set_views(m@));
        let ks = m.ordered_keys();
        assert forall|f: Seq<char>| r@.contains(f) == a.contains(f) by {
            if r@.contains(f) {
                let j = choose|j: int|
                    0 <= j < ks.len() && (#[trigger] m.value_at_spec(j))@.contains(f);
                assert(m@[ks[j]] == m.value_at_spec(j));
                assert(ks.to_set().contains(ks[j]));
                assert(set_views(m@).dom().contains(ks[j]));
            }
            if a.contains(f) {
                let k = choose|k: Seq<char>|
                    #[trigger] set_views(m@).dom().contains(k) && set_views(m@)[k].contains(f);
                assert(ks.to_set().contains(k));
                let j = choose|j: int| 0 <= j < ks.len() && ks[j] == k;
                assert(m@[ks[j]] == m.value_at_spec(j));
            }
        }
        assert(r@ =~= a);
    }
    r
}

/// Whether two maps of string sets hold the same sets under the same keys.
fn maps_equal(a: &StringMap<StringSet>, b: &StringMap<StringSet>) -> (r: bool)
    ensures
        r == (set_views(a@) == set_views(b@)),
{
    proof {
        use_type_invariant(a);
        use_type_invariant(b);
        a.lemma_ordered();
        b.lemma_ordered();
    }
    let n = a.len();
    if n != b.len() {
        proof {
            if set_views(a@) == set_views(b@) {
                assert(a@.dom() =~= set_views(a@).dom());
                assert(b@.dom() =~= set_views(b@).dom());
            }
        }
        return false;
    }
    let mut i: usize = 0;
    while i < n
        invariant
            n == a.ordered_keys().len(),
            n == b.ordered_keys().len(),
            i <= n,
            strictly_sorted(a.ordered_keys()),
            strictly_sorted(b.ordered_keys()),
            a.ordered_keys().to_set() == a@.dom(),
            b.ordered_keys().to_set() == b@.dom(),
            forall|j: int| 0 <= j < i ==> a.ordered_keys()[j] == b.ordered_keys()[j],
        decreases n - i,
    {
        if !str_eq(a.key_at(i).as_str(), b.key_at(i).as_str()) {
            proof {
                if set_views(a@) == set_views(b@) {
                    assert(a@.dom() =~= set_views(a@).dom());
                    assert(b@.dom() =~= set_views(b@).dom());
                    lemma_sorted_unique(a.ordered_keys(), b.ordered_keys());
                }
            }
            return false;
        }
        i = i + 1;
    }
    assert(a.ordered_keys() =~= b.ordered_keys());
    let mut i: usize = 0;
    while i < n
        invariant
            n == a.ordered_keys().len(),
            n == b.ordered_keys().len(),
            a.ordered_keys() == b.ordered_keys(),
            a.ordered_keys().to_set() == a@.dom(),
            b.ordered_keys().to_set() == b@.dom(),
            i <= n,
            forall|j: int|
                0 <= j < a.ordered_keys().len() ==> a@[#[trigger] a.ordered_keys()[j]]
                    == a.value_at_spec(j),
            forall|j: int|
                0 <= j < b.ordered_keys().len() ==> b@[#[trigger] b.ordered_keys()[j]]
                    == b.value_at_spec(j),
            forall|j: int| 0 <= j < i ==> (#[trigger] a.value_at_spec(j))@ == b.value_at_spec(j)@,
        decreases n - i,
    {
        if !a.value_at(i).same_as(b.value_at(i)) {
            proof {
                let k = a.ordered_keys()[i as int];
                assert(a@[k] == a.value_at_spec(i as int));
                assert(b@[k] == b.value_at_spec(i as int));
                assert(a.ordered_keys().to_set().contains(k));
                assert(a@.dom().contains(k));
                assert(set_views(a@)[k] != set_views(b@)[k]);
            }
            return false;
        }
        i = i + 1;
    }
    proof {
        assert forall|k: Seq<char>| #[trigger] a@.dom().contains(k) implies a@[k]@ == b@[k]@ by {
            assert(a.ordered_keys().to_set().contains(k));
            let j = choose|j: int| 0 <= j < n && a.ordered_keys()[j] == k;
            assert(a@[a.ordered_keys()[j]] == a.value_at_spec(j));
            assert(b@[b.ordered_keys()[j]] == b.value_at_spec(j));
        }
        assert(set_views(a@) =~= set_views(b@));
    }
    true
}

/// Whether some key of `after` is new or holds a friend it did not hold in `before`.
fn routes_added(before: &StringMap<StringSet>, after: &StringMap<StringSet>) -> (r: bool)
    ensures
        r == route_added(set_views(before@), set_views(after@)),
{
    proof {
        use_type_invariant(after);
        after.lemma_ordered();
    }
    let ghost bv = set_views(before@);
    let ghost av = set_views(after@);
    let mut i: usize = 0;
    while i < after.len()
        invariant
            bv == set_views(before@),
            av == set_views(after@),
            i <= after.ordered_keys().len(),
            after.ordered_keys().to_set() == after@.dom(),
            forall|j: int|
                0 <= j < after.ordered_keys().len() ==> after@[#[trigger] after.ordered_keys()[j]]
                    == after.value_at_spec(j),
            forall|j: int|
                0 <= j < i ==> bv.dom().contains(#[trigger] after.ordered_keys()[j]) && av[after.ordered_keys()[j]].subset_of(
                    bv[after.ordered_keys()[j]],
                ),
        decreases after.ordered_keys().len() - i,
    {
        let ghost k = after.ordered_keys()[i as int];
        proof {
            assert(after.ordered_keys().to_set().contains(k));
            assert(av.dom().contains(k));
        }
        match before.get(after.key_at(i).as_str()) {
            None => {
                return true;
            },
            Some(old_set) => {
                if !after.value_at(i).is_subset_of(old_set) {
                    return true;
                }
            },
        }
        i = i + 1;
    }
    proof {
        assert forall|k: Seq<char>| #[trigger] av.dom().contains(k) implies bv.dom().contains(k)
            && av[k].subset_of(bv[k]) by {
            assert(after.ordered_keys().to_set().contains(k));
            let j = choose|j: int| 0 <= j < after.ordered_keys().len() && after.ordered_keys()[j] == k;
        }
    }
    false
}

/// The change from `before` to `after`, or nothing when they are equal.
fn diff(before: &StringMap<StringSet>, after: &StringMap<StringSet>) -> (r: Option<Change>)
    ensures
        reports(r, set_views(before@), set_views(after@)),
{
    if maps_equal(before, after) {
        return None;
    }
    let old_online = aggregate_of(before);
    let new_online = aggregate_of(after);
    let online_changed = !old_online.same_as(&new_online);
    let route_added = routes_added(before, after);
    let went_offline = old_online.difference(&new_online).to_vec();
    let came_online = new_online.difference(&old_online).to_vec();
    let online = new_online.to_vec();
    Some(Change { online, came_online, went_offline, online_changed, route_added })
}

impl FriendPresence {
    /// No relay server reports any friend.
    pub fn new() -> (r: FriendPresence)
        ensures
            r@ == PresenceMap::empty(),
    {
        let r = FriendPresence { by_remote: StringMap::new() };
        assert(r@ =~= PresenceMap::empty());
        r
    }

    /// Every relay server is recorded with at least one friend.
    #[verifier::type_invariant]
    pub closed spec fn inv(self) -> bool {
        no_empty_remote(set_views(self.by_remote@))
    }

    /// The relay servers that report at least one online friend: those that
    /// live data is sent to.
    pub fn active_remotes(&self) -> (r: StringSet)
        ensures
            r@ == self@.dom(),
            no_empty_remote(self@),
    {
        proof {
            use_type_invariant(self);
            use_type_invariant(&self.by_remote);
            self.by_remote.lemma_ordered();
        }
        let mut r = StringSet::new();
        let mut i: usize = 0;
        while i < self.by_remote.len()
            invariant
                i <= self.by_remote.ordered_keys().len(),
                r@ == self.by_remote.ordered_keys().take(i as int).to_set(),
            decreases self.by_remote.ordered_keys().len() - i,
        {
            r.insert(self.by_remote.key_at(i).clone());
            proof {
                let t = self.by_remote.ordered_keys().take(i + 1);
                let t0 = self.by_remote.ordered_keys().take(i as int);
                assert forall|x| t.to_set().contains(x) == (t0.to_set().contains(x) || x
                    == self.by_remote.ordered_keys()[i as int]) by {
                    if t.to_set().contains(x) {
                        let q = choose|q: int| 0 <= q < t.len() && t[q] == x;
                        if q < i {
                            assert(t0[q] == x);
                        }
                    }
                    if t0.to_set().contains(x) {
                        let q = choose|q: int| 0 <= q < t0.len() && t0[q] == x;
                        assert(t[q] == x);
                    }
                    if x == self.by_remote.ordered_keys()[i as int] {
                        assert(t[i as int] == x);
                    }
                }
                assert(r@ =~= t.to_set());
            }
            i = i + 1;
        }
        assert(self.by_remote.ordered_keys().take(self.by_remote.ordered_keys().len() as int)
            =~= self.by_remote.ordered_keys());
        assert(r@ =~= self@.dom());
        r
    }

    /// Whether `remote_id` reports at least one online friend.
    pub fn has_online_friends(&self, remote_id: &str) -> (r: bool)
        ensures
            r == self@.dom().contains(remote_id@),
    {
        self.by_remote.contains_key(remote_id)
    }

    /// The relay servers that report `friend_id` online.
    pub fn remotes_for(&self, friend_id: &str) -> (r: StringSet)
        ensures
            r@ == Set::new(
                |remote: Seq<char>| self@.dom().contains(remote) && self@[remote].contains(friend_id@),
            ),
    {
        proof {
            use_type_invariant(&self.by_remote);
            self.by_remote.lemma_ordered();
        }
        let ghost m = self.by_remote;
        let mut r = StringSet::new();
        let mut i: usize = 0;
        while i < self.by_remote.len()
            invariant
                m == self.by_remote,
                i <= m.ordered_keys().len(),
                forall|j: int|
                    0 <= j < m.ordered_keys().len() ==> m@[#[trigger] m.ordered_keys()[j]]
                        == m.value_at_spec(j),
                r@ == Set::new(
                    |k: Seq<char>|
                        exists|j: int|
                            0 <= j < i && #[trigger] m.ordered_keys()[j] == k
                                && m.value_at_spec(j)@.contains(friend_id@),
                ),
            decreases m.ordered_keys().len() - i,
        {
            let ghost before = r@;
            if self.by_remote.value_at(i).contains(friend_id) {
                r.insert(self.by_remote.key_at(i).clone());
            }
            proof {
                assert forall|k: Seq<char>| r@.contains(k) == (exists|j: int|
                    0 <= j < i + 1 && #[trigger] m.ordered_keys()[j] == k
                        && m.value_at_spec(j)@.contains(friend_id@)) by {
                    if exists|j: int|
                        0 <= j < i + 1 && #[trigger] m.ordered_keys()[j] == k
                            && m.value_at_spec(j)@.contains(friend_id@) {
                        let j = choose|j: int|
                            0 <= j < i + 1 && #[trigger] m.ordered_keys()[j] == k
                                && m.value_at_spec(j)@.contains(friend_id@);
                        if j < i {
                            assert(before.contains(k));
                        }
                    }
                }
                assert(r@ =~= Set::new(
                    |k: Seq<char>|
                        exists|j: int|
                            0 <= j < i + 1 && #[trigger] m.ordered_keys()[j] == k
                                && m.value_at_spec(j)@.contains(friend_id@),
                ));
            }
            i = i + 1;
        }
        proof {
            let target = Set::new(
                |remote: Seq<char>| self@.dom().contains(remote) && self@[remote].contains(friend_id@),
            );
            assert forall|k: Seq<char>| r@.contains(k) == target.contains(k) by {
                if r@.contains(k) {
                    let j = choose|j: int|
                        0 <= j < m.ordered_keys().len() && #[trigger] m.ordered_keys()[j] == k
                            && m.value_at_spec(j)@.contains(friend_id@);
                    assert(m.ordered_keys().to_set().contains(k));
                }
                if target.contains(k) {
                    assert(m.ordered_keys().to_set().contains(k));
                    let j = choose|j: int| 0 <= j < m.ordered_keys().len() && m.ordered_keys()[j] == k;
                    assert(m@[m.ordered_keys()[j]] == m.value_at_spec(j));
                }
            }
            assert(r@ =~= target);
        }
        r
    }

    /// Records the full set of friends that `remote_id` reports online.
    pub fn replace(&mut self, remote_id: &str, friend_ids: Vec<String>) -> (r: Option<Change>)
        ensures
            final(self)@ == replaced(old(self)@, remote_id@, views(friend_ids@).to_set()),
            reports(r, old(self)@, final(self)@),
            no_empty_remote(final(self)@),
    {
        proof {
            use_type_invariant(&*self);
        }
        let before = copy_map(&self.by_remote);
        let set = StringSet::from_vec(friend_ids);
        let mut map: StringMap<StringSet> = StringMap::new();
        std::mem::swap(&mut map, &mut self.by_remote);
        if set.is_empty() {
            map.remove(remote_id);
        } else {
            map.insert(remote_id.to_owned(), set);
        }
        proof {
            assert(set_views(map@) =~= replaced(set_views(before@), remote_id@, set@));
        }
        self.by_remote = map;
        diff(&before, &self.by_remote)
    }

    /// Records that `remote_id` reports `friend_id` online or offline.
    pub fn update(&mut self, remote_id: &str, friend_id: String, online: bool) -> (r: Option<
        Change,
    >)
        ensures
            final(self)@ == updated(old(self)@, remote_id@, friend_id@, online),
            reports(r, old(self)@, final(self)@),
            no_empty_remote(final(self)@),
    {
        proof {
            use_type_invariant(&*self);
        }
        let before = copy_map(&self.by_remote);
        let ghost fv = friend_id@;
        let mut map: StringMap<StringSet> = StringMap::new();
        std::mem::swap(&mut map, &mut self.by_remote);
        if online {
            let mut set = match map.get(remote_id) {
                Some(current) => current.duplicate(),
                None => StringSet::new(),
            };
            set.insert(friend_id);
            assert(set@.contains(fv));
            map.insert(remote_id.to_owned(), set);
        } else {
            let current = match map.get(remote_id) {
                Some(current) => Some(current.duplicate()),
                None => None,
            };
            if let Some(mut set) = current {
                set.remove(friend_id.as_str());
                if set.is_empty() {
                    map.remove(remote_id);
                } else {
                    map.insert(remote_id.to_owned(), set);
                }
            }
        }
        proof {
            assert(set_views(map@) =~= updated(set_views(before@), remote_id@, fv, online));
            assert forall|q: Seq<char>| #[trigger] set_views(map@).dom().contains(q) implies set_views(map@)[q]
                != Set::<Seq<char>>::empty() by {
                if q == remote_id@ && online {
                    assert(set_views(map@)[q].contains(fv));
                }
            }
        }
        self.by_remote = map;
        diff(&before, &self.by_remote)
    }

    /// Forgets everything that `remote_id` reported.
    pub fn remove(&mut self, remote_id: &str) -> (r: Option<Change>)
        ensures
            final(self)@ == old(self)@.remove(remote_id@),
            reports(r, old(self)@, final(self)@),
            no_empty_remote(final(self)@),
    {
        proof {
            use_type_invariant(&*self);
        }
        let before = copy_map(&self.by_remote);
        let mut map: StringMap<StringSet> = StringMap::new();
        std::mem::swap(&mut map, &mut self.by_remote);
        map.remove(remote_id);
        proof {
            assert(set_views(map@) =~= set_views(before@).remove(remote_id@));
        }
        self.by_remote = map;
        diff(&before, &self.by_remote)
    }

    /// Forgets every friend that is not among `known_friend_ids`.
    pub fn retain(&mut self, known_friend_ids: &[String]) -> (r: Option<Change>)
        ensures
            final(self)@ == retained(old(self)@, views(known_friend_ids@).to_set()),
            reports(r, old(self)@, final(self)@),
            no_empty_remote(final(self)@),
    {
        proof {
            use_type_invariant(&*self);
            use_type_invariant(&self.by_remote);
            self.by_remote.lemma_ordered();
        }
        let known = StringSet::from_slice(known_friend_ids);
        let before = copy_map(&self.by_remote);
        let ghost m = self.by_remote;
        let ghost target = retained(set_views(m@), known@);
        let mut map: StringMap<StringSet> = StringMap::new();
        let mut i: usize = 0;
        while i < self.by_remote.len()
            invariant
                m == self.by_remote,
                target == retained(set_views(m@), known@),
                i <= m.ordered_keys().len(),
                strictly_sorted(m.ordered_keys()),
                m.ordered_keys().to_set() == m@.dom(),
                forall|j: int|
                    0 <= j < m.ordered_keys().len() ==> m@[#[trigger] m.ordered_keys()[j]]
                        == m.value_at_spec(j),
                forall|k: Seq<char>| #[trigger]
                    map@.dom().contains(k) ==> m.ordered_keys().take(i as int).contains(k)
                        && target.dom().contains(k) && map@[k]@ == target[k],
                forall|j: int|
                    0 <= j < i && target.dom().contains(#[trigger] m.ordered_keys()[j])
                        ==> map@.dom().contains(m.ordered_keys()[j]),
            decreases m.ordered_keys().len() - i,
        {
            let mut set = self.by_remote.value_at(i).duplicate();
            set.retain_in(&known);
            let ghost k = m.ordered_keys()[i as int];
            proof {
                assert(m.ordered_keys().to_set().contains(k));
                assert(m@[k] == m.value_at_spec(i as int));
            }
            if !set.is_empty() {
                map.insert(self.by_remote.key_at(i).clone(), set);
            }
            proof {
                assert forall|q: Seq<char>| #[trigger] map@.dom().contains(q) implies m.ordered_keys().take(
                    i + 1,
                ).contains(q) && target.dom().contains(q) && map@[q]@ == target[q] by {
                    if q == k {
                        assert(m.ordered_keys().take(i + 1)[i as int] == q);
                    } else {
                        let a = choose|a: int|
                            0 <= a < i && m.ordered_keys().take(i as int)[a] == q;
                        assert(m.ordered_keys().take(i + 1)[a] == q);
                    }
                }
            }
            i = i + 1;
        }
        proof {
            assert forall|q: Seq<char>| #[trigger] target.dom().contains(q) implies map@.dom().contains(
                q,
            ) by {
                let j = choose|j: int| 0 <= j < m.ordered_keys().len() && m.ordered_keys()[j] == q;
            }
            assert forall|q: Seq<char>| map@.dom().contains(q) implies target.dom().contains(q) by {}
            assert(set_views(map@) =~= target);
            assert forall|q: Seq<char>| #[trigger] set_views(map@).dom().contains(q) implies set_views(map@)[q]
                != Set::<Seq<char>>::empty() by {
                assert(target.dom().contains(q));
            }
            assert(no_empty_remote(set_views(map@)));
        }
        self.by_remote = map;
        diff(&before, &self.by_remote)
    }

    /// The friends that at least one relay server reports online, in increasing order.
    pub fn snapshot(&self) -> (r: Vec<String>)
        ensures
            lists(r@, aggregate(self@)),
    {
        aggregate_of(&self.by_remote).to_vec()
    }
}


/// A friend stays online while any relay server other than the one that went
/// away still reports them.
pub proof fn law_friend_online_while_any_remote_reports(
    m: PresenceMap,
    r: Seq<char>,
    f: Seq<char>,
)
    ensures
        aggregate(m.remove(r)).contains(f) <==> exists|r2: Seq<char>|
            r2 != r && #[trigger] m.dom().contains(r2) && m[r2].contains(f),
{
    if aggregate(m.remove(r)).contains(f) {
        let r2 = choose|r2: Seq<char>| #[trigger] m.remove(r).dom().contains(r2) && m.remove(r)[r2].contains(f);
        assert(m.dom().contains(r2));
    }
    if exists|r2: Seq<char>| r2 != r && #[trigger] m.dom().contains(r2) && m[r2].contains(f) {
        let r2 = choose|r2: Seq<char>| r2 != r && #[trigger] m.dom().contains(r2) && m[r2].contains(f);
        assert(m.remove(r).dom().contains(r2));
    }
}

/// A friend that a relay server reports online is online.
pub proof fn law_reported_friend_is_online(m: PresenceMap, r: Seq<char>, f: Seq<char>)
    ensures
        aggregate(updated(m, r, f, true)).contains(f),
        updated(m, r, f, true).dom().contains(r),
{
    let after = updated(m, r, f, true);
    assert(after.dom().contains(r) && after[r].contains(f));
}

/// A relay server that newly reports a friend is a new live-data route, so the
/// current live data is published again.
pub proof fn law_new_report_adds_a_route(m: PresenceMap, r: Seq<char>, f: Seq<char>)
    requires
        !(m.dom().contains(r) && m[r].contains(f)),
    ensures
        route_added(m, updated(m, r, f, true)),
{
    let after = updated(m, r, f, true);
    assert(after.dom().contains(r));
    assert(after[r].contains(f));
}

/// Offline reports, disconnections and friend removal never add a route.
pub proof fn law_removal_adds_no_route(
    m: PresenceMap,
    r: Seq<char>,
    f: Seq<char>,
    known: Set<Seq<char>>,
)
    ensures
        !route_added(m, updated(m, r, f, false)),
        !route_added(m, m.remove(r)),
        !route_added(m, retained(m, known)),
{
    let a = updated(m, r, f, false);
    assert forall|q: Seq<char>| #[trigger] a.dom().contains(q) implies m.dom().contains(q)
        && a[q].subset_of(m[q]) by {}
    let c = retained(m, known);
    assert forall|q: Seq<char>| #[trigger] c.dom().contains(q) implies m.dom().contains(q)
        && c[q].subset_of(m[q]) by {}
}

/// After forgetting unknown friends, exactly the known friends that were
/// online remain online.
pub proof fn law_retained_friends_are_known(m: PresenceMap, known: Set<Seq<char>>)
    ensures
        aggregate(retained(m, known)) == aggregate(m).intersect(known),
{
    let c = retained(m, known);
    assert forall|f: Seq<char>| aggregate(c).contains(f) == aggregate(m).intersect(known).contains(
        f,
    ) by {
        if aggregate(m).intersect(known).contains(f) {
            let r = choose|r: Seq<char>| #[trigger] m.dom().contains(r) && m[r].contains(f);
            assert(m[r].intersect(known).contains(f));
            assert(c.dom().contains(r));
        }
        if aggregate(c).contains(f) {
            let r = choose|r: Seq<char>| #[trigger] c.dom().contains(r) && c[r].contains(f);
            assert(m.dom().contains(r));
        }
    }
    assert(aggregate(c) =~= aggregate(m).intersect(known));
}

/// A relay server that reports no friend is no live-data route.
pub proof fn law_empty_report_disables_route(m: PresenceMap, r: Seq<char>)
    ensures
        !replaced(m, r, Set::empty()).dom().contains(r),
{
}

} // verus!
