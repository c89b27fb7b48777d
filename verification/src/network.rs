//! The desktop app's side of the relay connections: the status of each
//! connection, which connections to keep when the server list changes, the
//! order in which connected servers are tried, the URL of a server, and the
//! friend ids that a connection registers.

use vstd::prelude::*;
use vstd::string::{StrSliceExecFns, StringExecFns};

use crate::records::{copy_optional, copy_remote, Friend, Remote};
use crate::common::InteractionDeliveryStatus;
use crate::identity::{key_from_text, validate_id, KeyError};
use crate::routing::{preferred_remote, ranked, ranks_before};
use crate::strings::{decimal_text, push_decimal, str_eq, strictly_sorted, views, StringMap, StringSet};

verus! {

broadcast use vstd::string::group_string_axioms;

/// The state of a connection to a relay server.
#[derive(Debug, Clone, Copy, PartialEq, Eq, Structural)]
pub enum ConnectionState {
    Connecting,
    Connected,
    Disconnected,
}

/// The state of the connection to one relay server, as shown to the user.
#[derive(Debug, Clone)]
pub struct ConnectionStatus {
    pub remote_id: String,
    pub address: String,
    pub name: Option<String>,
    pub state: ConnectionState,
}

/// The connection statuses changed.
#[derive(Debug, Clone)]
pub struct NetworkStatusChanged {
    pub statuses: Vec<ConnectionStatus>,
}

/// The set of friends online changed.
#[derive(Debug, Clone)]
pub struct FriendStatusesChanged {
    pub friend_ids: Vec<String>,
}

/// The status of the connection to `remote` in `state`.
pub open spec fn status_of(remote: Remote, state: ConnectionState) -> ConnectionStatus {
    ConnectionStatus { remote_id: remote.id, address: remote.address, name: remote.name, state }
}

/// The status of the connection to `remote` in `state`.
pub fn status(remote: &Remote, state: ConnectionState) -> (r: ConnectionStatus)
    ensures
        r == status_of(*remote, state),
{
    ConnectionStatus {
        remote_id: remote.id.clone(),
        address: remote.address.clone(),
        name: copy_optional(&remote.name),
        state,
    }
}

/// An exact copy of a connection status.
pub fn copy_status(s: &ConnectionStatus) -> (r: ConnectionStatus)
    ensures
        r == *s,
{
    ConnectionStatus {
        remote_id: s.remote_id.clone(),
        address: s.address.clone(),
        name: copy_optional(&s.name),
        state: s.state,
    }
}

/// The remote ids of a list of statuses, in order.
pub open spec fn status_ids(v: Seq<ConnectionStatus>) -> Seq<Seq<char>> {
    v.map_values(|s: ConnectionStatus| s.remote_id@)
}

/// The status of each relay server's connection, with the generation of the
/// connection that reported it; a report from an older generation of a
/// server's connection is ignored.
pub struct StatusTable {
    entries: StringMap<(u64, ConnectionStatus)>,
}

impl View for StatusTable {
    type V = Map<Seq<char>, (u64, ConnectionStatus)>;

    closed spec fn view(&self) -> Map<Seq<char>, (u64, ConnectionStatus)> {
        self.entries@
    }
}

impl StatusTable {
    /// Each entry is the status of the server it is filed under.
    #[verifier::type_invariant]
    closed spec fn filed_by_id(self) -> bool {
        forall|k: Seq<char>| #[trigger] self.entries@.dom().contains(k) ==> self.entries@[k].1.remote_id@ == k
    }

    /// No status yet.
    pub fn new() -> (r: StatusTable)
        ensures
            r@ == Map::<Seq<char>, (u64, ConnectionStatus)>::empty(),
    {
        StatusTable { entries: StringMap::new() }
    }

    /// Records the first status of a new connection to `remote`.
    pub fn set_initial(&mut self, remote: &Remote, generation: u64, state: ConnectionState)
        ensures
            final(self)@ == old(self)@.insert(remote.id@, (generation, status_of(*remote, state))),
    {
        proof {
            use_type_invariant(&*self);
        }
        let mut entries = StringMap::new();
        std::mem::swap(&mut entries, &mut self.entries);
        entries.insert(remote.id.clone(), (generation, status(remote, state)));
        self.entries = entries;
    }

    /// Records a new state reported by connection `generation` to `remote`;
    /// answers whether it was recorded (the connection is still the current
    /// one).
    pub fn set(&mut self, remote: &Remote, generation: u64, state: ConnectionState) -> (r: bool)
        ensures
            r == (old(self)@.dom().contains(remote.id@) && old(self)@[remote.id@].0 == generation),
            r ==> final(self)@ == old(self)@.insert(remote.id@, (generation, status_of(*remote, state))),
            !r ==> final(self)@ == old(self)@,
    {
        proof {
            use_type_invariant(&*self);
        }
        let current = match self.entries.get(remote.id.as_str()) {
            Some(entry) => entry.0,
            None => return false,
        };
        if current != generation {
            return false;
        }
        let mut entries = StringMap::new();
        std::mem::swap(&mut entries, &mut self.entries);
        entries.insert(remote.id.clone(), (generation, status(remote, state)));
        self.entries = entries;
        true
    }

    /// Forgets the status of `remote_id` if connection `generation` reported it.
    pub fn remove_status(&mut self, remote_id: &str, generation: u64)
        ensures
            final(self)@ == if old(self)@.dom().contains(remote_id@) && old(self)@[remote_id@].0
                == generation {
                old(self)@.remove(remote_id@)
            } else {
                old(self)@
            },
    {
        proof {
            use_type_invariant(&*self);
        }
        let matches = match self.entries.get(remote_id) {
            Some(entry) => entry.0 == generation,
            None => false,
        };
        if matches {
            let mut entries = StringMap::new();
            std::mem::swap(&mut entries, &mut self.entries);
            entries.remove(remote_id);
            self.entries = entries;
        }
    }

    /// The state of the connection to `remote_id`, if one was recorded.
    pub fn state_of(&self, remote_id: &str) -> (r: Option<ConnectionState>)
        ensures
            r == if self@.dom().contains(remote_id@) {
                Some(self@[remote_id@].1.state)
            } else {
                None
            },
    {
        match self.entries.get(remote_id) {
            Some(entry) => Some(entry.1.state),
            None => None,
        }
    }

    /// The statuses, in increasing order of server id.
    pub fn snapshot(&self) -> (r: Vec<ConnectionStatus>)
        ensures
            strictly_sorted(status_ids(r@)),
            status_ids(r@).to_set() == self@.dom(),
            forall|i: int| 0 <= i < r@.len() ==> r@[i] == self@[(#[trigger] r@[i]).remote_id@].1,
    {
        proof {
            use_type_invariant(self);
            use_type_invariant(&self.entries);
            self.entries.lemma_ordered();
        }
        let ghost keys = self.entries.ordered_keys();
        let n = self.entries.len();
        let mut out: Vec<ConnectionStatus> = Vec::new();
        let mut i: usize = 0;
        while i < n
            invariant
                n == keys.len(),
                keys == self.entries.ordered_keys(),
                strictly_sorted(keys),
                keys.to_set() == self@.dom(),
                forall|k: Seq<char>| #[trigger] self@.dom().contains(k) ==> self@[k].1.remote_id@ == k,
                forall|j: int| 0 <= j < keys.len() ==> self@[#[trigger] keys[j]] == self.entries.value_at_spec(j),
                i <= n,
                status_ids(out@) == keys.take(i as int),
                forall|j: int| 0 <= j < out@.len() ==> out@[j] == self@[(#[trigger] out@[j]).remote_id@].1,
            decreases n - i,
        {
            let entry = self.entries.value_at(i);
            proof {
                assert(self@.dom().contains(keys[i as int]));
            }
            let s = copy_status(&entry.1);
            let ghost before = out@;
            out.push(s);
            proof {
                assert(s.remote_id@ == keys[i as int]);
                assert(status_ids(out@) =~= status_ids(before).push(s.remote_id@));
                assert(keys.take(i + 1) =~= keys.take(i as int).push(keys[i as int]));
                assert(status_ids(out@) =~= keys.take(i + 1));
            }
            i = i + 1;
        }
        assert(keys.take(n as int) =~= keys);
        out
    }
}

/// The ids of the friends a connection registers: every friend's id except
/// the user's own, in increasing order, each once.
pub fn friend_ids(friends: Vec<Friend>, own_id: &str) -> (r: Vec<String>)
    ensures
        strictly_sorted(views(r@)),
        views(r@).to_set() == friends@.map_values(|f: Friend| f.id@).to_set().remove(own_id@),
{
    let ghost ids = friends@.map_values(|f: Friend| f.id@);
    let mut set = StringSet::new();
    let mut i: usize = 0;
    while i < friends.len()
        invariant
            ids == friends@.map_values(|f: Friend| f.id@),
            i <= friends@.len(),
            set@ == ids.take(i as int).to_set().remove(own_id@),
        decreases friends.len() - i,
    {
        let id = &friends[i].id;
        if !str_eq(id.as_str(), own_id) {
            set.insert(id.clone());
        }
        proof {
            assert(ids.take(i + 1) =~= ids.take(i as int).push(ids[i as int]));
            ids.take(i as int).lemma_push_to_set_commute(ids[i as int]);
            assert(set@ =~= ids.take(i + 1).to_set().remove(own_id@));
        }
        i = i + 1;
    }
    assert(ids.take(friends@.len() as int) =~= ids);
    set.to_vec()
}

/// Whether two server records need the same connection: same id, address,
/// name and port.
pub open spec fn same_configuration(a: Remote, b: Remote) -> bool {
    a.id@ == b.id@ && a.address@ == b.address@ && (match (a.name, b.name) {
        (Some(x), Some(y)) => x@ == y@,
        (None, None) => true,
        _ => false,
    }) && a.port == b.port
}

/// Whether two server records need the same connection.
pub fn same_connection_configuration(left: &Remote, right: &Remote) -> (r: bool)
    ensures
        r == same_configuration(*left, *right),
{
    let names_match = match (&left.name, &right.name) {
        (Some(x), Some(y)) => str_eq(x.as_str(), y.as_str()),
        (None, None) => true,
        _ => false,
    };
    str_eq(left.id.as_str(), right.id.as_str()) && str_eq(
        left.address.as_str(),
        right.address.as_str(),
    ) && names_match && left.port == right.port
}

/// `text` without its trailing slashes.
pub open spec fn without_trailing_slashes(text: Seq<char>) -> Seq<char>
    decreases text.len(),
{
    if text.len() > 0 && text.last() == '/' {
        without_trailing_slashes(text.drop_last())
    } else {
        text
    }
}

/// Whether `text` starts with `prefix`.
pub open spec fn starts_with(text: Seq<char>, prefix: Seq<char>) -> bool {
    prefix.len() <= text.len() && text.take(prefix.len() as int) == prefix
}

/// `text` without the first of `http://`, `https://`, `ws://` and `wss://`
/// that it starts with.
pub open spec fn without_scheme(text: Seq<char>) -> Seq<char> {
    if starts_with(text, "http://"@) {
        text.skip(7)
    } else if starts_with(text, "https://"@) {
        text.skip(8)
    } else if starts_with(text, "ws://"@) {
        text.skip(5)
    } else if starts_with(text, "wss://"@) {
        text.skip(6)
    } else {
        text
    }
}

/// The WebSocket URL of a relay server: secure when its address names
/// `https://` or `wss://`, the address without scheme and trailing slashes,
/// the port if one is set, then the path `/v1/ws`.
pub open spec fn url_of(remote: Remote) -> Seq<char> {
    let address = without_scheme(without_trailing_slashes(remote.address@));
    let scheme = if starts_with(remote.address@, "https://"@) || starts_with(
        remote.address@,
        "wss://"@,
    ) {
        "wss"@
    } else {
        "ws"@
    };
    let port = match remote.port {
        Some(p) => seq![':'] + decimal_text(p as nat),
        None => Seq::empty(),
    };
    scheme + "://"@ + address + port + "/v1/ws"@
}

/// Whether `text` starts with `prefix`.
fn has_prefix(text: &str, prefix: &str) -> (r: bool)
    ensures
        r == starts_with(text@, prefix@),
{
    let n = prefix.unicode_len();
    if n > text.unicode_len() {
        return false;
    }
    let mut i: usize = 0;
    while i < n
        invariant
            n == prefix@.len(),
            n <= text@.len(),
            i <= n,
            forall|j: int| 0 <= j < i ==> text@[j] == prefix@[j],
        decreases n - i,
    {
        if text.get_char(i) != prefix.get_char(i) {
            assert(text@.take(n as int)[i as int] != prefix@[i as int]);
            return false;
        }
        i = i + 1;
    }
    assert(text@.take(n as int) =~= prefix@);
    true
}

/// The WebSocket URL of a relay server.
pub fn url(remote: &Remote) -> (r: String)
    ensures
        r@ == url_of(*remote),
{
    let full = remote.address.as_str();
    let mut end = full.unicode_len();
    assert(full@.take(end as int) =~= full@);
    while end > 0 && full.get_char(end - 1) == '/'
        invariant
            end <= full@.len(),
            without_trailing_slashes(full@) == without_trailing_slashes(full@.take(end as int)),
        decreases end,
    {
        assert(full@.take(end as int).drop_last() =~= full@.take(end - 1));
        end = end - 1;
    }
    assert(without_trailing_slashes(full@.take(end as int)) == full@.take(end as int));
    let trimmed = full.substring_char(0, end);
    assert(trimmed@ =~= full@.take(end as int));
    proof {
        reveal_strlit("http://");
        reveal_strlit("https://");
        reveal_strlit("ws://");
        reveal_strlit("wss://");
        reveal_strlit("wss");
        reveal_strlit("ws");
        reveal_strlit("://");
        reveal_strlit(":");
        reveal_strlit("/v1/ws");
    }
    let n = trimmed.unicode_len();
    let start: usize = if has_prefix(trimmed, "http://") {
        7
    } else if has_prefix(trimmed, "https://") {
        8
    } else if has_prefix(trimmed, "ws://") {
        5
    } else if has_prefix(trimmed, "wss://") {
        6
    } else {
        0
    };
    let address = trimmed.substring_char(start, n);
    assert(address@ =~= without_scheme(trimmed@));
    let secure = has_prefix(full, "https://") || has_prefix(full, "wss://");
    let mut out = String::new();
    if secure {
        out.append("wss");
    } else {
        out.append("ws");
    }
    out.append("://");
    out.append(address);
    if let Some(port) = remote.port {
        out.append(":");
        push_decimal(&mut out, port as usize);
    }
    out.append("/v1/ws");
    assert(out@ =~= url_of(*remote));
    out
}

/// The URL's scheme follows the address alone, whatever the port: `wss://`
/// for an address that names `https://` or `wss://`, `ws://` for any other.
pub proof fn law_scheme_follows_the_address(remote: Remote)
    ensures
        starts_with(remote.address@, "https://"@) || starts_with(remote.address@, "wss://"@)
            ==> starts_with(url_of(remote), "wss://"@),
        !(starts_with(remote.address@, "https://"@) || starts_with(remote.address@, "wss://"@))
            ==> starts_with(url_of(remote), "ws://"@) && !starts_with(url_of(remote), "wss://"@),
{
    reveal_strlit("wss");
    reveal_strlit("ws");
    reveal_strlit("://");
    reveal_strlit("wss://");
    reveal_strlit("ws://");
    let address = without_scheme(without_trailing_slashes(remote.address@));
    let port = match remote.port {
        Some(p) => seq![':'] + decimal_text(p as nat),
        None => Seq::<char>::empty(),
    };
    let rest = address + port + "/v1/ws"@;
    if starts_with(remote.address@, "https://"@) || starts_with(remote.address@, "wss://"@) {
        assert(url_of(remote) =~= "wss://"@ + rest);
        assert(url_of(remote).take(6) =~= "wss://"@);
    } else {
        assert(url_of(remote) =~= "ws://"@ + rest);
        assert(url_of(remote).take(5) =~= "ws://"@);
        assert(url_of(remote)[2] == ':');
        assert("wss://"@[2] == 's');
        if url_of(remote).len() >= 6 {
            assert(url_of(remote).take(6)[2] != "wss://"@[2]);
        }
    }
}

/// The servers to connect to, by id: a later record of an id replaces an
/// earlier one.
pub open spec fn desired_map(remotes: Seq<Remote>) -> Map<Seq<char>, Remote>
    decreases remotes.len(),
{
    if remotes.len() == 0 {
        Map::empty()
    } else {
        desired_map(remotes.drop_last()).insert(remotes.last().id@, remotes.last())
    }
}

/// The connections to end: those to servers no longer wanted, or wanted with
/// another configuration.
pub open spec fn stale_set(current: Map<Seq<char>, Remote>, desired: Map<Seq<char>, Remote>) -> Set<
    Seq<char>,
> {
    current.dom().filter(
        |k: Seq<char>| !desired.dom().contains(k) || !same_configuration(desired[k], current[k]),
    )
}

/// The connections to start: to servers wanted and not connected, or whose
/// connection ends for a new configuration.
pub open spec fn started_set(current: Map<Seq<char>, Remote>, desired: Map<Seq<char>, Remote>) -> Set<
    Seq<char>,
> {
    desired.dom().filter(|k: Seq<char>| !current.dom().contains(k) || stale_set(current, desired).contains(k))
}

/// After a change of the server list, every configured server has exactly one
/// connection: a kept one or a new one, and none is both.
pub proof fn law_sync_gives_each_server_one_connection(
    current: Map<Seq<char>, Remote>,
    desired: Map<Seq<char>, Remote>,
)
    ensures
        started_set(current, desired).union(current.dom().difference(stale_set(current, desired)))
            == desired.dom(),
        started_set(current, desired).disjoint(current.dom().difference(stale_set(current, desired))),
{
    assert(started_set(current, desired).union(current.dom().difference(stale_set(current, desired)))
        =~= desired.dom());
}

/// Two server records need the same connection only when they agree on
/// everything the connection is made from: id, address, name and port.
pub proof fn law_same_configuration_agrees_on_every_field(a: Remote, b: Remote)
    ensures
        same_configuration(a, b) ==> {
            &&& a.id@ == b.id@
            &&& a.address@ == b.address@
            &&& a.port == b.port
            &&& (a.name is Some <==> b.name is Some)
            &&& a.name is Some ==> a.name.unwrap()@ == b.name.unwrap()@
        },
        same_configuration(a, a),
{
}

/// A server that stays configured under another name (or gains or loses its
/// name) has its connection ended and started anew.
pub proof fn law_renamed_server_reconnects(
    current: Map<Seq<char>, Remote>,
    desired: Map<Seq<char>, Remote>,
    k: Seq<char>,
)
    requires
        current.dom().contains(k),
        desired.dom().contains(k),
        (current[k].name is Some) != (desired[k].name is Some) || (current[k].name is Some
            && current[k].name.unwrap()@ != desired[k].name.unwrap()@),
    ensures
        stale_set(current, desired).contains(k),
        started_set(current, desired).contains(k),
{
}

/// What to do with the connections when the list of servers changes.
pub struct SyncPlan {
    /// The servers whose connection ends.
    pub stale: StringSet,
    /// The servers whose connection stays, with their new records.
    pub kept: StringMap<Remote>,
    /// The servers to connect to anew.
    pub started: StringMap<Remote>,
}

/// Which connections to end, keep and start, given the servers connected
/// (`current`) and the servers now configured (`desired`).
pub fn plan_sync(current: &StringMap<Remote>, desired: &Vec<Remote>) -> (r: SyncPlan)
    ensures
        r.stale@ == stale_set(current@, desired_map(desired@)),
        r.started@ == desired_map(desired@).restrict(started_set(current@, desired_map(desired@))),
        r.kept@ == desired_map(desired@).restrict(
            current@.dom().difference(stale_set(current@, desired_map(desired@))),
        ),
{
    let mut wanted: StringMap<Remote> = StringMap::new();
    let mut i: usize = 0;
    while i < desired.len()
        invariant
            i <= desired@.len(),
            wanted@ == desired_map(desired@.take(i as int)),
        decreases desired.len() - i,
    {
        let remote = copy_remote(&desired[i]);
        wanted.insert(desired[i].id.clone(), remote);
        proof {
            let t = desired@.take(i + 1);
            assert(t.drop_last() =~= desired@.take(i as int));
            assert(t.last() == desired@[i as int]);
        }
        i = i + 1;
    }
    assert(desired@.take(desired@.len() as int) =~= desired@);
    let ghost dm = desired_map(desired@);
    let ghost stale_pred = |k: Seq<char>| !dm.dom().contains(k) || !same_configuration(dm[k], current@[k]);
    proof {
        use_type_invariant(current);
        current.lemma_ordered();
    }
    let ghost ckeys = current.ordered_keys();
    let mut stale = StringSet::new();
    let mut j: usize = 0;
    let n = current.len();
    while j < n
        invariant
            n == ckeys.len(),
            ckeys == current.ordered_keys(),
            ckeys.to_set() == current@.dom(),
            forall|x: int| 0 <= x < ckeys.len() ==> current@[#[trigger] ckeys[x]] == current.value_at_spec(x),
            wanted@ == dm,
            stale_pred == (|k: Seq<char>| !dm.dom().contains(k) || !same_configuration(dm[k], current@[k])),
            j <= n,
            stale@ == ckeys.take(j as int).to_set().filter(stale_pred),
        decreases n - j,
    {
        let key = current.key_at(j);
        let remote = current.value_at(j);
        let hit = match wanted.get(key.as_str()) {
            Some(w) => !same_connection_configuration(w, remote),
            None => true,
        };
        if hit {
            stale.insert(key.clone());
        }
        proof {
            assert(ckeys.take(j + 1) =~= ckeys.take(j as int).push(ckeys[j as int]));
            ckeys.take(j as int).lemma_push_to_set_commute(ckeys[j as int]);
            assert(hit == stale_pred(ckeys[j as int]));
            assert(stale@ =~= ckeys.take(j + 1).to_set().filter(stale_pred));
        }
        j = j + 1;
    }
    assert(ckeys.take(n as int) =~= ckeys);
    assert(stale@ =~= stale_set(current@, dm));
    proof {
        use_type_invariant(&wanted);
        wanted.lemma_ordered();
    }
    let ghost wkeys = wanted.ordered_keys();
    let ghost start_set = started_set(current@, dm);
    let ghost keep_set = current@.dom().difference(stale_set(current@, dm));
    let mut started: StringMap<Remote> = StringMap::new();
    let mut kept: StringMap<Remote> = StringMap::new();
    let m = wanted.len();
    let mut k: usize = 0;
    while k < m
        invariant
            m == wkeys.len(),
            wkeys == wanted.ordered_keys(),
            wkeys.to_set() == dm.dom(),
            forall|x: int| 0 <= x < wkeys.len() ==> dm[#[trigger] wkeys[x]] == wanted.value_at_spec(x),
            wanted@ == dm,
            stale@ == stale_set(current@, dm),
            start_set == started_set(current@, dm),
            keep_set == current@.dom().difference(stale_set(current@, dm)),
            k <= m,
            started@ == dm.restrict(wkeys.take(k as int).to_set().intersect(start_set)),
            kept@ == dm.restrict(wkeys.take(k as int).to_set().intersect(keep_set)),
        decreases m - k,
    {
        let key = wanted.key_at(k);
        let remote = copy_remote(wanted.value_at(k));
        let start = !current.contains_key(key.as_str()) || stale.contains(key.as_str());
        if start {
            started.insert(key.clone(), remote);
        } else {
            kept.insert(key.clone(), remote);
        }
        proof {
            assert(wkeys.take(k + 1) =~= wkeys.take(k as int).push(wkeys[k as int]));
            wkeys.take(k as int).lemma_push_to_set_commute(wkeys[k as int]);
            assert(dm.dom().contains(wkeys[k as int]));
            assert(start == start_set.contains(wkeys[k as int]));
            assert(!start == keep_set.contains(wkeys[k as int]));
            assert(started@ =~= dm.restrict(wkeys.take(k + 1).to_set().intersect(start_set)));
            assert(kept@ =~= dm.restrict(wkeys.take(k + 1).to_set().intersect(keep_set)));
        }
        k = k + 1;
    }
    proof {
        assert(wkeys.take(m as int) =~= wkeys);
        assert(dm.restrict(wkeys.to_set().intersect(start_set)) =~= dm.restrict(start_set));
        assert(dm.restrict(wkeys.to_set().intersect(keep_set)) =~= dm.restrict(keep_set));
    }
    SyncPlan { stale, kept, started }
}

/// The servers through which a request may go: those with a connection
/// that is connected and, when the request concerns a friend reachable
/// through known servers (`routes`), one of those.
pub open spec fn eligible(
    priorities: Map<Seq<char>, i32>,
    statuses: Map<Seq<char>, (u64, ConnectionStatus)>,
    routes: Set<Seq<char>>,
) -> Set<Seq<char>> {
    priorities.dom().filter(
        |k: Seq<char>|
            statuses.dom().contains(k) && statuses[k].1.state == ConnectionState::Connected && (
            routes == Set::<Seq<char>>::empty() || routes.contains(k)),
    )
}

/// The servers through which to try a request, in order: connected ones
/// (among `routes`, unless it is empty), lowest priority value first, ties
/// broken by the smaller id. `priorities` holds the servers with a
/// connection.
pub fn connection_order(priorities: &StringMap<i32>, statuses: &StatusTable, routes: &StringSet) -> (r:
    Vec<String>)
    ensures
        views(r@).to_set() == eligible(priorities@, statuses@, routes@),
        forall|i: int, j: int|
            0 <= i < j < r@.len() ==> r@[i]@ != r@[j]@ && ranks_before(
                priorities@,
                #[trigger] r@[i]@,
                #[trigger] r@[j]@,
            ),
{
    proof {
        use_type_invariant(priorities);
        priorities.lemma_ordered();
    }
    let ghost p = priorities@;
    let ghost keys = priorities.ordered_keys();
    let ghost target = eligible(p, statuses@, routes@);
    let ghost pred = |k: Seq<char>|
        statuses@.dom().contains(k) && statuses@[k].1.state == ConnectionState::Connected && (routes@
            == Set::<Seq<char>>::empty() || routes@.contains(k));
    let any_route = !routes.is_empty();
    let mut rest = StringSet::new();
    let n = priorities.len();
    let mut i: usize = 0;
    while i < n
        invariant
            n == keys.len(),
            keys == priorities.ordered_keys(),
            keys.to_set() == p.dom(),
            p == priorities@,
            any_route == (routes@ != Set::<Seq<char>>::empty()),
            pred == (|k: Seq<char>|
                statuses@.dom().contains(k) && statuses@[k].1.state == ConnectionState::Connected && (
                routes@ == Set::<Seq<char>>::empty() || routes@.contains(k))),
            i <= n,
            rest@ == keys.take(i as int).to_set().filter(pred),
        decreases n - i,
    {
        let key = priorities.key_at(i);
        let connected = match statuses.state_of(key.as_str()) {
            Some(state) => state == ConnectionState::Connected,
            None => false,
        };
        let hit = connected && (!any_route || routes.contains(key.as_str()));
        if hit {
            rest.insert(key.clone());
        }
        proof {
            assert(keys.take(i + 1) =~= keys.take(i as int).push(keys[i as int]));
            keys.take(i as int).lemma_push_to_set_commute(keys[i as int]);
            assert(hit == pred(keys[i as int]));
            assert(rest@ =~= keys.take(i + 1).to_set().filter(pred));
        }
        i = i + 1;
    }
    assert(keys.take(n as int) =~= keys);
    assert(rest@ =~= target);
    let mut out: Vec<String> = Vec::new();
    proof {
        assert(views(out@).to_set() =~= Set::<Seq<char>>::empty());
        vstd::set_lib::lemma_len_subset(rest@, p.dom());
    }
    while !rest.is_empty()
        invariant
            p == priorities@,
            p.dom().finite(),
            rest@.subset_of(p.dom()),
            rest@.finite(),
            views(out@).to_set().union(rest@) == target,
            views(out@).to_set().disjoint(rest@),
            forall|a: int, b: int|
                0 <= a < b < out@.len() ==> out@[a]@ != out@[b]@ && ranks_before(
                    p,
                    #[trigger] out@[a]@,
                    #[trigger] out@[b]@,
                ),
            forall|a: int, y: Seq<char>|
                0 <= a < out@.len() && #[trigger] rest@.contains(y) ==> ranks_before(p, #[trigger] out@[a]@, y),
        decreases rest@.len(),
    {
        proof {
            let y = rest@.choose();
            assert(rest@ != Set::<Seq<char>>::empty());
            assert(rest@.contains(y)) by {
                assert(exists|z: Seq<char>| rest@.contains(z)) by {
                    if forall|z: Seq<char>| !rest@.contains(z) {
                        assert(rest@ =~= Set::<Seq<char>>::empty());
                    }
                }
            }
            assert(ranked(rest@, p, y));
        }
        let best = match preferred_remote(&rest, priorities) {
            Some(b) => b,
            None => {
                proof {
                    let y = rest@.choose();
                    assert(ranked(rest@, p, y));
                }
                return out;
            },
        };
        let ghost before = out@;
        let ghost rest_before = rest@;
        rest.remove(best.as_str());
        out.push(best);
        proof {
            let b = before.len() as int;
            assert(views(out@) =~= views(before).push(out@[b]@));
            views(before).lemma_push_to_set_commute(out@[b]@);
            assert(views(out@).to_set().union(rest@) =~= target);
            assert forall|a: int, c: int|
                0 <= a < c < out@.len() implies out@[a]@ != out@[c]@ && ranks_before(
                p,
                #[trigger] out@[a]@,
                #[trigger] out@[c]@,
            ) by {
                if c == b {
                    assert(rest_before.contains(out@[c]@));
                    assert(out@[a] == before[a]);
                    assert(views(before).to_set().contains(views(before)[a]));
                }
            }
        }
    }
    proof {
        assert(rest@ =~= Set::<Seq<char>>::empty());
        assert(views(out@).to_set() =~= target);
    }
    out
}

/// Refuses to send an interaction to the user themself.
pub fn check_interaction_recipient(recipient_id: &str, own_id: &str) -> (r: Result<(), String>)
    ensures
        r is Ok <==> recipient_id@ != own_id@,
        r matches Err(e) ==> e@ == "Interactions can only be sent to a friend"@,
{
    if str_eq(recipient_id, own_id) {
        Err("Interactions can only be sent to a friend".to_owned())
    } else {
        Ok(())
    }
}

/// The error when no connected server can reach the recipient.
pub fn unreachable_error() -> (r: String)
    ensures
        r@ == "No connected relay can currently reach this friend"@,
{
    "No connected relay can currently reach this friend".to_owned()
}

/// The error for an interaction that no server delivered, from the statuses
/// the servers answered: a busy friend first, then a rejection, else the
/// friend is gone.
pub fn interaction_failure(statuses: &[InteractionDeliveryStatus]) -> (r: String)
    ensures
        r@ == if statuses@.contains(InteractionDeliveryStatus::Busy) {
            "Friend is busy; try again"@
        } else if statuses@.contains(InteractionDeliveryStatus::Rejected) {
            "Relay rejected the interaction"@
        } else {
            "Friend is no longer available"@
        },
{
    let mut busy = false;
    let mut rejected = false;
    let mut i: usize = 0;
    while i < statuses.len()
        invariant
            i <= statuses@.len(),
            busy == statuses@.take(i as int).contains(InteractionDeliveryStatus::Busy),
            rejected == statuses@.take(i as int).contains(InteractionDeliveryStatus::Rejected),
        decreases statuses.len() - i,
    {
        proof {
            assert(statuses@.take(i + 1) =~= statuses@.take(i as int).push(statuses@[i as int]));
        }
        if statuses[i] == InteractionDeliveryStatus::Busy {
            busy = true;
        }
        if statuses[i] == InteractionDeliveryStatus::Rejected {
            rejected = true;
        }
        proof {
            let t = statuses@.take(i + 1);
            if t.contains(InteractionDeliveryStatus::Busy) && !busy {
                let k = choose|k: int| 0 <= k < t.len() && t[k] == InteractionDeliveryStatus::Busy;
                if k < i {
                    assert(statuses@.take(i as int)[k] == InteractionDeliveryStatus::Busy);
                }
            }
            if t.contains(InteractionDeliveryStatus::Rejected) && !rejected {
                let k = choose|k: int| 0 <= k < t.len() && t[k] == InteractionDeliveryStatus::Rejected;
                if k < i {
                    assert(statuses@.take(i as int)[k] == InteractionDeliveryStatus::Rejected);
                }
            }
            if busy && statuses@[i as int] == InteractionDeliveryStatus::Busy {
                assert(t[i as int] == InteractionDeliveryStatus::Busy);
            }
            if rejected && statuses@[i as int] == InteractionDeliveryStatus::Rejected {
                assert(t[i as int] == InteractionDeliveryStatus::Rejected);
            }
            if busy && statuses@[i as int] != InteractionDeliveryStatus::Busy {
                let k = choose|k: int| 0 <= k < i && statuses@.take(i as int)[k] == InteractionDeliveryStatus::Busy;
                assert(t[k] == InteractionDeliveryStatus::Busy);
            }
            if rejected && statuses@[i as int] != InteractionDeliveryStatus::Rejected {
                let k = choose|k: int| 0 <= k < i && statuses@.take(i as int)[k] == InteractionDeliveryStatus::Rejected;
                assert(t[k] == InteractionDeliveryStatus::Rejected);
            }
        }
        i = i + 1;
    }
    assert(statuses@.take(statuses@.len() as int) =~= statuses@);
    if busy {
        "Friend is busy; try again".to_owned()
    } else if rejected {
        "Relay rejected the interaction".to_owned()
    } else {
        "Friend is no longer available".to_owned()
    }
}

/// Checks a user id that the user wants to add as a friend: it must be an
/// Ed25519 public key, and not the user's own.
pub fn check_friend_id(user_id: &str, own_id: &str) -> (r: Result<(), String>)
    ensures
        r is Ok <==> (key_from_text(user_id@) is Ok && user_id@ != own_id@),
        r matches Err(e) ==> e@ == match key_from_text(user_id@) {
            Err(KeyError::NotBase64) => "Identification key is not valid base64url."@,
            Err(KeyError::WrongLength) => "Identification key must encode a 32-byte public key."@,
            Err(KeyError::NotACurvePoint) => "Identification key is not a valid Ed25519 public key."@,
            Ok(_) => "You cannot add your own identification key."@,
        },
{
    validate_id(user_id)?;
    if str_eq(user_id, own_id) {
        return Err("You cannot add your own identification key.".to_owned());
    }
    Ok(())
}

/// The next sequence number of each kind of live data that the user sends.
pub struct LiveDataSequences {
    cursor: u64,
    activity: u64,
}

impl LiveDataSequences {
    /// The next cursor sequence number.
    pub closed spec fn next_cursor(&self) -> u64 {
        self.cursor
    }

    /// The next activity sequence number.
    pub closed spec fn next_activity(&self) -> u64 {
        self.activity
    }

    /// Both kinds start at 1.
    pub fn new() -> (r: LiveDataSequences)
        ensures
            r.next_cursor() == 1,
            r.next_activity() == 1,
    {
        LiveDataSequences { cursor: 1, activity: 1 }
    }

    /// Takes the next sequence number of `kind`; the counter wraps around
    /// after `u64::MAX`.
    pub fn take(&mut self, kind: crate::routing::LiveDataKind) -> (r: u64)
        ensures
            r == match kind {
                crate::routing::LiveDataKind::Cursor => old(self).next_cursor(),
                crate::routing::LiveDataKind::Activity => old(self).next_activity(),
            },
            final(self).next_cursor() == match kind {
                crate::routing::LiveDataKind::Cursor => if old(self).next_cursor() == u64::MAX {
                    0
                } else {
                    (old(self).next_cursor() + 1) as u64
                },
                crate::routing::LiveDataKind::Activity => old(self).next_cursor(),
            },
            final(self).next_activity() == match kind {
                crate::routing::LiveDataKind::Activity => if old(self).next_activity() == u64::MAX {
                    0
                } else {
                    (old(self).next_activity() + 1) as u64
                },
                crate::routing::LiveDataKind::Cursor => old(self).next_activity(),
            },
    {
        match kind {
            crate::routing::LiveDataKind::Cursor => {
                let r = self.cursor;
                self.cursor = if r == u64::MAX {
                    0
                } else {
                    r + 1
                };
                r
            },
            crate::routing::LiveDataKind::Activity => {
                let r = self.activity;
                self.activity = if r == u64::MAX {
                    0
                } else {
                    r + 1
                };
                r
            },
        }
    }
}

/// The servers that live data goes to: those with a connection through
/// which a friend is online.
pub fn live_data_targets(connections: &StringSet, active_remotes: &StringSet) -> (r: StringSet)
    ensures
        r@ == connections@.intersect(active_remotes@),
{
    let mut r = connections.duplicate();
    r.retain_in(active_remotes);
    r
}

/// Whether to take a friend's profile from `remote_id`: it is the preferred
/// server among those through which the friend is online and this one.
pub fn accept_source(
    presence: &crate::presence::FriendPresence,
    priorities: &StringMap<i32>,
    remote_id: &str,
    friend_id: &str,
) -> (r: bool)
    ensures
        r == {
            let candidates = Set::new(
                |remote: Seq<char>|
                    presence@.dom().contains(remote) && presence@[remote].contains(friend_id@),
            ).insert(remote_id@);
            &&& ranked(candidates, priorities@, remote_id@)
            &&& forall|y: Seq<char>|
                ranked(candidates, priorities@, y) ==> ranks_before(priorities@, remote_id@, y)
        },
{
    let mut remotes = presence.remotes_for(friend_id);
    remotes.insert(remote_id.to_owned());
    match preferred_remote(&remotes, priorities) {
        Some(best) => {
            let same = str_eq(best.as_str(), remote_id);
            proof {
                if !same {
                    let candidates = remotes@;
                    if ranked(candidates, priorities@, remote_id@) {
                        assert(ranks_before(priorities@, best@, remote_id@));
                        if forall|y: Seq<char>|
                            ranked(candidates, priorities@, y) ==> ranks_before(priorities@, remote_id@, y) {
                            assert(ranks_before(priorities@, remote_id@, best@));
                            crate::strings::lemma_bytes_lt_asymmetric(
                                vstd::utf8::encode_utf8(best@),
                                vstd::utf8::encode_utf8(remote_id@),
                            );
                            crate::strings::lemma_utf8_injective(best@, remote_id@);
                        }
                    }
                }
            }
            same
        },
        None => false,
    }
}

} // verus!
