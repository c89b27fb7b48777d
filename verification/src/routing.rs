//! Choosing the relay server for a friend, and dropping duplicate,
//! out-of-order and stale live-data packets.

use vstd::prelude::*;

use crate::strings::{str_eq, str_lt, lemma_str_order, strictly_sorted, views, StringMap, StringSet};

verus! {

/// `a` comes before `b`: lower priority value first, then the smaller id.
pub open spec fn ranks_before(p: Map<Seq<char>, i32>, a: Seq<char>, b: Seq<char>) -> bool {
    p[a] < p[b] || (p[a] == p[b] && (a == b || str_lt(a, b)))
}

/// The ids that are candidates and have a priority.
pub open spec fn ranked(ids: Set<Seq<char>>, p: Map<Seq<char>, i32>, x: Seq<char>) -> bool {
    ids.contains(x) && p.dom().contains(x)
}

/// The relay server to use among `remote_ids`: the one with the lowest
/// priority value, ties broken by the smaller id. Ids without a priority are
/// not candidates.
pub fn preferred_remote(remote_ids: &StringSet, priorities: &StringMap<i32>) -> (r: Option<String>)
    ensures
        r is None <==> !exists|x: Seq<char>| ranked(remote_ids@, priorities@, x),
        r matches Some(best) ==> ranked(remote_ids@, priorities@, best@) && forall|y: Seq<char>|
            ranked(remote_ids@, priorities@, y) ==> ranks_before(priorities@, best@, y),
{
    let ids = remote_ids.to_vec();
    let ghost p = priorities@;
    let mut best: Option<(i32, usize)> = None;
    let mut i: usize = 0;
    while i < ids.len()
        invariant
            p == priorities@,
            i <= ids@.len(),
            strictly_sorted(views(ids@)),
            views(ids@).to_set() == remote_ids@,
            best is None ==> forall|j: int| 0 <= j < i ==> !p.dom().contains(#[trigger] ids@[j]@),
            best matches Some(b) ==> b.1 < i && p.dom().contains(ids@[b.1 as int]@) && p[ids@[
                b.1 as int
            ]@] == b.0 && forall|j: int|
                0 <= j < i && p.dom().contains(#[trigger] ids@[j]@) ==> ranks_before(
                    p,
                    ids@[b.1 as int]@,
                    ids@[j]@,
                ),
        decreases ids.len() - i,
    {
        if let Some(priority) = priorities.get(ids[i].as_str()) {
            let take = match best {
                None => true,
                Some((best_priority, _)) => *priority < best_priority,
            };
            proof {
                assert(views(ids@)[i as int] == ids@[i as int]@);
                if let Some(b) = best {
                    assert(views(ids@)[b.1 as int] == ids@[b.1 as int]@);
                    assert(str_lt(ids@[b.1 as int]@, ids@[i as int]@));
                }
            }
            if take {
                proof {
                    assert forall|j: int|
                        0 <= j < i + 1 && p.dom().contains(#[trigger] ids@[j]@) implies ranks_before(
                        p,
                        ids@[i as int]@,
                        ids@[j]@,
                    ) by {
                        if j < i {
                            if let Some(b) = best {
                                assert(ranks_before(p, ids@[b.1 as int]@, ids@[j]@));
                            }
                        }
                    }
                }
                best = Some((*priority, i));
            } else {
                proof {
                    let b = best.unwrap();
                    assert(ranks_before(p, ids@[b.1 as int]@, ids@[i as int]@));
                }
            }
        }
        i = i + 1;
    }
    proof {
        assert forall|x: Seq<char>| ranked(remote_ids@, p, x) implies exists|j: int|
            0 <= j < ids@.len() && #[trigger] ids@[j]@ == x by {
            assert(views(ids@).to_set().contains(x));
            let j = choose|j: int| 0 <= j < views(ids@).len() && views(ids@)[j] == x;
            assert(ids@[j]@ == x);
        }
    }
    match best {
        None => None,
        Some((_, index)) => {
            proof {
                assert(views(ids@)[index as int] == ids@[index as int]@);
                assert(views(ids@).to_set().contains(ids@[index as int]@));
                assert(ranked(remote_ids@, p, ids@[index as int]@));
            }
            Some(ids[index].clone())
        },
    }
}

/// Whether `uuid::Uuid::parse_str` accepts the string.
pub uninterp spec fn uuid_parses(s: Seq<char>) -> bool;

/// Calls `uuid::Uuid::parse_str`, which reads the string's bytes alone, and
/// reports whether it accepted them as a UUID. What it accepts is not restated.
#[verifier::external_body]
fn parses_as_uuid(s: &str) -> (r: bool)
    ensures
        r == uuid_parses(s@),
{
    uuid::Uuid::parse_str(s).is_ok()
}

/// How many superseded sessions of a stream are remembered and refused.
pub const RETIRED_SESSION_LIMIT: usize = 4;

/// The kinds of live data; each has a stream of its own per friend.
#[derive(Clone, Copy, Debug, PartialEq, Eq, Structural)]
pub enum LiveDataKind {
    Cursor,
    Activity,
}

/// The position of a friend's stream of one kind: its session, the last
/// sequence number accepted in it, and the sessions it superseded, oldest first.
pub struct StreamSequence {
    session_id: String,
    sequence: u64,
    retired_sessions: Vec<String>,
}

/// The ghost state of a stream.
pub struct StreamView {
    pub session: Seq<char>,
    pub sequence: u64,
    pub retired: Seq<Seq<char>>,
}

impl View for StreamSequence {
    type V = StreamView;

    closed spec fn view(&self) -> StreamView {
        StreamView {
            session: self.session_id@,
            sequence: self.sequence,
            retired: views(self.retired_sessions@),
        }
    }
}

/// Keeps the `RETIRED_SESSION_LIMIT` most recent retired sessions.
pub open spec fn capped(s: Seq<Seq<char>>) -> Seq<Seq<char>> {
    if s.len() > RETIRED_SESSION_LIMIT {
        s.drop_first()
    } else {
        s
    }
}

/// Whether a packet of `session` numbered `sequence` is accepted by a stream
/// in state `current`, and the stream's state afterwards.
pub open spec fn next_stream(current: Option<StreamView>, session: Seq<char>, sequence: u64) -> (
    bool,
    Option<StreamView>,
) {
    if sequence == 0 || !uuid_parses(session) {
        (false, current)
    } else {
        match current {
            None => (true, Some(StreamView { session, sequence, retired: Seq::empty() })),
            Some(c) => if c.session == session {
                if sequence <= c.sequence {
                    (false, current)
                } else {
                    (true, Some(StreamView { session, sequence, retired: c.retired }))
                }
            } else if c.retired.contains(session) {
                (false, current)
            } else {
                (
                    true,
                    Some(
                        StreamView {
                            session,
                            sequence,
                            retired: capped(c.retired.push(c.session)),
                        },
                    ),
                )
            },
        }
    }
}

/// A well-formed stream: its current session is not retired, no session is
/// retired twice, and at most `RETIRED_SESSION_LIMIT` are remembered.
pub open spec fn stream_wf(s: StreamView) -> bool {
    &&& !s.retired.contains(s.session)
    &&& s.retired.no_duplicates()
    &&& s.retired.len() <= RETIRED_SESSION_LIMIT
}

/// Accepted live-data positions per friend and kind.
pub struct SequenceTracker {
    cursor: StringMap<StreamSequence>,
    activity: StringMap<StreamSequence>,
}

/// The ghost state of the tracker: the stream of each friend for each kind.
pub struct TrackerView {
    pub cursor: Map<Seq<char>, StreamView>,
    pub activity: Map<Seq<char>, StreamView>,
}

impl TrackerView {
    /// The stream of `friend` for `kind`, if any.
    pub open spec fn stream(self, friend: Seq<char>, kind: LiveDataKind) -> Option<StreamView> {
        let m = match kind {
            LiveDataKind::Cursor => self.cursor,
            LiveDataKind::Activity => self.activity,
        };
        if m.dom().contains(friend) {
            Some(m[friend])
        } else {
            None
        }
    }
}

/// The stream views of a map of streams.
pub open spec fn stream_views(m: Map<Seq<char>, StreamSequence>) -> Map<Seq<char>, StreamView> {
    m.map_values(|s: StreamSequence| s@)
}

impl View for SequenceTracker {
    type V = TrackerView;

    closed spec fn view(&self) -> TrackerView {
        TrackerView { cursor: stream_views(self.cursor@), activity: stream_views(self.activity@) }
    }
}

/// The next state of a stream whose current state is `current` (not `None`
/// when a packet is accepted).
fn advance(current: Option<&StreamSequence>, session_id: &str, sequence: u64) -> (r: (
    bool,
    Option<StreamSequence>,
))
    requires
        sequence != 0,
        uuid_parses(session_id@),
        current matches Some(c) ==> stream_wf(c@),
    ensures
        r.0 == next_stream(
            match current {
                Some(c) => Some(c@),
                None => None,
            },
            session_id@,
            sequence,
        ).0,
        r.0 ==> (r.1 matches Some(n) && Some(n@) == next_stream(
            match current {
                Some(c) => Some(c@),
                None => None,
            },
            session_id@,
            sequence,
        ).1 && stream_wf(n@)),
{
    match current {
        None => {
            let n = StreamSequence {
                session_id: session_id.to_owned(),
                sequence,
                retired_sessions: Vec::new(),
            };
            assert(n@.retired =~= Seq::<Seq<char>>::empty());
            (true, Some(n))
        },
        Some(c) => {
            if str_eq(c.session_id.as_str(), session_id) {
                if sequence <= c.sequence {
                    return (false, None);
                }
                let mut retired: Vec<String> = Vec::new();
                let mut i: usize = 0;
                while i < c.retired_sessions.len()
                    invariant
                        i <= c.retired_sessions@.len(),
                        views(retired@) =~= views(c.retired_sessions@).take(i as int),
                    decreases c.retired_sessions.len() - i,
                {
                    let ghost before = retired@;
                    retired.push(c.retired_sessions[i].clone());
                    assert(views(retired@) =~= views(before).push(c.retired_sessions@[i as int]@));
                    i = i + 1;
                }
                assert(views(c.retired_sessions@).take(c.retired_sessions@.len() as int) =~= views(
                    c.retired_sessions@,
                ));
                let n = StreamSequence {
                    session_id: session_id.to_owned(),
                    sequence,
                    retired_sessions: retired,
                };
                return (true, Some(n));
            }
            let mut i: usize = 0;
            while i < c.retired_sessions.len()
                invariant
                    i <= c.retired_sessions@.len(),
                    c@.session != session_id@,
                    current == Some(c),
                    sequence != 0,
                    uuid_parses(session_id@),
                    forall|j: int| 0 <= j < i ==> views(c.retired_sessions@)[j] != session_id@,
                decreases c.retired_sessions.len() - i,
            {
                assert(views(c.retired_sessions@)[i as int] == c.retired_sessions@[i as int]@);
                if str_eq(c.retired_sessions[i].as_str(), session_id) {
                    assert(c@.retired[i as int] == session_id@);
                    assert(c@.retired.contains(session_id@));
                    return (false, None);
                }
                i = i + 1;
            }
            let mut retired: Vec<String> = Vec::new();
            let mut i: usize = 0;
            while i < c.retired_sessions.len()
                invariant
                    i <= c.retired_sessions@.len(),
                    views(retired@) =~= views(c.retired_sessions@).take(i as int),
                decreases c.retired_sessions.len() - i,
            {
                let ghost before = retired@;
                retired.push(c.retired_sessions[i].clone());
                assert(views(retired@) =~= views(before).push(c.retired_sessions@[i as int]@));
                i = i + 1;
            }
            let ghost before = retired@;
            retired.push(c.session_id.clone());
            let ghost pushed = views(retired@);
            proof {
                assert(views(c.retired_sessions@).take(c.retired_sessions@.len() as int) =~= views(
                    c.retired_sessions@,
                ));
                assert(pushed =~= views(c.retired_sessions@).push(c.session_id@));
            }
            if retired.len() > RETIRED_SESSION_LIMIT {
                retired.remove(0);
                assert(views(retired@) =~= pushed.drop_first());
            }
            let n = StreamSequence {
                session_id: session_id.to_owned(),
                sequence,
                retired_sessions: retired,
            };
            proof {
                let old_r = views(c.retired_sessions@);
                assert(!old_r.contains(session_id@));
                assert(pushed.no_duplicates()) by {
                    assert forall|a: int, b: int|
                        0 <= a < pushed.len() && 0 <= b < pushed.len() && a != b implies pushed[a]
                        != pushed[b] by {
                        if a == pushed.len() - 1 {
                            assert(old_r.contains(pushed[b]) || b == a);
                        } else if b == pushed.len() - 1 {
                            assert(old_r.contains(pushed[a]));
                        }
                    }
                }
                assert(!pushed.contains(session_id@)) by {
                    if pushed.contains(session_id@) {
                        let k = choose|k: int| 0 <= k < pushed.len() && pushed[k] == session_id@;
                        if k < old_r.len() {
                            assert(old_r[k] == session_id@);
                        }
                    }
                }
                let nr = n@.retired;
                assert forall|a: int, b: int|
                    0 <= a < nr.len() && 0 <= b < nr.len() && a != b implies nr[a] != nr[b] by {
                    if nr.len() < pushed.len() {
                        assert(nr[a] == pushed[a + 1] && nr[b] == pushed[b + 1]);
                    }
                }
                assert(!nr.contains(session_id@)) by {
                    if nr.contains(session_id@) {
                        let k = choose|k: int| 0 <= k < nr.len() && nr[k] == session_id@;
                        if nr.len() < pushed.len() {
                            assert(pushed[k + 1] == session_id@);
                        } else {
                            assert(pushed[k] == session_id@);
                        }
                    }
                }
            }
            (true, Some(n))
        },
    }
}

impl SequenceTracker {
    /// No stream has been seen.
    pub fn new() -> (r: SequenceTracker)
        ensures
            r@.cursor == Map::<Seq<char>, StreamView>::empty(),
            r@.activity == Map::<Seq<char>, StreamView>::empty(),
    {
        let r = SequenceTracker { cursor: StringMap::new(), activity: StringMap::new() };
        assert(r@.cursor =~= Map::<Seq<char>, StreamView>::empty());
        assert(r@.activity =~= Map::<Seq<char>, StreamView>::empty());
        r
    }

    /// Every stream is well formed.
    #[verifier::type_invariant]
    pub closed spec fn inv(self) -> bool {
        &&& forall|f: Seq<char>| #[trigger]
            self.cursor@.dom().contains(f) ==> stream_wf(self.cursor@[f]@)
        &&& forall|f: Seq<char>| #[trigger]
            self.activity@.dom().contains(f) ==> stream_wf(self.activity@[f]@)
    }

    /// Whether a packet of `friend_id`'s stream of `kind`, from `session_id`
    /// and numbered `sequence`, is new: a packet numbered 0, of a session that
    /// is not a UUID, not newer than the last one accepted in its session, or of
    /// a superseded session is refused. A packet from a new session supersedes
    /// the current one.
    pub fn accept(&mut self, friend_id: &str, session_id: &str, sequence: u64, kind: LiveDataKind) -> (r:
        bool)
        ensures
            r == next_stream(old(self)@.stream(friend_id@, kind), session_id@, sequence).0,
            final(self)@.stream(friend_id@, kind) == next_stream(
                old(self)@.stream(friend_id@, kind),
                session_id@,
                sequence,
            ).1,
            forall|f: Seq<char>, k: LiveDataKind|
                (f != friend_id@ || k != kind) ==> #[trigger] final(self)@.stream(f, k) == old(
                    self,
                )@.stream(f, k),
            forall|f: Seq<char>, k: LiveDataKind| #[trigger]
                final(self)@.stream(f, k) matches Some(s) ==> stream_wf(s),
    {
        proof {
            use_type_invariant(&*self);
        }
        if sequence == 0 || !parses_as_uuid(session_id) {
            return false;
        }
        let mut cursor: StringMap<StreamSequence> = StringMap::new();
        let mut activity: StringMap<StreamSequence> = StringMap::new();
        std::mem::swap(&mut cursor, &mut self.cursor);
        std::mem::swap(&mut activity, &mut self.activity);
        let accepted = match kind {
            LiveDataKind::Cursor => {
                let (accepted, next) = advance(cursor.get(friend_id), session_id, sequence);
                if let Some(n) = next {
                    if accepted {
                        cursor.insert(friend_id.to_owned(), n);
                    }
                }
                accepted
            },
            LiveDataKind::Activity => {
                let (accepted, next) = advance(activity.get(friend_id), session_id, sequence);
                if let Some(n) = next {
                    if accepted {
                        activity.insert(friend_id.to_owned(), n);
                    }
                }
                accepted
            },
        };
        self.cursor = cursor;
        self.activity = activity;
        proof {
            assert(self@.cursor =~= stream_views(self.cursor@));
        }
        accepted
    }

    /// Forgets the streams of every friend not among `friend_ids`.
    pub fn retain(&mut self, friend_ids: &[String])
        ensures
            forall|f: Seq<char>, k: LiveDataKind| #[trigger]
                final(self)@.stream(f, k) == if views(friend_ids@).contains(f) {
                    old(self)@.stream(f, k)
                } else {
                    None
                },
    {
        proof {
            use_type_invariant(&*self);
        }
        let known = StringSet::from_slice(friend_ids);
        let mut cursor: StringMap<StreamSequence> = StringMap::new();
        let mut activity: StringMap<StreamSequence> = StringMap::new();
        std::mem::swap(&mut cursor, &mut self.cursor);
        std::mem::swap(&mut activity, &mut self.activity);
        retain_keys(&mut cursor, &known);
        retain_keys(&mut activity, &known);
        self.cursor = cursor;
        self.activity = activity;
        proof {
            assert forall|f: Seq<char>, k: LiveDataKind| #[trigger]
                self@.stream(f, k) == if views(friend_ids@).contains(f) {
                    old(self)@.stream(f, k)
                } else {
                    None
                } by {
                assert(views(friend_ids@).to_set().contains(f) == views(friend_ids@).contains(f));
            }
        }
    }
}

/// Removes every key of `m` that is not an element of `known`.
fn retain_keys(m: &mut StringMap<StreamSequence>, known: &StringSet)
    ensures
        final(m)@ == old(m)@.restrict(known@),
{
    proof {
        use_type_invariant(&*m);
        m.lemma_ordered();
    }
    let ghost m0 = m@;
    let ghost keys0 = m.ordered_keys();
    let mut doomed: Vec<String> = Vec::new();
    let mut i: usize = 0;
    while i < m.len()
        invariant
            m@ == m0,
            m.ordered_keys() == keys0,
            keys0.to_set() == m0.dom(),
            i <= keys0.len(),
            forall|x: Seq<char>| views(doomed@).contains(x) <==> (exists|j: int|
                0 <= j < i && #[trigger] keys0[j] == x && !known@.contains(x)),
        decreases keys0.len() - i,
    {
        if !known.contains(m.key_at(i).as_str()) {
            let ghost before = doomed@;
            doomed.push(m.key_at(i).clone());
            proof {
                assert(views(doomed@) =~= views(before).push(keys0[i as int]));
                assert forall|x: Seq<char>| views(doomed@).contains(x) <==> (exists|j: int|
                    0 <= j < i + 1 && #[trigger] keys0[j] == x && !known@.contains(x)) by {
                    if views(doomed@).contains(x) {
                        let q = choose|q: int| 0 <= q < views(doomed@).len() && views(doomed@)[q] == x;
                        if q < views(before).len() {
                            assert(views(before).contains(x));
                        }
                    }
                    if exists|j: int| 0 <= j < i + 1 && #[trigger] keys0[j] == x && !known@.contains(x) {
                        let j = choose|j: int| 0 <= j < i + 1 && #[trigger] keys0[j] == x && !known@.contains(x);
                        if j < i {
                            assert(views(before).contains(x));
                            let q = choose|q: int| 0 <= q < views(before).len() && views(before)[q] == x;
                            assert(views(doomed@)[q] == x);
                        } else {
                            assert(views(doomed@)[views(before).len() as int] == x);
                        }
                    }
                }
            }
        }
        i = i + 1;
    }
    let mut i: usize = 0;
    while i < doomed.len()
        invariant
            i <= doomed@.len(),
            forall|x: Seq<char>| views(doomed@).contains(x) <==> (m0.dom().contains(x) && !known@.contains(x)),
            m@ == m0.remove_keys(views(doomed@).take(i as int).to_set()),
        decreases doomed.len() - i,
    {
        m.remove(doomed[i].as_str());
        proof {
            let t = views(doomed@).take(i + 1);
            let t0 = views(doomed@).take(i as int);
            assert forall|x| t.to_set().contains(x) == (t0.to_set().contains(x) || x
                == doomed@[i as int]@) by {
                if t.to_set().contains(x) {
                    let q = choose|q: int| 0 <= q < t.len() && t[q] == x;
                    if q < i {
                        assert(t0[q] == x);
                    }
                }
                if t0.to_set().contains(x) {
                    let q = choose|q: int| 0 <= q < t0.len() && t0[q] == x;
                    assert(t[q] == x);
                }
                if x == doomed@[i as int]@ {
                    assert(t[i as int] == x);
                }
            }
            assert(m@ =~= m0.remove_keys(t.to_set()));
        }
        i = i + 1;
    }
    proof {
        assert(views(doomed@).take(doomed@.len() as int) =~= views(doomed@));
        assert forall|x: Seq<char>| views(doomed@).to_set().contains(x) == views(doomed@).contains(x) by {}
        assert(m@ =~= m0.restrict(known@));
    }
}


/// Within a session, a packet is accepted only if its number exceeds that of
/// every packet accepted before it: duplicates and reordered packets are refused.
pub proof fn law_sequence_strictly_increases(
    current: Option<StreamView>,
    session: Seq<char>,
    n: u64,
    m: u64,
)
    requires
        next_stream(current, session, n).0,
        m <= n,
    ensures
        !next_stream(next_stream(current, session, n).1, session, m).0,
{
}

/// Once a newer session has replaced a stream's session, packets of the old
/// session are refused.
pub proof fn law_superseded_session_is_refused(c: StreamView, session: Seq<char>, n: u64, m: u64)
    requires
        stream_wf(c),
        session != c.session,
        next_stream(Some(c), session, n).0,
    ensures
        !next_stream(next_stream(Some(c), session, n).1, c.session, m).0,
{
    let pushed = c.retired.push(c.session);
    assert(pushed[pushed.len() - 1] == c.session);
    let r = capped(pushed);
    assert(r[r.len() - 1] == c.session);
    assert(r.contains(c.session));
}

/// Accepting a packet keeps a stream well formed.
pub proof fn law_accept_keeps_streams_well_formed(c: StreamView, session: Seq<char>, n: u64)
    requires
        stream_wf(c),
    ensures
        next_stream(Some(c), session, n).1 matches Some(s) && stream_wf(s),
{
    if n != 0 && uuid_parses(session) && session != c.session && !c.retired.contains(session) {
        let pushed = c.retired.push(c.session);
        assert(pushed.no_duplicates()) by {
            assert forall|a: int, b: int|
                0 <= a < pushed.len() && 0 <= b < pushed.len() && a != b implies pushed[a]
                != pushed[b] by {
                if a == pushed.len() - 1 {
                    assert(c.retired.contains(pushed[b]) || b == a);
                } else if b == pushed.len() - 1 {
                    assert(c.retired.contains(pushed[a]));
                }
            }
        }
        let r = capped(pushed);
        assert forall|a: int, b: int| 0 <= a < r.len() && 0 <= b < r.len() && a != b implies r[a]
            != r[b] by {
            if r.len() < pushed.len() {
                assert(r[a] == pushed[a + 1] && r[b] == pushed[b + 1]);
            }
        }
        if r.contains(session) {
            let k = choose|k: int| 0 <= k < r.len() && r[k] == session;
            if r.len() < pushed.len() {
                assert(pushed[k + 1] == session);
            } else {
                assert(pushed[k] == session);
            }
            let q = if r.len() < pushed.len() { k + 1 } else { k };
            if q < c.retired.len() {
                assert(c.retired[q] == session);
            }
        }
    }
}

} // verus!
