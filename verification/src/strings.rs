//! Strings as the library reasons about them: a string's value is its
//! character sequence, and strings are ordered as Rust orders them, by their
//! UTF-8 bytes.

use vstd::prelude::*;
use vstd::string::StringExecFns;
use vstd::utf8::*;

verus! {

broadcast use vstd::utf8::group_utf8_lib;

/// Lexicographic order on byte sequences (a proper prefix comes first).
pub open spec fn bytes_lt(a: Seq<u8>, b: Seq<u8>) -> bool
    decreases a.len(),
{
    if a.len() == 0 {
        b.len() > 0
    } else if b.len() == 0 {
        false
    } else if a[0] < b[0] {
        true
    } else if a[0] > b[0] {
        false
    } else {
        bytes_lt(a.drop_first(), b.drop_first())
    }
}

/// The order of two strings, given by their character sequences: the order of
/// their UTF-8 encodings, which is the order of `String`'s `Ord`.
pub open spec fn str_lt(a: Seq<char>, b: Seq<char>) -> bool {
    bytes_lt(encode_utf8(a), encode_utf8(b))
}

pub proof fn lemma_bytes_lt_irreflexive(a: Seq<u8>)
    ensures
        !bytes_lt(a, a),
    decreases a.len(),
{
    if a.len() > 0 {
        lemma_bytes_lt_irreflexive(a.drop_first());
    }
}

pub proof fn lemma_bytes_lt_transitive(a: Seq<u8>, b: Seq<u8>, c: Seq<u8>)
    requires
        bytes_lt(a, b),
        bytes_lt(b, c),
    ensures
        bytes_lt(a, c),
    decreases a.len(),
{
    if a.len() > 0 && b.len() > 0 && c.len() > 0 && a[0] == b[0] && b[0] == c[0] {
        lemma_bytes_lt_transitive(a.drop_first(), b.drop_first(), c.drop_first());
    }
}

pub proof fn lemma_bytes_lt_total(a: Seq<u8>, b: Seq<u8>)
    ensures
        a != b ==> bytes_lt(a, b) || bytes_lt(b, a),
    decreases a.len(),
{
    if a.len() > 0 && b.len() > 0 && a[0] == b[0] {
        lemma_bytes_lt_total(a.drop_first(), b.drop_first());
        if a.drop_first() == b.drop_first() {
            assert(a =~= seq![a[0]] + a.drop_first());
            assert(b =~= seq![b[0]] + b.drop_first());
        }
    } else if a.len() == 0 && b.len() == 0 {
        assert(a =~= b);
    }
}

pub proof fn lemma_bytes_lt_asymmetric(a: Seq<u8>, b: Seq<u8>)
    ensures
        bytes_lt(a, b) ==> !bytes_lt(b, a),
{
    if bytes_lt(a, b) && bytes_lt(b, a) {
        lemma_bytes_lt_transitive(a, b, a);
        lemma_bytes_lt_irreflexive(a);
    }
}

/// Two strings with the same UTF-8 bytes are the same string.
pub proof fn lemma_utf8_injective(a: Seq<char>, b: Seq<char>)
    ensures
        encode_utf8(a) == encode_utf8(b) <==> a == b,
{
    if encode_utf8(a) == encode_utf8(b) {
        encode_utf8_decode_utf8(a);
        encode_utf8_decode_utf8(b);
    }
}

/// `str_lt` is a strict total order on strings.
pub proof fn lemma_str_order(a: Seq<char>, b: Seq<char>, c: Seq<char>)
    ensures
        !str_lt(a, a),
        str_lt(a, b) ==> !str_lt(b, a),
        str_lt(a, b) && str_lt(b, c) ==> str_lt(a, c),
        a != b ==> str_lt(a, b) || str_lt(b, a),
{
    lemma_bytes_lt_irreflexive(encode_utf8(a));
    lemma_bytes_lt_asymmetric(encode_utf8(a), encode_utf8(b));
    if str_lt(a, b) && str_lt(b, c) {
        lemma_bytes_lt_transitive(encode_utf8(a), encode_utf8(b), encode_utf8(c));
    }
    lemma_utf8_injective(a, b);
    lemma_bytes_lt_total(encode_utf8(a), encode_utf8(b));
}

/// The outcome of comparing two values.
#[derive(Clone, Copy, Debug, PartialEq, Eq, Structural)]
pub enum Order {
    Less,
    Equal,
    Greater,
}

/// Compares two byte slices lexicographically.
pub fn compare_bytes(a: &[u8], b: &[u8]) -> (r: Order)
    ensures
        (r == Order::Less) == bytes_lt(a@, b@),
        (r == Order::Equal) == (a@ == b@),
        (r == Order::Greater) == bytes_lt(b@, a@),
{
    let mut i: usize = 0;
    assert(a@.skip(0) =~= a@);
    assert(b@.skip(0) =~= b@);
    while i < a.len() && i < b.len()
        invariant
            i <= a@.len(),
            i <= b@.len(),
            bytes_lt(a@, b@) == bytes_lt(a@.skip(i as int), b@.skip(i as int)),
            bytes_lt(b@, a@) == bytes_lt(b@.skip(i as int), a@.skip(i as int)),
            (a@ == b@) == (a@.skip(i as int) == b@.skip(i as int)),
        decreases a.len() - i,
    {
        let x = a[i];
        let y = b[i];
        proof {
            let sa = a@.skip(i as int);
            let sb = b@.skip(i as int);
            assert(sa[0] == x);
            assert(sb[0] == y);
            assert(sa.drop_first() =~= a@.skip(i + 1));
            assert(sb.drop_first() =~= b@.skip(i + 1));
            if x == y {
                assert(sa =~= seq![x] + sa.drop_first());
                assert(sb =~= seq![y] + sb.drop_first());
                if sa.drop_first() == sb.drop_first() {
                    assert(sa == sb);
                }
            }
        }
        if x < y {
            return Order::Less;
        } else if x > y {
            return Order::Greater;
        }
        i = i + 1;
    }
    proof {
        let sa = a@.skip(i as int);
        let sb = b@.skip(i as int);
        if sa.len() == 0 && sb.len() == 0 {
            assert(sa =~= sb);
        }
    }
    if a.len() < b.len() {
        Order::Less
    } else if a.len() > b.len() {
        Order::Greater
    } else {
        Order::Equal
    }
}

/// Compares two strings by their UTF-8 bytes, as `Ord` for `str` does.
pub fn compare_str(a: &str, b: &str) -> (r: Order)
    ensures
        (r == Order::Less) == str_lt(a@, b@),
        (r == Order::Equal) == (a@ == b@),
        (r == Order::Greater) == str_lt(b@, a@),
{
    let r = compare_bytes(a.as_bytes(), b.as_bytes());
    proof {
        lemma_utf8_injective(a@, b@);
    }
    r
}

/// Whether two strings are equal.
pub fn str_eq(a: &str, b: &str) -> (r: bool)
    ensures
        r == (a@ == b@),
{
    compare_str(a, b) == Order::Equal
}


/// The character sequences of a list of strings, in order.
pub open spec fn views(v: Seq<String>) -> Seq<Seq<char>> {
    v.map_values(|s: String| s@)
}

/// Strictly increasing in string order, hence free of duplicates.
pub open spec fn strictly_sorted(s: Seq<Seq<char>>) -> bool {
    forall|i: int, j: int| 0 <= i < j < s.len() ==> str_lt(#[trigger] s[i], #[trigger] s[j])
}

/// A strictly sorted sequence holds each of its elements once.
pub proof fn lemma_sorted_no_duplicates(s: Seq<Seq<char>>)
    requires
        strictly_sorted(s),
    ensures
        s.no_duplicates(),
        s.to_set().len() == s.len(),
        s.to_set().finite(),
{
    assert forall|i: int, j: int| 0 <= i < s.len() && 0 <= j < s.len() && i != j implies s[i]
        != s[j] by {
        lemma_str_order(s[i], s[j], s[j]);
        lemma_str_order(s[j], s[i], s[i]);
    }
    s.unique_seq_to_set();
    vstd::seq_lib::seq_to_set_is_finite(s);
}

/// Two strictly sorted sequences with the same elements are the same sequence.
pub proof fn lemma_sorted_unique(a: Seq<Seq<char>>, b: Seq<Seq<char>>)
    requires
        strictly_sorted(a),
        strictly_sorted(b),
        a.to_set() == b.to_set(),
    ensures
        a == b,
    decreases a.len(),
{
    if a.len() == 0 {
        if b.len() > 0 {
            assert(b.to_set().contains(b[0]));
        }
        assert(a =~= b);
    } else {
        assert(a.to_set().contains(a[0]));
        assert(b.len() > 0);
        assert(b.to_set().contains(b[0]));
        let k = choose|k: int| 0 <= k < b.len() && b[k] == a[0];
        let m = choose|m: int| 0 <= m < a.len() && a[m] == b[0];
        if k > 0 {
            if m > 0 {
                lemma_str_order(a[0], a[m], b[k]);
                lemma_str_order(b[0], b[k], a[m]);
            } else {
                lemma_str_order(b[0], b[k], b[k]);
            }
        }
        assert(a[0] == b[0]);
        lemma_sorted_no_duplicates(a);
        lemma_sorted_no_duplicates(b);
        let a1 = a.drop_first();
        let b1 = b.drop_first();
        assert forall|x: Seq<char>| a1.to_set().contains(x) == b1.to_set().contains(x) by {
            if a1.to_set().contains(x) {
                let i = choose|i: int| 0 <= i < a1.len() && a1[i] == x;
                assert(a[i + 1] == x);
                assert(a.to_set().contains(x));
                assert(x != a[0]);
                let j = choose|j: int| 0 <= j < b.len() && b[j] == x;
                assert(j != 0);
                assert(b1[j - 1] == x);
            }
            if b1.to_set().contains(x) {
                let i = choose|i: int| 0 <= i < b1.len() && b1[i] == x;
                assert(b[i + 1] == x);
                assert(b.to_set().contains(x));
                assert(x != b[0]);
                let j = choose|j: int| 0 <= j < a.len() && a[j] == x;
                assert(j != 0);
                assert(a1[j - 1] == x);
            }
        }
        assert(a1.to_set() =~= b1.to_set());
        lemma_sorted_unique(a1, b1);
        assert(a =~= seq![a[0]] + a1);
        assert(b =~= seq![b[0]] + b1);
    }
}

/// A finite set of strings, kept in increasing string order.
pub struct StringSet {
    items: Vec<String>,
}

impl View for StringSet {
    type V = Set<Seq<char>>;

    closed spec fn view(&self) -> Set<Seq<char>> {
        views(self.items@).to_set()
    }
}

impl StringSet {
    /// The elements in increasing order.
    pub closed spec fn ordered(&self) -> Seq<Seq<char>> {
        views(self.items@)
    }

    /// The elements are kept in strictly increasing order.
    #[verifier::type_invariant]
    pub closed spec fn sorted(self) -> bool {
        strictly_sorted(views(self.items@))
    }

    /// The elements in increasing order hold each element of the set once.
    pub proof fn lemma_ordered(&self)
        requires
            self.sorted(),
        ensures
            strictly_sorted(self.ordered()),
            self.ordered().to_set() == self@,
            self.ordered().len() == self@.len(),
            self@.finite(),
    {
        lemma_sorted_no_duplicates(self.ordered());
    }

    /// The empty set.
    pub fn new() -> (r: StringSet)
        ensures
            r@ == Set::<Seq<char>>::empty(),
    {
        let r = StringSet { items: Vec::new() };
        assert(views(r.items@).to_set() =~= Set::<Seq<char>>::empty());
        r
    }

    /// Finds `s`: `(true, i)` where it is the `i`-th element, else `(false, i)`
    /// where `i` is the position at which it would be inserted.
    fn locate(&self, s: &str) -> (r: (bool, usize))
        ensures
            r.1 <= self.ordered().len(),
            r.0 ==> r.1 < self.ordered().len() && self.ordered()[r.1 as int] == s@,
            !r.0 ==> forall|j: int| 0 <= j < r.1 ==> str_lt(#[trigger] self.ordered()[j], s@),
            !r.0 ==> forall|j: int|
                r.1 <= j < self.ordered().len() ==> str_lt(s@, #[trigger] self.ordered()[j]),
            r.0 == self@.contains(s@),
    {
        proof {
            use_type_invariant(self);
        }
        let ghost o = self.ordered();
        let mut i: usize = 0;
        while i < self.items.len()
            invariant
                o == self.ordered(),
                o.len() == self.items@.len(),
                strictly_sorted(o),
                i <= o.len(),
                forall|j: int| 0 <= j < i ==> str_lt(#[trigger] o[j], s@),
            decreases self.items.len() - i,
        {
            let r = compare_str(self.items[i].as_str(), s);
            assert(o[i as int] == self.items@[i as int]@);
            if r == Order::Equal {
                return (true, i);
            }
            if r == Order::Greater {
                proof {
                    assert forall|j: int| i <= j < o.len() implies str_lt(s@, #[trigger] o[j]) by {
                        if j > i {
                            lemma_str_order(s@, o[i as int], o[j]);
                        }
                    }
                    assert forall|j: int| 0 <= j < o.len() implies o[j] != s@ by {
                        lemma_str_order(o[j], s@, s@);
                    }
                }
                return (false, i);
            }
            i = i + 1;
        }
        proof {
            assert forall|j: int| 0 <= j < o.len() implies o[j] != s@ by {
                lemma_str_order(o[j], s@, s@);
            }
        }
        (false, i)
    }

    /// Whether `s` is an element.
    pub fn contains(&self, s: &str) -> (r: bool)
        ensures
            r == self@.contains(s@),
    {
        self.locate(s).0
    }

    /// The number of elements.
    pub fn len(&self) -> (r: usize)
        ensures
            r == self@.len(),
    {
        proof {
            use_type_invariant(self);
            self.lemma_ordered();
        }
        self.items.len()
    }

    /// Whether the set has no element.
    pub fn is_empty(&self) -> (r: bool)
        ensures
            r == (self@ == Set::<Seq<char>>::empty()),
    {
        proof {
            use_type_invariant(self);
            self.lemma_ordered();
            if self.items.len() > 0 {
                assert(self@.contains(self.ordered()[0]));
            } else {
                assert(self@ =~= Set::<Seq<char>>::empty());
            }
        }
        self.items.len() == 0
    }

    /// Adds `s`; answers whether it was new.
    pub fn insert(&mut self, s: String) -> (r: bool)
        ensures
            final(self)@ == old(self)@.insert(s@),
            r == !old(self)@.contains(s@),
    {
        let (found, i) = self.locate(s.as_str());
        if found {
            assert(old(self)@.insert(s@) =~= old(self)@);
            return false;
        }
        proof {
            use_type_invariant(&*self);
        }
        let ghost o = self.ordered();
        let mut items: Vec<String> = Vec::new();
        std::mem::swap(&mut items, &mut self.items);
        let ghost sv = s@;
        items.insert(i, s);
        proof {
            let n = views(items@);
            assert(n =~= o.insert(i as int, sv));
            assert forall|a: int, b: int| 0 <= a < b < n.len() implies str_lt(
                #[trigger] n[a],
                #[trigger] n[b],
            ) by {
                if b < i {
                } else if a > i {
                    assert(n[a] == o[a - 1] && n[b] == o[b - 1]);
                } else if a == i {
                } else if b == i {
                } else {
                    assert(n[b] == o[b - 1]);
                }
            }
            assert(n.to_set() =~= o.to_set().insert(sv)) by {
                assert forall|x| n.to_set().contains(x) implies o.to_set().insert(sv).contains(
                    x,
                ) by {
                    let k = choose|k: int| 0 <= k < n.len() && n[k] == x;
                    if k < i {
                        assert(o[k] == x);
                    } else if k > i {
                        assert(o[k - 1] == x);
                    }
                }
                assert forall|x| o.to_set().insert(sv).contains(x) implies n.to_set().contains(
                    x,
                ) by {
                    if x == sv {
                        assert(n[i as int] == x);
                    } else {
                        let k = choose|k: int| 0 <= k < o.len() && o[k] == x;
                        if k < i {
                            assert(n[k] == x);
                        } else {
                            assert(n[k + 1] == x);
                        }
                    }
                }
            }
        }
        self.items = items;
        true
    }

    /// Removes `s`; answers whether it was an element.
    pub fn remove(&mut self, s: &str) -> (r: bool)
        ensures
            final(self)@ == old(self)@.remove(s@),
            r == old(self)@.contains(s@),
    {
        let (found, i) = self.locate(s);
        if !found {
            assert(old(self)@.remove(s@) =~= old(self)@);
            return false;
        }
        proof {
            use_type_invariant(&*self);
            lemma_sorted_no_duplicates(self.ordered());
        }
        let ghost o = self.ordered();
        let mut items: Vec<String> = Vec::new();
        std::mem::swap(&mut items, &mut self.items);
        items.remove(i);
        proof {
            let n = views(items@);
            assert(n =~= o.remove(i as int));
            assert forall|a: int, b: int| 0 <= a < b < n.len() implies str_lt(
                #[trigger] n[a],
                #[trigger] n[b],
            ) by {
                if b < i {
                } else if a >= i {
                    assert(n[a] == o[a + 1] && n[b] == o[b + 1]);
                } else {
                    assert(n[b] == o[b + 1]);
                }
            }
            assert(n.to_set() =~= o.to_set().remove(s@)) by {
                assert forall|x| n.to_set().contains(x) implies o.to_set().remove(s@).contains(
                    x,
                ) by {
                    let k = choose|k: int| 0 <= k < n.len() && n[k] == x;
                    if k < i {
                        assert(o[k] == x);
                    } else {
                        assert(o[k + 1] == x);
                    }
                }
                assert forall|x| o.to_set().remove(s@).contains(x) implies n.to_set().contains(
                    x,
                ) by {
                    let k = choose|k: int| 0 <= k < o.len() && o[k] == x;
                    if k < i {
                        assert(n[k] == x);
                    } else {
                        assert(k != i);
                        assert(n[k - 1] == x);
                    }
                }
            }
        }
        self.items = items;
        true
    }

    /// The elements in increasing order.
    pub fn to_vec(&self) -> (r: Vec<String>)
        ensures
            views(r@) == self.ordered(),
            strictly_sorted(views(r@)),
            views(r@).to_set() == self@,
            r@.len() == self@.len(),
    {
        proof {
            use_type_invariant(self);
            self.lemma_ordered();
        }
        let mut r: Vec<String> = Vec::new();
        let mut i: usize = 0;
        while i < self.items.len()
            invariant
                i <= self.items@.len(),
                views(r@) =~= views(self.items@).take(i as int),
            decreases self.items.len() - i,
        {
            let c = self.items[i].clone();
            proof {
                assert(c@ == self.items@[i as int]@);
            }
            let ghost before = r@;
            r.push(c);
            proof {
                assert(views(r@) =~= views(before).push(c@));
            }
            i = i + 1;
        }
        assert(views(r@) =~= views(self.items@));
        r
    }

    /// An independent copy.
    pub fn duplicate(&self) -> (r: StringSet)
        ensures
            r@ == self@,
            r.ordered() == self.ordered(),
    {
        proof {
            use_type_invariant(self);
        }
        StringSet { items: self.to_vec() }
    }

    /// The set of the given strings.
    pub fn from_vec(v: Vec<String>) -> (r: StringSet)
        ensures
            r@ == views(v@).to_set(),
    {
        let mut r = StringSet::new();
        let mut v = v;
        let ghost all = views(v@);
        let mut rest: Vec<String> = Vec::new();
        // Consume the vector from its end.
        while v.len() > 0
            invariant
                all.to_set() =~= r@.union(views(v@).to_set()),
            decreases v.len(),
        {
            let ghost before = views(v@);
            let s = v.pop().unwrap();
            proof {
                assert(before =~= views(v@).push(s@));
                assert forall|x| before.to_set().contains(x) == views(v@).to_set().insert(
                    s@,
                ).contains(x) by {
                    if before.to_set().contains(x) {
                        let k = choose|k: int| 0 <= k < before.len() && before[k] == x;
                        if k < views(v@).len() {
                            assert(views(v@)[k] == x);
                        }
                    }
                    if views(v@).to_set().contains(x) {
                        let k = choose|k: int| 0 <= k < views(v@).len() && views(v@)[k] == x;
                        assert(before[k] == x);
                    }
                    if x == s@ {
                        assert(before[before.len() - 1] == x);
                    }
                }
                assert(before.to_set() =~= views(v@).to_set().insert(s@));
            }
            r.insert(s);
        }
        assert(views(v@).to_set() =~= Set::<Seq<char>>::empty());
        r
    }

    /// The set of the given strings.
    pub fn from_slice(v: &[String]) -> (r: StringSet)
        ensures
            r@ == views(v@).to_set(),
    {
        let mut r = StringSet::new();
        let mut i: usize = 0;
        while i < v.len()
            invariant
                i <= v@.len(),
                r@ == views(v@).take(i as int).to_set(),
            decreases v.len() - i,
        {
            r.insert(v[i].clone());
            proof {
                let t = views(v@).take(i + 1);
                let t0 = views(v@).take(i as int);
                assert forall|x| t.to_set().contains(x) == (t0.to_set().contains(x) || x
                    == v@[i as int]@) by {
                    if t.to_set().contains(x) {
                        let k = choose|k: int| 0 <= k < t.len() && t[k] == x;
                        if k < i {
                            assert(t0[k] == x);
                        }
                    }
                    if t0.to_set().contains(x) {
                        let k = choose|k: int| 0 <= k < t0.len() && t0[k] == x;
                        assert(t[k] == x);
                    }
                    if x == v@[i as int]@ {
                        assert(t[i as int] == x);
                    }
                }
                assert(r@ =~= t.to_set());
            }
            i = i + 1;
        }
        assert(views(v@).take(v@.len() as int) =~= views(v@));
        r
    }

    /// Whether both sets hold the same elements.
    pub fn same_as(&self, other: &StringSet) -> (r: bool)
        ensures
            r == (self@ == other@),
    {
        proof {
            use_type_invariant(self);
            use_type_invariant(other);
            self.lemma_ordered();
            other.lemma_ordered();
        }
        let n = self.items.len();
        if n != other.items.len() {
            return false;
        }
        let mut i: usize = 0;
        while i < n
            invariant
                n == self.items@.len(),
                n == other.items@.len(),
                i <= n,
                strictly_sorted(self.ordered()),
                strictly_sorted(other.ordered()),
                self.ordered().to_set() == self@,
                other.ordered().to_set() == other@,
                forall|j: int| 0 <= j < i ==> self.ordered()[j] == other.ordered()[j],
            decreases n - i,
        {
            assert(self.ordered()[i as int] == self.items@[i as int]@);
            assert(other.ordered()[i as int] == other.items@[i as int]@);
            if !str_eq(self.items[i].as_str(), other.items[i].as_str()) {
                proof {
                    if self@ == other@ {
                        lemma_sorted_unique(self.ordered(), other.ordered());
                    }
                }
                return false;
            }
            i = i + 1;
        }
        assert(self.ordered() =~= other.ordered());
        true
    }

    /// Adds every element of `other`.
    pub fn union_with(&mut self, other: &StringSet)
        ensures
            final(self)@ == old(self)@.union(other@),
    {
        let items = other.to_vec();
        let mut i: usize = 0;
        while i < items.len()
            invariant
                i <= items@.len(),
                views(items@).to_set() == other@,
                self@ == old(self)@.union(views(items@).take(i as int).to_set()),
            decreases items.len() - i,
        {
            let ghost before = self@;
            self.insert(items[i].clone());
            proof {
                let t = views(items@).take(i + 1);
                let t0 = views(items@).take(i as int);
                assert(t =~= t0.push(items@[i as int]@));
                assert forall|x| t.to_set().contains(x) == t0.to_set().insert(
                    items@[i as int]@,
                ).contains(x) by {
                    if t.to_set().contains(x) {
                        let k = choose|k: int| 0 <= k < t.len() && t[k] == x;
                        if k < i {
                            assert(t0[k] == x);
                        }
                    }
                    if t0.to_set().contains(x) {
                        let k = choose|k: int| 0 <= k < t0.len() && t0[k] == x;
                        assert(t[k] == x);
                    }
                    if x == items@[i as int]@ {
                        assert(t[i as int] == x);
                    }
                }
                assert(self@ =~= old(self)@.union(t.to_set()));
            }
            i = i + 1;
        }
        assert(views(items@).take(items@.len() as int) =~= views(items@));
        assert(self@ =~= old(self)@.union(other@));
    }

    /// The elements that are not elements of `other`.
    pub fn difference(&self, other: &StringSet) -> (r: StringSet)
        ensures
            r@ == self@.difference(other@),
    {
        let items = self.to_vec();
        let mut r = StringSet::new();
        let mut i: usize = 0;
        while i < items.len()
            invariant
                i <= items@.len(),
                views(items@).to_set() == self@,
                r@ == views(items@).take(i as int).to_set().difference(other@),
            decreases items.len() - i,
        {
            let ghost before = r@;
            if !other.contains(items[i].as_str()) {
                r.insert(items[i].clone());
            }
            proof {
                let t = views(items@).take(i + 1);
                let t0 = views(items@).take(i as int);
                assert forall|x| t.to_set().contains(x) == (t0.to_set().contains(x) || x
                    == items@[i as int]@) by {
                    if t.to_set().contains(x) {
                        let k = choose|k: int| 0 <= k < t.len() && t[k] == x;
                        if k < i {
                            assert(t0[k] == x);
                        }
                    }
                    if t0.to_set().contains(x) {
                        let k = choose|k: int| 0 <= k < t0.len() && t0[k] == x;
                        assert(t[k] == x);
                    }
                    if x == items@[i as int]@ {
                        assert(t[i as int] == x);
                    }
                }
                assert(r@ =~= t.to_set().difference(other@));
            }
            i = i + 1;
        }
        assert(views(items@).take(items@.len() as int) =~= views(items@));
        r
    }

    /// Keeps only the elements that are elements of `other`.
    pub fn retain_in(&mut self, other: &StringSet)
        ensures
            final(self)@ == old(self)@.intersect(other@),
    {
        let dropped = self.difference(other);
        let gone = dropped.to_vec();
        let mut i: usize = 0;
        while i < gone.len()
            invariant
                i <= gone@.len(),
                views(gone@).to_set() == old(self)@.difference(other@),
                self@ == old(self)@.difference(views(gone@).take(i as int).to_set()),
            decreases gone.len() - i,
        {
            self.remove(gone[i].as_str());
            proof {
                let t = views(gone@).take(i + 1);
                let t0 = views(gone@).take(i as int);
                assert forall|x| t.to_set().contains(x) == (t0.to_set().contains(x) || x
                    == gone@[i as int]@) by {
                    if t.to_set().contains(x) {
                        let k = choose|k: int| 0 <= k < t.len() && t[k] == x;
                        if k < i {
                            assert(t0[k] == x);
                        }
                    }
                    if t0.to_set().contains(x) {
                        let k = choose|k: int| 0 <= k < t0.len() && t0[k] == x;
                        assert(t[k] == x);
                    }
                    if x == gone@[i as int]@ {
                        assert(t[i as int] == x);
                    }
                }
                assert(self@ =~= old(self)@.difference(t.to_set()));
            }
            i = i + 1;
        }
        assert(views(gone@).take(gone@.len() as int) =~= views(gone@));
        assert(self@ =~= old(self)@.intersect(other@));
    }

    /// Whether every element is an element of `other`.
    pub fn is_subset_of(&self, other: &StringSet) -> (r: bool)
        ensures
            r == self@.subset_of(other@),
    {
        proof {
            use_type_invariant(self);
            self.lemma_ordered();
        }
        let mut i: usize = 0;
        while i < self.items.len()
            invariant
                i <= self.items@.len(),
                forall|j: int| 0 <= j < i ==> other@.contains(#[trigger] self.ordered()[j]),
            decreases self.items.len() - i,
        {
            if !other.contains(self.items[i].as_str()) {
                assert(self@.contains(self.ordered()[i as int]));
                return false;
            }
            i = i + 1;
        }
        assert forall|x| self@.contains(x) implies other@.contains(x) by {
            let k = choose|k: int| 0 <= k < self.ordered().len() && self.ordered()[k] == x;
        }
        true
    }
}


/// The keys of a list of entries, in order.
pub open spec fn entry_keys<V>(v: Seq<(String, V)>) -> Seq<Seq<char>> {
    v.map_values(|e: (String, V)| e.0@)
}

/// A finite map keyed by strings, kept in increasing key order.
pub struct StringMap<V> {
    entries: Vec<(String, V)>,
}

impl<V> View for StringMap<V> {
    type V = Map<Seq<char>, V>;

    closed spec fn view(&self) -> Map<Seq<char>, V> {
        Map::new(
            |k: Seq<char>| entry_keys(self.entries@).contains(k),
            |k: Seq<char>| self.entries@[entry_keys(self.entries@).index_of(k)].1,
        )
    }
}

impl<V> StringMap<V> {
    /// The keys in increasing order.
    pub closed spec fn ordered_keys(&self) -> Seq<Seq<char>> {
        entry_keys(self.entries@)
    }

    /// The value of the `i`-th key in increasing order.
    pub closed spec fn value_at_spec(&self, i: int) -> V {
        self.entries@[i].1
    }

    /// The keys are kept in strictly increasing order.
    #[verifier::type_invariant]
    pub closed spec fn sorted(self) -> bool {
        strictly_sorted(entry_keys(self.entries@))
    }

    /// The ordered keys hold each key of the map once, with its value.
    pub proof fn lemma_ordered(&self)
        requires
            self.sorted(),
        ensures
            strictly_sorted(self.ordered_keys()),
            self.ordered_keys().to_set() == self@.dom(),
            self.ordered_keys().len() == self@.dom().len(),
            self@.dom().finite(),
            forall|i: int|
                0 <= i < self.ordered_keys().len() ==> self@[#[trigger] self.ordered_keys()[i]]
                    == self.value_at_spec(i),
    {
        let ks = self.ordered_keys();
        lemma_sorted_no_duplicates(ks);
        assert(ks.to_set() =~= self@.dom());
        assert forall|i: int| 0 <= i < ks.len() implies self@[#[trigger] ks[i]]
            == self.value_at_spec(i) by {
            assert(ks.contains(ks[i]));
            let j = ks.index_of(ks[i]);
            assert(0 <= j < ks.len() && ks[j] == ks[i]);
        }
    }

    /// The empty map.
    pub fn new() -> (r: StringMap<V>)
        ensures
            r@ == Map::<Seq<char>, V>::empty(),
    {
        let r = StringMap { entries: Vec::new() };
        assert(r@ =~= Map::<Seq<char>, V>::empty());
        r
    }

    /// The number of keys.
    pub fn len(&self) -> (r: usize)
        ensures
            r == self@.dom().len(),
            r == self.ordered_keys().len(),
    {
        proof {
            use_type_invariant(self);
            self.lemma_ordered();
        }
        self.entries.len()
    }

    /// Finds `k`: `(true, i)` where it is the `i`-th key, else `(false, i)`
    /// where `i` is the position at which it would be inserted.
    fn locate(&self, k: &str) -> (r: (bool, usize))
        ensures
            r.1 <= self.ordered_keys().len(),
            r.0 ==> r.1 < self.ordered_keys().len() && self.ordered_keys()[r.1 as int] == k@,
            !r.0 ==> forall|j: int|
                0 <= j < r.1 ==> str_lt(#[trigger] self.ordered_keys()[j], k@),
            !r.0 ==> forall|j: int|
                r.1 <= j < self.ordered_keys().len() ==> str_lt(
                    k@,
                    #[trigger] self.ordered_keys()[j],
                ),
            r.0 == self@.dom().contains(k@),
    {
        proof {
            use_type_invariant(self);
        }
        let ghost o = self.ordered_keys();
        let mut i: usize = 0;
        while i < self.entries.len()
            invariant
                o == self.ordered_keys(),
                o.len() == self.entries@.len(),
                strictly_sorted(o),
                i <= o.len(),
                forall|j: int| 0 <= j < i ==> str_lt(#[trigger] o[j], k@),
            decreases self.entries.len() - i,
        {
            let r = compare_str(self.entries[i].0.as_str(), k);
            assert(o[i as int] == self.entries@[i as int].0@);
            if r == Order::Equal {
                return (true, i);
            }
            if r == Order::Greater {
                proof {
                    assert forall|j: int| i <= j < o.len() implies str_lt(k@, #[trigger] o[j]) by {
                        if j > i {
                            lemma_str_order(k@, o[i as int], o[j]);
                        }
                    }
                    assert forall|j: int| 0 <= j < o.len() implies o[j] != k@ by {
                        lemma_str_order(o[j], k@, k@);
                    }
                }
                return (false, i);
            }
            i = i + 1;
        }
        proof {
            assert forall|j: int| 0 <= j < o.len() implies o[j] != k@ by {
                lemma_str_order(o[j], k@, k@);
            }
        }
        (false, i)
    }

    /// Whether `k` is a key.
    pub fn contains_key(&self, k: &str) -> (r: bool)
        ensures
            r == self@.dom().contains(k@),
    {
        self.locate(k).0
    }

    /// The value of `k`, if it is a key.
    pub fn get(&self, k: &str) -> (r: Option<&V>)
        ensures
            r matches Some(v) ==> self@.dom().contains(k@) && self@[k@] == *v,
            r is None ==> !self@.dom().contains(k@),
    {
        proof {
            use_type_invariant(self);
            self.lemma_ordered();
        }
        let (found, i) = self.locate(k);
        if found {
            Some(&self.entries[i].1)
        } else {
            None
        }
    }

    /// The `i`-th key in increasing order.
    pub fn key_at(&self, i: usize) -> (r: &String)
        requires
            i < self.ordered_keys().len(),
        ensures
            r@ == self.ordered_keys()[i as int],
    {
        &self.entries[i].0
    }

    /// The value of the `i`-th key in increasing order.
    pub fn value_at(&self, i: usize) -> (r: &V)
        requires
            i < self.ordered_keys().len(),
        ensures
            *r == self.value_at_spec(i as int),
            *r == self@[self.ordered_keys()[i as int]],
    {
        proof {
            use_type_invariant(self);
            self.lemma_ordered();
        }
        &self.entries[i].1
    }

    /// Maps `k` to `v`; answers the value `k` had, if any.
    pub fn insert(&mut self, k: String, v: V) -> (r: Option<V>)
        ensures
            final(self)@ == old(self)@.insert(k@, v),
            r matches Some(o) ==> old(self)@.dom().contains(k@) && o == old(self)@[k@],
            r is None ==> !old(self)@.dom().contains(k@),
    {
        proof {
            use_type_invariant(&*self);
            self.lemma_ordered();
        }
        let (found, i) = self.locate(k.as_str());
        let ghost o = self.ordered_keys();
        let ghost old_entries = self.entries@;
        let mut entries: Vec<(String, V)> = Vec::new();
        std::mem::swap(&mut entries, &mut self.entries);
        let ghost kv = k@;
        if found {
            let (_, previous) = entries.remove(i);
            entries.insert(i, (k, v));
            proof {
                let n = entry_keys(entries@);
                assert(n =~= o);
                lemma_sorted_no_duplicates(o);
                let m = Map::new(
                    |key: Seq<char>| n.contains(key),
                    |key: Seq<char>| entries@[n.index_of(key)].1,
                );
                assert forall|key: Seq<char>| #[trigger] n.contains(key) implies m[key] == (
                if key == kv {
                    v
                } else {
                    old_entries[o.index_of(key)].1
                }) by {
                    let a = n.index_of(key);
                    let b = o.index_of(key);
                    assert(n[a] == key && o[b] == key);
                    assert(a == b);
                    if key == kv {
                        assert(a == i);
                    }
                }
            }
            self.entries = entries;
            proof {
                assert(self@ =~= old(self)@.insert(kv, v));
            }
            Some(previous)
        } else {
            entries.insert(i, (k, v));
            proof {
                let n = entry_keys(entries@);
                assert(n =~= o.insert(i as int, kv));
                assert forall|a: int, b: int| 0 <= a < b < n.len() implies str_lt(
                    #[trigger] n[a],
                    #[trigger] n[b],
                ) by {
                    if b < i {
                    } else if a > i {
                        assert(n[a] == o[a - 1] && n[b] == o[b - 1]);
                    } else if a == i {
                    } else if b == i {
                    } else {
                        assert(n[b] == o[b - 1]);
                    }
                }
                lemma_sorted_no_duplicates(n);
                lemma_sorted_no_duplicates(o);
                assert forall|key: Seq<char>| n.contains(key) == (o.contains(key) || key == kv) by {
                    if n.contains(key) {
                        let a = choose|a: int| 0 <= a < n.len() && n[a] == key;
                        if a < i {
                            assert(o[a] == key);
                        } else if a > i {
                            assert(o[a - 1] == key);
                        }
                    }
                    if o.contains(key) {
                        let a = choose|a: int| 0 <= a < o.len() && o[a] == key;
                        if a < i {
                            assert(n[a] == key);
                        } else {
                            assert(n[a + 1] == key);
                        }
                    }
                    if key == kv {
                        assert(n[i as int] == key);
                    }
                }
                assert forall|key: Seq<char>| #[trigger] n.contains(key) && key != kv implies
                    entries@[n.index_of(key)].1 == old_entries[o.index_of(key)].1 by {
                    let a = n.index_of(key);
                    let b = o.index_of(key);
                    assert(n[a] == key);
                    assert(o[b] == key);
                    if b < i {
                        assert(n[b] == key);
                        assert(a == b);
                    } else {
                        assert(n[b + 1] == key);
                        assert(a == b + 1);
                    }
                }
                assert(entries@[n.index_of(kv)].1 == v) by {
                    let a = n.index_of(kv);
                    assert(n[a] == kv);
                    assert(n[i as int] == kv);
                }
            }
            self.entries = entries;
            proof {
                assert(self@ =~= old(self)@.insert(kv, v));
            }
            None
        }
    }

    /// Removes `k`; answers the value it had, if any.
    pub fn remove(&mut self, k: &str) -> (r: Option<V>)
        ensures
            final(self)@ == old(self)@.remove(k@),
            r matches Some(o) ==> old(self)@.dom().contains(k@) && o == old(self)@[k@],
            r is None ==> !old(self)@.dom().contains(k@),
    {
        proof {
            use_type_invariant(&*self);
            self.lemma_ordered();
        }
        let (found, i) = self.locate(k);
        if !found {
            assert(old(self)@.remove(k@) =~= old(self)@);
            return None;
        }
        let ghost o = self.ordered_keys();
        let ghost old_entries = self.entries@;
        let mut entries: Vec<(String, V)> = Vec::new();
        std::mem::swap(&mut entries, &mut self.entries);
        let (_, previous) = entries.remove(i);
        proof {
            let n = entry_keys(entries@);
            assert(n =~= o.remove(i as int));
            assert forall|a: int, b: int| 0 <= a < b < n.len() implies str_lt(
                #[trigger] n[a],
                #[trigger] n[b],
            ) by {
                if b < i {
                } else if a >= i {
                    assert(n[a] == o[a + 1] && n[b] == o[b + 1]);
                } else {
                    assert(n[b] == o[b + 1]);
                }
            }
            lemma_sorted_no_duplicates(o);
            assert forall|key: Seq<char>| n.contains(key) == (o.contains(key) && key != k@) by {
                if n.contains(key) {
                    let a = choose|a: int| 0 <= a < n.len() && n[a] == key;
                    if a < i {
                        assert(o[a] == key);
                    } else {
                        assert(o[a + 1] == key);
                    }
                }
                if o.contains(key) && key != k@ {
                    let a = choose|a: int| 0 <= a < o.len() && o[a] == key;
                    if a < i {
                        assert(n[a] == key);
                    } else {
                        assert(a != i);
                        assert(n[a - 1] == key);
                    }
                }
            }
            assert forall|key: Seq<char>| #[trigger] n.contains(key) implies entries@[n.index_of(
                key,
            )].1 == old_entries[o.index_of(key)].1 by {
                let a = n.index_of(key);
                let b = o.index_of(key);
                assert(n[a] == key);
                assert(o[b] == key);
                if b < i {
                    assert(n[b] == key);
                    assert(a == b);
                } else {
                    assert(b != i);
                    assert(n[b - 1] == key);
                    assert(a == b - 1);
                }
            }
        }
        self.entries = entries;
        proof {
            assert(self@ =~= old(self)@.remove(k@));
        }
        Some(previous)
    }
}

/// The decimal digits of `n`.
pub open spec fn decimal_text(n: nat) -> Seq<char>
    decreases n,
{
    if n < 10 {
        seq![(n + 48) as char]
    } else {
        decimal_text(n / 10).push(((n % 10) + 48) as char)
    }
}

/// Appends the decimal digits of `n`.
pub fn push_decimal(out: &mut String, n: usize)
    ensures
        final(out)@ == old(out)@ + decimal_text(n as nat),
    decreases n,
{
    if n >= 10 {
        push_decimal(out, n / 10);
    }
    let d = n % 10;
    proof {
        reveal_strlit("0");
        reveal_strlit("1");
        reveal_strlit("2");
        reveal_strlit("3");
        reveal_strlit("4");
        reveal_strlit("5");
        reveal_strlit("6");
        reveal_strlit("7");
        reveal_strlit("8");
        reveal_strlit("9");
    }
    let digit = if d == 0 {
        "0"
    } else if d == 1 {
        "1"
    } else if d == 2 {
        "2"
    } else if d == 3 {
        "3"
    } else if d == 4 {
        "4"
    } else if d == 5 {
        "5"
    } else if d == 6 {
        "6"
    } else if d == 7 {
        "7"
    } else if d == 8 {
        "8"
    } else {
        "9"
    };
    assert(digit@ =~= seq![((d as nat) + 48) as char]);
    out.append(digit);
}

/// The decimal digits of `n`, as a string.
pub fn decimal_string(n: usize) -> (r: String)
    ensures
        r@ == decimal_text(n as nat),
{
    let mut out = String::new();
    push_decimal(&mut out, n);
    assert(out@ =~= decimal_text(n as nat));
    out
}

} // verus!
