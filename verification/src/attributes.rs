//! The attributes of a flow file: a map from string to string, kept in the
//! order it is written in.

use vstd::prelude::*;

use crate::text::{order, Order};
use crate::text::{key_lt, lemma_key_order};

verus! {

/// What [`Attributes`] holds, one pair after the other.
pub type Entries = Seq<(Seq<char>, Seq<char>)>;

/// What it holds, as a map.
pub type AttributeMap = Map<Seq<char>, Seq<char>>;

/// `m` after inserting the pairs of `s` one by one, so that a later pair wins
/// over an earlier one with the same key.
pub open spec fn insert_all(m: AttributeMap, s: Entries) -> AttributeMap
    decreases s.len(),
{
    if s.len() == 0 {
        m
    } else {
        insert_all(m, s.drop_last()).insert(s.last().0, s.last().1)
    }
}

/// The map that the pairs of `s` make up.
pub open spec fn entries_map(s: Entries) -> AttributeMap {
    insert_all(Map::empty(), s)
}

/// The keys of `s` rise strictly.
pub open spec fn sorted(s: Entries) -> bool {
    forall|i: int, j: int| 0 <= i < j < s.len() ==> key_lt(#[trigger] s[i].0, #[trigger] s[j].0)
}

/// The pairs of `m` in the order of their keys. There is exactly one such
/// sequence for a finite map.
pub open spec fn sorted_entries(m: AttributeMap) -> Entries {
    choose|s: Entries| sorted(s) && #[trigger] entries_map(s) == m
}

/// What a sorted sequence of pairs says about its map.
pub proof fn lemma_entries_map(s: Entries)
    requires
        sorted(s),
    ensures
        forall|k: Seq<char>| #[trigger]
            entries_map(s).dom().contains(k) <==> exists|i: int| 0 <= i < s.len() && #[trigger] s[i].0 == k,
        forall|i: int| 0 <= i < s.len() ==> entries_map(s).dom().contains(#[trigger] s[i].0),
        forall|i: int| 0 <= i < s.len() ==> entries_map(s)[#[trigger] s[i].0] == s[i].1,
        entries_map(s).dom().finite(),
        entries_map(s).len() == s.len(),
    decreases s.len(),
{
    if s.len() > 0 {
        let t = s.drop_last();
        assert(sorted(t)) by {
            assert forall|i: int, j: int| 0 <= i < j < t.len() implies key_lt(#[trigger] t[i].0, #[trigger] t[j].0) by {
                assert(key_lt(s[i].0, s[j].0));
            }
        }
        lemma_entries_map(t);
        let last = s.len() - 1;
        assert forall|i: int| 0 <= i < last implies #[trigger] s[i].0 != s[last].0 by {
            assert(key_lt(s[i].0, s[last].0));
            lemma_key_order(s[i].0, s[last].0, s[i].0);
        }
        assert(!entries_map(t).dom().contains(s.last().0)) by {
            if entries_map(t).dom().contains(s.last().0) {
                let i = choose|i: int| 0 <= i < t.len() && #[trigger] t[i].0 == s.last().0;
                assert(s[i].0 == s[last].0);
            }
        }
        assert forall|k: Seq<char>| #[trigger] entries_map(s).dom().contains(k)
            <==> exists|i: int| 0 <= i < s.len() && #[trigger] s[i].0 == k by {
            if entries_map(s).dom().contains(k) {
                if k == s.last().0 {
                    assert(s[last].0 == k);
                } else {
                    let i = choose|i: int| 0 <= i < t.len() && #[trigger] t[i].0 == k;
                    assert(s[i].0 == k);
                }
            }
            if exists|i: int| 0 <= i < s.len() && #[trigger] s[i].0 == k {
                let i = choose|i: int| 0 <= i < s.len() && #[trigger] s[i].0 == k;
                if i < last {
                    assert(t[i].0 == k);
                }
            }
        }
        assert forall|i: int| 0 <= i < s.len() implies entries_map(s).dom().contains(#[trigger] s[i].0)
            && entries_map(s)[s[i].0] == s[i].1 by {
            if i < last {
                assert(t[i] == s[i]);
            }
        }
    }
}

/// A finite map has one sorted sequence of pairs and no other.
pub proof fn lemma_sorted_unique(s: Entries, t: Entries)
    requires
        sorted(s),
        sorted(t),
        entries_map(s) == entries_map(t),
    ensures
        s == t,
    decreases s.len(),
{
    lemma_entries_map(s);
    lemma_entries_map(t);
    assert(s.len() == t.len());
    if s.len() > 0 {
        let last = s.len() - 1;
        let a = s[last].0;
        let b = t[last].0;
        // Each last key is somewhere in the other sequence, and nothing there
        // is greater than the last.
        let i = choose|i: int| 0 <= i < t.len() && #[trigger] t[i].0 == a;
        assert(entries_map(t).dom().contains(a));
        let j = choose|j: int| 0 <= j < s.len() && #[trigger] s[j].0 == b;
        assert(entries_map(s).dom().contains(b));
        lemma_key_order(a, b, a);
        if i < last {
            assert(key_lt(t[i].0, t[last].0));
            if j < last {
                assert(key_lt(s[j].0, s[last].0));
            }
        }
        assert(a == b);
        assert(s[last].1 == entries_map(s)[a]);
        assert(t[last].1 == entries_map(t)[b]);
        let s0 = s.drop_last();
        let t0 = t.drop_last();
        lemma_sorted_prefix(s, last);
        lemma_sorted_prefix(t, last);
        assert(s.take(last) =~= s0);
        assert(t.take(last) =~= t0);
        lemma_entries_map(s0);
        lemma_entries_map(t0);
        assert(!entries_map(s0).dom().contains(a)) by {
            if entries_map(s0).dom().contains(a) {
                let n = choose|n: int| 0 <= n < s0.len() && #[trigger] s0[n].0 == a;
                assert(key_lt(s[n].0, s[last].0));
                lemma_key_order(a, a, a);
            }
        }
        assert(!entries_map(t0).dom().contains(a)) by {
            if entries_map(t0).dom().contains(a) {
                let n = choose|n: int| 0 <= n < t0.len() && #[trigger] t0[n].0 == a;
                assert(key_lt(t[n].0, t[last].0));
                lemma_key_order(a, a, a);
            }
        }
        assert(entries_map(s0) =~= entries_map(s).remove(a));
        assert(entries_map(t0) =~= entries_map(t).remove(a));
        lemma_sorted_unique(s0, t0);
        assert(s =~= s0.push(s.last()));
        assert(t =~= t0.push(t.last()));
    } else {
        assert(s =~= t);
    }
}

proof fn lemma_sorted_prefix(s: Entries, n: int)
    requires
        sorted(s),
        0 <= n <= s.len(),
    ensures
        sorted(s.take(n)),
{
    let t = s.take(n);
    assert forall|i: int, j: int| 0 <= i < j < t.len() implies key_lt(#[trigger] t[i].0, #[trigger] t[j].0) by {
        assert(key_lt(s[i].0, s[j].0));
    }
}

/// A sequence that is sorted is the sorted sequence of its map.
pub proof fn lemma_sorted_entries(s: Entries)
    requires
        sorted(s),
    ensures
        sorted_entries(entries_map(s)) == s,
{
    let t = sorted_entries(entries_map(s));
    assert(sorted(s) && entries_map(s) == entries_map(s));
    lemma_sorted_unique(s, t);
}

/// Put `(k, v)` where its key belongs: after the first `at` pairs.
proof fn lemma_insert_at(s: Entries, at: int, k: Seq<char>, v: Seq<char>)
    requires
        sorted(s),
        0 <= at <= s.len(),
        forall|i: int| 0 <= i < at ==> key_lt(#[trigger] s[i].0, k),
        forall|i: int| at <= i < s.len() ==> key_lt(k, #[trigger] s[i].0),
    ensures
        sorted(s.insert(at, (k, v))),
        entries_map(s.insert(at, (k, v))) == entries_map(s).insert(k, v),
        !entries_map(s).dom().contains(k),
{
    let t = s.insert(at, (k, v));
    assert forall|i: int, j: int| 0 <= i < j < t.len() implies key_lt(#[trigger] t[i].0, #[trigger] t[j].0) by {
        let i0 = if i < at { i } else { i - 1 };
        let j0 = if j < at { j } else { j - 1 };
        if i != at && j != at {
            assert(key_lt(s[i0].0, s[j0].0));
        } else if i == at {
            assert(key_lt(k, s[j0].0));
        } else {
            assert(key_lt(s[i0].0, k));
        }
    }
    lemma_entries_map(s);
    lemma_entries_map(t);
    if entries_map(s).dom().contains(k) {
        let i = choose|i: int| 0 <= i < s.len() && #[trigger] s[i].0 == k;
        lemma_key_order(k, k, k);
    }
    assert forall|q: Seq<char>| entries_map(t).dom().contains(q) <==> entries_map(s).insert(k, v).dom().contains(q) by {
        if entries_map(t).dom().contains(q) {
            let i = choose|i: int| 0 <= i < t.len() && #[trigger] t[i].0 == q;
            if i < at {
                assert(s[i].0 == q);
            } else if i > at {
                assert(s[i - 1].0 == q);
            }
        }
        if entries_map(s).dom().contains(q) {
            let i = choose|i: int| 0 <= i < s.len() && #[trigger] s[i].0 == q;
            if i < at {
                assert(t[i].0 == q);
            } else {
                assert(t[i + 1].0 == q);
            }
        }
        assert(t[at].0 == k);
    }
    assert forall|q: Seq<char>| #[trigger] entries_map(t).dom().contains(q) implies
        entries_map(t)[q] == entries_map(s).insert(k, v)[q] by {
        let i = choose|i: int| 0 <= i < t.len() && #[trigger] t[i].0 == q;
        assert(entries_map(t)[t[i].0] == t[i].1);
        if i < at {
            assert(s[i] == t[i]);
            lemma_key_order(s[i].0, k, k);
        } else if i > at {
            assert(s[i - 1] == t[i]);
            lemma_key_order(s[i - 1].0, k, k);
        }
    }
    assert(entries_map(t) =~= entries_map(s).insert(k, v));
}

/// Give the key at `at` another value.
proof fn lemma_update_at(s: Entries, at: int, v: Seq<char>)
    requires
        sorted(s),
        0 <= at < s.len(),
    ensures
        sorted(s.update(at, (s[at].0, v))),
        entries_map(s.update(at, (s[at].0, v))) == entries_map(s).insert(s[at].0, v),
{
    let k = s[at].0;
    let t = s.update(at, (k, v));
    assert forall|i: int, j: int| 0 <= i < j < t.len() implies key_lt(#[trigger] t[i].0, #[trigger] t[j].0) by {
        assert(key_lt(s[i].0, s[j].0));
    }
    lemma_entries_map(s);
    lemma_entries_map(t);
    assert forall|q: Seq<char>| entries_map(t).dom().contains(q) <==> entries_map(s).insert(k, v).dom().contains(q) by {
        if entries_map(t).dom().contains(q) {
            let i = choose|i: int| 0 <= i < t.len() && #[trigger] t[i].0 == q;
            assert(s[i].0 == q);
        }
        if entries_map(s).dom().contains(q) {
            let i = choose|i: int| 0 <= i < s.len() && #[trigger] s[i].0 == q;
            assert(t[i].0 == q);
        }
        assert(t[at].0 == k);
    }
    assert forall|q: Seq<char>| #[trigger] entries_map(t).dom().contains(q) implies
        entries_map(t)[q] == entries_map(s).insert(k, v)[q] by {
        let i = choose|i: int| 0 <= i < t.len() && #[trigger] t[i].0 == q;
        assert(entries_map(t)[t[i].0] == t[i].1);
        if i != at {
            assert(s[i] == t[i]);
            assert(entries_map(s)[s[i].0] == s[i].1);
            if i < at {
                assert(key_lt(s[i].0, s[at].0));
            } else {
                assert(key_lt(s[at].0, s[i].0));
            }
            lemma_key_order(s[i].0, k, k);
            lemma_key_order(k, k, k);
        }
    }
    assert(entries_map(t) =~= entries_map(s).insert(k, v));
}

/// Take the pair at `at` away.
proof fn lemma_remove_at(s: Entries, at: int)
    requires
        sorted(s),
        0 <= at < s.len(),
    ensures
        sorted(s.remove(at)),
        entries_map(s.remove(at)) == entries_map(s).remove(s[at].0),
        entries_map(s).dom().contains(s[at].0),
        entries_map(s)[s[at].0] == s[at].1,
{
    let k = s[at].0;
    let t = s.remove(at);
    assert forall|i: int, j: int| 0 <= i < j < t.len() implies key_lt(#[trigger] t[i].0, #[trigger] t[j].0) by {
        let i0 = if i < at { i } else { i + 1 };
        let j0 = if j < at { j } else { j + 1 };
        assert(key_lt(s[i0].0, s[j0].0));
    }
    lemma_entries_map(s);
    lemma_entries_map(t);
    assert forall|i: int| 0 <= i < s.len() && i != at implies #[trigger] s[i].0 != k by {
        if i < at {
            assert(key_lt(s[i].0, s[at].0));
        } else {
            assert(key_lt(s[at].0, s[i].0));
        }
        lemma_key_order(k, k, k);
    }
    assert forall|q: Seq<char>| entries_map(t).dom().contains(q) <==> entries_map(s).remove(k).dom().contains(q) by {
        if entries_map(t).dom().contains(q) {
            let i = choose|i: int| 0 <= i < t.len() && #[trigger] t[i].0 == q;
            let i0 = if i < at { i } else { i + 1 };
            assert(s[i0].0 == q);
        }
        if entries_map(s).remove(k).dom().contains(q) {
            let i = choose|i: int| 0 <= i < s.len() && #[trigger] s[i].0 == q;
            let i0 = if i < at { i } else { i - 1 };
            assert(t[i0].0 == q);
        }
    }
    assert forall|q: Seq<char>| #[trigger] entries_map(t).dom().contains(q) implies
        entries_map(t)[q] == entries_map(s).remove(k)[q] by {
        let i = choose|i: int| 0 <= i < t.len() && #[trigger] t[i].0 == q;
        let i0 = if i < at { i } else { i + 1 };
        assert(s[i0] == t[i]);
        assert(entries_map(s)[s[i0].0] == s[i0].1);
    }
    assert(entries_map(t) =~= entries_map(s).remove(k));
}

/// Where a key that is not in `s` belongs.
proof fn lemma_position(s: Entries, k: Seq<char>) -> (at: int)
    requires
        sorted(s),
        forall|i: int| 0 <= i < s.len() ==> #[trigger] s[i].0 != k,
    ensures
        0 <= at <= s.len(),
        forall|i: int| 0 <= i < at ==> key_lt(#[trigger] s[i].0, k),
        forall|i: int| at <= i < s.len() ==> key_lt(k, #[trigger] s[i].0),
    decreases s.len(),
{
    if s.len() == 0 {
        0
    } else {
        let last = s.len() - 1;
        lemma_key_order(s[last].0, k, k);
        lemma_sorted_prefix(s, last);
        let t = s.take(last);
        if key_lt(s[last].0, k) {
            assert forall|i: int| 0 <= i < s.len() implies key_lt(#[trigger] s[i].0, k) by {
                if i < last {
                    assert(key_lt(s[i].0, s[last].0));
                    lemma_key_order(s[i].0, s[last].0, k);
                }
            }
            s.len() as int
        } else {
            assert forall|i: int| 0 <= i < t.len() implies #[trigger] t[i].0 != k by {
                assert(s[i].0 != k);
            }
            let at = lemma_position(t, k);
            assert forall|i: int| 0 <= i < at implies key_lt(#[trigger] s[i].0, k) by {
                assert(t[i] == s[i]);
            }
            assert forall|i: int| at <= i < s.len() implies key_lt(k, #[trigger] s[i].0) by {
                if i < last {
                    assert(t[i] == s[i]);
                }
            }
            at
        }
    }
}

/// Every finite map has its pairs in order.
pub proof fn lemma_sorted_exists(m: AttributeMap)
    requires
        m.dom().finite(),
    ensures
        sorted(sorted_entries(m)),
        entries_map(sorted_entries(m)) == m,
        sorted_entries(m).len() == m.len(),
    decreases m.len(),
{
    if m.len() == 0 {
        let s: Entries = Seq::empty();
        assert(m =~= Map::empty());
        assert(sorted(s) && entries_map(s) == m);
    } else {
        let k = m.dom().choose();
        let less = m.remove(k);
        lemma_sorted_exists(less);
        let s = sorted_entries(less);
        lemma_entries_map(s);
        assert forall|i: int| 0 <= i < s.len() implies #[trigger] s[i].0 != k by {
            assert(entries_map(s).dom().contains(s[i].0));
        }
        let at = lemma_position(s, k);
        lemma_insert_at(s, at, k, m[k]);
        let t = s.insert(at, (k, m[k]));
        assert(less.insert(k, m[k]) =~= m);
        assert(sorted(t) && entries_map(t) == m);
    }
    lemma_entries_map(sorted_entries(m));
}

/// One attribute.
#[derive(Debug, PartialEq, Eq)]
struct Attribute {
    key: String,
    value: String,
}

/// A set of attributes: at most one value for each key.
///
/// The entries are kept in the order of their keys, which is the order a
/// header lists them in. Each entry is boxed, so that making room for another
/// one moves a pointer for each that follows it and no more.
#[derive(Debug, PartialEq, Eq)]
pub struct Attributes {
    items: Vec<Box<Attribute>>,
}

impl View for Attributes {
    type V = AttributeMap;

    open spec fn view(&self) -> AttributeMap {
        entries_map(self.entries())
    }
}

spec fn pairs(items: Seq<Box<Attribute>>) -> Entries {
    Seq::new(items.len(), |i: int| (items[i].key@, items[i].value@))
}

impl Attributes {
    /// The attributes in the order of their keys.
    pub closed spec fn entries(&self) -> Entries {
        pairs(self.items@)
    }

    #[verifier::type_invariant]
    spec fn ordered(&self) -> bool {
        sorted(self.entries())
    }

    /// No attributes at all.
    pub fn new() -> (empty: Attributes)
        ensures
            empty@ == Map::<Seq<char>, Seq<char>>::empty(),
    {
        let empty = Attributes { items: Vec::new() };
        assert(empty.entries() =~= Seq::empty());
        empty
    }

    /// Where `key` is, or where it would have to be put.
    fn find(&self, key: &str) -> (found: (bool, usize))
        ensures
            found.1 <= self.entries().len(),
            forall|i: int| 0 <= i < found.1 ==> key_lt(#[trigger] self.entries()[i].0, key@),
            found.0 ==> found.1 < self.entries().len() && self.entries()[found.1 as int].0 == key@,
            !found.0 ==> forall|i: int|
                found.1 <= i < self.entries().len() ==> key_lt(key@, #[trigger] self.entries()[i].0),
            found.0 == self@.dom().contains(key@),
    {
        proof {
            use_type_invariant(self);
            lemma_entries_map(self.entries());
        }
        let mut low: usize = 0;
        let mut high: usize = self.items.len();
        while low < high
            invariant
                low <= high <= self.items@.len(),
                sorted(self.entries()),
                self.entries() == pairs(self.items@),
                self@ == entries_map(self.entries()),
                forall|i: int| 0 <= i < low ==> key_lt(#[trigger] self.entries()[i].0, key@),
                forall|i: int| high <= i < self.entries().len() ==> key_lt(key@, #[trigger] self.entries()[i].0),
                forall|i: int| 0 <= i < self.entries().len() ==> self@.dom().contains(#[trigger] self.entries()[i].0),
            decreases high - low,
        {
            let middle: usize = low + (high - low) / 2;
            let there: &str = self.items[middle].key.as_str();
            assert(there@ == self.entries()[middle as int].0);
            match order(there, key) {
                Order::Less => {
                    proof {
                        assert forall|i: int| 0 <= i < middle + 1 implies key_lt(#[trigger] self.entries()[i].0, key@) by {
                            if i < middle {
                                assert(key_lt(self.entries()[i].0, self.entries()[middle as int].0));
                                lemma_key_order(self.entries()[i].0, there@, key@);
                            }
                        }
                    }
                    low = middle + 1;
                },
                Order::Equal => {
                    proof {
                        assert forall|i: int| 0 <= i < middle implies key_lt(#[trigger] self.entries()[i].0, key@) by {
                            assert(key_lt(self.entries()[i].0, self.entries()[middle as int].0));
                        }
                    }
                    return (true, middle);
                },
                Order::Greater => {
                    proof {
                        assert forall|i: int| middle <= i < self.entries().len() implies key_lt(
                            key@,
                            #[trigger] self.entries()[i].0,
                        ) by {
                            if i > middle {
                                assert(key_lt(self.entries()[middle as int].0, self.entries()[i].0));
                                lemma_key_order(key@, there@, self.entries()[i].0);
                            }
                        }
                    }
                    high = middle;
                },
            }
        }
        proof {
            if self@.dom().contains(key@) {
                let i = choose|i: int| 0 <= i < self.entries().len() && #[trigger] self.entries()[i].0 == key@;
                lemma_key_order(key@, key@, key@);
            }
        }
        (false, low)
    }

    /// How many attributes there are.
    pub fn len(&self) -> (n: usize)
        ensures
            n == self@.len(),
            self@.dom().finite(),
            n == self.entries().len(),
            sorted(self.entries()),
            self.entries() == sorted_entries(self@),
    {
        proof {
            use_type_invariant(self);
            lemma_entries_map(self.entries());
            lemma_sorted_entries(self.entries());
        }
        self.items.len()
    }

    /// Whether there are none.
    pub fn is_empty(&self) -> (none: bool)
        ensures
            none == (self@.len() == 0),
            none == (self@ == Map::<Seq<char>, Seq<char>>::empty()),
    {
        proof {
            use_type_invariant(self);
            lemma_entries_map(self.entries());
            if self.entries().len() == 0 {
                assert(self@ =~= Map::<Seq<char>, Seq<char>>::empty());
            } else {
                assert(self@.dom().contains(self.entries()[0].0));
            }
        }
        self.items.len() == 0
    }

    /// The value under `key`, if there is one.
    pub fn get(&self, key: &str) -> (value: Option<&str>)
        ensures
            match value {
                Some(text) => self@.dom().contains(key@) && self@[key@] == text@,
                None => !self@.dom().contains(key@),
            },
    {
        let (there, at) = self.find(key);
        if there {
            proof {
                use_type_invariant(self);
                lemma_entries_map(self.entries());
                assert(self.entries()[at as int].1 == self@[key@]);
            }
            Some(self.items[at].value.as_str())
        } else {
            None
        }
    }

    /// Whether there is a value under `key`.
    pub fn contains_key(&self, key: &str) -> (there: bool)
        ensures
            there == self@.dom().contains(key@),
    {
        self.find(key).0
    }

    /// The key of the attribute at `at`, counting in the order of the keys.
    pub fn key_at(&self, at: usize) -> (key: &str)
        requires
            at < self.entries().len(),
        ensures
            key@ == self.entries()[at as int].0,
    {
        self.items[at].key.as_str()
    }

    /// The value of the attribute at `at`, counting in the order of the keys.
    pub fn value_at(&self, at: usize) -> (value: &str)
        requires
            at < self.entries().len(),
        ensures
            value@ == self.entries()[at as int].1,
    {
        self.items[at].value.as_str()
    }

    /// Set the value under `key`, and give back the one it replaces.
    pub fn insert(&mut self, key: String, value: String) -> (replaced: Option<String>)
        ensures
            final(self)@ == old(self)@.insert(key@, value@),
            match replaced {
                Some(before) => old(self)@.dom().contains(key@) && old(self)@[key@] == before@,
                None => !old(self)@.dom().contains(key@),
            },
    {
        let (there, at) = self.find(key.as_str());
        proof {
            use_type_invariant(&*self);
        }
        let ghost before = self.entries();
        let ghost k = key@;
        let ghost v = value@;
        let mut items: Vec<Box<Attribute>> = Vec::new();
        assert(pairs(items@) =~= Seq::empty());
        std::mem::swap(&mut items, &mut self.items);
        assert(pairs(items@) == before);
        let replaced = if there {
            proof {
                lemma_update_at(before, at as int, v);
                lemma_entries_map(before);
            }
            let fresh = Box::new(Attribute { key, value });
            let old_item = items.remove(at);
            items.insert(at, fresh);
            assert(pairs(items@) =~= before.update(at as int, (k, v)));
            let gone = *old_item;
            Some(gone.value)
        } else {
            proof {
                lemma_insert_at(before, at as int, k, v);
            }
            items.insert(at, Box::new(Attribute { key, value }));
            assert(pairs(items@) =~= before.insert(at as int, (k, v)));
            None
        };
        *self = Attributes { items };
        replaced
    }

    /// Take away the value under `key`, and give it back.
    pub fn remove(&mut self, key: &str) -> (removed: Option<String>)
        ensures
            final(self)@ == old(self)@.remove(key@),
            match removed {
                Some(before) => old(self)@.dom().contains(key@) && old(self)@[key@] == before@,
                None => !old(self)@.dom().contains(key@),
            },
    {
        let (there, at) = self.find(key);
        proof {
            use_type_invariant(&*self);
        }
        let ghost before = self.entries();
        if !there {
            assert(self@ =~= self@.remove(key@));
            return None;
        }
        let mut items: Vec<Box<Attribute>> = Vec::new();
        assert(pairs(items@) =~= Seq::empty());
        std::mem::swap(&mut items, &mut self.items);
        proof {
            lemma_remove_at(before, at as int);
        }
        let old_item = items.remove(at);
        assert(pairs(items@) =~= before.remove(at as int));
        *self = Attributes { items };
        let gone = *old_item;
        Some(gone.value)
    }

    /// Insert every pair of `more`, in order.
    pub fn extend(&mut self, more: Vec<(String, String)>)
        ensures
            final(self)@ == insert_all(old(self)@, text_pairs(more@)),
    {
        let ghost all = text_pairs(more@);
        let ghost start = self@;
        let mut i: usize = 0;
        assert(all.take(0) =~= Seq::empty());
        while i < more.len()
            invariant
                i <= more@.len(),
                all == text_pairs(more@),
                self@ == insert_all(start, all.take(i as int)),
            decreases more@.len() - i,
        {
            self.insert(more[i].0.clone(), more[i].1.clone());
            proof {
                let next = all.take(i + 1);
                assert(next.drop_last() =~= all.take(i as int));
                assert(next.last() == all[i as int]);
            }
            i = i + 1;
        }
        assert(all.take(i as int) =~= all);
    }
}

/// The strings of a list of pairs.
pub open spec fn text_pairs(list: Seq<(String, String)>) -> Entries {
    Seq::new(list.len(), |i: int| (list[i].0@, list[i].1@))
}

impl Clone for Attributes {
    fn clone(&self) -> (copy: Attributes)
        ensures
            copy@ == self@,
            copy.entries() == self.entries(),
    {
        proof {
            use_type_invariant(self);
        }
        let mut items: Vec<Box<Attribute>> = Vec::new();
        let mut i: usize = 0;
        while i < self.items.len()
            invariant
                i <= self.items@.len(),
                items@.len() == i,
                pairs(items@) == pairs(self.items@).take(i as int),
            decreases self.items@.len() - i,
        {
            let item = &self.items[i];
            items.push(Box::new(Attribute { key: item.key.clone(), value: item.value.clone() }));
            i = i + 1;
            assert(pairs(items@) =~= pairs(self.items@).take(i as int));
        }
        assert(pairs(items@) =~= pairs(self.items@));
        Attributes { items }
    }
}

} // verus!
