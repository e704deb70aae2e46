//! A map keyed by text, kept in key order.

use crate::text::chars_of;
use vstd::prelude::*;

verus! {

/// Strict lexicographic order by code point.
pub open spec fn precedes(a: Seq<char>, b: Seq<char>) -> bool
    decreases a.len(),
{
    if b.len() == 0 {
        false
    } else if a.len() == 0 {
        true
    } else if a[0] != b[0] {
        a[0] < b[0]
    } else {
        precedes(a.drop_first(), b.drop_first())
    }
}

pub proof fn lemma_precedes_irreflexive(a: Seq<char>)
    ensures
        !precedes(a, a),
    decreases a.len(),
{
    if a.len() > 0 {
        lemma_precedes_irreflexive(a.drop_first());
    }
}

pub proof fn lemma_precedes_transitive(a: Seq<char>, b: Seq<char>, c: Seq<char>)
    requires
        precedes(a, b),
        precedes(b, c),
    ensures
        precedes(a, c),
    decreases a.len(),
{
    if a.len() > 0 && a[0] == b[0] && b[0] == c[0] {
        lemma_precedes_transitive(a.drop_first(), b.drop_first(), c.drop_first());
    }
}

pub proof fn lemma_precedes_total(a: Seq<char>, b: Seq<char>)
    ensures
        precedes(a, b) || precedes(b, a) || a == b,
    decreases a.len(),
{
    if a.len() == 0 || b.len() == 0 {
        if a.len() == b.len() {
            assert(a =~= b);
        }
    } else if a[0] == b[0] {
        lemma_precedes_total(a.drop_first(), b.drop_first());
        if a.drop_first() == b.drop_first() {
            assert(a =~= seq![a[0]] + a.drop_first());
            assert(b =~= seq![b[0]] + b.drop_first());
        }
    }
}

/// Whether the keys of a list stand in strictly increasing order.
pub open spec fn sorted<V>(s: Seq<(Seq<char>, V)>) -> bool {
    forall|i: int, j: int|
        #![trigger s[i], s[j]]
        0 <= i < j < s.len() ==> precedes(s[i].0, s[j].0)
}

/// Whether `key` stands at position `i`.
pub open spec fn key_at<V>(s: Seq<(Seq<char>, V)>, key: Seq<char>, i: int) -> bool {
    0 <= i < s.len() && s[i].0 == key
}

/// The map that a list of pairs with distinct keys stands for.
pub open spec fn map_of<V>(s: Seq<(Seq<char>, V)>) -> Map<Seq<char>, V> {
    Map::new(
        |key: Seq<char>| exists|i: int| key_at(s, key, i),
        |key: Seq<char>| s[choose|i: int| key_at(s, key, i)].1,
    )
}

pub proof fn lemma_map_of<V>(s: Seq<(Seq<char>, V)>)
    requires
        sorted(s),
    ensures
        forall|key: Seq<char>, i: int| #[trigger]
            key_at(s, key, i) ==> map_of(s).contains_key(key) && map_of(s)[key] == s[i].1,
{
    assert forall|key: Seq<char>, i: int| #[trigger] key_at(s, key, i) implies map_of(
        s,
    ).contains_key(key) && map_of(s)[key] == s[i].1 by {
        let j = choose|j: int| key_at(s, key, j);
        lemma_precedes_irreflexive(key);
        if i < j {
            assert(precedes(s[i].0, s[j].0));
        } else if j < i {
            assert(precedes(s[j].0, s[i].0));
        }
    }
}

/// Whether a list of keys is in strictly increasing order.
pub open spec fn increasing(s: Seq<Seq<char>>) -> bool {
    forall|i: int, j: int| #![trigger s[i], s[j]] 0 <= i < j < s.len() ==> precedes(s[i], s[j])
}

/// A set of keys in order.
pub open spec fn in_key_order(keys: Set<Seq<char>>) -> Seq<Seq<char>> {
    choose|s: Seq<Seq<char>>| #[trigger] increasing(s) && s.to_set() == keys
}

/// The keys of a list of pairs.
pub open spec fn keys_of<V>(s: Seq<(Seq<char>, V)>) -> Seq<Seq<char>> {
    s.map_values(|e: (Seq<char>, V)| e.0)
}

/// Two increasing lists of the same keys are the same list.
pub proof fn lemma_key_order_is_unique(s: Seq<Seq<char>>, t: Seq<Seq<char>>)
    requires
        increasing(s),
        increasing(t),
        s.to_set() == t.to_set(),
    ensures
        s == t,
    decreases s.len(),
{
    if s.len() == 0 {
        if t.len() > 0 {
            assert(t.to_set().contains(t[0]));
            assert(s.contains(t[0]));
        }
        assert(s =~= t);
    } else {
        assert(s.to_set().contains(s[0]));
        assert(t.contains(s[0]));
        assert(t.len() > 0);
        assert(t.to_set().contains(t[0]));
        assert(s.contains(t[0]));
        let i = choose|i: int| 0 <= i < t.len() && t[i] == s[0];
        let j = choose|j: int| 0 <= j < s.len() && s[j] == t[0];
        if i > 0 {
            assert(precedes(t[0], t[i]));
            if j > 0 {
                assert(precedes(s[0], s[j]));
                lemma_precedes_transitive(s[0], t[0], s[0]);
            }
            lemma_precedes_irreflexive(s[0]);
        }
        let u = s.drop_first();
        let v = t.drop_first();
        assert forall|k: Seq<char>| #[trigger] u.to_set().contains(k) <==> v.to_set().contains(
            k,
        ) by {
            if u.to_set().contains(k) {
                let a = choose|a: int| 0 <= a < u.len() && u[a] == k;
                assert(s[a + 1] == k);
                assert(s.to_set().contains(k));
                assert(t.contains(k));
                let b = choose|b: int| 0 <= b < t.len() && t[b] == k;
                assert(precedes(s[0], s[a + 1]));
                lemma_precedes_irreflexive(k);
                assert(v[b - 1] == k);
            }
            if v.to_set().contains(k) {
                let a = choose|a: int| 0 <= a < v.len() && v[a] == k;
                assert(t[a + 1] == k);
                assert(t.to_set().contains(k));
                assert(s.contains(k));
                let b = choose|b: int| 0 <= b < s.len() && s[b] == k;
                assert(precedes(t[0], t[a + 1]));
                lemma_precedes_irreflexive(k);
                assert(u[b - 1] == k);
            }
        }
        assert(u.to_set() =~= v.to_set());
        assert(increasing(u)) by {
            assert forall|i: int, j: int| 0 <= i < j < u.len() implies precedes(
                #[trigger] u[i],
                #[trigger] u[j],
            ) by {
                assert(precedes(s[i + 1], s[j + 1]));
            }
        }
        assert(increasing(v)) by {
            assert forall|i: int, j: int| 0 <= i < j < v.len() implies precedes(
                #[trigger] v[i],
                #[trigger] v[j],
            ) by {
                assert(precedes(t[i + 1], t[j + 1]));
            }
        }
        lemma_key_order_is_unique(u, v);
        assert(s =~= seq![s[0]] + u);
        assert(t =~= seq![t[0]] + v);
    }
}

proof fn lemma_keys_of<V>(s: Seq<(Seq<char>, V)>)
    requires
        sorted(s),
    ensures
        keys_of(s) == in_key_order(map_of(s).dom()),
{
    let k = keys_of(s);
    assert forall|i: int, j: int| 0 <= i < j < k.len() implies precedes(
        #[trigger] k[i],
        #[trigger] k[j],
    ) by {
        assert(precedes(s[i].0, s[j].0));
    }
    assert forall|key: Seq<char>| #[trigger] k.to_set().contains(key) <==> map_of(
        s,
    ).dom().contains(key) by {
        if k.to_set().contains(key) {
            let i = choose|i: int| 0 <= i < k.len() && k[i] == key;
            assert(key_at(s, key, i));
        }
        if map_of(s).dom().contains(key) {
            let i = choose|i: int| key_at(s, key, i);
            assert(k[i] == key);
        }
    }
    assert(k.to_set() =~= map_of(s).dom());
    assert(increasing(k));
    let t = in_key_order(map_of(s).dom());
    lemma_key_order_is_unique(k, t);
}

/// How two texts compare: below, equal or above.
#[derive(Debug, Clone, Copy, PartialEq, Eq, Structural)]
pub enum Order {
    Below,
    Equal,
    Above,
}

pub open spec fn order_of(a: Seq<char>, b: Seq<char>) -> Order {
    if a == b {
        Order::Equal
    } else if precedes(a, b) {
        Order::Below
    } else {
        Order::Above
    }
}

proof fn lemma_order_step(a: Seq<char>, b: Seq<char>)
    requires
        a.len() > 0,
        b.len() > 0,
        a[0] == b[0],
    ensures
        order_of(a, b) == order_of(a.drop_first(), b.drop_first()),
{
    if a.drop_first() == b.drop_first() {
        assert(a =~= seq![a[0]] + a.drop_first());
        assert(b =~= seq![b[0]] + b.drop_first());
    }
}

/// How `a` and `b` compare.
pub fn order(a: &str, b: &str) -> (r: Order)
    ensures
        r == order_of(a@, b@),
{
    let v = chars_of(a);
    let w = chars_of(b);
    let mut i: usize = 0;
    proof {
        assert(v@.skip(0) =~= v@);
        assert(w@.skip(0) =~= w@);
    }
    while i < v.len() && i < w.len() && v[i] == w[i]
        invariant
            i <= v.len(),
            i <= w.len(),
            order_of(v@.skip(i as int), w@.skip(i as int)) == order_of(v@, w@),
        decreases v.len() - i,
    {
        proof {
            lemma_order_step(v@.skip(i as int), w@.skip(i as int));
            assert(v@.skip(i as int).drop_first() =~= v@.skip(i + 1));
            assert(w@.skip(i as int).drop_first() =~= w@.skip(i + 1));
        }
        i += 1;
    }
    let ghost x = v@.skip(i as int);
    let ghost y = w@.skip(i as int);
    if i >= v.len() && i >= w.len() {
        assert(x =~= y);
        Order::Equal
    } else if i >= v.len() {
        Order::Below
    } else if i >= w.len() {
        Order::Above
    } else {
        assert(x[0] == v@[i as int] && y[0] == w@[i as int]);
        if v[i] < w[i] {
            Order::Below
        } else {
            Order::Above
        }
    }
}

/// A map from text to `V` that lists its entries in key order.
#[derive(Debug)]
pub struct Dict<V> {
    entries: Vec<(String, V)>,
}

impl<V> Dict<V> {
    /// The entries in key order.
    pub closed spec fn listed(&self) -> Seq<(Seq<char>, V)> {
        self.entries@.map_values(|e: (String, V)| (e.0@, e.1))
    }

    #[verifier::type_invariant]
    closed spec fn inv(&self) -> bool {
        sorted(self.listed())
    }

    /// The map from key to value.
    pub open spec fn map(&self) -> Map<Seq<char>, V> {
        map_of(self.listed())
    }

    pub fn new() -> (r: Self)
        ensures
            r.listed() == Seq::<(Seq<char>, V)>::empty(),
            r.map() == Map::<Seq<char>, V>::empty(),
    {
        let r = Dict { entries: Vec::new() };
        proof {
            assert(r.listed() =~= Seq::<(Seq<char>, V)>::empty());
            assert(r.map() =~= Map::<Seq<char>, V>::empty());
        }
        r
    }

    pub fn len(&self) -> (n: usize)
        ensures
            n == self.listed().len(),
    {
        self.entries.len()
    }

    pub fn is_empty(&self) -> (b: bool)
        ensures
            b == (self.listed().len() == 0),
    {
        self.entries.is_empty()
    }

    /// The `i`th key.
    pub fn key(&self, i: usize) -> (k: &str)
        requires
            i < self.listed().len(),
        ensures
            k@ == self.listed()[i as int].0,
    {
        self.entries[i].0.as_str()
    }

    /// The `i`th value.
    pub fn value(&self, i: usize) -> (v: &V)
        requires
            i < self.listed().len(),
        ensures
            *v == self.listed()[i as int].1,
    {
        &self.entries[i].1
    }

    /// The keys are in order and each stands for its value.
    pub fn in_order(&self)
        ensures
            sorted(self.listed()),
            forall|key: Seq<char>, i: int| #[trigger]
                key_at(self.listed(), key, i) ==> self.map().contains_key(key) && self.map()[key]
                    == self.listed()[i].1,
            keys_of(self.listed()) == in_key_order(self.map().dom()),
    {
        proof {
            use_type_invariant(self);
            lemma_map_of(self.listed());
            lemma_keys_of(self.listed());
        }
    }

    /// The position of the first key not below `key`.
    fn position(&self, key: &str) -> (r: usize)
        ensures
            r <= self.listed().len(),
            forall|i: int| 0 <= i < r ==> precedes(#[trigger] self.listed()[i].0, key@),
            r < self.listed().len() ==> !precedes(self.listed()[r as int].0, key@),
    {
        let mut i: usize = 0;
        while i < self.entries.len()
            invariant
                i <= self.listed().len(),
                self.listed().len() == self.entries@.len(),
                forall|j: int| 0 <= j < i ==> precedes(#[trigger] self.listed()[j].0, key@),
            decreases self.entries.len() - i,
        {
            proof {
                lemma_precedes_irreflexive(key@);
            }
            match order(self.entries[i].0.as_str(), key) {
                Order::Below => {
                    i += 1;
                },
                _ => {
                    return i;
                },
            }
        }
        i
    }

    /// The value under `key`.
    pub fn get(&self, key: &str) -> (r: Option<&V>)
        ensures
            r is Some <==> self.map().contains_key(key@),
            r matches Some(v) ==> *v == self.map()[key@],
    {
        let at = self.position(key);
        proof {
            use_type_invariant(self);
            lemma_map_of(self.listed());
        }
        let ghost s = self.listed();
        if at < self.entries.len() {
            if let Order::Equal = order(self.entries[at].0.as_str(), key) {
                assert(key_at(s, key@, at as int));
                return Some(&self.entries[at].1);
            }
        }
        proof {
            if self.map().contains_key(key@) {
                let i = choose|i: int| key_at(s, key@, i);
                lemma_precedes_irreflexive(key@);
                assert(i >= at);
                if i > at {
                    assert(precedes(s[at as int].0, s[i].0));
                }
            }
        }
        None
    }

    /// Put `value` under `key`, in place of what was there.
    pub fn insert(&mut self, key: String, value: V)
        ensures
            final(self).map() == old(self).map().insert(key@, value),
    {
        let at = self.position(key.as_str());
        let ghost before = self.listed();
        proof {
            use_type_invariant(&*self);
            lemma_map_of(before);
            lemma_precedes_irreflexive(key@);
        }
        let mut v: Vec<(String, V)> = Vec::new();
        std::mem::swap(&mut self.entries, &mut v);
        let ghost taken = v@;
        assert(taken.map_values(|e: (String, V)| (e.0@, e.1)) == before);
        let same = if at < v.len() {
            match order(v[at].0.as_str(), key.as_str()) {
                Order::Equal => true,
                _ => false,
            }
        } else {
            false
        };
        let ghost pair = (key@, value);
        if same {
            v.remove(at);
        }
        let ghost tail: int = if same {
            at + 1
        } else {
            at as int
        };
        v.insert(at, (key, value));
        let ghost after = v@.map_values(|e: (String, V)| (e.0@, e.1));
        proof {
            assert(after =~= before.take(at as int).push(pair) + before.skip(tail));
            assert forall|i: int, j: int| 0 <= i < j < after.len() implies precedes(
                #[trigger] after[i].0,
                #[trigger] after[j].0,
            ) by {
                if i < at && j < at {
                    assert(precedes(before[i].0, before[j].0));
                } else if j > at {
                    let b = before[j - at - 1 + tail];
                    assert(after[j] == b);
                    if i < at {
                        assert(precedes(before[i].0, b.0));
                    } else {
                        lemma_precedes_total(b.0, pair.0);
                        lemma_precedes_total(before[at as int].0, pair.0);
                        if j - at - 1 + tail > at {
                            assert(precedes(before[at as int].0, b.0));
                            if before[at as int].0 != pair.0 {
                                lemma_precedes_transitive(pair.0, before[at as int].0, b.0);
                            }
                        }
                        if i > at {
                            assert(precedes(before[i - at - 1 + tail].0, b.0));
                        }
                    }
                }
            }
        }
        self.entries = v;
        proof {
            assert(self.listed() == after);
            lemma_map_of(after);
            assert forall|k: Seq<char>| #[trigger] self.map().contains_key(k) implies old(self).map().insert(pair.0, value).contains_key(k) by {
                let i = choose|i: int| key_at(after, k, i);
                if i < at {
                    assert(key_at(before, k, i));
                } else if i > at {
                    assert(key_at(before, k, i - at - 1 + tail));
                }
            }
            assert forall|k: Seq<char>| #[trigger]
                old(self).map().insert(pair.0, value).contains_key(
                    k,
                ) implies self.map().contains_key(k) && self.map()[k] == old(self).map().insert(
                pair.0,
                value,
            )[k] by {
                if k == pair.0 {
                    assert(key_at(after, k, at as int));
                } else {
                    let i = choose|i: int| key_at(before, k, i);
                    if i < at {
                        assert(key_at(after, k, i));
                    } else {
                        assert(i >= tail);
                        assert(key_at(after, k, i - tail + at + 1));
                    }
                }
            }
            assert(self.map() =~= old(self).map().insert(pair.0, value));
        }
    }
}

/// Keys are ordered as words are: the first character in which two differ decides, and a key comes
/// before every longer one that begins with it.
pub proof fn law_keys_are_ordered_as_words_are(
    stem: Seq<char>,
    a: Seq<char>,
    b: Seq<char>,
    x: char,
    y: char,
)
    ensures
        x != y ==> (precedes(stem.push(x) + a, stem.push(y) + b) <==> x < y),
        precedes(stem, stem.push(x) + a),
        !precedes(stem.push(x) + a, stem),
    decreases stem.len(),
{
    let (p, q) = (stem.push(x) + a, stem.push(y) + b);
    if stem.len() > 0 {
        law_keys_are_ordered_as_words_are(stem.drop_first(), a, b, x, y);
        assert(p.drop_first() =~= stem.drop_first().push(x) + a);
        assert(q.drop_first() =~= stem.drop_first().push(y) + b);
        assert(p[0] == stem[0] && q[0] == stem[0]);
    }
}

} // verus!
