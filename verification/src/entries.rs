//! An ordered key/value store of strings.
//!
//! Entries are kept strictly sorted by key, so no key occurs twice and the
//! order in which they are listed never depends on the order of insertion.

use crate::text::to_chars;
use vstd::prelude::*;

verus! {

/// One entry of the model: a key and its value.
pub type Pair = (Seq<char>, Seq<char>);

/// Strict lexicographic order on keys, character by character.
pub open spec fn key_before(a: Seq<char>, b: Seq<char>) -> bool
    decreases a.len(),
{
    if b.len() == 0 {
        false
    } else if a.len() == 0 {
        true
    } else if a[0] != b[0] {
        a[0] < b[0]
    } else {
        key_before(a.drop_first(), b.drop_first())
    }
}

/// The keys of `p` ascend strictly.
pub open spec fn sorted(p: Seq<Pair>) -> bool {
    forall|i: int, j: int| 0 <= i < j < p.len() ==> key_before(#[trigger] p[i].0, #[trigger] p[j].0)
}

/// The map that a list of entries stands for; a later entry wins over an
/// earlier one with the same key.
pub open spec fn map_of(p: Seq<Pair>) -> Map<Seq<char>, Seq<char>>
    decreases p.len(),
{
    if p.len() == 0 {
        Map::empty()
    } else {
        map_of(p.drop_last()).insert(p.last().0, p.last().1)
    }
}

pub proof fn lemma_key_before_irreflexive(a: Seq<char>)
    ensures
        !key_before(a, a),
    decreases a.len(),
{
    if a.len() > 0 {
        lemma_key_before_irreflexive(a.drop_first());
    }
}

pub proof fn lemma_key_before_transitive(a: Seq<char>, b: Seq<char>, c: Seq<char>)
    requires
        key_before(a, b),
        key_before(b, c),
    ensures
        key_before(a, c),
    decreases a.len(),
{
    if a.len() > 0 && a[0] == b[0] && b[0] == c[0] {
        lemma_key_before_transitive(a.drop_first(), b.drop_first(), c.drop_first());
    }
}

/// Keys that agree on their first `i` characters are ordered as what follows.
pub proof fn lemma_key_before_skip(a: Seq<char>, b: Seq<char>, i: int)
    requires
        0 <= i <= a.len(),
        i <= b.len(),
        a.take(i) == b.take(i),
    ensures
        key_before(a, b) == key_before(a.skip(i), b.skip(i)),
    decreases i,
{
    if i == 0 {
        assert(a.skip(0) =~= a);
        assert(b.skip(0) =~= b);
    } else {
        assert(a[0] == a.take(i)[0]);
        assert(b[0] == b.take(i)[0]);
        assert(a.drop_first().take(i - 1) =~= a.take(i).drop_first());
        assert(b.drop_first().take(i - 1) =~= b.take(i).drop_first());
        lemma_key_before_skip(a.drop_first(), b.drop_first(), i - 1);
        assert(a.drop_first().skip(i - 1) =~= a.skip(i));
        assert(b.drop_first().skip(i - 1) =~= b.skip(i));
    }
}

/// A key is in the map exactly when some entry carries it.
pub proof fn lemma_map_of_keys(p: Seq<Pair>, k: Seq<char>)
    ensures
        map_of(p).contains_key(k) <==> exists|i: int| 0 <= i < p.len() && #[trigger] p[i].0 == k,
    decreases p.len(),
{
    if p.len() > 0 {
        let q = p.drop_last();
        lemma_map_of_keys(q, k);
        if map_of(p).contains_key(k) {
            if p.last().0 == k {
                assert(p[p.len() - 1].0 == k);
            } else {
                let i = choose|i: int| 0 <= i < q.len() && #[trigger] q[i].0 == k;
                assert(p[i].0 == k);
            }
        }
        if exists|i: int| 0 <= i < p.len() && #[trigger] p[i].0 == k {
            let i = choose|i: int| 0 <= i < p.len() && #[trigger] p[i].0 == k;
            if i < q.len() {
                assert(q[i].0 == k);
            }
        }
    }
}

/// Where keys ascend strictly, each entry's key maps to that entry's value.
pub proof fn lemma_map_of_at(p: Seq<Pair>, i: int)
    requires
        sorted(p),
        0 <= i < p.len(),
    ensures
        map_of(p).contains_key(p[i].0),
        map_of(p)[p[i].0] == p[i].1,
    decreases p.len(),
{
    let q = p.drop_last();
    if i < p.len() - 1 {
        assert(sorted(q)) by {
            assert forall|a: int, b: int| 0 <= a < b < q.len() implies key_before(
                #[trigger] q[a].0,
                #[trigger] q[b].0,
            ) by {
                assert(q[a] == p[a] && q[b] == p[b]);
            }
        }
        lemma_map_of_at(q, i);
        assert(q[i] == p[i]);
        assert(key_before(p[i].0, p[p.len() - 1].0));
        lemma_key_before_irreflexive(p[i].0);
    }
}

/// How two keys stand to each other.
#[derive(Clone, Copy, Debug, PartialEq, Eq, Structural)]
pub enum KeyOrder {
    Before,
    Same,
    After,
}

/// Orders two keys as `key_before` does.
pub fn order_keys(a: &Vec<char>, b: &Vec<char>) -> (r: KeyOrder)
    ensures
        r == KeyOrder::Before <==> key_before(a@, b@),
        r == KeyOrder::Same <==> a@ == b@,
        r == KeyOrder::After <==> key_before(b@, a@),
{
    let mut i: usize = 0;
    while i < a.len() && i < b.len() && a[i] == b[i]
        invariant
            i <= a.len(),
            i <= b.len(),
            a@.take(i as int) == b@.take(i as int),
        decreases a.len() - i,
    {
        assert(a@.take(i + 1) =~= a@.take(i as int).push(a@[i as int]));
        assert(b@.take(i + 1) =~= b@.take(i as int).push(b@[i as int]));
        i += 1;
    }
    proof {
        lemma_key_before_skip(a@, b@, i as int);
        lemma_key_before_skip(b@, a@, i as int);
        lemma_key_before_irreflexive(a@);
        let x = a@.skip(i as int);
        let y = b@.skip(i as int);
        if i == a.len() && i == b.len() {
            assert(a@.take(i as int) =~= a@);
            assert(b@.take(i as int) =~= b@);
        } else {
            if a@ == b@ {
                assert(a@.len() == b@.len());
                assert(x[0] == y[0]);
            }
        }
    }
    if i == a.len() {
        if i == b.len() {
            KeyOrder::Same
        } else {
            KeyOrder::Before
        }
    } else if i == b.len() {
        KeyOrder::After
    } else if a[i] < b[i] {
        KeyOrder::Before
    } else {
        KeyOrder::After
    }
}

/// A map from string keys to string values, listed in ascending key order.
#[derive(Debug)]
pub struct EntryMap {
    items: Vec<(String, String)>,
}

impl View for EntryMap {
    type V = Map<Seq<char>, Seq<char>>;

    /// The map that the entries stand for.
    open spec fn view(&self) -> Map<Seq<char>, Seq<char>> {
        map_of(self.pairs())
    }
}

impl EntryMap {
    /// The entries as they are listed, each as a pair of character sequences.
    pub closed spec fn pairs(&self) -> Seq<Pair> {
        Seq::new(self.items@.len(), |i: int| (self.items@[i].0@, self.items@[i].1@))
    }

    #[verifier::type_invariant]
    spec fn ascending(&self) -> bool {
        sorted(self.pairs())
    }

    /// A map without entries.
    pub fn new() -> (m: Self)
        ensures
            m.pairs() == Seq::<Pair>::empty(),
            m@ == Map::<Seq<char>, Seq<char>>::empty(),
    {
        let m = EntryMap { items: Vec::new() };
        assert(m.pairs() =~= Seq::<Pair>::empty());
        m
    }

    /// Number of entries.
    pub fn len(&self) -> (n: usize)
        ensures
            n == self.pairs().len(),
            sorted(self.pairs()),
    {
        proof {
            use_type_invariant(&*self);
        }
        self.items.len()
    }

    /// The entry at position `i` of the listing.
    pub fn entry(&self, i: usize) -> (e: (&String, &String))
        requires
            i < self.pairs().len(),
        ensures
            e.0@ == self.pairs()[i as int].0,
            e.1@ == self.pairs()[i as int].1,
    {
        (&self.items[i].0, &self.items[i].1)
    }

    /// Position of the first entry whose key does not come before `key`.
    fn locate(&self, key: &Vec<char>) -> (r: (usize, bool))
        ensures
            r.0 <= self.pairs().len(),
            forall|j: int| 0 <= j < r.0 ==> key_before(#[trigger] self.pairs()[j].0, key@),
            r.1 ==> r.0 < self.pairs().len() && self.pairs()[r.0 as int].0 == key@,
            !r.1 && r.0 < self.pairs().len() ==> key_before(key@, self.pairs()[r.0 as int].0),
    {
        let mut i: usize = 0;
        while i < self.items.len()
            invariant
                i <= self.items.len(),
                self.items@.len() == self.pairs().len(),
                forall|j: int| 0 <= j < i ==> key_before(#[trigger] self.pairs()[j].0, key@),
            decreases self.items.len() - i,
        {
            let k = to_chars(self.items[i].0.as_str());
            match order_keys(&k, key) {
                KeyOrder::Before => {},
                KeyOrder::Same => {
                    return (i, true);
                },
                KeyOrder::After => {
                    return (i, false);
                },
            }
            i += 1;
        }
        (i, false)
    }

    /// The value stored under `key`, if there is one.
    pub fn get(&self, key: &str) -> (r: Option<&String>)
        ensures
            r is Some <==> self@.contains_key(key@),
            r is Some ==> r->0@ == self@[key@],
    {
        let k = to_chars(key);
        let (i, found) = self.locate(&k);
        proof {
            use_type_invariant(&*self);
            self.lemma_lookup(key@, i as int, found);
        }
        if found {
            Some(&self.items[i].1)
        } else {
            None
        }
    }

    /// Whether a value is stored under `key`.
    pub fn contains_key(&self, key: &str) -> (r: bool)
        ensures
            r == self@.contains_key(key@),
    {
        self.get(key).is_some()
    }

    /// What a finished search says about the map.
    proof fn lemma_lookup(&self, key: Seq<char>, i: int, found: bool)
        requires
            sorted(self.pairs()),
            0 <= i <= self.pairs().len(),
            forall|j: int| 0 <= j < i ==> key_before(#[trigger] self.pairs()[j].0, key),
            found ==> i < self.pairs().len() && self.pairs()[i].0 == key,
            !found && i < self.pairs().len() ==> key_before(key, self.pairs()[i].0),
        ensures
            found <==> self@.contains_key(key),
            found ==> self@[key] == self.pairs()[i].1,
            forall|j: int| 0 <= j < self.pairs().len() && j != i ==> #[trigger] self.pairs()[j].0 != key,
    {
        let p = self.pairs();
        lemma_key_before_irreflexive(key);
        assert forall|j: int| 0 <= j < p.len() && j != i implies #[trigger] p[j].0 != key by {
            if j > i {
                if found {
                    assert(key_before(p[i].0, p[j].0));
                } else {
                    assert(key_before(p[i].0, p[j].0));
                    lemma_key_before_transitive(key, p[i].0, p[j].0);
                }
            }
        }
        lemma_map_of_keys(p, key);
        if found {
            lemma_map_of_at(p, i);
        } else if i < p.len() {
            assert(p[i].0 != key);
        }
    }

    /// Stores `value` under `key`, replacing what was there.
    pub fn insert(&mut self, key: String, value: String)
        ensures
            final(self)@ == old(self)@.insert(key@, value@),
    {
        proof {
            use_type_invariant(&*self);
        }
        let k = to_chars(key.as_str());
        let (i, found) = self.locate(&k);
        let ghost before = self.pairs();
        proof {
            self.lemma_lookup(key@, i as int, found);
            lemma_key_before_irreflexive(key@);
        }
        let mut items: Vec<(String, String)> = Vec::new();
        std::mem::swap(&mut items, &mut self.items);
        if found {
            items.remove(i);
        }
        items.insert(i, (key, value));
        let ghost after = Seq::new(items@.len(), |j: int| (items@[j].0@, items@[j].1@));
        proof {
            let mid = if found {
                before.remove(i as int)
            } else {
                before
            };
            assert(after =~= mid.insert(i as int, (key@, value@)));
            assert forall|a: int, b: int| 0 <= a < b < after.len() implies key_before(
                #[trigger] after[a].0,
                #[trigger] after[b].0,
            ) by {
                let sa = if a < i {
                    a
                } else if found {
                    a
                } else {
                    a - 1
                };
                let sb = if b < i {
                    b
                } else if found {
                    b
                } else {
                    b - 1
                };
                if a != i && b != i {
                    assert(after[a] == before[sa] && after[b] == before[sb]);
                } else if a == i {
                    assert(after[b] == before[sb]);
                    if found {
                        assert(key_before(before[i as int].0, before[sb].0));
                    } else if sb > i {
                        assert(key_before(before[i as int].0, before[sb].0));
                        lemma_key_before_transitive(key@, before[i as int].0, before[sb].0);
                    }
                } else {
                    assert(after[a] == before[sa]);
                }
            }
            lemma_insert_view(before, after, i as int, found, key@, value@);
        }
        self.items = items;
        assert(self.pairs() =~= after);
    }

    /// Removes the entry stored under `key`, if there is one.
    pub fn remove(&mut self, key: &str)
        ensures
            final(self)@ == old(self)@.remove(key@),
    {
        proof {
            use_type_invariant(&*self);
        }
        let k = to_chars(key);
        let (i, found) = self.locate(&k);
        let ghost before = self.pairs();
        proof {
            self.lemma_lookup(key@, i as int, found);
        }
        if found {
            let mut items: Vec<(String, String)> = Vec::new();
            std::mem::swap(&mut items, &mut self.items);
            items.remove(i);
            let ghost after = Seq::new(items@.len(), |j: int| (items@[j].0@, items@[j].1@));
            proof {
                assert(after =~= before.remove(i as int));
                assert forall|a: int, b: int| 0 <= a < b < after.len() implies key_before(
                    #[trigger] after[a].0,
                    #[trigger] after[b].0,
                ) by {
                    let sa = if a < i {
                        a
                    } else {
                        a + 1
                    };
                    let sb = if b < i {
                        b
                    } else {
                        b + 1
                    };
                    assert(after[a] == before[sa] && after[b] == before[sb]);
                }
                lemma_remove_view(before, after, i as int, key@);
            }
            self.items = items;
            assert(self.pairs() =~= after);
        } else {
            assert(self@ =~= old(self)@.remove(key@));
        }
    }

    /// A copy with the same entries.
    pub fn duplicate(&self) -> (m: Self)
        ensures
            m.pairs() == self.pairs(),
            m@ == self@,
    {
        proof {
            use_type_invariant(&*self);
        }
        let mut items: Vec<(String, String)> = Vec::new();
        let mut i: usize = 0;
        while i < self.items.len()
            invariant
                i <= self.items.len(),
                items@.len() == i,
                forall|j: int|
                    0 <= j < i ==> (#[trigger] items@[j]).0@ == self.items@[j].0@ && items@[j].1@
                        == self.items@[j].1@,
            decreases self.items.len() - i,
        {
            items.push((self.items[i].0.clone(), self.items[i].1.clone()));
            i += 1;
        }
        let ghost copy = Seq::new(items@.len(), |j: int| (items@[j].0@, items@[j].1@));
        assert(copy =~= self.pairs());
        let m = EntryMap { items };
        assert(m.pairs() =~= copy);
        m
    }
}

/// Writing an entry at its place in an ascending listing is `Map::insert`.
proof fn lemma_insert_view(
    before: Seq<Pair>,
    after: Seq<Pair>,
    i: int,
    found: bool,
    key: Seq<char>,
    value: Seq<char>,
)
    requires
        sorted(before),
        sorted(after),
        0 <= i <= before.len(),
        found ==> i < before.len() && before[i].0 == key,
        forall|j: int| 0 <= j < before.len() && j != i ==> #[trigger] before[j].0 != key,
        !found && i < before.len() ==> before[i].0 != key,
        after == (if found {
            before.remove(i)
        } else {
            before
        }).insert(i, (key, value)),
    ensures
        map_of(after) == map_of(before).insert(key, value),
{
    let m = map_of(before).insert(key, value);
    assert forall|k: Seq<char>| map_of(after).contains_key(k) <==> m.contains_key(k) by {
        lemma_map_of_keys(after, k);
        lemma_map_of_keys(before, k);
        if map_of(after).contains_key(k) && k != key {
            let a = choose|a: int| 0 <= a < after.len() && #[trigger] after[a].0 == k;
            let s = if a < i {
                a
            } else if found {
                a
            } else {
                a - 1
            };
            assert(before[s].0 == k);
        }
        if map_of(before).contains_key(k) && k != key {
            let s = choose|s: int| 0 <= s < before.len() && #[trigger] before[s].0 == k;
            let a = if s < i {
                s
            } else if found {
                s
            } else {
                s + 1
            };
            assert(after[a].0 == k);
        }
        if k == key {
            assert(after[i].0 == k);
        }
    }
    assert forall|k: Seq<char>| map_of(after).contains_key(k) implies map_of(after)[k] == m[k] by {
        lemma_map_of_keys(after, k);
        let a = choose|a: int| 0 <= a < after.len() && #[trigger] after[a].0 == k;
        lemma_map_of_at(after, a);
        if a != i {
            let s = if a < i {
                a
            } else if found {
                a
            } else {
                a - 1
            };
            assert(before[s] == after[a]);
            lemma_map_of_at(before, s);
        }
    }
    assert(map_of(after) =~= m);
}

/// Dropping an entry from an ascending listing is `Map::remove`.
proof fn lemma_remove_view(before: Seq<Pair>, after: Seq<Pair>, i: int, key: Seq<char>)
    requires
        sorted(before),
        sorted(after),
        0 <= i < before.len(),
        before[i].0 == key,
        forall|j: int| 0 <= j < before.len() && j != i ==> #[trigger] before[j].0 != key,
        after == before.remove(i),
    ensures
        map_of(after) == map_of(before).remove(key),
{
    let m = map_of(before).remove(key);
    assert forall|k: Seq<char>| map_of(after).contains_key(k) <==> m.contains_key(k) by {
        lemma_map_of_keys(after, k);
        lemma_map_of_keys(before, k);
        if map_of(after).contains_key(k) {
            let a = choose|a: int| 0 <= a < after.len() && #[trigger] after[a].0 == k;
            let s = if a < i {
                a
            } else {
                a + 1
            };
            assert(before[s].0 == k);
        }
        if map_of(before).contains_key(k) && k != key {
            let s = choose|s: int| 0 <= s < before.len() && #[trigger] before[s].0 == k;
            let a = if s < i {
                s
            } else {
                s - 1
            };
            assert(after[a].0 == k);
        }
    }
    assert forall|k: Seq<char>| map_of(after).contains_key(k) implies map_of(after)[k] == m[k] by {
        lemma_map_of_keys(after, k);
        let a = choose|a: int| 0 <= a < after.len() && #[trigger] after[a].0 == k;
        lemma_map_of_at(after, a);
        let s = if a < i {
            a
        } else {
            a + 1
        };
        assert(before[s] == after[a]);
        lemma_map_of_at(before, s);
    }
    assert(map_of(after) =~= m);
}

} // verus!

