//! String-to-string label maps (selectors, pod labels).

use vstd::prelude::*;
use crate::text::{lemma_text_lt_irreflexive, lemma_text_lt_total, lemma_text_lt_transitive, text_less, text_lt};

verus! {

/// The characters of each key and value, in entry order.
pub open spec fn pairs_view(s: Seq<(String, String)>) -> Seq<(Seq<char>, Seq<char>)> {
    s.map_values(|p: (String, String)| (p.0@, p.1@))
}

/// The map that a sequence of entries denotes; a later entry wins over an earlier one.
pub open spec fn map_of(s: Seq<(Seq<char>, Seq<char>)>) -> Map<Seq<char>, Seq<char>>
    decreases s.len(),
{
    if s.len() == 0 {
        Map::empty()
    } else {
        map_of(s.drop_last()).insert(s.last().0, s.last().1)
    }
}

/// No key occurs twice.
pub open spec fn keys_distinct(s: Seq<(Seq<char>, Seq<char>)>) -> bool {
    forall|i: int, j: int| 0 <= i < s.len() && 0 <= j < s.len() && i != j ==> s[i].0 != s[j].0
}

/// The keys ascend strictly in text order, as in a `BTreeMap`.
pub open spec fn keys_sorted(s: Seq<(Seq<char>, Seq<char>)>) -> bool {
    forall|i: int, j: int| 0 <= i < j < s.len() ==> text_lt(#[trigger] s[i].0, #[trigger] s[j].0)
}

pub proof fn lemma_sorted_keys_distinct(s: Seq<(Seq<char>, Seq<char>)>)
    requires
        keys_sorted(s),
    ensures
        keys_distinct(s),
{
    assert forall|i: int, j: int| 0 <= i < s.len() && 0 <= j < s.len() && i != j implies s[i].0 != s[j].0 by {
        if i < j {
            lemma_text_lt_irreflexive(s[i].0);
            assert(text_lt(s[i].0, s[j].0));
        } else {
            lemma_text_lt_irreflexive(s[j].0);
            assert(text_lt(s[j].0, s[i].0));
        }
    }
}

/// Every pair of `selector` is present in `labels`.
pub open spec fn selects(selector: Map<Seq<char>, Seq<char>>, labels: Map<Seq<char>, Seq<char>>) -> bool {
    forall|k: Seq<char>|
        #[trigger] selector.contains_key(k) ==> labels.contains_key(k) && labels[k] == selector[k]
}

pub proof fn lemma_map_of_domain(s: Seq<(Seq<char>, Seq<char>)>, k: Seq<char>)
    ensures
        map_of(s).contains_key(k) <==> exists|i: int| 0 <= i < s.len() && #[trigger] s[i].0 == k,
    decreases s.len(),
{
    if s.len() > 0 {
        let t = s.drop_last();
        lemma_map_of_domain(t, k);
        if map_of(s).contains_key(k) && s.last().0 != k {
            let i = choose|i: int| 0 <= i < t.len() && #[trigger] t[i].0 == k;
            assert(s[i].0 == k);
        }
        if exists|i: int| 0 <= i < s.len() && #[trigger] s[i].0 == k {
            let i = choose|i: int| 0 <= i < s.len() && #[trigger] s[i].0 == k;
            if i < t.len() {
                assert(t[i].0 == k);
            }
        }
    }
}

pub proof fn lemma_map_of_value(s: Seq<(Seq<char>, Seq<char>)>, i: int)
    requires
        keys_distinct(s),
        0 <= i < s.len(),
    ensures
        map_of(s).contains_key(s[i].0),
        map_of(s)[s[i].0] == s[i].1,
    decreases s.len(),
{
    let t = s.drop_last();
    if i < s.len() - 1 {
        assert(t[i] == s[i]);
        assert(s.last().0 != s[i].0);
        lemma_map_of_value(t, i);
    }
}

pub proof fn lemma_map_of_len(s: Seq<(Seq<char>, Seq<char>)>)
    requires
        keys_distinct(s),
    ensures
        map_of(s).dom().finite(),
        map_of(s).len() == s.len(),
    decreases s.len(),
{
    if s.len() > 0 {
        let t = s.drop_last();
        lemma_map_of_len(t);
        lemma_map_of_domain(t, s.last().0);
        assert(!map_of(t).contains_key(s.last().0));
    }
}

/// A string-to-string map kept in key order (as a `BTreeMap`), as a label set or selector.
#[derive(Debug, PartialEq)]
pub struct Labels {
    entries: Vec<(String, String)>,
}

impl View for Labels {
    type V = Map<Seq<char>, Seq<char>>;

    closed spec fn view(&self) -> Map<Seq<char>, Seq<char>> {
        map_of(pairs_view(self.entries@))
    }
}

impl Labels {
    /// The entries, in ascending key order.
    pub closed spec fn entry_seq(self) -> Seq<(Seq<char>, Seq<char>)> {
        pairs_view(self.entries@)
    }

    #[verifier::type_invariant]
    spec fn sorted_keys(self) -> bool {
        keys_sorted(pairs_view(self.entries@))
    }

    proof fn lemma_entries(self)
        requires
            keys_sorted(self.entry_seq()),
        ensures
            self@ == map_of(self.entry_seq()),
            keys_distinct(self.entry_seq()),
            self@.dom().finite(),
            self@.len() == self.entry_seq().len(),
    {
        lemma_sorted_keys_distinct(self.entry_seq());
        lemma_map_of_len(self.entry_seq());
    }

    /// An empty map.
    pub fn new() -> (r: Labels)
        ensures
            r@ == Map::<Seq<char>, Seq<char>>::empty(),
            r.entry_seq().len() == 0,
    {
        let r = Labels { entries: Vec::new() };
        assert(pairs_view(r.entries@) =~= Seq::empty());
        r
    }

    /// Number of entries.
    pub fn len(&self) -> (n: usize)
        ensures
            n == self.entry_seq().len(),
            n == self@.len(),
            keys_sorted(self.entry_seq()),
    {
        proof {
            use_type_invariant(self);
            self.lemma_entries();
        }
        self.entries.len()
    }

    /// Whether the map has no entry.
    pub fn is_empty(&self) -> (b: bool)
        ensures
            b <==> self@ =~= Map::<Seq<char>, Seq<char>>::empty(),
    {
        proof {
            use_type_invariant(self);
            self.lemma_entries();
        }
        let b = self.entries.len() == 0;
        if !b {
            proof {
                lemma_map_of_value(self.entry_seq(), 0);
                assert(self@.contains_key(self.entry_seq()[0].0));
            }
        } else {
            assert(pairs_view(self.entries@) =~= Seq::empty());
        }
        b
    }

    /// The entry at position `i`.
    pub fn entry(&self, i: usize) -> (r: (&String, &String))
        requires
            i < self.entry_seq().len(),
        ensures
            (r.0@, r.1@) == self.entry_seq()[i as int],
            self@.contains_key(r.0@),
            self@[r.0@] == r.1@,
            keys_sorted(self.entry_seq()),
    {
        proof {
            use_type_invariant(self);
            self.lemma_entries();
            lemma_map_of_value(self.entry_seq(), i as int);
        }
        let e = &self.entries[i];
        (&e.0, &e.1)
    }

    fn position(&self, key: &str) -> (r: Option<usize>)
        ensures
            r matches Some(i) ==> i < self.entry_seq().len() && self.entry_seq()[i as int].0 == key@,
            r is None ==> forall|j: int| 0 <= j < self.entries@.len() ==> #[trigger] pairs_view(self.entries@)[j].0 != key@,
    {
        let k = String::from_str(key);
        let mut i: usize = 0;
        while i < self.entries.len()
            invariant
                i <= self.entries@.len(),
                k@ == key@,
                forall|j: int| 0 <= j < i ==> #[trigger] pairs_view(self.entries@)[j].0 != key@,
            decreases self.entries@.len() - i,
        {
            if self.entries[i].0 == k {
                return Some(i);
            }
            i = i + 1;
        }
        None
    }

    /// The value under `key` (`BTreeMap::get`).
    pub fn get(&self, key: &str) -> (r: Option<&String>)
        ensures
            r is Some <==> self@.contains_key(key@),
            r matches Some(v) ==> v@ == self@[key@],
    {
        proof {
            use_type_invariant(self);
            self.lemma_entries();
            lemma_map_of_domain(self.entry_seq(), key@);
        }
        match self.position(key) {
            Some(i) => {
                proof {
                    lemma_map_of_value(self.entry_seq(), i as int);
                }
                Some(&self.entries[i].1)
            },
            None => None,
        }
    }

    /// Sets `key` to `value`, replacing an earlier value (`BTreeMap::insert`).
    pub fn insert(&mut self, key: String, value: String)
        ensures
            final(self)@ == old(self)@.insert(key@, value@),
    {
        proof {
            use_type_invariant(&*self);
        }
        let ghost before = pairs_view(self.entries@);
        proof {
            lemma_sorted_keys_distinct(before);
        }
        let mut k: usize = 0;
        while k < self.entries.len() && text_less(self.entries[k].0.as_str(), key.as_str())
            invariant
                before == pairs_view(self.entries@),
                keys_sorted(before),
                k <= self.entries@.len(),
                forall|j: int| 0 <= j < k ==> text_lt(#[trigger] before[j].0, key@),
            decreases self.entries@.len() - k,
        {
            assert(before[k as int].0 == self.entries@[k as int].0@);
            k = k + 1;
        }
        let replace = k < self.entries.len() && self.entries[k].0 == key;
        proof {
            if k < before.len() {
                assert(before[k as int].0 == self.entries@[k as int].0@);
            }
            if !replace && k < before.len() {
                assert(!text_lt(before[k as int].0, key@));
                lemma_text_lt_total(before[k as int].0, key@);
                assert forall|j: int| k <= j < before.len() implies text_lt(key@, #[trigger] before[j].0) by {
                    if j > k {
                        lemma_text_lt_transitive(key@, before[k as int].0, before[j].0);
                    }
                }
            }
        }
        let mut entries = Vec::new();
        std::mem::swap(&mut entries, &mut self.entries);
        if replace {
            entries.set(k, (key, value));
        } else {
            entries.insert(k, (key, value));
        }
        let ghost after = pairs_view(entries@);
        proof {
            if replace {
                assert(after =~= before.update(k as int, (key@, value@)));
            } else {
                assert(after =~= before.insert(k as int, (key@, value@)));
            }
            assert forall|i: int, j: int| 0 <= i < j < after.len() implies
                text_lt(#[trigger] after[i].0, #[trigger] after[j].0) by {
                if replace {
                    if i == k {
                        assert(before[i].0 == key@);
                    } else if j == k {
                        assert(before[j].0 == key@);
                    }
                } else if j < k {
                } else if j == k {
                } else if i < k {
                    assert(after[j] == before[j - 1]);
                    lemma_text_lt_transitive(before[i].0, key@, before[j - 1].0);
                } else if i == k {
                    assert(after[j] == before[j - 1]);
                } else {
                    assert(after[i] == before[i - 1] && after[j] == before[j - 1]);
                }
            }
            assert(keys_sorted(after));
            lemma_sorted_keys_distinct(after);
            assert forall|q: Seq<char>| #[trigger] map_of(after).contains_key(q) <==> map_of(before).insert(key@, value@).contains_key(q) by {
                lemma_map_of_domain(after, q);
                lemma_map_of_domain(before, q);
                if q != key@ && map_of(after).contains_key(q) {
                    let j = choose|j: int| 0 <= j < after.len() && #[trigger] after[j].0 == q;
                    if replace || j < k {
                        assert(before[j].0 == q);
                    } else {
                        assert(before[j - 1].0 == q);
                    }
                }
                if q != key@ && map_of(before).contains_key(q) {
                    let j = choose|j: int| 0 <= j < before.len() && #[trigger] before[j].0 == q;
                    if replace || j < k {
                        assert(after[j].0 == q);
                    } else {
                        assert(after[j + 1].0 == q);
                    }
                }
                if q == key@ {
                    assert(after[k as int].0 == q);
                }
            }
            assert forall|q: Seq<char>| #[trigger] map_of(after).contains_key(q) implies map_of(after)[q] == map_of(before).insert(key@, value@)[q] by {
                lemma_map_of_domain(after, q);
                let j = choose|j: int| 0 <= j < after.len() && #[trigger] after[j].0 == q;
                lemma_map_of_value(after, j);
                assert(after[k as int] == (key@, value@));
                if q == key@ {
                    assert(j == k);
                } else {
                    if replace || j < k {
                        assert(before[j] == after[j]);
                        lemma_map_of_value(before, j);
                    } else {
                        assert(before[j - 1] == after[j]);
                        lemma_map_of_value(before, j - 1);
                    }
                }
            }
            assert(map_of(after) =~= map_of(before).insert(key@, value@));
        }
        self.entries = entries;
    }

    /// Adds every entry of `other`, its values winning (`BTreeMap::extend`).
    pub fn extend(&mut self, other: &Labels)
        ensures
            final(self)@ == old(self)@.union_prefer_right(other@),
    {
        let ghost start = self@;
        let n = other.len();
        proof {
            use_type_invariant(other);
            other.lemma_entries();
        }
        for i in 0..n
            invariant
                n == other.entry_seq().len(),
                self@ == start.union_prefer_right(map_of(other.entry_seq().take(i as int))),
        {
            let (k, v) = other.entry(i);
            self.insert(k.clone(), v.clone());
            proof {
                let s = other.entry_seq();
                assert(s.take(i + 1).drop_last() =~= s.take(i as int));
                assert(s.take(i + 1).last() == s[i as int]);
                assert(self@ =~= start.union_prefer_right(map_of(s.take(i + 1))));
            }
        }
        proof {
            assert(other.entry_seq().take(n as int) =~= other.entry_seq());
        }
    }

    /// An equal copy.
    pub fn duplicate(&self) -> (r: Labels)
        ensures
            r@ == self@,
            r.entry_seq() == self.entry_seq(),
    {
        proof {
            use_type_invariant(self);
        }
        let mut entries: Vec<(String, String)> = Vec::new();
        for i in 0..self.entries.len()
            invariant
                entries@.len() == i,
                pairs_view(entries@) == pairs_view(self.entries@).take(i as int),
        {
            let k = self.entries[i].0.clone();
            let v = self.entries[i].1.clone();
            assert(k@ == pairs_view(self.entries@)[i as int].0);
            assert(v@ == pairs_view(self.entries@)[i as int].1);
            let ghost prev = entries@;
            entries.push((k, v));
            assert(entries@ == prev.push((k, v)));
            assert(pairs_view(entries@).len() == i + 1);
            assert forall|j: int| 0 <= j < i + 1 implies pairs_view(entries@)[j] == pairs_view(self.entries@)[j] by {
                if j < i {
                    assert(entries@[j] == prev[j]);
                    assert(pairs_view(prev)[j] == pairs_view(self.entries@).take(i as int)[j]);
                }
            }
            assert(pairs_view(entries@) =~= pairs_view(self.entries@).take(i + 1));
        }
        assert(pairs_view(self.entries@).take(self.entries@.len() as int) =~= pairs_view(self.entries@));
        Labels { entries }
    }

    /// Whether every entry of `self` is also an entry of `labels`.
    pub fn selects(&self, labels: &Labels) -> (b: bool)
        ensures
            b == selects(self@, labels@),
    {
        proof {
            use_type_invariant(self);
            self.lemma_entries();
        }
        let n = self.len();
        for i in 0..n
            invariant
                n == self.entry_seq().len(),
                self@ == map_of(self.entry_seq()),
                keys_distinct(self.entry_seq()),
                forall|j: int| 0 <= j < i ==> {
                    let e = #[trigger] self.entry_seq()[j];
                    labels@.contains_key(e.0) && labels@[e.0] == e.1
                },
        {
            let (k, v) = self.entry(i);
            match labels.get(k.as_str()) {
                Some(w) => {
                    if *w != *v {
                        return false;
                    }
                },
                None => {
                    return false;
                },
            }
        }
        proof {
            assert forall|k: Seq<char>| #[trigger] self@.contains_key(k) implies labels@.contains_key(k) && labels@[k] == self@[k] by {
                lemma_map_of_domain(self.entry_seq(), k);
                let j = choose|j: int| 0 <= j < self.entry_seq().len() && #[trigger] self.entry_seq()[j].0 == k;
                lemma_map_of_value(self.entry_seq(), j);
            }
        }
        true
    }
}

} // verus!
