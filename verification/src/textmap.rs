//! A map from texts to texts that keeps its keys in order.
use vstd::prelude::*;

use crate::text::{lemma_precedes_irreflexive, lemma_precedes_total, lemma_precedes_transitive, less,
    precedes, same};

verus! {

/// One entry of a [`TextMap`].
#[derive(Debug)]
struct TextEntry {
    key: String,
    value: String,
}

/// Whether the keys stand in strictly ascending order.
spec fn ascending(e: Seq<TextEntry>) -> bool {
    forall|i: int, j: int| 0 <= i < j < e.len() ==> precedes(
        (#[trigger] e[i]).key@,
        (#[trigger] e[j]).key@,
    )
}

/// What the entries map.
spec fn entries_map(e: Seq<TextEntry>) -> Map<Seq<char>, Seq<char>>
    decreases e.len(),
{
    if e.len() == 0 {
        Map::<Seq<char>, Seq<char>>::empty()
    } else {
        entries_map(e.drop_last()).insert(e.last().key@, e.last().value@)
    }
}

/// A map from texts to texts. Its keys stand in ascending order, each once.
#[derive(Debug)]
pub struct TextMap {
    entries: Vec<TextEntry>,
}

impl View for TextMap {
    type V = Map<Seq<char>, Seq<char>>;

    closed spec fn view(&self) -> Map<Seq<char>, Seq<char>> {
        entries_map(self.entries@)
    }
}

impl DeepView for TextMap {
    type V = Map<Seq<char>, Seq<char>>;

    open spec fn deep_view(&self) -> Map<Seq<char>, Seq<char>> {
        self@
    }
}

proof fn lemma_map_of(e: Seq<TextEntry>)
    requires
        ascending(e),
    ensures
        forall|k: Seq<char>|
            #[trigger] entries_map(e).contains_key(k) <==> exists|i: int|
                0 <= i < e.len() && (#[trigger] e[i]).key@ == k,
        forall|i: int| 0 <= i < e.len() ==> entries_map(e)[(#[trigger] e[i]).key@] == e[i].value@,
        entries_map(e).dom().finite(),
        entries_map(e).len() == e.len(),
    decreases e.len(),
{
    broadcast use vstd::map_lib::group_map_properties;

    if e.len() > 0 {
        let head = e.drop_last();
        let last = e.last();
        assert(forall|i: int| 0 <= i < head.len() ==> head[i] == e[i]);
        lemma_map_of(head);
        assert forall|i: int| 0 <= i < head.len() implies (#[trigger] e[i]).key@ != last.key@ by {
            assert(precedes(e[i].key@, e[e.len() - 1].key@));
            lemma_precedes_irreflexive(last.key@);
        }
        assert forall|k: Seq<char>|
            #[trigger] entries_map(e).contains_key(k) <==> exists|i: int|
                0 <= i < e.len() && (#[trigger] e[i]).key@ == k by {
            if entries_map(head).contains_key(k) {
                let i = choose|i: int| 0 <= i < head.len() && (#[trigger] head[i]).key@ == k;
                assert(e[i].key@ == k);
            }
            if k == last.key@ {
                assert(e[e.len() - 1].key@ == k);
            }
            if exists|i: int| 0 <= i < e.len() && (#[trigger] e[i]).key@ == k {
                let i = choose|i: int| 0 <= i < e.len() && (#[trigger] e[i]).key@ == k;
                if i < head.len() {
                    assert(head[i].key@ == k);
                }
            }
        }
        assert(!entries_map(head).contains_key(last.key@)) by {
            if entries_map(head).contains_key(last.key@) {
                let i = choose|i: int|
                    0 <= i < head.len() && (#[trigger] head[i]).key@ == last.key@;
                assert(e[i].key@ == last.key@);
            }
        }
        assert forall|i: int| 0 <= i < e.len() implies entries_map(e)[(#[trigger] e[i]).key@]
            == e[i].value@ by {
            if i < head.len() {
                assert(entries_map(head)[head[i].key@] == head[i].value@);
            }
        }
        assert(entries_map(e).dom() =~= entries_map(head).dom().insert(last.key@));
    }
}

fn copy_entries(entries: &Vec<TextEntry>) -> (out: Vec<TextEntry>)
    ensures
        out@ == entries@,
{
    let mut out: Vec<TextEntry> = Vec::new();
    let mut i: usize = 0;
    while i < entries.len()
        invariant
            i <= entries@.len(),
            out@ == entries@.take(i as int),
        decreases entries@.len() - i,
    {
        let key = entries[i].key.clone();
        let value = entries[i].value.clone();
        out.push(TextEntry { key, value });
        i += 1;
    }
    assert(out@ =~= entries@);
    out
}

impl TextMap {
    #[verifier::type_invariant]
    spec fn in_order(self) -> bool {
        ascending(self.entries@)
    }

    /// The keys in ascending order.
    pub closed spec fn keys(&self) -> Seq<Seq<char>> {
        Seq::new(self.entries@.len(), |i: int| self.entries@[i].key@)
    }

    /// The empty map.
    pub fn new() -> (r: TextMap)
        ensures
            r@ == Map::<Seq<char>, Seq<char>>::empty(),
            r.keys().len() == 0,
    {
        TextMap { entries: Vec::new() }
    }

    /// How many entries there are.
    pub fn len(&self) -> (r: usize)
        ensures
            r == self@.len(),
            r == self.keys().len(),
            forall|i: int, j: int|
                0 <= i < j < self.keys().len() ==> precedes(
                    #[trigger] self.keys()[i],
                    #[trigger] self.keys()[j],
                ),
            forall|k: Seq<char>| #[trigger] self@.contains_key(k) <==> self.keys().contains(k),
    {
        proof {
            use_type_invariant(self);
            lemma_map_of(self.entries@);
            assert forall|k: Seq<char>| #[trigger] self@.contains_key(k) <==> self.keys().contains(
                k,
            ) by {
                if self@.contains_key(k) {
                    let i = choose|i: int|
                        0 <= i < self.entries@.len() && (#[trigger] self.entries@[i]).key@ == k;
                    assert(self.keys()[i] == k);
                }
                if self.keys().contains(k) {
                    let i = choose|i: int| 0 <= i < self.keys().len() && self.keys()[i] == k;
                    assert(self.entries@[i].key@ == k);
                }
            }
        }
        self.entries.len()
    }

    /// The key at position `i` in ascending order.
    pub fn key_at(&self, i: usize) -> (r: &str)
        requires
            i < self.keys().len(),
        ensures
            r@ == self.keys()[i as int],
            self@.contains_key(r@),
    {
        proof {
            use_type_invariant(self);
            lemma_map_of(self.entries@);
        }
        self.entries[i].key.as_str()
    }

    /// The first position whose key is not before `key`.
    fn slot(&self, key: &str) -> (r: usize)
        ensures
            r <= self.entries@.len(),
            forall|i: int| 0 <= i < r ==> precedes((#[trigger] self.entries@[i]).key@, key@),
            forall|i: int|
                r <= i < self.entries@.len() ==> !precedes(
                    (#[trigger] self.entries@[i]).key@,
                    key@,
                ),
    {
        proof {
            use_type_invariant(self);
        }
        let mut i: usize = 0;
        while i < self.entries.len() && less(self.entries[i].key.as_str(), key)
            invariant
                i <= self.entries@.len(),
                forall|j: int| 0 <= j < i ==> precedes((#[trigger] self.entries@[j]).key@, key@),
            decreases self.entries@.len() - i,
        {
            i += 1;
        }
        proof {
            assert forall|j: int| i <= j < self.entries@.len() implies !precedes(
                (#[trigger] self.entries@[j]).key@,
                key@,
            ) by {
                if precedes(self.entries@[j].key@, key@) && j > i {
                    assert(precedes(self.entries@[i as int].key@, self.entries@[j].key@));
                    lemma_precedes_transitive(
                        self.entries@[i as int].key@,
                        self.entries@[j].key@,
                        key@,
                    );
                }
            }
        }
        i
    }

    /// The value of a key.
    pub fn get(&self, key: &str) -> (r: Option<&str>)
        ensures
            match r {
                Some(v) => self@.contains_key(key@) && self@[key@] == v@,
                None => !self@.contains_key(key@),
            },
    {
        proof {
            use_type_invariant(self);
            lemma_map_of(self.entries@);
            lemma_precedes_irreflexive(key@);
        }
        let i: usize = self.slot(key);
        if i < self.entries.len() && same(self.entries[i].key.as_str(), key) {
            Some(self.entries[i].value.as_str())
        } else {
            proof {
                if self@.contains_key(key@) {
                    let j = choose|j: int|
                        0 <= j < self.entries@.len() && (#[trigger] self.entries@[j]).key@ == key@;
                    assert(j > i);
                    assert(precedes(self.entries@[i as int].key@, self.entries@[j].key@));
                }
            }
            None
        }
    }

    /// Whether the map has a value for a key.
    pub fn contains_key(&self, key: &str) -> (r: bool)
        ensures
            r == self@.contains_key(key@),
    {
        self.get(key).is_some()
    }

    /// Sets the value of a key, replacing an earlier one.
    pub fn insert(&mut self, key: &str, value: &str)
        ensures
            final(self)@ == old(self)@.insert(key@, value@),
    {
        proof {
            use_type_invariant(&*self);
            lemma_map_of(self.entries@);
            lemma_precedes_irreflexive(key@);
        }
        let i: usize = self.slot(key);
        let entry = TextEntry { key: key.to_string(), value: value.to_string() };
        let ghost old_e = self.entries@;
        let replace = i < self.entries.len() && same(self.entries[i].key.as_str(), key);
        let ghost new_e = if replace {
            old_e.update(i as int, entry)
        } else {
            old_e.insert(i as int, entry)
        };
        proof {
            assert(ascending(new_e)) by {
                if !replace && i < old_e.len() {
                    lemma_precedes_total(old_e[i as int].key@, key@);
                    assert forall|j: int| i <= j < old_e.len() implies precedes(
                        key@,
                        (#[trigger] old_e[j]).key@,
                    ) by {
                        if j > i {
                            assert(precedes(old_e[i as int].key@, old_e[j].key@));
                            lemma_precedes_transitive(key@, old_e[i as int].key@, old_e[j].key@);
                        }
                    }
                }
            }
            lemma_map_of(new_e);
            let m = entries_map(new_e);
            let want = entries_map(old_e).insert(key@, value@);
            assert(new_e[i as int] == entry);
            assert forall|k: Seq<char>| #[trigger] m.contains_key(k) == want.contains_key(k) by {
                if m.contains_key(k) {
                    let j = choose|j: int| 0 <= j < new_e.len() && (#[trigger] new_e[j]).key@ == k;
                    if j != i {
                        let b = if replace || j < i {
                            j
                        } else {
                            j - 1
                        };
                        assert(new_e[j] == old_e[b]);
                    }
                }
                if want.contains_key(k) && k != key@ {
                    let j = choose|j: int| 0 <= j < old_e.len() && (#[trigger] old_e[j]).key@ == k;
                    let b = if replace || j < i {
                        j
                    } else {
                        j + 1
                    };
                    assert(new_e[b] == old_e[j]);
                }
            }
            assert forall|k: Seq<char>| #[trigger] m.contains_key(k) implies m[k] == want[k] by {
                let j = choose|j: int| 0 <= j < new_e.len() && (#[trigger] new_e[j]).key@ == k;
                assert(m[new_e[j].key@] == new_e[j].value@);
                if j != i {
                    let b = if replace || j < i {
                        j
                    } else {
                        j - 1
                    };
                    assert(new_e[j] == old_e[b]);
                    assert(k != key@) by {
                        if k == key@ {
                            assert(precedes(new_e[j].key@, new_e[i as int].key@) || precedes(
                                new_e[i as int].key@,
                                new_e[j].key@,
                            ));
                        }
                    }
                }
            }
            assert(m =~= want);
        }
        let mut entries = copy_entries(&self.entries);
        if replace {
            entries.set(i, entry);
        } else {
            entries.insert(i, entry);
        }
        *self = TextMap { entries };
    }
}

impl Clone for TextMap {
    fn clone(&self) -> (r: Self)
        ensures
            r@ == self@,
            r.keys() == self.keys(),
    {
        proof {
            use_type_invariant(self);
        }
        let out = copy_entries(&self.entries);
        TextMap { entries: out }
    }
}

} // verus!
