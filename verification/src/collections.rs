//! A set of names and a map from names to texts.
use vstd::prelude::*;
use crate::text::{chars_of, equal, reads};

verus! {

/// A set of names. No name is held twice.
#[derive(Debug)]
pub struct NameSet {
    names: Vec<String>,
}

impl View for NameSet {
    type V = Set<Seq<char>>;

    closed spec fn view(&self) -> Set<Seq<char>> {
        self.names.deep_view().to_set()
    }
}

impl DeepView for NameSet {
    type V = Set<Seq<char>>;

    open spec fn deep_view(&self) -> Set<Seq<char>> {
        self@
    }
}

impl Clone for NameSet {
    fn clone(&self) -> (r: NameSet)
        ensures
            r@ == self@,
    {
        NameSet::of(&self.names)
    }
}

impl NameSet {
    #[verifier::type_invariant]
    spec fn distinct(&self) -> bool {
        self.names.deep_view().no_duplicates()
    }

    /// The empty set.
    pub fn new() -> (r: NameSet)
        ensures
            r@ == Set::<Seq<char>>::empty(),
    {
        let names: Vec<String> = Vec::new();
        assert(names.deep_view().to_set() =~= Set::<Seq<char>>::empty());
        NameSet { names }
    }

    /// Whether a name is in the set.
    pub fn contains(&self, name: &str) -> (r: bool)
        ensures
            r == self@.contains(name@),
    {
        let wanted = chars_of(name);
        let mut i: usize = 0;
        while i < self.names.len()
            invariant
                i <= self.names.len(),
                wanted@ == name@,
                forall|j: int| 0 <= j < i ==> self.names.deep_view()[j] != name@,
            decreases self.names.len() - i,
        {
            if reads(&wanted, &self.names[i]) {
                assert(self.names.deep_view()[i as int] == name@);
                return true;
            }
            i = i + 1;
        }
        false
    }

    /// Puts a name into the set.
    pub fn insert(&mut self, name: String)
        ensures
            final(self)@ == old(self)@.insert(name@),
    {
        proof {
            use_type_invariant(&*self);
        }
        if self.contains(&name) {
            assert(self@.insert(name@) =~= self@);
            return;
        }
        let ghost before = self.names.deep_view();
        let mut names: Vec<String> = Vec::new();
        let mut i: usize = 0;
        while i < self.names.len()
            invariant
                i <= self.names.len(),
                before == self.names.deep_view(),
                *self == *old(self),
                names.deep_view() == before.take(i as int),
            decreases self.names.len() - i,
        {
            let ghost held = names.deep_view();
            names.push(self.names[i].clone());
            assert(names.deep_view() =~= held.push(before[i as int]));
            i = i + 1;
            assert(names.deep_view() =~= before.take(i as int));
        }
        assert(before.take(i as int) =~= before);
        let ghost added = name@;
        names.push(name);
        assert(names.deep_view() =~= before.push(added));
        assert(before.push(added).no_duplicates()) by {
            assert forall|a: int, b: int|
                0 <= a < before.push(added).len() && 0 <= b < before.push(added).len() && a
                    != b implies before.push(added)[a] != before.push(added)[b] by {
                if a == before.len() {
                    assert(before.contains(before[b]));
                }
                if b == before.len() {
                    assert(before.contains(before[a]));
                }
            }
        }
        assert(before.push(added).to_set() =~= before.to_set().insert(added)) by {
            assert forall|x: Seq<char>| before.to_set().insert(added).contains(x) implies before.push(
                added,
            ).to_set().contains(x) by {
                if x == added {
                    assert(before.push(added)[before.len() as int] == x);
                } else {
                    let k = choose|k: int| 0 <= k < before.len() && before[k] == x;
                    assert(before.push(added)[k] == x);
                }
            }
        }
        *self = NameSet { names };
    }

    /// How many names the set holds.
    pub fn len(&self) -> (r: usize)
        ensures
            r == self@.len(),
    {
        proof {
            use_type_invariant(self);
            self.names.deep_view().unique_seq_to_set();
        }
        self.names.len()
    }

    /// Whether the set holds nothing.
    pub fn is_empty(&self) -> (r: bool)
        ensures
            r == (self@.len() == 0),
    {
        self.len() == 0
    }

    /// The set of the names in a list.
    pub fn of(list: &Vec<String>) -> (r: NameSet)
        ensures
            r@ == list.deep_view().to_set(),
    {
        let mut out = NameSet::new();
        let mut i: usize = 0;
        assert(list.deep_view().take(0).to_set() =~= Set::<Seq<char>>::empty());
        while i < list.len()
            invariant
                i <= list.len(),
                out@ == list.deep_view().take(i as int).to_set(),
            decreases list.len() - i,
        {
            out.insert(list[i].clone());
            let ghost all = list.deep_view();
            assert(all.take(i + 1).to_set() =~= all.take(i as int).to_set().insert(all[i as int]))
                by {
                assert(all.take(i + 1) =~= all.take(i as int).push(all[i as int]));
                all.take(i as int).lemma_push_to_set_commute(all[i as int]);
            }
            i = i + 1;
        }
        assert(list.deep_view().take(i as int) =~= list.deep_view());
        out
    }
}

/// The map that a list of keys and values stands for; a later entry replaces an earlier one.
pub open spec fn map_of(entries: Seq<(Seq<char>, Seq<char>)>) -> Map<Seq<char>, Seq<char>>
    decreases entries.len(),
{
    if entries.len() == 0 {
        Map::empty()
    } else {
        map_of(entries.drop_last()).insert(entries.last().0, entries.last().1)
    }
}

/// No key occurs twice.
pub open spec fn keys_differ(entries: Seq<(Seq<char>, Seq<char>)>) -> bool {
    forall|i: int, j: int|
        0 <= i < entries.len() && 0 <= j < entries.len() && i != j ==> (#[trigger] entries[i]).0 != (
        #[trigger] entries[j]).0
}

proof fn lemma_map_of(entries: Seq<(Seq<char>, Seq<char>)>)
    requires
        keys_differ(entries),
    ensures
        forall|k: Seq<char>| #[trigger]
            map_of(entries).contains_key(k) <==> exists|i: int|
                0 <= i < entries.len() && entries[i].0 == k,
        forall|i: int|
            0 <= i < entries.len() ==> map_of(entries)[(#[trigger] entries[i]).0] == entries[i].1,
        map_of(entries).len() == entries.len(),
        map_of(entries).dom().finite(),
    decreases entries.len(),
{
    if entries.len() > 0 {
        let init = entries.drop_last();
        assert forall|i: int, j: int|
            0 <= i < init.len() && 0 <= j < init.len() && i != j implies (#[trigger] init[i]).0 != (
        #[trigger] init[j]).0 by {
            assert(entries[i].0 != entries[j].0);
        }
        lemma_map_of(init);
        assert forall|k: Seq<char>| #[trigger]
            map_of(entries).contains_key(k) <==> exists|i: int|
                0 <= i < entries.len() && entries[i].0 == k by {
            if map_of(entries).contains_key(k) {
                if k == entries.last().0 {
                    assert(entries[entries.len() - 1].0 == k);
                } else {
                    assert(map_of(init).contains_key(k));
                    let i = choose|i: int| 0 <= i < init.len() && init[i].0 == k;
                    assert(entries[i].0 == k);
                }
            }
            if exists|i: int| 0 <= i < entries.len() && entries[i].0 == k {
                let i = choose|i: int| 0 <= i < entries.len() && entries[i].0 == k;
                if i < init.len() {
                    assert(init[i].0 == k);
                    assert(map_of(init).contains_key(k));
                }
            }
        }
        assert forall|i: int| 0 <= i < entries.len() implies map_of(
            entries,
        )[(#[trigger] entries[i]).0] == entries[i].1 by {
            if i < init.len() {
                assert(init[i] == entries[i]);
                assert(entries[i].0 != entries[entries.len() - 1].0);
            }
        }
        assert(!map_of(init).contains_key(entries.last().0)) by {
            if map_of(init).contains_key(entries.last().0) {
                let i = choose|i: int| 0 <= i < init.len() && init[i].0 == entries.last().0;
                assert(entries[i].0 != entries[entries.len() - 1].0);
            }
        }
    }
}

/// A map from names to texts.
#[derive(Debug)]
pub struct TextMap {
    entries: Vec<(String, String)>,
}

impl View for TextMap {
    type V = Map<Seq<char>, Seq<char>>;

    closed spec fn view(&self) -> Map<Seq<char>, Seq<char>> {
        map_of(self.entries.deep_view())
    }
}

impl Clone for TextMap {
    fn clone(&self) -> (r: TextMap)
        ensures
            r@ == self@,
    {
        let mut out = TextMap::new();
        out.extend(self);
        assert(Map::<Seq<char>, Seq<char>>::empty().union_prefer_right(self@) =~= self@);
        out
    }
}

impl TextMap {
    #[verifier::type_invariant]
    spec fn distinct(&self) -> bool {
        keys_differ(self.entries.deep_view())
    }

    /// The empty map.
    pub fn new() -> (r: TextMap)
        ensures
            r@ == Map::<Seq<char>, Seq<char>>::empty(),
    {
        let entries: Vec<(String, String)> = Vec::new();
        TextMap { entries }
    }

    fn place(&self, key: &str) -> (r: Option<usize>)
        ensures
            r is None ==> !self@.contains_key(key@),
            r is Some ==> r->0 < self.entries.len() && self.entries.deep_view()[r->0 as int].0
                == key@ && self@.contains_key(key@) && self@[key@]
                == self.entries.deep_view()[r->0 as int].1,
    {
        proof {
            use_type_invariant(self);
            lemma_map_of(self.entries.deep_view());
        }
        let mut i: usize = 0;
        while i < self.entries.len()
            invariant
                i <= self.entries.len(),
                forall|j: int| 0 <= j < i ==> self.entries.deep_view()[j].0 != key@,
                forall|k: Seq<char>| #[trigger]
                    self@.contains_key(k) <==> exists|i: int|
                        0 <= i < self.entries.deep_view().len()
                            && self.entries.deep_view()[i].0 == k,
                forall|i: int|
                    0 <= i < self.entries.deep_view().len()
                        ==> self@[(#[trigger] self.entries.deep_view()[i]).0]
                        == self.entries.deep_view()[i].1,
            decreases self.entries.len() - i,
        {
            assert(self.entries.deep_view()[i as int].0 == self.entries@[i as int].0@);
            if equal(&self.entries[i].0, key) {
                return Some(i);
            }
            i = i + 1;
        }
        None
    }

    /// The text under a key.
    pub fn get(&self, key: &str) -> (r: Option<&String>)
        ensures
            r is Some <==> self@.contains_key(key@),
            r is Some ==> r->0@ == self@[key@],
    {
        match self.place(key) {
            Some(i) => Some(&self.entries[i].1),
            None => None,
        }
    }

    /// Whether there is a text under a key.
    pub fn contains_key(&self, key: &str) -> (r: bool)
        ensures
            r == self@.contains_key(key@),
    {
        match self.place(key) {
            Some(_) => true,
            None => false,
        }
    }

    /// Puts a text under a key, in place of the one that was there.
    pub fn insert(&mut self, key: String, value: String)
        ensures
            final(self)@ == old(self)@.insert(key@, value@),
    {
        proof {
            use_type_invariant(&*self);
        }
        let ghost old_entries = self.entries.deep_view();
        let found = self.place(&key);
        let mut entries: Vec<(String, String)> = Vec::new();
        let mut i: usize = 0;
        let ghost mut kept: Seq<(Seq<char>, Seq<char>)> = Seq::empty();
        while i < self.entries.len()
            invariant
                i <= self.entries.len(),
                *self == *old(self),
                old_entries == self.entries.deep_view(),
                keys_differ(old_entries),
                entries.deep_view() == kept,
                keys_differ(kept),
                forall|j: int| 0 <= j < kept.len() ==> (#[trigger] kept[j]).0 != key@,
                map_of(kept) == map_of(old_entries.take(i as int)).remove(key@),
                forall|j: int|
                    0 <= j < kept.len() ==> exists|k: int|
                        0 <= k < i && #[trigger] old_entries[k] == #[trigger] kept[j],
            decreases self.entries.len() - i,
        {
            let ghost all = old_entries;
            assert(all.take(i + 1).drop_last() =~= all.take(i as int));
            assert(all[i as int] == (self.entries@[i as int].0@, self.entries@[i as int].1@));
            if !equal(&self.entries[i].0, &key) {
                let ghost before = kept;
                entries.push((self.entries[i].0.clone(), self.entries[i].1.clone()));
                proof {
                    kept = before.push(all[i as int]);
                    assert(entries.deep_view() =~= kept);
                    assert forall|a: int, b: int|
                        0 <= a < kept.len() && 0 <= b < kept.len() && a != b implies (
                    #[trigger] kept[a]).0 != (#[trigger] kept[b]).0 by {
                        if a == before.len() {
                            let k = choose|k: int|
                                0 <= k < i && #[trigger] all[k] == before[b];
                            assert(all[k].0 != all[i as int].0);
                        } else if b == before.len() {
                            let k = choose|k: int|
                                0 <= k < i && #[trigger] all[k] == before[a];
                            assert(all[k].0 != all[i as int].0);
                        } else {
                            assert(before[a].0 != before[b].0);
                        }
                    }
                    assert(kept.drop_last() =~= before);
                    assert(map_of(kept) =~= map_of(all.take(i + 1)).remove(key@));
                    assert forall|j: int| 0 <= j < kept.len() implies exists|k: int|
                        0 <= k < i + 1 && #[trigger] all[k] == #[trigger] kept[j] by {
                        if j < before.len() {
                            assert(kept[j] == before[j]);
                        } else {
                            assert(all[i as int] == kept[j]);
                        }
                    }
                }
            } else {
                assert(map_of(kept) =~= map_of(all.take(i + 1)).remove(key@));
            }
            i = i + 1;
        }
        assert(old_entries.take(i as int) =~= old_entries);
        let ghost last = (key@, value@);
        entries.push((key, value));
        proof {
            let all = kept.push(last);
            assert(entries.deep_view() =~= all);
            assert(all.drop_last() =~= kept);
            assert(map_of(all) =~= map_of(old_entries).insert(last.0, last.1));
            assert forall|a: int, b: int|
                0 <= a < all.len() && 0 <= b < all.len() && a != b implies (#[trigger] all[a]).0 != (
            #[trigger] all[b]).0 by {
                if a < kept.len() && b < kept.len() {
                    assert(kept[a].0 != kept[b].0);
                } else if a < kept.len() {
                    assert(kept[a].0 != last.0);
                } else {
                    assert(kept[b].0 != last.0);
                }
            }
        }
        *self = TextMap { entries };
    }

    /// How many keys the map holds.
    pub fn len(&self) -> (r: usize)
        ensures
            r == self@.len(),
    {
        proof {
            use_type_invariant(self);
            lemma_map_of(self.entries.deep_view());
        }
        self.entries.len()
    }

    /// Whether the map holds nothing.
    pub fn is_empty(&self) -> (r: bool)
        ensures
            r == (self@.len() == 0),
    {
        self.len() == 0
    }

    /// Takes over everything of another map, in place of what was under the same keys.
    pub fn extend(&mut self, other: &TextMap)
        ensures
            final(self)@ == old(self)@.union_prefer_right(other@),
    {
        let mut i: usize = 0;
        let ghost all = other.entries.deep_view();
        assert(old(self)@.union_prefer_right(map_of(all.take(0))) =~= old(self)@);
        while i < other.entries.len()
            invariant
                i <= other.entries.len(),
                all == other.entries.deep_view(),
                self@ == old(self)@.union_prefer_right(map_of(all.take(i as int))),
            decreases other.entries.len() - i,
        {
            assert(all.take(i + 1).drop_last() =~= all.take(i as int));
            assert(all[i as int] == (other.entries@[i as int].0@, other.entries@[i as int].1@));
            self.insert(other.entries[i].0.clone(), other.entries[i].1.clone());
            assert(self@ =~= old(self)@.union_prefer_right(map_of(all.take(i + 1))));
            i = i + 1;
        }
        assert(all.take(i as int) =~= all);
    }
}

} // verus!
