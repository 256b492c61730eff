//! The attributes of a tag: an insertion-ordered mapping from attribute name
//! to attribute value in which every name occurs at most once.

use vstd::prelude::*;

verus! {

/// One attribute as pure data: its name and its value.
pub type Pair = (Seq<char>, Seq<char>);

/// No two entries carry the same name.
pub open spec fn distinct_keys(entries: Seq<Pair>) -> bool {
    forall|i: int, j: int|
        0 <= i < j < entries.len() ==> (#[trigger] entries[i]).0 != (#[trigger] entries[j]).0
}

/// Some entry carries the name `key`.
pub open spec fn has_key(entries: Seq<Pair>, key: Seq<char>) -> bool {
    exists|i: int| 0 <= i < entries.len() && (#[trigger] entries[i]).0 == key
}

/// The position of an entry named `key`; meaningful when there is one.
pub open spec fn index_of(entries: Seq<Pair>, key: Seq<char>) -> int {
    choose|i: int| 0 <= i < entries.len() && (#[trigger] entries[i]).0 == key
}

/// The value stored under `key`, if any.
pub open spec fn lookup(entries: Seq<Pair>, key: Seq<char>) -> Option<Seq<char>> {
    if has_key(entries, key) {
        Some(entries[index_of(entries, key)].1)
    } else {
        None
    }
}

/// Writing `value` under `key`: an existing entry keeps its place and takes
/// the new value, a new name goes to the end.
pub open spec fn put(entries: Seq<Pair>, key: Seq<char>, value: Seq<char>) -> Seq<Pair> {
    if has_key(entries, key) {
        entries.update(index_of(entries, key), (key, value))
    } else {
        entries.push((key, value))
    }
}

/// Writing every entry of `extra`, in order, on top of `base`.
pub open spec fn put_all(base: Seq<Pair>, extra: Seq<Pair>) -> Seq<Pair>
    decreases extra.len(),
{
    if extra.len() == 0 {
        base
    } else {
        let last = extra.last();
        put(put_all(base, extra.drop_last()), last.0, last.1)
    }
}

/// The entries as an unordered mapping.
pub open spec fn as_map(entries: Seq<Pair>) -> Map<Seq<char>, Seq<char>> {
    Map::new(|key: Seq<char>| has_key(entries, key), |key: Seq<char>| lookup(entries, key)->0)
}

/// With distinct names, the entry at a position is the one found by its name.
pub proof fn lemma_index_of_entry(entries: Seq<Pair>, i: int)
    requires
        distinct_keys(entries),
        0 <= i < entries.len(),
    ensures
        has_key(entries, entries[i].0),
        index_of(entries, entries[i].0) == i,
        lookup(entries, entries[i].0) == Some(entries[i].1),
{
    let key = entries[i].0;
    assert(has_key(entries, key));
    let j = index_of(entries, key);
    assert(0 <= j < entries.len() && entries[j].0 == key);
    if j != i {
        if j < i {
            assert(entries[j].0 != entries[i].0);
        } else {
            assert(entries[i].0 != entries[j].0);
        }
    }
}

/// Writing an entry keeps the names distinct.
pub proof fn lemma_put_distinct(entries: Seq<Pair>, key: Seq<char>, value: Seq<char>)
    requires
        distinct_keys(entries),
    ensures
        distinct_keys(put(entries, key, value)),
{
    let after = put(entries, key, value);
    if has_key(entries, key) {
        let at = index_of(entries, key);
        assert forall|i: int, j: int| 0 <= i < j < after.len() implies (#[trigger] after[i]).0 != (
        #[trigger] after[j]).0 by {
            assert(after[i].0 == entries[i].0);
            assert(after[j].0 == entries[j].0);
        }
    } else {
        assert forall|i: int, j: int| 0 <= i < j < after.len() implies (#[trigger] after[i]).0 != (
        #[trigger] after[j]).0 by {
            if j == entries.len() {
                assert(entries[i].0 != key);
            } else {
                assert(after[i].0 == entries[i].0);
                assert(after[j].0 == entries[j].0);
            }
        }
    }
}

/// As a mapping, writing an entry is insertion: the last write wins.
pub proof fn lemma_put_as_map(entries: Seq<Pair>, key: Seq<char>, value: Seq<char>)
    requires
        distinct_keys(entries),
    ensures
        as_map(put(entries, key, value)) == as_map(entries).insert(key, value),
{
    let after = put(entries, key, value);
    lemma_put_distinct(entries, key, value);
    let at = if has_key(entries, key) { index_of(entries, key) } else { entries.len() as int };
    assert(after[at] == (key, value));
    assert(after.len() == if has_key(entries, key) { entries.len() } else { entries.len() + 1 });
    assert forall|k: Seq<char>| has_key(after, k) <==> (k == key || has_key(entries, k)) by {
        if has_key(after, k) {
            let i = index_of(after, k);
            if i != at {
                assert(entries[i].0 == k);
            }
        }
        if k == key {
            assert(after[at].0 == k);
        } else if has_key(entries, k) {
            let i = index_of(entries, k);
            assert(after[i].0 == k);
        }
    }
    assert forall|k: Seq<char>| has_key(after, k) implies lookup(after, k) == (if k == key {
        Some(value)
    } else {
        lookup(entries, k)
    }) by {
        let i = index_of(after, k);
        lemma_index_of_entry(after, i);
        if k == key {
            lemma_index_of_entry(after, at);
        } else {
            assert(entries[i] == after[i]);
            lemma_index_of_entry(entries, i);
        }
    }
    assert(as_map(after) =~= as_map(entries).insert(key, value));
}

/// Writing entries on top of distinct names leaves the names distinct.
pub proof fn lemma_put_all_distinct(base: Seq<Pair>, extra: Seq<Pair>)
    requires
        distinct_keys(base),
    ensures
        distinct_keys(put_all(base, extra)),
    decreases extra.len(),
{
    if extra.len() > 0 {
        lemma_put_all_distinct(base, extra.drop_last());
        lemma_put_distinct(put_all(base, extra.drop_last()), extra.last().0, extra.last().1);
    }
}

/// As mappings, writing `extra` on top of `base` is the union of the two in
/// which `extra` wins wherever both have a name.
pub proof fn lemma_put_all_as_map(base: Seq<Pair>, extra: Seq<Pair>)
    requires
        distinct_keys(base),
        distinct_keys(extra),
    ensures
        as_map(put_all(base, extra)) == as_map(base).union_prefer_right(as_map(extra)),
    decreases extra.len(),
{
    if extra.len() == 0 {
        assert(as_map(extra) =~= Map::<Seq<char>, Seq<char>>::empty());
        assert(as_map(base) =~= as_map(base).union_prefer_right(as_map(extra)));
    } else {
        let front = extra.drop_last();
        let last = extra.last();
        assert(distinct_keys(front)) by {
            assert forall|i: int, j: int| 0 <= i < j < front.len() implies (#[trigger] front[i]).0
                != (#[trigger] front[j]).0 by {
                assert(front[i] == extra[i] && front[j] == extra[j]);
            }
        }
        assert(!has_key(front, last.0)) by {
            if has_key(front, last.0) {
                let i = index_of(front, last.0);
                assert(extra[i].0 != extra[extra.len() - 1].0);
            }
        }
        assert(put(front, last.0, last.1) =~= extra);
        lemma_put_as_map(front, last.0, last.1);
        lemma_put_all_as_map(base, front);
        lemma_put_all_distinct(base, front);
        lemma_put_as_map(put_all(base, front), last.0, last.1);
        assert(as_map(put_all(base, extra)) =~= as_map(base).union_prefer_right(as_map(extra)));
    }
}

/// The attributes of one tag.
///
/// Entries keep the order in which their names were first written; writing a
/// name again replaces its value in place.
pub struct Attributes {
    entries: Vec<(String, String)>,
}

impl View for Attributes {
    type V = Seq<Pair>;

    closed spec fn view(&self) -> Seq<Pair> {
        self.entries@.map_values(|entry: (String, String)| (entry.0@, entry.1@))
    }
}

impl Attributes {
    /// What holds of every value of this type: no name occurs twice.
    #[verifier::type_invariant]
    pub open spec fn well_formed(&self) -> bool {
        distinct_keys(self@)
    }

    /// An empty set of attributes.
    pub fn new() -> (attributes: Attributes)
        ensures
            attributes@ == Seq::<Pair>::empty(),
    {
        let attributes = Attributes { entries: Vec::new() };
        assert(attributes@ =~= Seq::<Pair>::empty());
        attributes
    }

    /// The number of attributes.
    pub fn len(&self) -> (count: usize)
        ensures
            count == self@.len(),
    {
        self.entries.len()
    }

    /// The name and the value of the attribute at `index`.
    pub fn entry(&self, index: usize) -> (pair: (&str, &str))
        requires
            index < self@.len(),
        ensures
            pair.0@ == self@[index as int].0,
            pair.1@ == self@[index as int].1,
    {
        let entry = &self.entries[index];
        (entry.0.as_str(), entry.1.as_str())
    }

    /// The position of the attribute named `key`, if there is one.
    fn position(&self, key: &String) -> (found: Option<usize>)
        ensures
            match found {
                Some(at) => at < self@.len() && self@[at as int].0 == key@,
                None => !has_key(self@, key@),
            },
    {
        let mut at: usize = 0;
        while at < self.entries.len()
            invariant
                at <= self.entries.len(),
                forall|i: int| 0 <= i < at ==> (#[trigger] self@[i]).0 != key@,
            decreases self.entries.len() - at,
        {
            if self.entries[at].0 == *key {
                return Some(at);
            }
            at = at + 1;
        }
        None
    }

    /// The value of the attribute named `key`, if there is one.
    pub fn get(&self, key: &str) -> (value: Option<&str>)
        ensures
            match value {
                Some(text) => lookup(self@, key@) == Some(text@),
                None => lookup(self@, key@) is None,
            },
    {
        let wanted = key.to_owned();
        match self.position(&wanted) {
            Some(at) => {
                proof {
                    use_type_invariant(self);
                    lemma_index_of_entry(self@, at as int);
                }
                Some(self.entries[at].1.as_str())
            },
            None => None,
        }
    }

    /// Writes `value` under the name `key`, replacing the value of an
    /// attribute that already has this name.
    pub fn insert(&mut self, key: String, value: String)
        ensures
            final(self)@ == put(old(self)@, key@, value@),
            distinct_keys(final(self)@),
    {
        proof {
            use_type_invariant(&*self);
            lemma_put_distinct(self@, key@, value@);
        }
        let found = self.position(&key);
        let mut entries: Vec<(String, String)> = Vec::new();
        std::mem::swap(&mut entries, &mut self.entries);
        match found {
            Some(at) => {
                proof {
                    lemma_index_of_entry(old(self)@, at as int);
                }
                entries.set(at, (key, value));
            },
            None => {
                entries.push((key, value));
            },
        }
        assert(entries@.map_values(|entry: (String, String)| (entry.0@, entry.1@)) =~= put(
            old(self)@,
            key@,
            value@,
        ));
        self.entries = entries;
    }

    /// Writes every attribute of `other`, in its order, on top of these: a
    /// name that both have ends with the value from `other`.
    pub fn extend(&mut self, other: &Attributes)
        ensures
            final(self)@ == put_all(old(self)@, other@),
    {
        let count = other.len();
        let mut done: usize = 0;
        while done < count
            invariant
                done <= count,
                count == other@.len(),
                self@ == put_all(old(self)@, other@.take(done as int)),
            decreases count - done,
        {
            let (key, value) = other.entry(done);
            proof {
                assert(other@.take(done + 1).drop_last() =~= other@.take(done as int));
            }
            self.insert(key.to_owned(), value.to_owned());
            done = done + 1;
        }
        assert(other@.take(count as int) =~= other@);
    }
}

} // verus!
