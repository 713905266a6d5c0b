//! The in-memory alias store: a collection of entries keyed by unique name,
//! with insert-if-absent, remove, lookup and tag search.

use vstd::prelude::*;

use crate::entry::Entry;
use crate::entry::EntryView;
use crate::entry::StoreError;

verus! {

/// No two entries share a name.
pub open spec fn names_unique(s: Seq<EntryView>) -> bool {
    forall|i: int, j: int| 0 <= i < j < s.len() ==> s[i].name != s[j].name
}

/// The first entry named `name`, if any.
pub open spec fn seq_find(s: Seq<EntryView>, name: Seq<char>) -> Option<EntryView>
    decreases s.len(),
{
    if s.len() == 0 {
        None
    } else if s[0].name == name {
        Some(s[0])
    } else {
        seq_find(s.drop_first(), name)
    }
}

/// The sequence with the first entry named `name` taken out.
pub open spec fn remove_first(s: Seq<EntryView>, name: Seq<char>) -> Seq<EntryView>
    decreases s.len(),
{
    if s.len() == 0 {
        s
    } else if s[0].name == name {
        s.drop_first()
    } else {
        seq![s[0]] + remove_first(s.drop_first(), name)
    }
}

/// The sequence with `e` written over the first entry of the same name,
/// or appended when the name is absent.
pub open spec fn upsert_seq(s: Seq<EntryView>, e: EntryView) -> Seq<EntryView>
    decreases s.len(),
{
    if s.len() == 0 {
        s.push(e)
    } else if s[0].name == e.name {
        seq![e] + s.drop_first()
    } else {
        seq![s[0]] + upsert_seq(s.drop_first(), e)
    }
}

/// Some tag of the entry equals, character for character, some search tag.
pub open spec fn tags_match(tags: Seq<Seq<char>>, search: Seq<Seq<char>>) -> bool {
    exists|i: int, j: int|
        0 <= i < tags.len() && 0 <= j < search.len() && tags[i] == search[j]
}

/// The names of the entries with a matching tag, one occurrence each,
/// in store order.
pub open spec fn matching_names(s: Seq<EntryView>, search: Seq<Seq<char>>) -> Seq<Seq<char>>
    decreases s.len(),
{
    if s.len() == 0 {
        Seq::empty()
    } else {
        let rest = matching_names(s.drop_last(), search);
        if tags_match(s.last().tags, search) {
            rest.push(s.last().name)
        } else {
            rest
        }
    }
}

/// `seq_find` misses exactly when no entry bears the name.
proof fn lemma_find_none(s: Seq<EntryView>, name: Seq<char>)
    ensures
        (seq_find(s, name) is None) <==> (forall|j: int|
            0 <= j < s.len() ==> s[j].name != name),
    decreases s.len(),
{
    if s.len() > 0 {
        lemma_find_none(s.drop_first(), name);
        if s[0].name != name {
            assert forall|j: int| 0 <= j < s.len() && s[j].name == name implies exists|k: int|
                0 <= k < s.drop_first().len() && s.drop_first()[k].name == name by {
                assert(s.drop_first()[j - 1] == s[j]);
            }
        }
    }
}

/// `seq_find` returns the entry at the first index bearing the name.
proof fn lemma_find_at(s: Seq<EntryView>, name: Seq<char>, i: int)
    requires
        0 <= i < s.len(),
        s[i].name == name,
        forall|j: int| 0 <= j < i ==> s[j].name != name,
    ensures
        seq_find(s, name) == Some(s[i]),
    decreases i,
{
    if i > 0 {
        lemma_find_at(s.drop_first(), name, i - 1);
        assert(s.drop_first()[i - 1] == s[i]);
    }
}

/// `remove_first` takes out the entry at the first index bearing the name.
proof fn lemma_remove_first_at(s: Seq<EntryView>, name: Seq<char>, i: int)
    requires
        0 <= i < s.len(),
        s[i].name == name,
        forall|j: int| 0 <= j < i ==> s[j].name != name,
    ensures
        remove_first(s, name) == s.remove(i),
    decreases i,
{
    if i == 0 {
        assert(remove_first(s, name) =~= s.remove(0));
    } else {
        lemma_remove_first_at(s.drop_first(), name, i - 1);
        assert(remove_first(s, name) =~= s.remove(i)) by {
            assert(s.drop_first()[i - 1] == s[i]);
            assert(remove_first(s, name) == seq![s[0]] + s.drop_first().remove(i - 1));
            assert forall|a: int| 0 <= a < s.remove(i).len() implies (seq![s[0]]
                + s.drop_first().remove(i - 1))[a] == s.remove(i)[a] by {
                if a > 0 {
                    if a < i {
                        assert(s.drop_first().remove(i - 1)[a - 1] == s.drop_first()[a - 1]);
                    } else {
                        assert(s.drop_first().remove(i - 1)[a - 1] == s.drop_first()[a]);
                    }
                }
            }
        }
    }
}

/// `upsert_seq` writes over the entry at the first index bearing the name.
proof fn lemma_upsert_at(s: Seq<EntryView>, e: EntryView, i: int)
    requires
        0 <= i < s.len(),
        s[i].name == e.name,
        forall|j: int| 0 <= j < i ==> s[j].name != e.name,
    ensures
        upsert_seq(s, e) == s.update(i, e),
    decreases i,
{
    if i == 0 {
        assert(upsert_seq(s, e) =~= s.update(0, e));
    } else {
        lemma_upsert_at(s.drop_first(), e, i - 1);
        assert(s.drop_first()[i - 1] == s[i]);
        assert(upsert_seq(s, e) =~= s.update(i, e)) by {
            assert forall|a: int| 0 <= a < s.update(i, e).len() implies (seq![s[0]]
                + s.drop_first().update(i - 1, e))[a] == s.update(i, e)[a] by {
                if a > 0 {
                    assert(s.drop_first().update(i - 1, e)[a - 1] == if a == i {
                        e
                    } else {
                        s.drop_first()[a - 1]
                    });
                }
            }
        }
    }
}

/// On an absent name, `upsert_seq` appends.
pub(crate) proof fn lemma_upsert_absent(s: Seq<EntryView>, e: EntryView)
    requires
        forall|j: int| 0 <= j < s.len() ==> s[j].name != e.name,
    ensures
        upsert_seq(s, e) == s.push(e),
    decreases s.len(),
{
    if s.len() > 0 {
        assert forall|j: int| 0 <= j < s.drop_first().len() implies s.drop_first()[j].name
            != e.name by {
            assert(s.drop_first()[j] == s[j + 1]);
        }
        lemma_upsert_absent(s.drop_first(), e);
        assert(upsert_seq(s, e) =~= s.push(e)) by {
            assert forall|a: int| 0 <= a < s.push(e).len() implies (seq![s[0]]
                + s.drop_first().push(e))[a] == s.push(e)[a] by {
                if 0 < a < s.len() {
                    assert(s.drop_first().push(e)[a - 1] == s[a]);
                }
            }
        }
    }
}

/// Taking one entry out keeps the remaining names unique.
proof fn lemma_unique_remove(s: Seq<EntryView>, i: int)
    requires
        names_unique(s),
        0 <= i < s.len(),
    ensures
        names_unique(s.remove(i)),
{
    assert forall|a: int, b: int| 0 <= a < b < s.remove(i).len() implies s.remove(i)[a].name
        != s.remove(i)[b].name by {
        let a0 = if a < i { a } else { a + 1 };
        let b0 = if b < i { b } else { b + 1 };
        assert(s.remove(i)[a] == s[a0]);
        assert(s.remove(i)[b] == s[b0]);
    }
}

/// The least index bearing `name`, when some index does.
proof fn first_index_of(s: Seq<EntryView>, name: Seq<char>) -> (i: int)
    requires
        exists|j: int| 0 <= j < s.len() && s[j].name == name,
    ensures
        0 <= i < s.len(),
        s[i].name == name,
        forall|j: int| 0 <= j < i ==> s[j].name != name,
    decreases s.len(),
{
    if s[0].name == name {
        0
    } else {
        let j = choose|j: int| 0 <= j < s.len() && s[j].name == name;
        assert(s.drop_first()[j - 1] == s[j]);
        let k = first_index_of(s.drop_first(), name);
        assert forall|j2: int| 0 <= j2 < k + 1 implies s[j2].name != name by {
            if j2 > 0 {
                assert(s[j2] == s.drop_first()[j2 - 1]);
            }
        }
        k + 1
    }
}

/// Law: after a successful insert, the inserted name looks up to the
/// inserted entry and the names stay unique, so `insert_if_absent`'s
/// contract rejects a second insert under the same name and leaves the
/// first entry in place.
pub proof fn lemma_insert_then_get(s: Seq<EntryView>, e: EntryView)
    requires
        names_unique(s),
        seq_find(s, e.name) is None,
    ensures
        seq_find(s.push(e), e.name) == Some(e),
        names_unique(s.push(e)),
{
    lemma_find_none(s, e.name);
    assert forall|j: int| 0 <= j < s.len() implies s.push(e)[j].name != e.name by {
        assert(s.push(e)[j] == s[j]);
    }
    lemma_find_at(s.push(e), e.name, s.len() as int);
}

/// Law: removing a present name returns to a store of unique names, one
/// entry shorter, where the name no longer looks up to anything.
pub proof fn lemma_remove_then_get(s: Seq<EntryView>, name: Seq<char>)
    requires
        names_unique(s),
        !(seq_find(s, name) is None),
    ensures
        seq_find(remove_first(s, name), name) is None,
        names_unique(remove_first(s, name)),
        remove_first(s, name).len() == s.len() - 1,
{
    lemma_find_none(s, name);
    let i = first_index_of(s, name);
    lemma_remove_first_at(s, name, i);
    lemma_unique_remove(s, i);
    assert forall|a: int| 0 <= a < s.remove(i).len() implies s.remove(i)[a].name != name by {
        let a0 = if a < i { a } else { a + 1 };
        assert(s.remove(i)[a] == s[a0]);
    }
    lemma_find_none(s.remove(i), name);
}

/// Law: a name is reported by the tag search exactly when some entry
/// bears it and one of that entry's tags equals one of the search tags.
pub proof fn lemma_matching_names_iff(
    s: Seq<EntryView>,
    search: Seq<Seq<char>>,
    name: Seq<char>,
)
    ensures
        matching_names(s, search).contains(name) <==> exists|i: int|
            0 <= i < s.len() && s[i].name == name && tags_match(s[i].tags, search),
    decreases s.len(),
{
    if s.len() == 0 {
    } else {
        lemma_matching_names_iff(s.drop_last(), search, name);
        let rest = matching_names(s.drop_last(), search);
        if tags_match(s.last().tags, search) {
            assert(matching_names(s, search) == rest.push(s.last().name));
            assert(rest.push(s.last().name).contains(name) <==> (rest.contains(name) || name
                == s.last().name)) by {
                if rest.contains(name) {
                    let a = choose|a: int| 0 <= a < rest.len() && rest[a] == name;
                    assert(rest.push(s.last().name)[a] == name);
                }
                if name == s.last().name {
                    assert(rest.push(s.last().name)[rest.len() as int] == name);
                }
                if rest.push(s.last().name).contains(name) {
                    let a = choose|a: int|
                        0 <= a < rest.len() + 1 && rest.push(s.last().name)[a] == name;
                    if a < rest.len() {
                        assert(rest[a] == name);
                    }
                }
            }
        }
        assert forall|i: int|
            0 <= i < s.drop_last().len() implies s.drop_last()[i] == s[i] by {}
        if exists|i: int| 0 <= i < s.len() && s[i].name == name && tags_match(s[i].tags, search) {
            let i = choose|i: int|
                0 <= i < s.len() && s[i].name == name && tags_match(s[i].tags, search);
            if i < s.len() - 1 {
                assert(s.drop_last()[i] == s[i]);
            }
        }
    }
}

/// Law: with no search tags, the tag search reports nothing.
pub proof fn lemma_empty_search(s: Seq<EntryView>)
    ensures
        matching_names(s, Seq::<Seq<char>>::empty()) =~= Seq::<Seq<char>>::empty(),
    decreases s.len(),
{
    if s.len() > 0 {
        lemma_empty_search(s.drop_last());
    }
}

/// True when some tag in `tags` equals some element of `search`.
fn has_matching_tag(tags: &Vec<String>, search: &Vec<String>) -> (b: bool)
    ensures
        b == tags_match(tags.deep_view(), search.deep_view()),
{
    let mut i: usize = 0;
    while i < tags.len()
        invariant
            i <= tags@.len(),
            forall|a: int, b: int|
                0 <= a < i && 0 <= b < search@.len() ==> tags.deep_view()[a]
                    != search.deep_view()[b],
        decreases tags@.len() - i,
    {
        let mut j: usize = 0;
        while j < search.len()
            invariant
                i < tags@.len(),
                j <= search@.len(),
                forall|b: int| 0 <= b < j ==> tags.deep_view()[i as int] != search.deep_view()[b],
            decreases search@.len() - j,
        {
            if tags[i].eq(&search[j]) {
                proof {
                    assert(tags.deep_view()[i as int] == search.deep_view()[j as int]);
                }
                return true;
            }
            j = j + 1;
        }
        i = i + 1;
    }
    false
}

/// The store: entries in insertion order, names unique.
pub struct AliasStore {
    entries: Vec<Entry>,
}

impl View for AliasStore {
    type V = Seq<EntryView>;

    closed spec fn view(&self) -> Seq<EntryView> {
        Seq::new(self.entries@.len(), |i: int| self.entries@[i]@)
    }
}

impl AliasStore {
    /// The store's invariant: entry names are pairwise distinct.
    pub open spec fn wf(&self) -> bool {
        names_unique(self@)
    }

    /// An empty store.
    pub fn new() -> (s: AliasStore)
        ensures
            s@ == Seq::<EntryView>::empty(),
            s.wf(),
    {
        let s = AliasStore { entries: Vec::new() };
        proof {
            assert(s@ =~= Seq::<EntryView>::empty());
        }
        s
    }

    /// How many entries the store holds.
    pub fn len(&self) -> (n: usize)
        ensures
            n == self@.len(),
    {
        self.entries.len()
    }

    /// The entry at a position, in insertion order.
    pub fn entry_at(&self, i: usize) -> (r: &Entry)
        requires
            i < self@.len(),
        ensures
            r@ == self@[i as int],
    {
        &self.entries[i]
    }

    /// The index of the first entry named `name`, with nothing before it
    /// bearing that name.
    fn position_of(&self, name: &str) -> (r: Option<usize>)
        ensures
            match r {
                Some(i) => i < self@.len() && self@[i as int].name == name@ && (forall|j: int|
                    0 <= j < i ==> self@[j].name != name@),
                None => forall|j: int| 0 <= j < self@.len() ==> self@[j].name != name@,
            },
    {
        let key: String = name.to_owned();
        let mut i: usize = 0;
        while i < self.entries.len()
            invariant
                i <= self@.len(),
                self@.len() == self.entries@.len(),
                key@ == name@,
                forall|j: int| 0 <= j < i ==> self@[j].name != name@,
            decreases self@.len() - i,
        {
            let e = &self.entries[i];
            if e.name.eq(&key) {
                return Some(i);
            }
            i = i + 1;
        }
        None
    }

    /// Pure lookup: the entry under `name`, if present.
    pub fn get(&self, name: &str) -> (r: Option<&Entry>)
        ensures
            match r {
                Some(e) => seq_find(self@, name@) == Some(e@),
                None => seq_find(self@, name@) is None,
            },
    {
        match self.position_of(name) {
            Some(i) => {
                proof {
                    lemma_find_at(self@, name@, i as int);
                }
                Some(&self.entries[i])
            },
            None => {
                proof {
                    lemma_find_none(self@, name@);
                }
                None
            },
        }
    }

    /// Adds `e` under its own name only if that name is not yet present;
    /// a duplicate is rejected and the store left unchanged.
    pub fn insert_if_absent(&mut self, e: Entry) -> (r: Result<(), StoreError>)
        requires
            old(self).wf(),
        ensures
            final(self).wf(),
            match r {
                Ok(_) => seq_find(old(self)@, e@.name) is None && final(self)@ == old(
                    self,
                )@.push(e@),
                Err(err) => err == StoreError::DuplicateName && !(seq_find(old(self)@, e@.name)
                    is None) && final(self)@ == old(self)@,
            },
    {
        match self.position_of(e.name.as_str()) {
            Some(i) => {
                proof {
                    lemma_find_at(self@, e@.name, i as int);
                }
                Err(StoreError::DuplicateName)
            },
            None => {
                proof {
                    lemma_find_none(self@, e@.name);
                }
                self.entries.push(e);
                proof {
                    assert(self@ =~= old(self)@.push(e@));
                }
                Ok(())
            },
        }
    }

    /// Removes and returns the entry under `name`; an absent name is
    /// rejected and the store left unchanged.
    pub fn remove(&mut self, name: &str) -> (r: Result<Entry, StoreError>)
        requires
            old(self).wf(),
        ensures
            final(self).wf(),
            match r {
                Ok(e) => seq_find(old(self)@, name@) == Some(e@) && final(self)@ == remove_first(
                    old(self)@,
                    name@,
                ),
                Err(err) => err == StoreError::NotFound && seq_find(old(self)@, name@) is None
                    && final(self)@ == old(self)@,
            },
    {
        match self.position_of(name) {
            Some(i) => {
                proof {
                    lemma_find_at(self@, name@, i as int);
                    lemma_remove_first_at(self@, name@, i as int);
                    lemma_unique_remove(self@, i as int);
                }
                let e = self.entries.remove(i);
                proof {
                    assert(self@ =~= old(self)@.remove(i as int));
                }
                Ok(e)
            },
            None => {
                proof {
                    lemma_find_none(self@, name@);
                }
                Err(StoreError::NotFound)
            },
        }
    }

    /// The names of the entries with at least one tag equal to at least
    /// one search tag, one occurrence per qualifying entry, in store
    /// order. An empty search matches nothing.
    pub fn find_entries_by_tag(&self, search_tags: &Vec<String>) -> (r: Vec<String>)
        ensures
            r.deep_view() == matching_names(self@, search_tags.deep_view()),
    {
        let mut result: Vec<String> = Vec::new();
        let mut i: usize = 0;
        proof {
            assert(self@.take(0) =~= Seq::<EntryView>::empty());
            assert(result.deep_view() =~= matching_names(self@.take(0), search_tags.deep_view()));
        }
        while i < self.entries.len()
            invariant
                i <= self@.len(),
                self@.len() == self.entries@.len(),
                result.deep_view() == matching_names(self@.take(i as int), search_tags.deep_view()),
            decreases self@.len() - i,
        {
            let ghost prev = result.deep_view();
            let e = &self.entries[i];
            proof {
                assert(e@ == self@[i as int]);
            }
            if has_matching_tag(&e.tags, search_tags) {
                result.push(e.name.clone());
                proof {
                    assert(result.deep_view() =~= prev.push(e.name@));
                }
            }
            proof {
                assert(self@.take(i as int + 1).drop_last() =~= self@.take(i as int));
                assert(self@.take(i as int + 1).last() == self@[i as int]);
            }
            i = i + 1;
        }
        proof {
            assert(self@.take(self@.len() as int) =~= self@);
        }
        result
    }

    /// Writes `e` over the entry of the same name, or appends it: the
    /// last write wins, as the decode of a document with a repeated
    /// name asks.
    pub(crate) fn upsert(&mut self, e: Entry)
        requires
            old(self).wf(),
        ensures
            final(self).wf(),
            final(self)@ == upsert_seq(old(self)@, e@),
    {
        match self.position_of(e.name.as_str()) {
            Some(i) => {
                proof {
                    lemma_upsert_at(self@, e@, i as int);
                }
                let _ = self.entries.remove(i);
                self.entries.insert(i, e);
                proof {
                    assert(self@ =~= old(self)@.update(i as int, e@));
                    assert forall|a: int, b: int| 0 <= a < b < self@.len() implies self@[a].name
                        != self@[b].name by {
                        assert(old(self)@[a].name != old(self)@[b].name);
                    }
                }
            },
            None => {
                proof {
                    lemma_upsert_absent(self@, e@);
                }
                self.entries.push(e);
                proof {
                    assert(self@ =~= old(self)@.push(e@));
                }
            },
        }
    }
}

} // verus!
