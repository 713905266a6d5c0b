//! The codec between the JSON-shaped document tree and the typed store.
//!
//! On disk the store is an array of objects, each with exactly string
//! `name`, `command` and `description` fields and a `tags` array of
//! strings. Decoding is fail-fast: the first ill-shaped element aborts
//! the whole decode. A repeated name decodes to its last occurrence.

use vstd::prelude::*;

use crate::doc::Doc;
use crate::doc::doc_lookup;
use crate::doc::lookup_field;
use crate::entry::Entry;
use crate::entry::EntryView;
use crate::entry::SchemaError;
use crate::store::AliasStore;
use crate::store::names_unique;
use crate::store::upsert_seq;
use crate::store::lemma_upsert_absent;

verus! {

/// Every element is a string node.
pub open spec fn all_strings(elems: Seq<Doc>) -> bool {
    forall|i: int| 0 <= i < elems.len() ==> elems[i] is Str
}

/// The character sequences of a run of string nodes.
pub open spec fn str_views(elems: Seq<Doc>) -> Seq<Seq<char>> {
    elems.map_values(|d: Doc| d->Str_0@)
}

/// What decoding one array element yields: the entry with the document's
/// exact field values, or the error the shape earns. The `tags` error is
/// reported only once the four fields themselves are well-shaped, as the
/// tag elements are examined last.
pub open spec fn spec_unpack_entry(d: Doc) -> Result<EntryView, SchemaError> {
    match d {
        Doc::Obj(fields) => match (
            doc_lookup(fields@, "name"@),
            doc_lookup(fields@, "command"@),
            doc_lookup(fields@, "description"@),
            doc_lookup(fields@, "tags"@),
        ) {
            (
                Some(Doc::Str(n)),
                Some(Doc::Str(c)),
                Some(Doc::Str(ds)),
                Some(Doc::Arr(ts)),
            ) => if all_strings(ts@) {
                Ok(
                    EntryView {
                        name: n@,
                        command: c@,
                        description: ds@,
                        tags: str_views(ts@),
                    },
                )
            } else {
                Err(SchemaError::TagShape)
            },
            _ => Err(SchemaError::EntryShape),
        },
        _ => Err(SchemaError::EntryShape),
    }
}

/// Decodes one array element into an entry, exactly as
/// `spec_unpack_entry` says.
pub fn unpack_entry(d: &Doc) -> (r: Result<Entry, SchemaError>)
    ensures
        (r matches Ok(e) ==> spec_unpack_entry(*d) == Ok::<EntryView, SchemaError>(e@)),
        (r matches Err(er) ==> spec_unpack_entry(*d) == Err::<EntryView, SchemaError>(er)),
{
    let fields = match d {
        Doc::Obj(fields) => fields,
        _ => {
            return Err(SchemaError::EntryShape);
        },
    };
    let key_name: String = "name".to_owned();
    let key_command: String = "command".to_owned();
    let key_description: String = "description".to_owned();
    let key_tags: String = "tags".to_owned();
    let name = match lookup_field(fields, &key_name) {
        Some(Doc::Str(s)) => s,
        _ => {
            return Err(SchemaError::EntryShape);
        },
    };
    let command = match lookup_field(fields, &key_command) {
        Some(Doc::Str(s)) => s,
        _ => {
            return Err(SchemaError::EntryShape);
        },
    };
    let description = match lookup_field(fields, &key_description) {
        Some(Doc::Str(s)) => s,
        _ => {
            return Err(SchemaError::EntryShape);
        },
    };
    let ts = match lookup_field(fields, &key_tags) {
        Some(Doc::Arr(ts)) => ts,
        _ => {
            return Err(SchemaError::EntryShape);
        },
    };
    let mut tags: Vec<String> = Vec::new();
    let mut i: usize = 0;
    proof {
        assert(ts@.take(0) =~= Seq::<Doc>::empty());
        assert(tags.deep_view() =~= str_views(ts@.take(0)));
    }
    while i < ts.len()
        invariant
            i <= ts@.len(),
            all_strings(ts@.take(i as int)),
            tags.deep_view() == str_views(ts@.take(i as int)),
            !all_strings(ts@) ==> spec_unpack_entry(*d) == Err::<EntryView, SchemaError>(
                SchemaError::TagShape,
            ),
        decreases ts@.len() - i,
    {
        let ghost prev = tags.deep_view();
        match &ts[i] {
            Doc::Str(s) => {
                tags.push(s.clone());
                proof {
                    assert(ts@.take(i as int + 1).drop_last() =~= ts@.take(i as int));
                    assert(ts@.take(i as int + 1).last() == ts@[i as int]);
                    assert(tags.deep_view() =~= prev.push(s@));
                    assert(str_views(ts@.take(i as int + 1)) =~= prev.push(s@));
                }
            },
            _ => {
                proof {
                    assert(!all_strings(ts@));
                }
                return Err(SchemaError::TagShape);
            },
        }
        i = i + 1;
    }
    proof {
        assert(ts@.take(ts@.len() as int) =~= ts@);
    }
    let e = Entry {
        name: name.clone(),
        command: command.clone(),
        description: description.clone(),
        tags,
    };
    proof {
        assert(spec_unpack_entry(*d) is Ok);
        assert(e@ =~= spec_unpack_entry(*d)->Ok_0);
    }
    Ok(e)
}

/// An object in the exact on-disk shape of `e`: the four fields in
/// schema order, each holding `e`'s value.
pub open spec fn packed_entry_ok(d: Doc, e: EntryView) -> bool {
    &&& d matches Doc::Obj(fields)
    &&& fields@.len() == 4
    &&& fields@[0].0@ == "name"@
    &&& fields@[0].1 matches Doc::Str(sn) && sn@ == e.name
    &&& fields@[1].0@ == "command"@
    &&& fields@[1].1 matches Doc::Str(sc) && sc@ == e.command
    &&& fields@[2].0@ == "description"@
    &&& fields@[2].1 matches Doc::Str(sd) && sd@ == e.description
    &&& fields@[3].0@ == "tags"@
    &&& fields@[3].1 matches Doc::Arr(ts) && all_strings(ts@) && str_views(ts@) == e.tags
}

/// Encodes one entry as an object in the on-disk schema. Total: every
/// in-memory entry has a document form.
pub fn pack_entry(e: &Entry) -> (r: Doc)
    ensures
        packed_entry_ok(r, e@),
{
    let mut ts: Vec<Doc> = Vec::new();
    let mut i: usize = 0;
    proof {
        assert(str_views(ts@) =~= e.tags.deep_view().take(0));
    }
    while i < e.tags.len()
        invariant
            i <= e.tags@.len(),
            ts@.len() == i,
            all_strings(ts@),
            str_views(ts@) == e.tags.deep_view().take(i as int),
        decreases e.tags@.len() - i,
    {
        ts.push(Doc::Str(e.tags[i].clone()));
        proof {
            assert(str_views(ts@) =~= e.tags.deep_view().take(i as int + 1));
        }
        i = i + 1;
    }
    proof {
        assert(e.tags.deep_view().take(e.tags@.len() as int) =~= e.tags.deep_view());
    }
    let mut fields: Vec<(String, Doc)> = Vec::new();
    fields.push(("name".to_owned(), Doc::Str(e.name.clone())));
    fields.push(("command".to_owned(), Doc::Str(e.command.clone())));
    fields.push(("description".to_owned(), Doc::Str(e.description.clone())));
    fields.push(("tags".to_owned(), Doc::Arr(ts)));
    Doc::Obj(fields)
}

/// Law: decoding an encoded entry gives the entry back, field for field,
/// tags in order.
pub proof fn lemma_packed_entry_round_trip(d: Doc, e: EntryView)
    requires
        packed_entry_ok(d, e),
    ensures
        spec_unpack_entry(d) == Ok::<EntryView, SchemaError>(e),
{
    reveal_strlit("name");
    reveal_strlit("command");
    reveal_strlit("description");
    reveal_strlit("tags");
    let fs = d->Obj_0@;
    let fs1 = fs.drop_first();
    let fs2 = fs1.drop_first();
    let fs3 = fs2.drop_first();
    assert(fs1[0] == fs[1] && fs1[1] == fs[2] && fs1[2] == fs[3]);
    assert(fs2[0] == fs[2] && fs2[1] == fs[3]);
    assert(fs3[0] == fs[3]);
    assert("name"@.len() == 4 && "command"@.len() == 7 && "description"@.len() == 11
        && "tags"@.len() == 4);
    assert("name"@[0] == 'n' && "tags"@[0] == 't');
    assert(doc_lookup(fs, "name"@) == Some(fs[0].1));
    assert(doc_lookup(fs, "command"@) == doc_lookup(fs1, "command"@));
    assert(doc_lookup(fs1, "command"@) == Some(fs[1].1));
    assert(doc_lookup(fs, "description"@) == doc_lookup(fs1, "description"@));
    assert(doc_lookup(fs1, "description"@) == doc_lookup(fs2, "description"@));
    assert(doc_lookup(fs2, "description"@) == Some(fs[2].1));
    assert(doc_lookup(fs, "tags"@) == doc_lookup(fs1, "tags"@));
    assert(doc_lookup(fs1, "tags"@) == doc_lookup(fs2, "tags"@));
    assert(doc_lookup(fs2, "tags"@) == doc_lookup(fs3, "tags"@));
    assert(doc_lookup(fs3, "tags"@) == Some(fs[3].1));
    assert(spec_unpack_entry(d) is Ok);
    assert(spec_unpack_entry(d)->Ok_0 =~= e);
}

/// What decoding an array of elements yields: entries folded in array
/// order with the last occurrence of a repeated name winning, or the
/// first element failure. Fail-fast: nothing of a bad document survives.
pub open spec fn spec_unpack_list(elems: Seq<Doc>) -> Result<Seq<EntryView>, SchemaError>
    decreases elems.len(),
{
    if elems.len() == 0 {
        Ok(Seq::empty())
    } else {
        match spec_unpack_list(elems.drop_last()) {
            Ok(s) => match spec_unpack_entry(elems.last()) {
                Ok(e) => Ok(upsert_seq(s, e)),
                Err(er) => Err(er),
            },
            Err(er) => Err(er),
        }
    }
}

/// What decoding a whole document yields: the root must be an array.
pub open spec fn spec_unpack_store(d: Doc) -> Result<Seq<EntryView>, SchemaError> {
    match d {
        Doc::Arr(elems) => spec_unpack_list(elems@),
        _ => Err(SchemaError::RootShape),
    }
}

/// Once a prefix fails to decode, the whole list fails the same way.
pub proof fn lemma_unpack_list_err_extends(elems: Seq<Doc>, i: int)
    requires
        0 <= i <= elems.len(),
        spec_unpack_list(elems.take(i)) is Err,
    ensures
        spec_unpack_list(elems) == spec_unpack_list(elems.take(i)),
    decreases elems.len() - i,
{
    if i == elems.len() {
        assert(elems.take(i) =~= elems);
    } else {
        assert(elems.take(i + 1).drop_last() =~= elems.take(i));
        lemma_unpack_list_err_extends(elems, i + 1);
    }
}

/// Decodes a whole document into a store, exactly as `spec_unpack_store`
/// says; on success the store's names are unique.
pub fn unpack_alias_list(d: &Doc) -> (r: Result<AliasStore, SchemaError>)
    ensures
        (r matches Ok(st) ==> st.wf() && spec_unpack_store(*d) == Ok::<
            Seq<EntryView>,
            SchemaError,
        >(st@)),
        (r matches Err(er) ==> spec_unpack_store(*d) == Err::<Seq<EntryView>, SchemaError>(er)),
{
    let elems = match d {
        Doc::Arr(elems) => elems,
        _ => {
            return Err(SchemaError::RootShape);
        },
    };
    let mut store = AliasStore::new();
    let mut i: usize = 0;
    proof {
        assert(elems@.take(0) =~= Seq::<Doc>::empty());
    }
    while i < elems.len()
        invariant
            i <= elems@.len(),
            store.wf(),
            spec_unpack_list(elems@.take(i as int)) == Ok::<Seq<EntryView>, SchemaError>(store@),
            spec_unpack_store(*d) == spec_unpack_list(elems@),
        decreases elems@.len() - i,
    {
        proof {
            assert(elems@.take(i as int + 1).drop_last() =~= elems@.take(i as int));
            assert(elems@.take(i as int + 1).last() == elems@[i as int]);
        }
        match unpack_entry(&elems[i]) {
            Ok(e) => {
                store.upsert(e);
            },
            Err(er) => {
                proof {
                    lemma_unpack_list_err_extends(elems@, i as int + 1);
                }
                return Err(er);
            },
        }
        i = i + 1;
    }
    proof {
        assert(elems@.take(elems@.len() as int) =~= elems@);
    }
    Ok(store)
}

/// An array whose elements are, in order, the on-disk shapes of `s`.
pub open spec fn packed_list_ok(d: Doc, s: Seq<EntryView>) -> bool {
    &&& d matches Doc::Arr(elems)
    &&& elems@.len() == s.len()
    &&& forall|i: int| 0 <= i < s.len() ==> packed_entry_ok(#[trigger] elems@[i], s[i])
}

/// Encodes the whole store as an array of entry objects, in store order.
/// Total: every store has a document form.
pub fn pack_alias_list(store: &AliasStore) -> (r: Doc)
    ensures
        packed_list_ok(r, store@),
{
    let mut elems: Vec<Doc> = Vec::new();
    let mut i: usize = 0;
    while i < store.len()
        invariant
            i <= store@.len(),
            elems@.len() == i,
            forall|j: int| 0 <= j < i ==> packed_entry_ok(#[trigger] elems@[j], store@[j]),
        decreases store@.len() - i,
    {
        elems.push(pack_entry(store.entry_at(i)));
        i = i + 1;
    }
    Doc::Arr(elems)
}

/// Decoding an encoded prefix rebuilds that prefix of the store.
proof fn lemma_list_round_trip(elems: Seq<Doc>, s: Seq<EntryView>, k: int)
    requires
        names_unique(s),
        elems.len() == s.len(),
        forall|i: int| 0 <= i < s.len() ==> packed_entry_ok(#[trigger] elems[i], s[i]),
        0 <= k <= s.len(),
    ensures
        spec_unpack_list(elems.take(k)) == Ok::<Seq<EntryView>, SchemaError>(s.take(k)),
    decreases k,
{
    if k == 0 {
        assert(elems.take(0) =~= Seq::<Doc>::empty());
        assert(s.take(0) =~= Seq::<EntryView>::empty());
    } else {
        lemma_list_round_trip(elems, s, k - 1);
        assert(elems.take(k).drop_last() =~= elems.take(k - 1));
        assert(elems.take(k).last() == elems[k - 1]);
        lemma_packed_entry_round_trip(elems[k - 1], s[k - 1]);
        assert forall|j: int| 0 <= j < s.take(k - 1).len() implies #[trigger] s.take(k - 1)[j].name
            != s[k - 1].name by {
            assert(s.take(k - 1)[j] == s[j]);
        }
        lemma_upsert_absent(s.take(k - 1), s[k - 1]);
        assert(s.take(k - 1).push(s[k - 1]) =~= s.take(k));
    }
}

/// Law: decoding an encoded store rebuilds it exactly — the same entries,
/// field for field, tags and store order preserved — for any store whose
/// names are unique, as every store built by the store operations is.
pub proof fn lemma_store_round_trip(d: Doc, s: Seq<EntryView>)
    requires
        names_unique(s),
        packed_list_ok(d, s),
    ensures
        spec_unpack_store(d) == Ok::<Seq<EntryView>, SchemaError>(s),
{
    let elems = d->Arr_0@;
    lemma_list_round_trip(elems, s, s.len() as int);
    assert(elems.take(s.len() as int) =~= elems);
    assert(s.take(s.len() as int) =~= s);
}

/// Appends one freshly packed entry to a document that is an array, as
/// the interactive `add` flow does at the document level; any other
/// document is left untouched.
pub fn add_entry(
    list: &mut Doc,
    name: String,
    cmd: String,
    description: String,
    tags: Vec<String>,
)
    ensures
        (*old(list) matches Doc::Arr(elems) ==> *final(list) matches Doc::Arr(grown)
            && grown@.len() == elems@.len() + 1 && grown@.drop_last() == elems@
            && packed_entry_ok(
            grown@.last(),
            EntryView {
                name: name@,
                command: cmd@,
                description: description@,
                tags: tags.deep_view(),
            },
        )),
        (!(*old(list) is Arr) ==> *final(list) == *old(list)),
{
    let e = Entry { name, command: cmd, description, tags };
    match list {
        Doc::Arr(elems) => {
            let packed = pack_entry(&e);
            elems.push(packed);
            proof {
                assert(elems@.drop_last() =~= old(list)->Arr_0@);
            }
        },
        _ => {},
    }
}

} // verus!
