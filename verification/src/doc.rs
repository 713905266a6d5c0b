//! The JSON-shaped document tree that the alias store is persisted as.

use vstd::prelude::*;

verus! {

/// A JSON number as the `json` crate represents it. The codec never reads
/// the inside of a number: the schema only admits strings and arrays where
/// it looks, so a number is carried through opaquely.
#[verifier::external_type_specification]
#[verifier::external_body]
pub struct ExNumber(json::number::Number);

/// One node of a JSON document: the wire form of the alias store before
/// decoding and after encoding. Object fields keep their textual order.
pub enum Doc {
    Null,
    Bool(bool),
    Num(json::number::Number),
    Str(String),
    Arr(Vec<Doc>),
    Obj(Vec<(String, Doc)>),
}

/// The value of the first field named `key` in an object's field list,
/// if there is one.
pub open spec fn doc_lookup(fields: Seq<(String, Doc)>, key: Seq<char>) -> Option<Doc>
    decreases fields.len(),
{
    if fields.len() == 0 {
        None
    } else if fields[0].0@ == key {
        Some(fields[0].1)
    } else {
        doc_lookup(fields.drop_first(), key)
    }
}

/// Linear search for a field, matching `doc_lookup` on the view.
pub fn lookup_field<'a>(fields: &'a Vec<(String, Doc)>, key: &String) -> (r: Option<&'a Doc>)
    ensures
        match r {
            Some(d) => doc_lookup(fields@, key@) == Some(*d),
            None => doc_lookup(fields@, key@) is None,
        },
{
    let mut i: usize = 0;
    proof {
        assert(fields@.skip(0) =~= fields@);
    }
    while i < fields.len()
        invariant
            i <= fields@.len(),
            doc_lookup(fields@, key@) == doc_lookup(fields@.skip(i as int), key@),
        decreases fields@.len() - i,
    {
        let pair = &fields[i];
        if pair.0.eq(key) {
            proof {
                assert(fields@.skip(i as int)[0] == fields@[i as int]);
            }
            return Some(&pair.1);
        }
        proof {
            assert(fields@.skip(i as int).drop_first() =~= fields@.skip(i as int + 1));
            assert(fields@.skip(i as int)[0] == fields@[i as int]);
        }
        i = i + 1;
    }
    proof {
        assert(fields@.skip(i as int).len() == 0);
    }
    None
}

} // verus!
