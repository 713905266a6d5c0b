//! The alias record and the error taxonomy of the core.

use vstd::prelude::*;

verus! {

/// One alias record: `name` is the lookup key and the left-hand side of the
/// generated `alias name="command"` line; `command` is emitted verbatim;
/// `description` is informational only; `tags` is an ordered list used only
/// for search, with duplicates and the empty list permitted.
#[derive(Debug, PartialEq, Eq)]
pub struct Entry {
    pub name: String,
    pub command: String,
    pub description: String,
    pub tags: Vec<String>,
}

impl Clone for Entry {
    /// A clone carries the same mathematical value.
    fn clone(&self) -> (r: Entry)
        ensures
            r@ == self@,
    {
        let mut tags: Vec<String> = Vec::new();
        let mut i: usize = 0;
        proof {
            assert(tags.deep_view() =~= self.tags.deep_view().take(0));
        }
        while i < self.tags.len()
            invariant
                i <= self.tags@.len(),
                tags.deep_view() == self.tags.deep_view().take(i as int),
            decreases self.tags@.len() - i,
        {
            let ghost prev = tags.deep_view();
            tags.push(self.tags[i].clone());
            proof {
                assert(tags.deep_view() =~= prev.push(self.tags@[i as int]@));
                assert(self.tags.deep_view().take(i as int + 1) =~= prev.push(
                    self.tags@[i as int]@,
                ));
            }
            i = i + 1;
        }
        proof {
            assert(self.tags.deep_view().take(self.tags@.len() as int) =~= self.tags.deep_view());
        }
        let r = Entry {
            name: self.name.clone(),
            command: self.command.clone(),
            description: self.description.clone(),
            tags,
        };
        proof {
            assert(r@ =~= self@);
        }
        r
    }
}

/// The mathematical value of an `Entry`: every field as a sequence.
#[verifier::ext_equal]
pub struct EntryView {
    pub name: Seq<char>,
    pub command: Seq<char>,
    pub description: Seq<char>,
    pub tags: Seq<Seq<char>>,
}

impl View for Entry {
    type V = EntryView;

    open spec fn view(&self) -> EntryView {
        EntryView {
            name: self.name@,
            command: self.command@,
            description: self.description@,
            tags: self.tags.deep_view(),
        }
    }
}

/// A persisted document that does not match the on-disk schema.
#[derive(Clone, Copy, Debug, PartialEq, Eq, Structural)]
pub enum SchemaError {
    /// The document root is not an array.
    RootShape,
    /// An array element is not an object with string `name`, `command` and
    /// `description` fields and a `tags` array.
    EntryShape,
    /// A `tags` element is not a string.
    TagShape,
}

/// A failed store mutation.
#[derive(Clone, Copy, Debug, PartialEq, Eq, Structural)]
pub enum StoreError {
    /// An insert found the name already present.
    DuplicateName,
    /// A removal found no entry under the name.
    NotFound,
}

/// Text that is not syntactically valid JSON.
#[derive(Clone, Copy, Debug, PartialEq, Eq, Structural)]
pub struct ParseError;

} // verus!
