//! Rendering the store as shell `alias` definitions.

use vstd::prelude::*;
use vstd::string::StringExecFns;

use crate::entry::EntryView;
use crate::store::AliasStore;

verus! {

/// The shell line of one entry: `alias name="command"` with a trailing
/// newline. The command is emitted verbatim: a quote inside it produces
/// a broken line, a known limitation left to the caller.
pub open spec fn render_line(e: EntryView) -> Seq<char> {
    "alias "@ + e.name + "=\""@ + e.command + "\"\n"@
}

/// The lines of all entries, concatenated in store order.
pub open spec fn render_lines(s: Seq<EntryView>) -> Seq<char>
    decreases s.len(),
{
    if s.len() == 0 {
        Seq::empty()
    } else {
        render_lines(s.drop_last()) + render_line(s.last())
    }
}

/// Renders every entry as one `alias name="command"` line, newline
/// terminated, in store order.
pub fn render_shell_definitions(store: &AliasStore) -> (r: String)
    ensures
        r@ == render_lines(store@),
{
    let mut out = String::new();
    let mut i: usize = 0;
    proof {
        assert(store@.take(0) =~= Seq::<EntryView>::empty());
        assert(out@ =~= render_lines(store@.take(0)));
    }
    while i < store.len()
        invariant
            i <= store@.len(),
            out@ == render_lines(store@.take(i as int)),
        decreases store@.len() - i,
    {
        let e = store.entry_at(i);
        out.append("alias ");
        out.append(e.name.as_str());
        out.append("=\"");
        out.append(e.command.as_str());
        out.append("\"\n");
        proof {
            assert(store@.take(i as int + 1).drop_last() =~= store@.take(i as int));
            assert(store@.take(i as int + 1).last() == store@[i as int]);
            assert(out@ =~= render_lines(store@.take(i as int + 1)));
        }
        i = i + 1;
    }
    proof {
        assert(store@.take(store@.len() as int) =~= store@);
    }
    out
}

} // verus!
