use vstd::prelude::*;
use vstd::utf8::*;

use crate::bundle::{bundle_spec, entry_block, qualifies, Entry};
use crate::paths::parts_of;

verus! {

/// Two entries that show the walk the same thing: the same kind, the same
/// path components and the same content (or both unreadable).
pub open spec fn same_entry(x: Entry, y: Entry) -> bool {
    &&& x.kind == y.kind
    &&& parts_of(x.path@) == parts_of(y.path@)
    &&& (x.content is Some <==> y.content is Some)
    &&& (x.content is Some ==> x.content->0@ == y.content->0@)
}

/// The bundle of two runs of entries one after the other is the bundle of
/// the first followed by the bundle of the second.
pub proof fn lemma_bundle_concat(a: Seq<Entry>, b: Seq<Entry>, root: Seq<Seq<char>>)
    ensures
        bundle_spec(a + b, root) == bundle_spec(a, root) + bundle_spec(b, root),
    decreases b.len(),
{
    if b.len() == 0 {
        assert(a + b =~= a);
        assert(bundle_spec(a, root) + bundle_spec(b, root) =~= bundle_spec(a, root));
    } else {
        assert((a + b).drop_last() =~= a + b.drop_last());
        assert((a + b).last() == b.last());
        lemma_bundle_concat(a, b.drop_last(), root);
        assert(bundle_spec(a + b, root) =~= bundle_spec(a, root) + bundle_spec(b, root));
    }
}

/// Determinism: walks that show the same entries in the same order give the
/// same output, character for character.
pub proof fn law_same_entries_same_output(a: Seq<Entry>, b: Seq<Entry>, root: Seq<Seq<char>>)
    requires
        a.len() == b.len(),
        forall|i: int| 0 <= i < a.len() ==> same_entry(#[trigger] a[i], b[i]),
    ensures
        bundle_spec(a, root) == bundle_spec(b, root),
    decreases a.len(),
{
    if a.len() > 0 {
        let n = a.len() - 1;
        assert(same_entry(a[n], b[n]));
        assert(entry_block(a.last(), root) == entry_block(b.last(), root));
        law_same_entries_same_output(a.drop_last(), b.drop_last(), root);
    }
}

/// A file whose bytes are not well-formed UTF-8 adds nothing to the output,
/// wherever the walk meets it, and the entries around it are bundled as if it
/// were not there.
pub proof fn law_invalid_text_is_skipped(
    before: Seq<Entry>,
    file: Entry,
    after: Seq<Entry>,
    root: Seq<Seq<char>>,
)
    requires
        file.kind is File,
        file.content is Some,
        !valid_utf8(file.content->0@),
    ensures
        bundle_spec(before.push(file) + after, root) == bundle_spec(before + after, root),
{
    lemma_bundle_concat(before.push(file), after, root);
    lemma_bundle_concat(before, after, root);
    assert(before.push(file).drop_last() =~= before);
    assert(bundle_spec(before.push(file), root) =~= bundle_spec(before, root));
}

/// Where no entry qualifies, the output is empty.
pub proof fn law_nothing_qualifies_empty(entries: Seq<Entry>, root: Seq<Seq<char>>)
    requires
        forall|i: int| 0 <= i < entries.len() ==> !qualifies(#[trigger] entries[i]),
    ensures
        bundle_spec(entries, root) == Seq::<char>::empty(),
    decreases entries.len(),
{
    if entries.len() > 0 {
        assert(!qualifies(entries[entries.len() - 1]));
        law_nothing_qualifies_empty(entries.drop_last(), root);
        assert(bundle_spec(entries, root) =~= Seq::<char>::empty());
    }
}

} // verus!
