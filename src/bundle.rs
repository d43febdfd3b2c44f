use vstd::prelude::*;
use vstd::utf8::*;

use crate::paths::{join_spec, parts_of, relative_spec, push_joined, relative_path};
use crate::text::{decode_text, escape_quotes_spec, is_utf8, push_char, push_escaped};

verus! {

/// What a candidate entry of the walk is on disk.
#[derive(Clone, Copy, Debug, PartialEq, Eq)]
pub enum EntryKind {
    File,
    Directory,
    /// Anything else: a link that is not followed, a socket, a device.
    Other,
}

/// One entry that the walk of the tree produced.
#[derive(Debug)]
pub struct Entry {
    /// The entry's path, one string per component. A root directory
    /// component is written as the empty string, so that joining the
    /// components with `/` gives back an absolute path.
    pub path: Vec<String>,
    pub kind: EntryKind,
    /// The file's whole content, or `None` where it could not be read.
    pub content: Option<Vec<u8>>,
}

/// The block written for one file: its display path in double quotes on a
/// line, then the escaped content fenced by lines of three double quotes, then
/// a blank line.
pub open spec fn block_spec(path: Seq<char>, content: Seq<char>) -> Seq<char> {
    seq!['"'] + path + seq!['"', '\n', '"', '"', '"', '\n'] + escape_quotes_spec(content) + seq![
        '\n',
        '"',
        '"',
        '"',
        '\n',
        '\n',
    ]
}

/// Whether an entry gives a block: a regular file that could be read and
/// whose content is well-formed UTF-8.
pub open spec fn qualifies(e: Entry) -> bool {
    &&& e.kind is File
    &&& e.content is Some
    &&& valid_utf8(e.content->0@)
}

/// The block that one entry contributes, empty where it does not qualify.
pub open spec fn entry_block(e: Entry, root: Seq<Seq<char>>) -> Seq<char> {
    if qualifies(e) {
        block_spec(
            join_spec(relative_spec(parts_of(e.path@), root)),
            decode_utf8(e.content->0@),
        )
    } else {
        seq![]
    }
}

/// The blocks of all entries, in the order of the walk.
pub open spec fn bundle_spec(entries: Seq<Entry>, root: Seq<Seq<char>>) -> Seq<char>
    decreases entries.len(),
{
    if entries.len() == 0 {
        seq![]
    } else {
        bundle_spec(entries.drop_last(), root) + entry_block(entries.last(), root)
    }
}

/// Appends to `result` the block of a file shown as `path` with text `content`.
pub fn append_block(result: &mut String, path: &str, content: &str)
    ensures
        final(result)@ == old(result)@ + block_spec(path@, content@),
{
    let ghost start = result@;
    push_char(result, '"');
    result.append(path);
    push_char(result, '"');
    push_char(result, '\n');
    push_char(result, '"');
    push_char(result, '"');
    push_char(result, '"');
    push_char(result, '\n');
    push_escaped(result, content);
    push_char(result, '\n');
    push_char(result, '"');
    push_char(result, '"');
    push_char(result, '"');
    push_char(result, '\n');
    push_char(result, '\n');
    assert(result@ =~= start + block_spec(path@, content@));
}

/// Appends to `result` the block of every entry that qualifies, in order:
/// each file's path relative to `root`, then its escaped text.
pub fn process_folder(entries: &Vec<Entry>, root: &Vec<String>, result: &mut String)
    ensures
        final(result)@ == old(result)@ + bundle_spec(entries@, parts_of(root@)),
{
    let ghost start = result@;
    let ghost r = parts_of(root@);
    let mut i: usize = 0;
    while i < entries.len()
        invariant
            i <= entries.len(),
            r == parts_of(root@),
            result@ == start + bundle_spec(entries@.take(i as int), r),
        decreases entries.len() - i,
    {
        let e = &entries[i];
        assert(entries@.take(i + 1).drop_last() =~= entries@.take(i as int));
        let ghost before = result@;
        if let EntryKind::File = e.kind {
            if let Some(bytes) = &e.content {
                if is_utf8(bytes.as_slice()) {
                    if let Some(text) = decode_text(bytes.as_slice()) {
                        let rel = relative_path(&e.path, root);
                        let mut shown = String::new();
                        push_joined(&mut shown, &rel);
                        assert(shown@ =~= join_spec(parts_of(rel@)));
                        append_block(result, shown.as_str(), text.as_str());
                    }
                }
            }
        }
        assert(result@ =~= before + entry_block(entries@[i as int], r));
        assert(result@ =~= start + bundle_spec(entries@.take(i + 1), r));
        i = i + 1;
    }
    assert(entries@.take(entries.len() as int) =~= entries@);
}

} // verus!
