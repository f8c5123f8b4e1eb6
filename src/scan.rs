use vstd::prelude::*;

use crate::entry::{classify, entry_bytes, entry_items, is_excluded, parts_bytes, Entry, EntryKind, Node};
use crate::sums::{lemma_sum_concat, lemma_sum_prefix, lemma_sum_push, lemma_sum_reorder, sum_by};

verus! {

/// A category's tally: how many items it holds and how many bytes they take.
#[derive(Clone, Copy, Debug, PartialEq, Eq, Structural)]
pub struct ScanResult {
    pub item_count: u32,
    pub total_bytes: u64,
}

/// Items in a category whose directory lists `s`.
pub open spec fn listing_items(s: Seq<Entry>, dirs: bool) -> nat {
    sum_by(s, |e: Entry| entry_items(e, dirs))
}

/// Bytes in a category whose directory lists `s`.
pub open spec fn listing_bytes(s: Seq<Entry>, dirs: bool) -> nat {
    sum_by(s, |e: Entry| entry_bytes(e, dirs))
}

/// The tally fits the result's integer widths.
pub open spec fn listing_fits(s: Seq<Entry>, dirs: bool) -> bool {
    listing_items(s, dirs) <= u32::MAX && listing_bytes(s, dirs) <= u64::MAX
}

/// Tallies one category from the entries at the top level of its directory.
/// `dirs` tells whether each item of the category is a directory. The result is
/// `None` exactly when the tally does not fit in a `ScanResult`.
pub fn scan_category(entries: &Vec<Entry>, dirs: bool) -> (r: Option<ScanResult>)
    ensures
        r is Some <==> listing_fits(entries@, dirs),
        r is Some ==> r->0.item_count == listing_items(entries@, dirs),
        r is Some ==> r->0.total_bytes == listing_bytes(entries@, dirs),
{
    let ghost fi = |e: Entry| entry_items(e, dirs);
    let ghost fb = |e: Entry| entry_bytes(e, dirs);
    let mut items: u32 = 0;
    let mut bytes: u64 = 0;
    let mut i: usize = 0;
    while i < entries.len()
        invariant
            i <= entries@.len(),
            fi == (|e: Entry| entry_items(e, dirs)),
            fb == (|e: Entry| entry_bytes(e, dirs)),
            items == sum_by(entries@.take(i as int), fi),
            bytes == sum_by(entries@.take(i as int), fb),
        decreases entries@.len() - i,
    {
        let ghost pre = entries@.take(i as int);
        proof {
            assert(pre.push(entries@[i as int]) =~= entries@.take(i + 1));
            lemma_sum_push(pre, entries@[i as int], fi);
            lemma_sum_push(pre, entries@[i as int], fb);
            lemma_sum_prefix(entries@, i + 1, fi);
            lemma_sum_prefix(entries@, i + 1, fb);
        }
        let c = match classify(&entries[i], dirs) {
            Some(c) => c,
            None => {
                return None;
            },
        };
        if c.item_count > u32::MAX - items || c.total_bytes > u64::MAX - bytes {
            return None;
        }
        items = items + c.item_count;
        bytes = bytes + c.total_bytes;
        i = i + 1;
    }
    assert(entries@.take(i as int) =~= entries@);
    Some(ScanResult { item_count: items, total_bytes: bytes })
}

/// A category directory with no entries tallies to no items and no bytes.
pub proof fn lemma_empty_listing(dirs: bool)
    ensures
        listing_items(Seq::<Entry>::empty(), dirs) == 0,
        listing_bytes(Seq::<Entry>::empty(), dirs) == 0,
        listing_fits(Seq::<Entry>::empty(), dirs),
{
}

/// The order in which the directory yields its entries does not change the
/// tally: any reordering of a listing tallies the same.
pub proof fn lemma_listing_order_irrelevant(a: Seq<Entry>, b: Seq<Entry>, dirs: bool)
    requires
        a.to_multiset() == b.to_multiset(),
    ensures
        listing_items(a, dirs) == listing_items(b, dirs),
        listing_bytes(a, dirs) == listing_bytes(b, dirs),
{
    lemma_sum_reorder(a, b, |e: Entry| entry_items(e, dirs));
    lemma_sum_reorder(a, b, |e: Entry| entry_bytes(e, dirs));
}

/// An entry whose path holds the firmware marker is neither counted nor sized,
/// wherever it stands in the listing and whatever the category's shape.
pub proof fn lemma_excluded_entry_ignored(s: Seq<Entry>, i: int, e: Entry, dirs: bool)
    requires
        0 <= i <= s.len(),
        is_excluded(e.node.path@),
    ensures
        entry_items(e, dirs) == 0,
        entry_bytes(e, dirs) == 0,
        listing_items(s.insert(i, e), dirs) == listing_items(s, dirs),
        listing_bytes(s.insert(i, e), dirs) == listing_bytes(s, dirs),
{
    let fi = |x: Entry| entry_items(x, dirs);
    let fb = |x: Entry| entry_bytes(x, dirs);
    let pre = s.take(i);
    let post = s.skip(i);
    assert(s =~= pre + post);
    assert(s.insert(i, e) =~= pre.push(e) + post);
    lemma_sum_concat(pre, post, fi);
    lemma_sum_concat(pre, post, fb);
    lemma_sum_concat(pre.push(e), post, fi);
    lemma_sum_concat(pre.push(e), post, fb);
    lemma_sum_push(pre, e, fi);
    lemma_sum_push(pre, e, fb);
}

/// The length of a top-level entry.
pub open spec fn entry_len(e: Entry) -> nat {
    e.node.len as nat
}

/// In a category of single-file items, N plain files outside firmware make N
/// items and the sum of their lengths in bytes.
pub proof fn lemma_single_file_listing(s: Seq<Entry>)
    requires
        forall|i: int|
            0 <= i < s.len() ==> (#[trigger] s[i]).node.kind == EntryKind::File
                && !is_excluded(s[i].node.path@),
    ensures
        listing_items(s, false) == s.len(),
        listing_bytes(s, false) == sum_by(s, |e: Entry| entry_len(e)),
    decreases s.len(),
{
    if s.len() > 0 {
        lemma_single_file_listing(s.drop_last());
    }
}

/// The bytes of the plain files directly inside an item directory.
pub open spec fn item_dir_bytes(e: Entry) -> nat {
    sum_by(e.parts@, |p: Node| p.len as nat)
}

/// A directory outside firmware whose entries are all plain files outside firmware.
pub open spec fn is_plain_item_dir(e: Entry) -> bool {
    &&& e.node.kind == EntryKind::Directory
    &&& !is_excluded(e.node.path@)
    &&& forall|j: int|
        0 <= j < e.parts@.len() ==> (#[trigger] e.parts@[j]).kind == EntryKind::File
            && !is_excluded(e.parts@[j].path@)
}

/// In a category of directory items, M directories outside firmware, each
/// holding plain files outside firmware, make M items and the sum of the
/// files' lengths in bytes.
pub proof fn lemma_directory_listing(s: Seq<Entry>)
    requires
        forall|i: int| 0 <= i < s.len() ==> is_plain_item_dir(#[trigger] s[i]),
    ensures
        listing_items(s, true) == s.len(),
        listing_bytes(s, true) == sum_by(s, |e: Entry| item_dir_bytes(e)),
    decreases s.len(),
{
    if s.len() > 0 {
        let e = s.last();
        assert(is_plain_item_dir(s[s.len() - 1]));
        lemma_files_parts_bytes(e.parts@);
        lemma_directory_listing(s.drop_last());
    }
}

proof fn lemma_files_parts_bytes(p: Seq<Node>)
    requires
        forall|j: int|
            0 <= j < p.len() ==> (#[trigger] p[j]).kind == EntryKind::File && !is_excluded(
                p[j].path@,
            ),
    ensures
        parts_bytes(p) == sum_by(p, |n: Node| n.len as nat),
    decreases p.len(),
{
    if p.len() > 0 {
        lemma_files_parts_bytes(p.drop_last());
    }
}

/// In a category of directory items, a plain file at the top level adds its
/// length to the bytes and nothing to the items.
pub proof fn lemma_stray_file(s: Seq<Entry>, e: Entry)
    requires
        e.node.kind == EntryKind::File,
        !is_excluded(e.node.path@),
    ensures
        listing_items(s.push(e), true) == listing_items(s, true),
        listing_bytes(s.push(e), true) == listing_bytes(s, true) + e.node.len,
{
    lemma_sum_push(s, e, |x: Entry| entry_items(x, true));
    lemma_sum_push(s, e, |x: Entry| entry_bytes(x, true));
}

} // verus!
