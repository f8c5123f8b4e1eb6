use vstd::prelude::*;

use crate::scan::ScanResult;
use crate::sums::{lemma_sum_prefix, lemma_sum_push, sum_by};

verus! {

/// What a directory entry is.
#[derive(Clone, Copy, Debug, PartialEq, Eq, Structural)]
pub enum EntryKind {
    File,
    Directory,
    /// Neither a plain file nor a directory (a dangling link, a device).
    Other,
}

/// One entry of a directory: its full path, what it is, and its length in bytes.
#[derive(Debug)]
pub struct Node {
    pub path: String,
    pub kind: EntryKind,
    pub len: u64,
}

/// An entry at the top level of a category's directory. When it is a directory that
/// holds one item, `parts` are the entries found directly inside it; otherwise
/// `parts` is not read.
#[derive(Debug)]
pub struct Entry {
    pub node: Node,
    pub parts: Vec<Node>,
}

impl Node {
    pub fn file(path: String, len: u64) -> (r: Node)
        ensures
            r.path@ == path@,
            r.kind == EntryKind::File,
            r.len == len,
    {
        Node { path, kind: EntryKind::File, len }
    }

    pub fn directory(path: String) -> (r: Node)
        ensures
            r.path@ == path@,
            r.kind == EntryKind::Directory,
            r.len == 0,
    {
        Node { path, kind: EntryKind::Directory, len: 0 }
    }
}

impl Entry {
    /// A top-level plain file.
    pub fn file(path: String, len: u64) -> (r: Entry)
        ensures
            r.node.path@ == path@,
            r.node.kind == EntryKind::File,
            r.node.len == len,
            r.parts@.len() == 0,
    {
        Entry { node: Node::file(path, len), parts: Vec::new() }
    }

    /// A top-level directory with the entries found inside it.
    pub fn directory(path: String, parts: Vec<Node>) -> (r: Entry)
        ensures
            r.node.path@ == path@,
            r.node.kind == EntryKind::Directory,
            r.node.len == 0,
            r.parts@ == parts@,
    {
        Entry { node: Node::directory(path), parts }
    }
}

/// The path fragment that marks firmware content, which no tally includes.
pub open spec fn bios_marker() -> Seq<char> {
    seq!['!', 'b', 'i', 'o', 's']
}

/// `m` occurs in `p` starting at position `i`.
pub open spec fn occurs_at(p: Seq<char>, m: Seq<char>, i: int) -> bool {
    0 <= i && i + m.len() <= p.len() && p.subrange(i, i + m.len()) == m
}

/// `m` occurs somewhere in `p`.
pub open spec fn occurs_in(p: Seq<char>, m: Seq<char>) -> bool {
    exists|i: int| occurs_at(p, m, i)
}

/// A path is excluded from every tally when it holds the firmware marker.
pub open spec fn is_excluded(path: Seq<char>) -> bool {
    occurs_in(path, bios_marker())
}

/// The characters of `s`, one by one.
fn chars_of(s: &str) -> (r: Vec<char>)
    ensures
        r@ == s@,
{
    let mut r: Vec<char> = Vec::new();
    for c in it: s.chars()
        invariant
            r@ == it.seq().take(it.index() as int),
    {
        r.push(c);
    }
    r
}

/// Whether `m` occurs at position `i` of `p`.
fn matches_at(p: &Vec<char>, m: &Vec<char>, i: usize) -> (r: bool)
    requires
        i + m@.len() <= p@.len(),
    ensures
        r == occurs_at(p@, m@, i as int),
{
    let n = p.len();
    let mut j: usize = 0;
    while j < m.len()
        invariant
            n == p@.len(),
            j <= m@.len(),
            i + m@.len() <= p@.len(),
            forall|k: int| 0 <= k < j ==> p@[i + k] == m@[k],
        decreases m@.len() - j,
    {
        if p[i + j] != m[j] {
            assert(p@.subrange(i as int, i + m@.len())[j as int] != m@[j as int]);
            return false;
        }
        j = j + 1;
    }
    assert(p@.subrange(i as int, i + m@.len()) =~= m@);
    true
}

/// Whether the path `path` holds the firmware marker.
pub fn is_excluded_path(path: &str) -> (r: bool)
    ensures
        r == is_excluded(path@),
{
    let p = chars_of(path);
    let m: Vec<char> = vec!['!', 'b', 'i', 'o', 's'];
    assert(m@ =~= bios_marker());
    let n = p.len();
    let mut i: usize = 0;
    while m.len() <= n - i
        invariant
            n == p@.len(),
            p@ == path@,
            m@ == bios_marker(),
            i <= p@.len(),
            forall|k: int| 0 <= k < i ==> !occurs_at(p@, m@, k),
        decreases p@.len() - i,
    {
        if matches_at(&p, &m, i) {
            assert(occurs_at(path@, bios_marker(), i as int));
            return true;
        }
        i = i + 1;
    }
    assert forall|k: int| !occurs_at(p@, m@, k) by {
        if k >= i {
            assert(k + m@.len() > p@.len());
        }
    }
    false
}

/// Bytes that an entry inside an item directory adds: its length when it is a
/// plain file outside firmware, else nothing. Deeper directories are not read.
pub open spec fn part_bytes(p: Node) -> nat {
    if p.kind == EntryKind::File && !is_excluded(p.path@) {
        p.len as nat
    } else {
        0
    }
}

/// Bytes of all the entries inside an item directory.
pub open spec fn parts_bytes(parts: Seq<Node>) -> nat {
    sum_by(parts, |p: Node| part_bytes(p))
}

/// Items that a top-level entry adds: one per file in a category of single-file
/// items, one per directory in a category of directory items.
pub open spec fn entry_items(e: Entry, dirs: bool) -> nat {
    if is_excluded(e.node.path@) {
        0
    } else {
        match e.node.kind {
            EntryKind::File => if dirs { 0 } else { 1 },
            EntryKind::Directory => if dirs { 1 } else { 0 },
            EntryKind::Other => 0,
        }
    }
}

/// Bytes that a top-level entry adds: a file's own length; for a directory in a
/// category of directory items, the lengths of the files directly inside it.
pub open spec fn entry_bytes(e: Entry, dirs: bool) -> nat {
    if is_excluded(e.node.path@) {
        0
    } else {
        match e.node.kind {
            EntryKind::File => e.node.len as nat,
            EntryKind::Directory => if dirs { parts_bytes(e.parts@) } else { 0 },
            EntryKind::Other => 0,
        }
    }
}

/// Whether the entries inside a top-level entry must be read: only for a
/// directory, outside firmware, in a category of directory items.
pub fn needs_parts(node: &Node, dirs: bool) -> (r: bool)
    ensures
        r == (dirs && node.kind == EntryKind::Directory && !is_excluded(node.path@)),
{
    dirs && node.kind == EntryKind::Directory && !is_excluded_path(node.path.as_str())
}

/// The sum of the file lengths inside an item directory, or `None` when it does
/// not fit in 64 bits.
pub fn sum_parts(parts: &Vec<Node>) -> (r: Option<u64>)
    ensures
        r is Some <==> parts_bytes(parts@) <= u64::MAX,
        r is Some ==> r->0 == parts_bytes(parts@),
{
    let mut total: u64 = 0;
    let mut i: usize = 0;
    while i < parts.len()
        invariant
            i <= parts@.len(),
            total == parts_bytes(parts@.take(i as int)),
        decreases parts@.len() - i,
    {
        let p = &parts[i];
        let add: u64 = if p.kind == EntryKind::File && !is_excluded_path(p.path.as_str()) {
            p.len
        } else {
            0
        };
        proof {
            assert(parts@.take(i as int).push(parts@[i as int]) =~= parts@.take(i + 1));
            lemma_sum_push(parts@.take(i as int), parts@[i as int], |p: Node| part_bytes(p));
        }
        if add > u64::MAX - total {
            proof {
                lemma_sum_prefix(parts@, i + 1, |p: Node| part_bytes(p));
            }
            return None;
        }
        total = total + add;
        i = i + 1;
    }
    assert(parts@.take(i as int) =~= parts@);
    Some(total)
}

/// What one top-level entry adds to its category's tally, or `None` when its
/// bytes do not fit in 64 bits.
pub fn classify(entry: &Entry, dirs: bool) -> (r: Option<ScanResult>)
    ensures
        r is Some <==> entry_bytes(*entry, dirs) <= u64::MAX,
        r is Some ==> r->0.item_count == entry_items(*entry, dirs),
        r is Some ==> r->0.total_bytes == entry_bytes(*entry, dirs),
{
    if is_excluded_path(entry.node.path.as_str()) {
        return Some(ScanResult { item_count: 0, total_bytes: 0 });
    }
    match entry.node.kind {
        EntryKind::File => {
            let items: u32 = if dirs { 0 } else { 1 };
            Some(ScanResult { item_count: items, total_bytes: entry.node.len })
        },
        EntryKind::Directory => {
            if dirs {
                match sum_parts(&entry.parts) {
                    Some(b) => Some(ScanResult { item_count: 1, total_bytes: b }),
                    None => None,
                }
            } else {
                Some(ScanResult { item_count: 0, total_bytes: 0 })
            }
        },
        EntryKind::Other => Some(ScanResult { item_count: 0, total_bytes: 0 }),
    }
}

} // verus!
