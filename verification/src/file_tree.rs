//! Which entries of a directory the file tree shows, and in what order.
use vstd::prelude::*;
use vstd::seq_lib::{to_multiset_build, to_multiset_insert};
use vstd::string::StringSliceAdditionalSpecFns;
use vstd::utf8::encode_utf8;
use crate::settings_value::{
    bytes_lt, compare_bytes, lemma_bytes_lt_irreflexive, lemma_bytes_lt_trans,
};

verus! {

/// A directory entry as listed: its file name and whether it is a directory.
#[derive(Debug, PartialEq, Eq)]
pub struct ListedEntry {
    pub name: String,
    pub is_dir: bool,
}

impl Clone for ListedEntry {
    fn clone(&self) -> (r: Self)
        ensures
            r == *self,
    {
        ListedEntry { name: self.name.clone(), is_dir: self.is_dir }
    }
}

/// The UTF-8 bytes of an entry's name.
pub open spec fn name_bytes(e: ListedEntry) -> Seq<u8> {
    encode_utf8(e.name@)
}

/// The index of the last `.` among the first `i` bytes of `b`, or -1 when there is none.
pub open spec fn last_dot(b: Seq<u8>, i: int) -> int
    decreases i,
{
    if i <= 0 {
        -1
    } else if b[i - 1] == 0x2eu8 {
        i - 1
    } else {
        last_dot(b, i - 1)
    }
}

/// `Path::extension` of a file name: the text after its last `.`, except for a name with
/// no `.`, a name whose only `.` starts it, and `..`.
pub open spec fn extension_of(b: Seq<u8>) -> Option<Seq<u8>> {
    let d = last_dot(b, b.len() as int);
    if d <= 0 || b == seq![0x2eu8, 0x2eu8] {
        None
    } else {
        Some(b.subrange(d + 1, b.len() as int))
    }
}

/// A Markdown file name: its extension is `md` or `markdown`.
pub open spec fn markdown_name(b: Seq<u8>) -> bool {
    extension_of(b) == Some(seq![0x6du8, 0x64u8]) || extension_of(b) == Some(
        seq![0x6du8, 0x61u8, 0x72u8, 0x6bu8, 0x64u8, 0x6fu8, 0x77u8, 0x6eu8],
    )
}

/// A file named by a non-empty stem followed by `.md` or `.markdown` is a Markdown file;
/// a name without any `.` is not; and a hidden entry (whose name starts with `.`) is never
/// shown, while any other directory always is.
pub proof fn markdown_names(stem: Seq<u8>, name: Seq<u8>, e: ListedEntry)
    ensures
        stem.len() > 0 ==> markdown_name(stem + seq![0x2eu8, 0x6du8, 0x64u8]),
        stem.len() > 0 ==> markdown_name(
            stem + seq![0x2eu8, 0x6du8, 0x61u8, 0x72u8, 0x6bu8, 0x64u8, 0x6fu8, 0x77u8, 0x6eu8],
        ),
        (forall|i: int| 0 <= i < name.len() ==> name[i] != 0x2eu8) ==> !markdown_name(name),
        name_bytes(e).len() > 0 && name_bytes(e)[0] == 0x2eu8 ==> !shown(e),
        e.is_dir && !(name_bytes(e).len() > 0 && name_bytes(e)[0] == 0x2eu8) ==> shown(e),
{
    if stem.len() > 0 {
        let md = seq![0x2eu8, 0x6du8, 0x64u8];
        let b = stem + md;
        reveal_with_fuel(last_dot, 3);
        assert(b[b.len() - 1] == 0x64u8);
        assert(b[b.len() - 2] == 0x6du8);
        assert(b[b.len() - 3] == 0x2eu8);
        assert(last_dot(b, b.len() - 2) == b.len() - 3);
        assert(b.subrange(b.len() - 2, b.len() as int) =~= seq![0x6du8, 0x64u8]);
        assert(b != seq![0x2eu8, 0x2eu8]);
        let long = seq![0x2eu8, 0x6du8, 0x61u8, 0x72u8, 0x6bu8, 0x64u8, 0x6fu8, 0x77u8, 0x6eu8];
        let c = stem + long;
        let n = c.len() as int;
        assert(c[n - 9] == 0x2eu8);
        assert forall|i: int| n - 8 <= i < n implies c[i] != 0x2eu8 by {
            assert(c[i] == long[i - stem.len()]);
        }
        lemma_last_dot_skips(c, n - 8, n);
        assert(last_dot(c, n - 8) == n - 9);
        assert(c.subrange(n - 8, n) =~= seq![0x6du8, 0x61u8, 0x72u8, 0x6bu8, 0x64u8, 0x6fu8, 0x77u8, 0x6eu8]);
        assert(c != seq![0x2eu8, 0x2eu8]);
    }
    if forall|i: int| 0 <= i < name.len() ==> name[i] != 0x2eu8 {
        lemma_last_dot_skips(name, 0, name.len() as int);
    }
}

/// Bytes other than `.` between `lo` and `hi` leave the last `.` before `hi` where it is
/// before `lo`.
proof fn lemma_last_dot_skips(b: Seq<u8>, lo: int, hi: int)
    requires
        0 <= lo <= hi <= b.len(),
        forall|i: int| lo <= i < hi ==> b[i] != 0x2eu8,
    ensures
        last_dot(b, hi) == last_dot(b, lo),
    decreases hi - lo,
{
    if hi > lo {
        lemma_last_dot_skips(b, lo, hi - 1);
    }
}

/// The tree shows an entry that is not hidden (its name does not start with `.`) and is
/// a directory or a Markdown file.
pub open spec fn shown(e: ListedEntry) -> bool {
    let b = name_bytes(e);
    !(b.len() > 0 && b[0] == 0x2eu8) && (e.is_dir || markdown_name(b))
}

/// Directories come before files; entries of the same kind go by name.
pub open spec fn entry_before(a: ListedEntry, b: ListedEntry) -> bool {
    (a.is_dir && !b.is_dir) || (a.is_dir == b.is_dir && bytes_lt(name_bytes(a), name_bytes(b)))
}

/// No entry comes before one listed earlier.
pub open spec fn tree_sorted(s: Seq<ListedEntry>) -> bool {
    forall|i: int, j: int| 0 <= i < j < s.len() ==> !entry_before(#[trigger] s[j], #[trigger] s[i])
}

/// The shown entries of `s`, in order.
pub open spec fn shown_entries(s: Seq<ListedEntry>) -> Seq<ListedEntry>
    decreases s.len(),
{
    if s.len() == 0 {
        s
    } else if shown(s.last()) {
        shown_entries(s.drop_last()).push(s.last())
    } else {
        shown_entries(s.drop_last())
    }
}

fn equals_bytes(b: &[u8], lo: usize, word: &[u8]) -> (r: bool)
    requires
        lo <= b@.len(),
    ensures
        r == (b@.subrange(lo as int, b@.len() as int) == word@),
{
    if b.len() - lo != word.len() {
        return false;
    }
    let mut k: usize = 0;
    while k < word.len()
        invariant
            lo <= b@.len(),
            b@.len() <= usize::MAX,
            lo + word@.len() == b@.len(),
            k <= word@.len(),
            forall|j: int| 0 <= j < k ==> b@[lo + j] == word@[j],
        decreases word@.len() - k,
    {
        if b[lo + k] != word[k] {
            proof {
                assert(b@.subrange(lo as int, b@.len() as int)[k as int] != word@[k as int]);
            }
            return false;
        }
        k += 1;
    }
    proof {
        assert(b@.subrange(lo as int, b@.len() as int) =~= word@);
    }
    true
}

/// Whether a file name names a Markdown file.
pub fn is_markdown(file_name: &str) -> (r: bool)
    ensures
        r == markdown_name(file_name.spec_bytes()),
{
    let b = file_name.as_bytes();
    let mut i = b.len();
    while i > 0 && b[i - 1] != 0x2eu8
        invariant
            i <= b@.len(),
            last_dot(b@, i as int) == last_dot(b@, b@.len() as int),
        decreases i,
    {
        i -= 1;
    }
    // `i - 1` is the last dot, if `i > 0`
    let dots = [0x2eu8, 0x2eu8];
    let md = [0x6du8, 0x64u8];
    let markdown = [0x6du8, 0x61u8, 0x72u8, 0x6bu8, 0x64u8, 0x6fu8, 0x77u8, 0x6eu8];
    proof {
        assert(dots@ =~= seq![0x2eu8, 0x2eu8]);
        assert(md@ =~= seq![0x6du8, 0x64u8]);
        assert(markdown@ =~= seq![0x6du8, 0x61u8, 0x72u8, 0x6bu8, 0x64u8, 0x6fu8, 0x77u8, 0x6eu8]);
        assert(b@.subrange(0, b@.len() as int) =~= b@);
    }
    if i <= 1 || equals_bytes(b, 0, dots.as_slice()) {
        return false;
    }
    equals_bytes(b, i, md.as_slice()) || equals_bytes(b, i, markdown.as_slice())
}

fn is_shown(e: &ListedEntry) -> (r: bool)
    ensures
        r == shown(*e),
{
    let b = e.name.as_str().as_bytes();
    if b.len() > 0 && b[0] == 0x2eu8 {
        return false;
    }
    e.is_dir || is_markdown(e.name.as_str())
}

fn is_before(a: &ListedEntry, b: &ListedEntry) -> (r: bool)
    ensures
        r == entry_before(*a, *b),
{
    if a.is_dir != b.is_dir {
        a.is_dir
    } else {
        compare_bytes(a.name.as_str().as_bytes(), b.name.as_str().as_bytes()) < 0
    }
}

proof fn lemma_entry_before_order(a: ListedEntry, b: ListedEntry, c: ListedEntry)
    ensures
        !entry_before(a, a),
        entry_before(a, b) && entry_before(b, c) ==> entry_before(a, c),
{
    lemma_bytes_lt_irreflexive(name_bytes(a));
    if entry_before(a, b) && entry_before(b, c) && a.is_dir == b.is_dir && b.is_dir == c.is_dir {
        lemma_bytes_lt_trans(name_bytes(a), name_bytes(b), name_bytes(c));
    }
}

/// The entries of a directory that the tree shows, directories first and then files,
/// each group by name.
pub fn arrange_entries(entries: Vec<ListedEntry>) -> (r: Vec<ListedEntry>)
    ensures
        tree_sorted(r@),
        r@.to_multiset() == shown_entries(entries@).to_multiset(),
{
    let mut r: Vec<ListedEntry> = Vec::new();
    let mut i: usize = 0;
    proof {
        assert(entries@.take(0) =~= Seq::<ListedEntry>::empty());
    }
    while i < entries.len()
        invariant
            i <= entries@.len(),
            tree_sorted(r@),
            r@.to_multiset() == shown_entries(entries@.take(i as int)).to_multiset(),
        decreases entries@.len() - i,
    {
        let e = &entries[i];
        proof {
            assert(entries@.take(i + 1).drop_last() =~= entries@.take(i as int));
            assert(entries@.take(i + 1).last() == entries@[i as int]);
        }
        if is_shown(e) {
            let mut pos: usize = 0;
            while pos < r.len() && !is_before(e, &r[pos])
                invariant
                    pos <= r@.len(),
                    forall|k: int| 0 <= k < pos ==> !entry_before(*e, #[trigger] r@[k]),
                decreases r@.len() - pos,
            {
                pos += 1;
            }
            let ghost before = r@;
            r.insert(pos, e.clone());
            proof {
                let x = r@[pos as int];
                assert(x == *e);
                assert forall|a: int, b: int| 0 <= a < b < r@.len() implies !entry_before(
                    #[trigger] r@[b],
                    #[trigger] r@[a],
                ) by {
                    if b < pos {
                        assert(!entry_before(before[b], before[a]));
                    } else if b == pos {
                        assert(!entry_before(*e, before[a]));
                    } else if a < pos {
                        assert(!entry_before(before[b - 1], before[a]));
                    } else if a == pos {
                        // e comes before before[pos], which no later entry comes before
                        assert(entry_before(*e, before[pos as int]));
                        if entry_before(before[b - 1], *e) {
                            lemma_entry_before_order(before[b - 1], *e, before[pos as int]);
                            if b - 1 == pos {
                                lemma_entry_before_order(before[pos as int], before[pos as int], before[pos as int]);
                            } else {
                                assert(!entry_before(before[b - 1], before[pos as int]));
                            }
                        }
                    } else {
                        assert(!entry_before(before[b - 1], before[a - 1]));
                    }
                }
                to_multiset_insert(before, pos as int, *e);
                to_multiset_build(shown_entries(entries@.take(i as int)), *e);
            }
        }
        i += 1;
    }
    proof {
        assert(entries@.take(entries@.len() as int) =~= entries@);
    }
    r
}

} // verus!
