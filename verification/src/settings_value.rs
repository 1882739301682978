//! The values of one setting: a global value, and values that apply below a directory of
//! a worktree, kept sorted by worktree and directory.
use vstd::prelude::*;
use vstd::utf8::encode_utf8;
use vstd::string::StringSliceAdditionalSpecFns;
use vstd::string::StringExecFns;
use crate::settings::WorktreeId;

verus! {

/// A path relative to a worktree root, its components joined by `/` (the empty path is
/// the root).
#[derive(Debug, PartialEq, Eq, Hash, PartialOrd, Ord)]
pub struct RelPath(String);

impl View for RelPath {
    /// The UTF-8 bytes of the path.
    type V = Seq<u8>;

    closed spec fn view(&self) -> Seq<u8> {
        encode_utf8(self.0@)
    }
}

impl RelPath {
    /// The path written `text`.
    pub fn new(text: &str) -> (r: Self)
        ensures
            r@ == text.spec_bytes(),
    {
        RelPath(String::from_str(text))
    }

    fn bytes(&self) -> (r: &[u8])
        ensures
            r@ == self@,
    {
        self.0.as_str().as_bytes()
    }
}

/// Byte-wise lexicographic order, as `str` orders: `a` comes before `b`.
pub open spec fn bytes_lt(a: Seq<u8>, b: Seq<u8>) -> bool
    decreases a.len(),
{
    if a.len() == 0 {
        b.len() > 0
    } else if b.len() == 0 {
        false
    } else if a[0] != b[0] {
        a[0] < b[0]
    } else {
        bytes_lt(a.drop_first(), b.drop_first())
    }
}

/// `p` lies at or below the directory `q`: `q` is the root, or `p` is `q`, or `p`
/// continues `q` with a `/`.
pub open spec fn path_starts_with(p: Seq<u8>, q: Seq<u8>) -> bool {
    ||| q.len() == 0
    ||| p == q
    ||| (q.len() < p.len() && p.subrange(0, q.len() as int) == q && p[q.len() as int] == 0x2fu8)
}

/// The key a local value is sorted by: its worktree, then its directory.
pub open spec fn key_lt(w1: usize, p1: Seq<u8>, w2: usize, p2: Seq<u8>) -> bool {
    w1 < w2 || (w1 == w2 && bytes_lt(p1, p2))
}

/// The local values are in strictly increasing key order (so no key occurs twice).
pub open spec fn locals_sorted<T>(ls: Seq<(WorktreeId, RelPath, T)>) -> bool {
    forall|i: int, j: int|
        0 <= i < j < ls.len() ==> key_lt(
            (#[trigger] ls[i]).0@,
            ls[i].1@,
            (#[trigger] ls[j]).0@,
            ls[j].1@,
        )
}

/// The local values as a map from keys to values.
pub open spec fn locals_map<T>(ls: Seq<(WorktreeId, RelPath, T)>) -> Map<(usize, Seq<u8>), T>
    decreases ls.len(),
{
    if ls.len() == 0 {
        Map::empty()
    } else {
        locals_map(ls.drop_last()).insert((ls.last().0@, ls.last().1@), ls.last().2)
    }
}

/// The local value `e` applies at `path` of worktree `w`.
pub open spec fn applies<T>(e: (WorktreeId, RelPath, T), w: usize, path: Seq<u8>) -> bool {
    e.0@ == w && path_starts_with(path, e.1@)
}

/// The last local value that applies at `path` of worktree `w`, by index.
pub open spec fn local_match<T>(ls: Seq<(WorktreeId, RelPath, T)>, w: usize, path: Seq<u8>) -> Option<int>
    decreases ls.len(),
{
    if ls.len() == 0 {
        None
    } else if applies(ls.last(), w, path) {
        Some(ls.len() - 1)
    } else {
        local_match(ls.drop_last(), w, path)
    }
}

/// The local values of worktrees other than `w`, in order.
pub open spec fn without_worktree<T>(ls: Seq<(WorktreeId, RelPath, T)>, w: usize) -> Seq<(WorktreeId, RelPath, T)>
    decreases ls.len(),
{
    if ls.len() == 0 {
        ls
    } else if ls.last().0@ == w {
        without_worktree(ls.drop_last(), w)
    } else {
        without_worktree(ls.drop_last(), w).push(ls.last())
    }
}

/// Where a setting is read: a worktree and a path in it.
#[derive(Clone, Copy, Debug)]
pub struct SettingsLocation<'a> {
    pub worktree_id: WorktreeId,
    pub path: &'a RelPath,
}

/// The values of one setting.
#[derive(Debug)]
pub struct SettingValue<T> {
    pub global_value: Option<T>,
    pub local_values: Vec<(WorktreeId, RelPath, T)>,
}

/* Comparing paths */

proof fn lemma_bytes_lt_prefix(a: Seq<u8>, b: Seq<u8>, k: int)
    requires
        0 <= k <= a.len(),
        k <= b.len(),
        a.subrange(0, k) == b.subrange(0, k),
    ensures
        bytes_lt(a, b) == bytes_lt(a.subrange(k, a.len() as int), b.subrange(k, b.len() as int)),
    decreases k,
{
    if k > 0 {
        assert(a[0] == a.subrange(0, k)[0]);
        assert(b[0] == b.subrange(0, k)[0]);
        let a1 = a.drop_first();
        let b1 = b.drop_first();
        assert(a1.subrange(0, k - 1) =~= a.subrange(1, k));
        assert(b1.subrange(0, k - 1) =~= b.subrange(1, k));
        assert(a.subrange(1, k) =~= a.subrange(0, k).subrange(1, k));
        assert(b.subrange(1, k) =~= b.subrange(0, k).subrange(1, k));
        lemma_bytes_lt_prefix(a1, b1, k - 1);
        assert(a1.subrange(k - 1, a1.len() as int) =~= a.subrange(k, a.len() as int));
        assert(b1.subrange(k - 1, b1.len() as int) =~= b.subrange(k, b.len() as int));
    } else {
        assert(a.subrange(0, a.len() as int) =~= a);
        assert(b.subrange(0, b.len() as int) =~= b);
    }
}

/// The order of byte strings: `a` before `b`, equal, or after.
pub fn compare_bytes(a: &[u8], b: &[u8]) -> (r: i8)
    ensures
        r < 0 <==> bytes_lt(a@, b@),
        r == 0 <==> a@ == b@,
        r > 0 <==> bytes_lt(b@, a@),
{
    let mut k: usize = 0;
    while k < a.len() && k < b.len() && a[k] == b[k]
        invariant
            k <= a@.len(),
            k <= b@.len(),
            a@.subrange(0, k as int) == b@.subrange(0, k as int),
        decreases a@.len() - k,
    {
        proof {
            assert(a@.subrange(0, k + 1) =~= a@.subrange(0, k as int).push(a@[k as int]));
            assert(b@.subrange(0, k + 1) =~= b@.subrange(0, k as int).push(b@[k as int]));
        }
        k += 1;
    }
    proof {
        lemma_bytes_lt_prefix(a@, b@, k as int);
        lemma_bytes_lt_prefix(b@, a@, k as int);
        let ra = a@.subrange(k as int, a@.len() as int);
        let rb = b@.subrange(k as int, b@.len() as int);
        if k < a@.len() && k < b@.len() {
            assert(ra[0] == a@[k as int]);
            assert(rb[0] == b@[k as int]);
            assert(a@[k as int] != b@[k as int]);
            assert(a@ != b@) by {
                assert(a@[k as int] != b@[k as int]);
            }
        } else if k == a@.len() && k == b@.len() {
            assert(a@ =~= a@.subrange(0, k as int));
            assert(b@ =~= b@.subrange(0, k as int));
        } else if k == a@.len() {
            assert(a@.len() != b@.len());
        } else {
            assert(a@.len() != b@.len());
        }
    }
    if k < a.len() && k < b.len() {
        if a[k] < b[k] {
            -1
        } else {
            1
        }
    } else if a.len() < b.len() {
        -1
    } else if a.len() > b.len() {
        1
    } else {
        0
    }
}

impl RelPath {
    /// `self` lies at or below the directory `other`.
    pub fn starts_with(&self, other: &RelPath) -> (r: bool)
        ensures
            r == path_starts_with(self@, other@),
    {
        let p = self.bytes();
        let q = other.bytes();
        if q.len() == 0 {
            return true;
        }
        if q.len() > p.len() {
            proof {
                assert(p@ != q@);
            }
            return false;
        }
        let mut k: usize = 0;
        while k < q.len()
            invariant
                p@ == self@,
                q@ == other@,
                0 < q@.len() <= p@.len(),
                k <= q@.len(),
                p@.subrange(0, k as int) == q@.subrange(0, k as int),
            decreases q@.len() - k,
        {
            if p[k] != q[k] {
                proof {
                    assert(p@.subrange(0, q@.len() as int)[k as int] != q@[k as int]);
                    assert(p@.subrange(0, q@.len() as int) != q@);
                    assert(p@ != q@) by {
                        assert(p@[k as int] != q@[k as int]);
                    }
                }
                return false;
            }
            proof {
                assert(p@.subrange(0, k + 1) =~= p@.subrange(0, k as int).push(p@[k as int]));
                assert(q@.subrange(0, k + 1) =~= q@.subrange(0, k as int).push(q@[k as int]));
            }
            k += 1;
        }
        proof {
            assert(q@.subrange(0, q@.len() as int) =~= q@);
        }
        if p.len() == q.len() {
            proof {
                assert(p@ =~= p@.subrange(0, q@.len() as int));
            }
            true
        } else {
            proof {
                if p@ == q@ {
                    assert(p@.len() == q@.len());
                }
            }
            p[q.len()] == 0x2fu8
        }
    }
}

impl Clone for RelPath {
    fn clone(&self) -> (r: Self)
        ensures
            r@ == self@,
    {
        RelPath(self.0.clone())
    }
}

/* The order of keys */

pub proof fn lemma_bytes_lt_irreflexive(a: Seq<u8>)
    ensures
        !bytes_lt(a, a),
    decreases a.len(),
{
    if a.len() > 0 {
        lemma_bytes_lt_irreflexive(a.drop_first());
    }
}

pub proof fn lemma_bytes_lt_trans(a: Seq<u8>, b: Seq<u8>, c: Seq<u8>)
    requires
        bytes_lt(a, b),
        bytes_lt(b, c),
    ensures
        bytes_lt(a, c),
    decreases a.len(),
{
    if a.len() > 0 && b.len() > 0 && c.len() > 0 && a[0] == b[0] && b[0] == c[0] {
        lemma_bytes_lt_trans(a.drop_first(), b.drop_first(), c.drop_first());
    }
}

pub proof fn lemma_bytes_lt_asym(a: Seq<u8>, b: Seq<u8>)
    requires
        bytes_lt(a, b),
    ensures
        !bytes_lt(b, a),
        a != b,
{
    lemma_bytes_lt_irreflexive(a);
    if bytes_lt(b, a) {
        lemma_bytes_lt_trans(a, b, a);
    }
}

/// A directory never comes after a path below it.
proof fn lemma_prefix_not_after(p: Seq<u8>, q: Seq<u8>)
    requires
        q.len() <= p.len(),
        p.subrange(0, q.len() as int) == q,
    ensures
        !bytes_lt(p, q),
    decreases q.len(),
{
    if q.len() > 0 {
        assert(p[0] == q[0]) by {
            assert(p.subrange(0, q.len() as int)[0] == p[0]);
        }
        assert(p.drop_first().subrange(0, q.len() - 1) =~= q.drop_first()) by {
            assert forall|k: int| 0 <= k < q.len() - 1 implies p.drop_first().subrange(
                0,
                q.len() - 1,
            )[k] == q.drop_first()[k] by {
                assert(p.subrange(0, q.len() as int)[k + 1] == p[k + 1]);
            }
        }
        lemma_prefix_not_after(p.drop_first(), q.drop_first());
    }
}

proof fn lemma_key_lt_trans(w1: usize, p1: Seq<u8>, w2: usize, p2: Seq<u8>, w3: usize, p3: Seq<u8>)
    requires
        key_lt(w1, p1, w2, p2),
        key_lt(w2, p2, w3, p3),
    ensures
        key_lt(w1, p1, w3, p3),
{
    if w1 == w2 && w2 == w3 {
        lemma_bytes_lt_trans(p1, p2, p3);
    }
}

/* The local values as a map */

/// What `locals_map` holds: the keys of the entries, each with the value of its last
/// entry.
proof fn lemma_locals_map<T>(ls: Seq<(WorktreeId, RelPath, T)>)
    ensures
        forall|w: usize, p: Seq<u8>|
            #![trigger locals_map(ls).contains_key((w, p))]
            locals_map(ls).contains_key((w, p)) <==> exists|i: int|
                0 <= i < ls.len() && (#[trigger] ls[i]).0@ == w && ls[i].1@ == p,
        forall|i: int|
            0 <= i < ls.len() && (forall|k: int|
                i < k < ls.len() ==> !((#[trigger] ls[k]).0@ == ls[i].0@ && ls[k].1@ == ls[i].1@))
                ==> locals_map(ls)[((#[trigger] ls[i]).0@, ls[i].1@)] == ls[i].2,
    decreases ls.len(),
{
    if ls.len() > 0 {
        let d = ls.drop_last();
        lemma_locals_map(d);
        assert forall|w: usize, p: Seq<u8>|
            #![trigger locals_map(ls).contains_key((w, p))]
            locals_map(ls).contains_key((w, p)) <==> exists|i: int|
                0 <= i < ls.len() && (#[trigger] ls[i]).0@ == w && ls[i].1@ == p by {
            if locals_map(ls).contains_key((w, p)) {
                if (w, p) == (ls.last().0@, ls.last().1@) {
                    assert(ls[ls.len() - 1].0@ == w && ls[ls.len() - 1].1@ == p);
                } else {
                    assert(locals_map(d).contains_key((w, p)));
                    let i = choose|i: int| 0 <= i < d.len() && (#[trigger] d[i]).0@ == w && d[i].1@ == p;
                    assert(ls[i] == d[i]);
                }
            }
            if exists|i: int| 0 <= i < ls.len() && (#[trigger] ls[i]).0@ == w && ls[i].1@ == p {
                let i = choose|i: int| 0 <= i < ls.len() && (#[trigger] ls[i]).0@ == w && ls[i].1@ == p;
                if i < d.len() {
                    assert(d[i] == ls[i]);
                    assert(locals_map(d).contains_key((w, p)));
                }
            }
        }
        assert forall|i: int|
            0 <= i < ls.len() && (forall|k: int|
                i < k < ls.len() ==> !((#[trigger] ls[k]).0@ == ls[i].0@ && ls[k].1@ == ls[i].1@))
                implies locals_map(ls)[((#[trigger] ls[i]).0@, ls[i].1@)] == ls[i].2 by {
            if i < d.len() {
                assert(d[i] == ls[i]);
                assert forall|k: int|
                    i < k < d.len() implies !((#[trigger] d[k]).0@ == d[i].0@ && d[k].1@ == d[i].1@) by {
                    assert(d[k] == ls[k]);
                }
                let last = ls[ls.len() - 1];
                assert(!(last.0@ == ls[i].0@ && last.1@ == ls[i].1@));
            }
        }
    }
}

/// In a sorted sequence every entry is the last with its key.
proof fn lemma_sorted_last_key<T>(ls: Seq<(WorktreeId, RelPath, T)>, i: int)
    requires
        locals_sorted(ls),
        0 <= i < ls.len(),
    ensures
        forall|k: int|
            i < k < ls.len() ==> !((#[trigger] ls[k]).0@ == ls[i].0@ && ls[k].1@ == ls[i].1@),
{
    assert forall|k: int| i < k < ls.len() implies !((#[trigger] ls[k]).0@ == ls[i].0@ && ls[k].1@
        == ls[i].1@) by {
        assert(key_lt(ls[i].0@, ls[i].1@, ls[k].0@, ls[k].1@));
        if ls[i].0@ == ls[k].0@ {
            lemma_bytes_lt_asym(ls[i].1@, ls[k].1@);
        }
    }
}

/// A sorted sequence gives the map with its keys, each with the entry's value.
proof fn lemma_sorted_map_eq<T>(a: Seq<(WorktreeId, RelPath, T)>, m: Map<(usize, Seq<u8>), T>)
    requires
        locals_sorted(a),
        forall|w: usize, p: Seq<u8>|
            m.contains_key((w, p)) <==> exists|i: int|
                0 <= i < a.len() && (#[trigger] a[i]).0@ == w && a[i].1@ == p,
        forall|i: int| 0 <= i < a.len() ==> m[((#[trigger] a[i]).0@, a[i].1@)] == a[i].2,
    ensures
        locals_map(a) == m,
{
    lemma_locals_map(a);
    assert forall|k: (usize, Seq<u8>)| #[trigger] locals_map(a).dom().contains(k) == m.dom().contains(k) by {
        let (w, p) = k;
        assert(k == (w, p));
        assert(locals_map(a).contains_key((w, p)) == m.contains_key((w, p)));
    }
    assert(locals_map(a).dom() =~= m.dom());
    assert forall|k: (usize, Seq<u8>)| #[trigger] m.contains_key(k) implies locals_map(a)[k] == m[k] by {
        let (w, p) = k;
        assert(k == (w, p));
        assert(m.contains_key((w, p)));
        let i = choose|i: int| 0 <= i < a.len() && (#[trigger] a[i]).0@ == w && a[i].1@ == p;
        lemma_sorted_last_key(a, i);
    }
    assert(locals_map(a) =~= m);
}

/* Which local value applies */

proof fn lemma_local_match<T>(ls: Seq<(WorktreeId, RelPath, T)>, w: usize, path: Seq<u8>)
    ensures
        local_match(ls, w, path) matches Some(i) ==> 0 <= i < ls.len() && applies(ls[i], w, path)
            && forall|k: int| i < k < ls.len() ==> !applies(#[trigger] ls[k], w, path),
        local_match(ls, w, path) is None ==> forall|k: int|
            0 <= k < ls.len() ==> !applies(#[trigger] ls[k], w, path),
    decreases ls.len(),
{
    if ls.len() > 0 {
        let d = ls.drop_last();
        lemma_local_match(d, w, path);
        assert forall|k: int| 0 <= k < d.len() implies d[k] == ls[k] by {}
    }
}

/// No entry after the entry `j` for `(w, p)` applies at `p`: a directory never sorts after
/// a path below it.
proof fn lemma_no_later_applies<T>(ls: Seq<(WorktreeId, RelPath, T)>, j: int, w: usize, p: Seq<u8>)
    requires
        locals_sorted(ls),
        0 <= j < ls.len(),
        ls[j].0@ == w,
        ls[j].1@ == p,
    ensures
        forall|k: int| j < k < ls.len() ==> !applies(#[trigger] ls[k], w, p),
{
    assert forall|k: int| j < k < ls.len() implies !applies(#[trigger] ls[k], w, p) by {
        assert(key_lt(ls[j].0@, ls[j].1@, ls[k].0@, ls[k].1@));
        if applies(ls[k], w, p) {
            let q = ls[k].1@;
            lemma_bytes_lt_irreflexive(p);
            if q.len() > 0 && p != q {
                lemma_prefix_not_after(p, q);
            }
        }
    }
}

/// Reading where a value was written gives it back: the value stored for a worktree and
/// a directory is the value that applies at that directory.
pub proof fn local_value_read_after_write<T>(
    ls: Seq<(WorktreeId, RelPath, T)>,
    w: WorktreeId,
    p: RelPath,
    v: T,
)
    requires
        locals_sorted(ls),
        locals_map(ls).contains_key((w@, p@)),
        locals_map(ls)[(w@, p@)] == v,
    ensures
        local_match(ls, w@, p@) matches Some(i) && ls[i].2 == v,
{
    let j = choose|j: int| 0 <= j < ls.len() && (#[trigger] ls[j]).0@ == w@ && ls[j].1@ == p@;
    assert(0 <= j < ls.len() && ls[j].0@ == w@ && ls[j].1@ == p@ && ls[j].2 == v) by {
        lemma_locals_map(ls);
        lemma_sorted_last_key(ls, j);
    }
    lemma_no_later_applies(ls, j, w@, p@);
    assert(applies(ls[j], w@, p@));
    lemma_local_match(ls, w@, p@);
    match local_match(ls, w@, p@) {
        Some(i) => {
            if i < j {
                assert(applies(ls[j], w@, p@));
            }
        },
        None => {
            assert(applies(ls[j], w@, p@));
        },
    }
}

/* Changing the local values */

proof fn lemma_update_same_key<T>(ls: Seq<(WorktreeId, RelPath, T)>, mid: int, e: (WorktreeId, RelPath, T))
    requires
        locals_sorted(ls),
        0 <= mid < ls.len(),
        e.0@ == ls[mid].0@,
        e.1@ == ls[mid].1@,
    ensures
        locals_sorted(ls.update(mid, e)),
        locals_map(ls.update(mid, e)) == locals_map(ls).insert((e.0@, e.1@), e.2),
{
    let f = ls.update(mid, e);
    let m = locals_map(ls).insert((e.0@, e.1@), e.2);
    assert forall|i: int, j: int| 0 <= i < j < f.len() implies key_lt(
        (#[trigger] f[i]).0@,
        f[i].1@,
        (#[trigger] f[j]).0@,
        f[j].1@,
    ) by {
        assert(key_lt(ls[i].0@, ls[i].1@, ls[j].0@, ls[j].1@));
    }
    lemma_locals_map(ls);
    assert forall|w: usize, p: Seq<u8>|
        m.contains_key((w, p)) <==> exists|i: int|
            0 <= i < f.len() && (#[trigger] f[i]).0@ == w && f[i].1@ == p by {
        if m.contains_key((w, p)) && (w, p) != (e.0@, e.1@) {
            assert(locals_map(ls).contains_key((w, p)));
            let i = choose|i: int| 0 <= i < ls.len() && (#[trigger] ls[i]).0@ == w && ls[i].1@ == p;
            assert(f[i].0@ == w && f[i].1@ == p);
        }
        if (w, p) == (e.0@, e.1@) {
            assert(f[mid].0@ == w && f[mid].1@ == p);
        }
        if exists|i: int| 0 <= i < f.len() && (#[trigger] f[i]).0@ == w && f[i].1@ == p {
            let i = choose|i: int| 0 <= i < f.len() && (#[trigger] f[i]).0@ == w && f[i].1@ == p;
            assert(ls[i].0@ == w && ls[i].1@ == p);
            assert(locals_map(ls).contains_key((w, p)));
        }
    }
    assert forall|i: int| 0 <= i < f.len() implies m[((#[trigger] f[i]).0@, f[i].1@)] == f[i].2 by {
        if i != mid {
            lemma_sorted_last_key(ls, i);
            if i < mid {
                lemma_sorted_last_key(ls, i);
            } else {
                lemma_sorted_last_key(ls, mid);
            }
            assert(!(ls[i].0@ == ls[mid].0@ && ls[i].1@ == ls[mid].1@));
        }
    }
    lemma_sorted_map_eq(f, m);
}

proof fn lemma_insert_between<T>(ls: Seq<(WorktreeId, RelPath, T)>, lo: int, e: (WorktreeId, RelPath, T))
    requires
        locals_sorted(ls),
        0 <= lo <= ls.len(),
        forall|k: int| 0 <= k < lo ==> key_lt((#[trigger] ls[k]).0@, ls[k].1@, e.0@, e.1@),
        forall|k: int| lo <= k < ls.len() ==> key_lt(e.0@, e.1@, (#[trigger] ls[k]).0@, ls[k].1@),
    ensures
        locals_sorted(ls.insert(lo, e)),
        locals_map(ls.insert(lo, e)) == locals_map(ls).insert((e.0@, e.1@), e.2),
{
    let f = ls.insert(lo, e);
    let m = locals_map(ls).insert((e.0@, e.1@), e.2);
    assert forall|i: int, j: int| 0 <= i < j < f.len() implies key_lt(
        (#[trigger] f[i]).0@,
        f[i].1@,
        (#[trigger] f[j]).0@,
        f[j].1@,
    ) by {
        if j < lo {
            assert(key_lt(ls[i].0@, ls[i].1@, ls[j].0@, ls[j].1@));
        } else if j == lo {
        } else if i < lo {
            assert(key_lt(ls[i].0@, ls[i].1@, ls[j - 1].0@, ls[j - 1].1@));
        } else if i == lo {
        } else {
            assert(key_lt(ls[i - 1].0@, ls[i - 1].1@, ls[j - 1].0@, ls[j - 1].1@));
        }
    }
    // no entry already has the new key
    assert forall|k: int| 0 <= k < ls.len() implies !((#[trigger] ls[k]).0@ == e.0@ && ls[k].1@
        == e.1@) by {
        if k < lo {
            if ls[k].0@ == e.0@ {
                lemma_bytes_lt_asym(ls[k].1@, e.1@);
            }
        } else {
            if ls[k].0@ == e.0@ {
                lemma_bytes_lt_asym(e.1@, ls[k].1@);
            }
        }
    }
    lemma_locals_map(ls);
    assert forall|w: usize, p: Seq<u8>|
        m.contains_key((w, p)) <==> exists|i: int|
            0 <= i < f.len() && (#[trigger] f[i]).0@ == w && f[i].1@ == p by {
        if m.contains_key((w, p)) && (w, p) != (e.0@, e.1@) {
            assert(locals_map(ls).contains_key((w, p)));
            let i = choose|i: int| 0 <= i < ls.len() && (#[trigger] ls[i]).0@ == w && ls[i].1@ == p;
            if i < lo {
                assert(f[i] == ls[i]);
            } else {
                assert(f[i + 1] == ls[i]);
            }
        }
        if (w, p) == (e.0@, e.1@) {
            assert(f[lo] == e);
        }
        if exists|i: int| 0 <= i < f.len() && (#[trigger] f[i]).0@ == w && f[i].1@ == p {
            let i = choose|i: int| 0 <= i < f.len() && (#[trigger] f[i]).0@ == w && f[i].1@ == p;
            if i < lo {
                assert(f[i] == ls[i]);
                assert(locals_map(ls).contains_key((w, p)));
            } else if i > lo {
                assert(f[i] == ls[i - 1]);
                assert(locals_map(ls).contains_key((w, p)));
            }
        }
    }
    assert forall|i: int| 0 <= i < f.len() implies m[((#[trigger] f[i]).0@, f[i].1@)] == f[i].2 by {
        if i < lo {
            assert(f[i] == ls[i]);
            lemma_sorted_last_key(ls, i);
        } else if i > lo {
            assert(f[i] == ls[i - 1]);
            lemma_sorted_last_key(ls, i - 1);
        }
    }
    lemma_sorted_map_eq(f, m);
}

proof fn lemma_without_members<T>(ls: Seq<(WorktreeId, RelPath, T)>, w: usize)
    ensures
        forall|m: int|
            0 <= m < without_worktree(ls, w).len() ==> exists|k: int|
                0 <= k < ls.len() && #[trigger] without_worktree(ls, w)[m] == ls[k],
    decreases ls.len(),
{
    if ls.len() > 0 {
        let d = ls.drop_last();
        lemma_without_members(d, w);
        let wd = without_worktree(d, w);
        assert forall|m: int| 0 <= m < without_worktree(ls, w).len() implies exists|k: int|
            0 <= k < ls.len() && #[trigger] without_worktree(ls, w)[m] == ls[k] by {
            if m < wd.len() {
                let k = choose|k: int| 0 <= k < d.len() && wd[m] == d[k];
                assert(without_worktree(ls, w)[m] == ls[k]);
            } else {
                assert(without_worktree(ls, w)[m] == ls[ls.len() - 1]);
            }
        }
    }
}

proof fn lemma_without_sorted<T>(ls: Seq<(WorktreeId, RelPath, T)>, w: usize)
    requires
        locals_sorted(ls),
    ensures
        locals_sorted(without_worktree(ls, w)),
    decreases ls.len(),
{
    if ls.len() > 0 {
        let d = ls.drop_last();
        assert(locals_sorted(d)) by {
            assert forall|i: int, j: int| 0 <= i < j < d.len() implies key_lt(
                (#[trigger] d[i]).0@,
                d[i].1@,
                (#[trigger] d[j]).0@,
                d[j].1@,
            ) by {
                assert(key_lt(ls[i].0@, ls[i].1@, ls[j].0@, ls[j].1@));
            }
        }
        lemma_without_sorted(d, w);
        lemma_without_members(d, w);
        let wd = without_worktree(d, w);
        let last = ls[ls.len() - 1];
        if last.0@ != w {
            let f = wd.push(last);
            assert forall|i: int, j: int| 0 <= i < j < f.len() implies key_lt(
                (#[trigger] f[i]).0@,
                f[i].1@,
                (#[trigger] f[j]).0@,
                f[j].1@,
            ) by {
                if j == f.len() - 1 {
                    let k = choose|k: int| 0 <= k < d.len() && wd[i] == d[k];
                    assert(key_lt(ls[k].0@, ls[k].1@, last.0@, last.1@));
                } else {
                    assert(key_lt(wd[i].0@, wd[i].1@, wd[j].0@, wd[j].1@));
                }
            }
        }
    }
}

/// The order of an entry's key against the key `(w, p)`.
fn compare_key(ew: WorktreeId, ep: &RelPath, w: WorktreeId, p: &RelPath) -> (r: i8)
    ensures
        r < 0 <==> key_lt(ew@, ep@, w@, p@),
        r == 0 <==> (ew@ == w@ && ep@ == p@),
        r > 0 <==> key_lt(w@, p@, ew@, ep@),
{
    let a = ew.to_usize();
    let b = w.to_usize();
    if a < b {
        -1
    } else if a > b {
        1
    } else {
        compare_bytes(ep.bytes(), p.bytes())
    }
}

/// The value that applies at `path`: the last local value whose worktree is the path's
/// and whose directory holds the path, else the global value.
pub open spec fn value_at<T>(
    global_value: Option<T>,
    ls: Seq<(WorktreeId, RelPath, T)>,
    path: Option<SettingsLocation>,
) -> T {
    match path {
        Some(loc) => match local_match(ls, loc.worktree_id@, loc.path@) {
            Some(i) => ls[i].2,
            None => global_value->0,
        },
        None => global_value->0,
    }
}

impl<T> SettingValue<T> {
    /// The value that applies at `path`, or the global value when there is no path; there
    /// must be a global value wherever no local value applies.
    pub fn value_for_path(&self, path: Option<SettingsLocation>) -> (r: &T)
        requires
            self.global_value is Some || (path matches Some(loc) && local_match(
                self.local_values@,
                loc.worktree_id@,
                loc.path@,
            ) is Some),
        ensures
            *r == value_at(self.global_value, self.local_values@, path),
    {
        if let Some(loc) = path {
            let ghost ls = self.local_values@;
            let ghost w = loc.worktree_id@;
            let ghost p = loc.path@;
            let mut i = self.local_values.len();
            proof {
                assert(ls.take(i as int) =~= ls);
            }
            while i > 0
                invariant
                    ls == self.local_values@,
                    path == Some(loc),
                    i <= ls.len(),
                    w == loc.worktree_id@,
                    p == loc.path@,
                    local_match(ls, w, p) == local_match(ls.take(i as int), w, p),
                decreases i,
            {
                let e = &self.local_values[i - 1];
                proof {
                    assert(ls.take(i as int).drop_last() =~= ls.take(i - 1));
                    assert(ls.take(i as int).last() == ls[i - 1]);
                }
                if e.0.to_usize() == loc.worktree_id.to_usize() && loc.path.starts_with(&e.1) {
                    return &e.2;
                }
                i -= 1;
            }
        }
        self.global_value.as_ref().unwrap()
    }

    /// Sets the global value.
    pub fn set_global_value(&mut self, value: T)
        ensures
            final(self).global_value == Some(value),
            final(self).local_values@ == old(self).local_values@,
    {
        self.global_value = Some(value);
    }

    /// Sets the value that applies below the directory `path` of the worktree `root_id`,
    /// keeping the local values sorted.
    pub fn set_local_value(&mut self, root_id: WorktreeId, path: RelPath, value: T)
        requires
            locals_sorted(old(self).local_values@),
        ensures
            locals_sorted(final(self).local_values@),
            locals_map(final(self).local_values@) == locals_map(old(self).local_values@).insert(
                (root_id@, path@),
                value,
            ),
            final(self).global_value == old(self).global_value,
    {
        let ghost ls = self.local_values@;
        let mut lo: usize = 0;
        let mut hi: usize = self.local_values.len();
        while lo < hi
            invariant
                ls == self.local_values@,
                ls == old(self).local_values@,
                self.global_value == old(self).global_value,
                locals_sorted(ls),
                lo <= hi <= ls.len(),
                forall|k: int|
                    0 <= k < lo ==> key_lt((#[trigger] ls[k]).0@, ls[k].1@, root_id@, path@),
                forall|k: int|
                    hi <= k < ls.len() ==> key_lt(root_id@, path@, (#[trigger] ls[k]).0@, ls[k].1@),
            decreases hi - lo,
        {
            let mid = lo + (hi - lo) / 2;
            let c = compare_key(self.local_values[mid].0, &self.local_values[mid].1, root_id, &path);
            if c == 0 {
                proof {
                    lemma_update_same_key(ls, mid as int, (root_id, path, value));
                }
                self.local_values.set(mid, (root_id, path, value));
                return;
            } else if c < 0 {
                proof {
                    assert forall|k: int| 0 <= k < mid + 1 implies key_lt(
                        (#[trigger] ls[k]).0@,
                        ls[k].1@,
                        root_id@,
                        path@,
                    ) by {
                        if k < mid {
                            assert(key_lt(ls[k].0@, ls[k].1@, ls[mid as int].0@, ls[mid as int].1@));
                            lemma_key_lt_trans(
                                ls[k].0@,
                                ls[k].1@,
                                ls[mid as int].0@,
                                ls[mid as int].1@,
                                root_id@,
                                path@,
                            );
                        }
                    }
                }
                lo = mid + 1;
            } else {
                proof {
                    assert forall|k: int| mid <= k < ls.len() implies key_lt(
                        root_id@,
                        path@,
                        (#[trigger] ls[k]).0@,
                        ls[k].1@,
                    ) by {
                        if k > mid {
                            assert(key_lt(ls[mid as int].0@, ls[mid as int].1@, ls[k].0@, ls[k].1@));
                            lemma_key_lt_trans(
                                root_id@,
                                path@,
                                ls[mid as int].0@,
                                ls[mid as int].1@,
                                ls[k].0@,
                                ls[k].1@,
                            );
                        }
                    }
                }
                hi = mid;
            }
        }
        proof {
            lemma_insert_between(ls, lo as int, (root_id, path, value));
        }
        self.local_values.insert(lo, (root_id, path, value));
    }

    /// Drops the local values of the worktree `root_id`, keeping the others in order.
    pub fn clear_local_values(&mut self, root_id: WorktreeId)
        ensures
            final(self).local_values@ == without_worktree(old(self).local_values@, root_id@),
            locals_sorted(old(self).local_values@) ==> locals_sorted(final(self).local_values@),
            final(self).global_value == old(self).global_value,
    {
        let ghost ls = self.local_values@;
        let ghost w = root_id@;
        let mut i: usize = 0;
        let ghost mut j: int = 0;
        proof {
            assert(ls.take(0) =~= Seq::<(WorktreeId, RelPath, T)>::empty());
            assert(ls.skip(0) =~= ls);
            assert(self.local_values@ =~= without_worktree(ls.take(0), w) + ls.skip(0));
        }
        while i < self.local_values.len()
            invariant
                w == root_id@,
                ls == old(self).local_values@,
                self.global_value == old(self).global_value,
                0 <= j <= ls.len(),
                i == without_worktree(ls.take(j), w).len(),
                self.local_values@ == without_worktree(ls.take(j), w) + ls.skip(j),
            decreases ls.len() - j,
        {
            let ghost before = self.local_values@;
            proof {
                assert(before[i as int] == ls[j]);
                assert(ls.take(j + 1).drop_last() =~= ls.take(j));
                assert(ls.take(j + 1).last() == ls[j]);
            }
            if self.local_values[i].0.to_usize() == root_id.to_usize() {
                self.local_values.remove(i);
                proof {
                    assert(self.local_values@ =~= without_worktree(ls.take(j + 1), w) + ls.skip(
                        j + 1,
                    ));
                }
            } else {
                proof {
                    assert(self.local_values@ =~= without_worktree(ls.take(j + 1), w) + ls.skip(
                        j + 1,
                    ));
                }
                i += 1;
            }
            proof {
                j = j + 1;
            }
        }
        proof {
            assert(j == ls.len()) by {
                if j < ls.len() {
                    assert(self.local_values@.len() > i);
                }
            }
            assert(ls.take(j) =~= ls);
            assert(self.local_values@ =~= without_worktree(ls, w));
            if locals_sorted(ls) {
                lemma_without_sorted(ls, w);
            }
        }
    }

    /// The local values, each with its worktree, directory and value.
    pub fn all_local_values(&self) -> (r: Vec<(WorktreeId, RelPath, &T)>)
        ensures
            r@.len() == self.local_values@.len(),
            forall|i: int|
                0 <= i < r@.len() ==> (#[trigger] r@[i]).0 == self.local_values@[i].0 && r@[i].1@
                    == self.local_values@[i].1@ && *r@[i].2 == self.local_values@[i].2,
    {
        let mut r: Vec<(WorktreeId, RelPath, &T)> = Vec::new();
        let mut i: usize = 0;
        while i < self.local_values.len()
            invariant
                i <= self.local_values@.len(),
                r@.len() == i,
                forall|k: int|
                    0 <= k < i ==> (#[trigger] r@[k]).0 == self.local_values@[k].0 && r@[k].1@
                        == self.local_values@[k].1@ && *r@[k].2 == self.local_values@[k].2,
            decreases self.local_values@.len() - i,
        {
            let e = &self.local_values[i];
            r.push((e.0, e.1.clone(), &e.2));
            i += 1;
        }
        r
    }
}

} // verus!
