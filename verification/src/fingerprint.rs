//! The fingerprint generator: a deterministic digest over the contents of a
//! directory tree.
//!
//! Every regular file of the tree is hashed on its own; the per-file hex
//! digests are then ordered by path (lexicographic byte order, so the result
//! is independent of traversal order), concatenated, and hashed once more.
//! An empty tree yields the digest of the empty string.
//!
//! Callers collect the files (this crate does no I/O); symbolic links are
//! expected to be skipped during collection so that the tree is finite and
//! the fingerprint reproducible.

use vstd::prelude::*;

verus! {

use vstd::multiset::Multiset;
use vstd::utf8::encode_utf8;
use crate::digest::{sha512_of, hex_chars_of, sha512_digest, hex_lower};

/// The mathematical value of one file: its path bytes and its content bytes.
pub type FileView = (Seq<u8>, Seq<u8>);

/// One regular file of the tree: its path (as bytes, so that ordering is
/// byte-lexicographic) and its full content.
pub struct FileEntry {
    pub path: Vec<u8>,
    pub content: Vec<u8>,
}

impl View for FileEntry {
    type V = FileView;

    open spec fn view(&self) -> FileView {
        (self.path@, self.content@)
    }
}

/// The views of a sequence of file entries.
pub open spec fn entries_view(s: Seq<FileEntry>) -> Seq<FileView> {
    s.map_values(|e: FileEntry| e@)
}

/// Lexicographic byte order: `a` is less than or equal to `b`.
pub open spec fn lex_leq(a: Seq<u8>, b: Seq<u8>) -> bool
    decreases a.len(),
{
    if a.len() == 0 {
        true
    } else if b.len() == 0 {
        false
    } else if a[0] < b[0] {
        true
    } else if a[0] > b[0] {
        false
    } else {
        lex_leq(a.drop_first(), b.drop_first())
    }
}

/// Any two byte sequences are ordered one way or the other.
pub proof fn lemma_lex_leq_connected(a: Seq<u8>, b: Seq<u8>)
    ensures
        lex_leq(a, b) || lex_leq(b, a),
    decreases a.len(),
{
    if a.len() != 0 && b.len() != 0 && a[0] == b[0] {
        lemma_lex_leq_connected(a.drop_first(), b.drop_first());
    }
}

/// Sequences ordered both ways are equal.
pub proof fn lemma_lex_leq_antisymmetric(a: Seq<u8>, b: Seq<u8>)
    requires
        lex_leq(a, b),
        lex_leq(b, a),
    ensures
        a == b,
    decreases a.len(),
{
    if a.len() == 0 {
        assert(b.len() == 0);
        assert(a =~= b);
    } else {
        assert(b.len() != 0);
        assert(a[0] == b[0]);
        lemma_lex_leq_antisymmetric(a.drop_first(), b.drop_first());
        assert(a.len() == b.len());
        assert forall|i: int| 0 <= i < a.len() implies a[i] == b[i] by {
            if i > 0 {
                assert(a[i] == a.drop_first()[i - 1]);
                assert(b[i] == b.drop_first()[i - 1]);
            }
        }
        assert(a =~= b);
    }
}

/// Lexicographic order is transitive.
pub proof fn lemma_lex_leq_transitive(a: Seq<u8>, b: Seq<u8>, c: Seq<u8>)
    requires
        lex_leq(a, b),
        lex_leq(b, c),
    ensures
        lex_leq(a, c),
    decreases a.len(),
{
    if a.len() != 0 {
        assert(b.len() != 0);
        assert(c.len() != 0);
        if a[0] == b[0] && b[0] == c[0] {
            lemma_lex_leq_transitive(a.drop_first(), b.drop_first(), c.drop_first());
        }
    }
}

/// The entries appear in ascending path order.
pub open spec fn sorted_by_path(s: Seq<FileView>) -> bool {
    forall|i: int, j: int| 0 <= i < j < s.len() ==> lex_leq(s[i].0, s[j].0)
}

/// No two entries share a path, as the files of a directory tree never do.
pub open spec fn distinct_paths(s: Seq<FileView>) -> bool {
    forall|i: int, j: int| 0 <= i < j < s.len() ==> s[i].0 != s[j].0
}

/// The unique ascending-path arrangement of a collection of files.
pub open spec fn sorted_arrangement(m: Multiset<FileView>) -> Seq<FileView> {
    choose|s: Seq<FileView>| sorted_by_path(s) && s.to_multiset() == m
}

/// A sequence with two equal entries puts that entry twice in its multiset.
proof fn lemma_two_indexes_count(s: Seq<FileView>, i: int, j: int)
    requires
        0 <= i < j < s.len(),
        s[i] == s[j],
    ensures
        s.to_multiset().count(s[i]) >= 2,
{
    broadcast use vstd::seq_lib::group_to_multiset_ensures;
    broadcast use vstd::multiset::group_multiset_axioms;

    let t = s.remove(j);
    assert(t.to_multiset() =~= s.to_multiset().remove(s[j]));
    assert(t[i] == s[i]);
    assert(t.contains(s[i]));
    assert(t.to_multiset().count(s[i]) > 0);
    assert(t.to_multiset().count(s[i]) == s.to_multiset().count(s[i]) - 1);
}

/// An entry counted twice in the multiset appears at two indexes.
proof fn lemma_count_two_indexes(s: Seq<FileView>, e: FileView)
    requires
        s.to_multiset().count(e) >= 2,
    ensures
        exists|i: int, j: int| 0 <= i < j < s.len() && s[i] == e && s[j] == e,
{
    broadcast use vstd::seq_lib::group_to_multiset_ensures;
    broadcast use vstd::multiset::group_multiset_axioms;

    assert(s.contains(e));
    let i = choose|i: int| 0 <= i < s.len() && s[i] == e;
    let t = s.remove(i);
    assert(t.to_multiset() =~= s.to_multiset().remove(s[i]));
    assert(t.to_multiset().count(e) > 0);
    assert(t.contains(e));
    let k = choose|k: int| 0 <= k < t.len() && t[k] == e;
    let j = if k < i { k } else { k + 1 };
    assert(s[j] == t[k]);
    if j < i {
        assert(0 <= j < i < s.len() && s[j] == e && s[i] == e);
    } else {
        assert(i < j);
        assert(0 <= i < j < s.len() && s[i] == e && s[j] == e);
    }
}

/// Path distinctness is preserved under permutation.
pub proof fn lemma_distinct_paths_permutation(x: Seq<FileView>, y: Seq<FileView>)
    requires
        distinct_paths(x),
        x.to_multiset() == y.to_multiset(),
    ensures
        distinct_paths(y),
{
    broadcast use vstd::seq_lib::group_to_multiset_ensures;
    broadcast use vstd::multiset::group_multiset_axioms;

    assert forall|i: int, j: int| 0 <= i < j < y.len() implies y[i].0 != y[j].0 by {
        if y[i].0 == y[j].0 {
            if y[i] == y[j] {
                lemma_two_indexes_count(y, i, j);
                assert(x.to_multiset().count(y[i]) >= 2);
                lemma_count_two_indexes(x, y[i]);
                let (a, b) = choose|a: int, b: int|
                    0 <= a < b < x.len() && x[a] == y[i] && x[b] == y[i];
                assert(x[a].0 == x[b].0);
                assert(false);
            } else {
                assert(y.contains(y[i]));
                assert(y.contains(y[j]));
                assert(x.to_multiset().count(y[i]) > 0);
                assert(x.to_multiset().count(y[j]) > 0);
                assert(x.contains(y[i]));
                assert(x.contains(y[j]));
                let a = choose|a: int| 0 <= a < x.len() && x[a] == y[i];
                let b = choose|b: int| 0 <= b < x.len() && x[b] == y[j];
                assert(a != b);
                assert(x[a].0 == x[b].0);
                assert(false);
            }
        }
    }
}

/// Two ascending-path arrangements of the same files are identical, as long
/// as paths are distinct.
pub proof fn lemma_sorted_distinct_unique(x: Seq<FileView>, y: Seq<FileView>)
    requires
        sorted_by_path(x),
        sorted_by_path(y),
        distinct_paths(x),
        x.to_multiset() == y.to_multiset(),
    ensures
        x == y,
    decreases x.len(),
{
    broadcast use vstd::seq_lib::group_to_multiset_ensures;
    broadcast use vstd::multiset::group_multiset_axioms;

    if x.len() == 0 {
        assert(x.to_multiset().len() == 0);
        assert(y.len() == 0);
        assert(x =~= y);
    } else {
        vstd::seq_lib::to_multiset_len(x);
        vstd::seq_lib::to_multiset_len(y);
        assert(y.len() == x.len());
        assert(y.to_multiset().count(y[0]) > 0);
        assert(x.contains(y[0]));
        let i = choose|i: int| 0 <= i < x.len() && x[i] == y[0];
        assert(x.to_multiset().count(x[0]) > 0);
        assert(y.contains(x[0]));
        let j = choose|j: int| 0 <= j < y.len() && y[j] == x[0];
        if i == 0 {
            assert(x[0] == y[0]);
        } else if j == 0 {
            assert(x[0] == y[0]);
        } else {
            assert(lex_leq(x[0].0, x[i].0));
            assert(lex_leq(y[0].0, y[j].0));
            lemma_lex_leq_antisymmetric(x[0].0, y[0].0);
            assert(x[i].0 == x[0].0);
            assert(false);
        }
        let xt = x.drop_first();
        let yt = y.drop_first();
        assert(x.remove(0) =~= xt);
        assert(y.remove(0) =~= yt);
        assert(xt.to_multiset() =~= x.to_multiset().remove(x[0]));
        assert(yt.to_multiset() =~= y.to_multiset().remove(y[0]));
        assert(xt.to_multiset() == yt.to_multiset());
        assert forall|a: int, b: int| 0 <= a < b < xt.len() implies lex_leq(xt[a].0, xt[b].0)
            && xt[a].0 != xt[b].0 by {
            assert(xt[a] == x[a + 1]);
            assert(xt[b] == x[b + 1]);
        }
        assert forall|a: int, b: int| 0 <= a < b < yt.len() implies lex_leq(yt[a].0, yt[b].0) by {
            assert(yt[a] == y[a + 1]);
            assert(yt[b] == y[b + 1]);
        }
        lemma_sorted_distinct_unique(xt, yt);
        assert forall|k: int| 0 <= k < x.len() implies x[k] == y[k] by {
            if k > 0 {
                assert(x[k] == xt[k - 1]);
                assert(y[k] == yt[k - 1]);
            }
        }
        assert(x =~= y);
    }
}

/// The canonical arrangement of a distinct-path collection is whichever
/// sorted sequence one exhibits.
pub proof fn lemma_sorted_arrangement_is(w: Seq<FileView>)
    requires
        sorted_by_path(w),
        distinct_paths(w),
    ensures
        sorted_arrangement(w.to_multiset()) == w,
{
    let m = w.to_multiset();
    assert(sorted_by_path(w) && w.to_multiset() == m);
    assert(exists|s: Seq<FileView>| sorted_by_path(s) && s.to_multiset() == m);
    let s = sorted_arrangement(m);
    assert(sorted_by_path(s) && s.to_multiset() == m);
    lemma_sorted_distinct_unique(w, s);
}

/// Inserting into a sequence inserts into its multiset.
proof fn lemma_insert_to_multiset(s: Seq<FileView>, i: int, e: FileView)
    requires
        0 <= i <= s.len(),
    ensures
        s.insert(i, e).to_multiset() == s.to_multiset().insert(e),
{
    broadcast use vstd::seq_lib::group_to_multiset_ensures;
    broadcast use vstd::multiset::group_multiset_axioms;

    let front = s.subrange(0, i);
    let back = s.subrange(i, s.len() as int);
    assert(s.insert(i, e) == front.push(e) + back);
    vstd::seq_lib::lemma_multiset_commutative(front.push(e), back);
    assert(front.push(e).to_multiset() =~= front.to_multiset().insert(e));
    assert(s =~= front + back);
    vstd::seq_lib::lemma_multiset_commutative(front, back);
    assert(s.insert(i, e).to_multiset() =~= s.to_multiset().insert(e));
}

/// Compares two byte strings in lexicographic order.
pub fn lex_leq_bytes(a: &Vec<u8>, b: &Vec<u8>) -> (r: bool)
    ensures
        r == lex_leq(a@, b@),
{
    let mut i: usize = 0;
    proof {
        assert(a@.skip(0) =~= a@);
        assert(b@.skip(0) =~= b@);
    }
    loop
        invariant
            i <= a@.len(),
            i <= b@.len(),
            lex_leq(a@, b@) == lex_leq(a@.skip(i as int), b@.skip(i as int)),
        decreases a@.len() - i,
    {
        if i == a.len() {
            proof {
                assert(a@.skip(i as int).len() == 0);
            }
            return true;
        }
        if i == b.len() {
            proof {
                assert(b@.skip(i as int).len() == 0);
                assert(a@.skip(i as int).len() > 0);
            }
            return false;
        }
        let x = a[i];
        let y = b[i];
        proof {
            assert(a@.skip(i as int)[0] == a@[i as int]);
            assert(b@.skip(i as int)[0] == b@[i as int]);
        }
        if x < y {
            return true;
        }
        if x > y {
            return false;
        }
        proof {
            assert(a@.skip(i as int).drop_first() =~= a@.skip(i as int + 1));
            assert(b@.skip(i as int).drop_first() =~= b@.skip(i as int + 1));
        }
        i = i + 1;
    }
}

/// The first position of a sorted run whose path exceeds `p`.
fn find_insert_pos(out: &Vec<FileEntry>, p: &Vec<u8>) -> (j: usize)
    ensures
        j <= out@.len(),
        forall|k: int| 0 <= k < j ==> lex_leq(entries_view(out@)[k].0, p@),
        j < out@.len() ==> !lex_leq(entries_view(out@)[j as int].0, p@),
{
    let n = out.len();
    let mut j: usize = 0;
    loop
        invariant
            j <= n,
            n == out@.len(),
            forall|k: int| 0 <= k < j ==> lex_leq(entries_view(out@)[k].0, p@),
        decreases n - j,
    {
        if j == n {
            return j;
        }
        if !lex_leq_bytes(&out[j].path, p) {
            proof {
                assert(entries_view(out@)[j as int].0 == out@[j as int].path@);
            }
            return j;
        }
        proof {
            assert(entries_view(out@)[j as int].0 == out@[j as int].path@);
        }
        j = j + 1;
    }
}

/// Inserts one entry into a path-sorted run, keeping it sorted.
fn insert_sorted(out: &mut Vec<FileEntry>, e: FileEntry)
    requires
        sorted_by_path(entries_view(old(out)@)),
    ensures
        sorted_by_path(entries_view(final(out)@)),
        entries_view(final(out)@).to_multiset() == entries_view(old(out)@).to_multiset().insert(
            e@,
        ),
{
    let ghost oldseq = entries_view(out@);
    let ghost ev = e@;
    let j = find_insert_pos(out, &e.path);
    let ghost jj = j as int;
    out.insert(j, e);
    proof {
        let newseq = entries_view(out@);
        assert(out@ == old(out)@.insert(jj, e));
        old(out)@.insert_ensures(jj, e);
        oldseq.insert_ensures(jj, ev);
        assert(newseq =~= oldseq.insert(jj, ev)) by {
            assert forall|k: int| 0 <= k < newseq.len() implies newseq[k] == oldseq.insert(
                jj,
                ev,
            )[k] by {
                if k < jj {
                    assert(out@[k] == old(out)@[k]);
                } else if k == jj {
                    assert(out@[k] == e);
                } else {
                    assert(out@[k] == old(out)@[k - 1]);
                    assert(oldseq.insert(jj, ev)[k] == oldseq[k - 1]);
                }
            }
        }
        let ins = oldseq.insert(jj, ev);
        assert forall|a: int, b: int| 0 <= a < b < ins.len() implies lex_leq(
            ins[a].0,
            ins[b].0,
        ) by {
            if b < jj {
                assert(ins[a] == oldseq[a] && ins[b] == oldseq[b]);
            } else if a < jj && b == jj {
                assert(ins[a] == oldseq[a] && ins[b] == ev);
            } else if a < jj && b > jj {
                assert(ins[a] == oldseq[a] && ins[b] == oldseq[b - 1]);
                assert(a < b - 1 || a == b - 1);
                if a == b - 1 {
                    assert(a == jj - 1 && b == jj + 1) by {
                        assert(a < jj && b > jj);
                    }
                    assert(false);
                }
            } else if a == jj {
                assert(ins[a] == ev);
                assert(ins[b] == oldseq[b - 1]);
                assert(b - 1 >= jj);
                assert(jj < oldseq.len());
                assert(!lex_leq(oldseq[jj].0, ev.0));
                lemma_lex_leq_connected(oldseq[jj].0, ev.0);
                assert(lex_leq(ev.0, oldseq[jj].0));
                if b - 1 > jj {
                    assert(lex_leq(oldseq[jj].0, oldseq[b - 1].0));
                    lemma_lex_leq_transitive(ev.0, oldseq[jj].0, oldseq[b - 1].0);
                }
            } else {
                assert(a > jj);
                assert(ins[a] == oldseq[a - 1] && ins[b] == oldseq[b - 1]);
            }
        }
        lemma_insert_to_multiset(oldseq, jj, ev);
    }
}

/// Arranges the entries in ascending path order.
fn sort_entries(v: Vec<FileEntry>) -> (r: Vec<FileEntry>)
    ensures
        sorted_by_path(entries_view(r@)),
        entries_view(r@).to_multiset() == entries_view(v@).to_multiset(),
{
    broadcast use vstd::seq_lib::group_to_multiset_ensures;
    broadcast use vstd::multiset::group_multiset_axioms;

    let ghost orig = entries_view(v@);
    let mut rest = v;
    let mut out: Vec<FileEntry> = Vec::new();
    proof {
        assert(entries_view(out@) =~= Seq::<FileView>::empty());
        assert(entries_view(rest@) == orig);
        assert(entries_view(out@).to_multiset().add(entries_view(rest@).to_multiset())
            =~= orig.to_multiset());
    }
    loop
        invariant
            orig == entries_view(v@),
            sorted_by_path(entries_view(out@)),
            entries_view(out@).to_multiset().add(entries_view(rest@).to_multiset())
                == orig.to_multiset(),
        decreases rest@.len(),
    {
        let ghost prevseq = rest@;
        let popped = rest.pop();
        match popped {
            None => {
                proof {
                    let rm = entries_view(rest@).to_multiset();
                    assert(entries_view(rest@).len() == 0);
                    vstd::seq_lib::to_multiset_len(entries_view(rest@));
                    assert(rm.len() == 0);
                    assert forall|x: FileView| #[trigger] rm.count(x) == 0 by {
                        vstd::multiset::axiom_count_le_len(rm, x);
                    }
                    assert(entries_view(out@).to_multiset() =~= orig.to_multiset());
                }
                return out;
            },
            Some(e) => {
                proof {
                    assert(prevseq =~= rest@.push(e));
                    assert(entries_view(prevseq) =~= entries_view(rest@).push(e@));
                    vstd::seq_lib::to_multiset_build(entries_view(rest@), e@);
                    assert(entries_view(rest@).push(e@).to_multiset() =~= entries_view(
                        rest@,
                    ).to_multiset().insert(e@));
                    assert(entries_view(prevseq).to_multiset() == entries_view(
                        rest@,
                    ).to_multiset().insert(e@));
                }
                let ghost outseq = entries_view(out@);
                insert_sorted(&mut out, e);
                proof {
                    assert(entries_view(out@).to_multiset() == outseq.to_multiset().insert(e@));
                    assert(entries_view(out@).to_multiset().add(entries_view(rest@).to_multiset())
                        =~= orig.to_multiset());
                }
            },
        }
    }
}

/// Compares two byte strings for equality.
fn bytes_eq(a: &Vec<u8>, b: &Vec<u8>) -> (r: bool)
    ensures
        r == (a@ == b@),
{
    let n = a.len();
    if n != b.len() {
        return false;
    }
    let mut i: usize = 0;
    loop
        invariant
            i <= n,
            n == a@.len(),
            n == b@.len(),
            forall|k: int| 0 <= k < i ==> a@[k] == b@[k],
        decreases n - i,
    {
        if i == n {
            proof {
                assert(a@ =~= b@);
            }
            return true;
        }
        if a[i] != b[i] {
            return false;
        }
        i = i + 1;
    }
}

/// Decides whether the path at `i` differs from every later entry's path.
fn path_fresh_after(files: &Vec<FileEntry>, i: usize) -> (r: bool)
    requires
        i < files@.len(),
    ensures
        r == (forall|b: int|
            i < b < files@.len() ==> entries_view(files@)[i as int].0 != entries_view(files@)[b].0),
{
    let n = files.len();
    let mut j: usize = i + 1;
    loop
        invariant
            i < j <= n,
            n == files@.len(),
            forall|b: int|
                i < b < j ==> entries_view(files@)[i as int].0 != entries_view(files@)[b].0,
        decreases n - j,
    {
        if j == n {
            return true;
        }
        if bytes_eq(&files[i].path, &files[j].path) {
            proof {
                assert(entries_view(files@)[i as int].0 == files@[i as int].path@);
                assert(entries_view(files@)[j as int].0 == files@[j as int].path@);
            }
            return false;
        }
        proof {
            assert(entries_view(files@)[j as int].0 == files@[j as int].path@);
            assert(entries_view(files@)[i as int].0 == files@[i as int].path@);
        }
        j = j + 1;
    }
}

/// Decides whether the entries' paths are pairwise distinct, as
/// [`generate_fingerprint`] requires of a well-formed tree.
pub fn paths_distinct(files: &Vec<FileEntry>) -> (r: bool)
    ensures
        r == distinct_paths(entries_view(files@)),
{
    let n = files.len();
    let mut i: usize = 0;
    loop
        invariant
            i <= n,
            n == files@.len(),
            forall|a: int, b: int|
                0 <= a < b < n && a < i ==> entries_view(files@)[a].0 != entries_view(files@)[b].0,
        decreases n - i,
    {
        if i == n {
            return true;
        }
        if !path_fresh_after(files, i) {
            return false;
        }
        i = i + 1;
    }
}

/// The lowercase hex SHA-512 digest of one file's content.
pub open spec fn file_hex_digest(content: Seq<u8>) -> Seq<char> {
    hex_chars_of(sha512_of(content))
}

/// The per-file digests of a run of entries, concatenated in order.
pub open spec fn digest_concat(s: Seq<FileView>) -> Seq<char>
    decreases s.len(),
{
    if s.len() == 0 {
        Seq::empty()
    } else {
        digest_concat(s.drop_last()) + file_hex_digest(s.last().1)
    }
}

/// The fingerprint of a tree: the digests of its files, taken in ascending
/// path order, concatenated, and hashed once more.  Only the collection of
/// files matters, never the order in which they were gathered.
pub open spec fn tree_fingerprint(files: Seq<FileView>) -> Seq<char> {
    hex_chars_of(
        sha512_of(encode_utf8(digest_concat(sorted_arrangement(files.to_multiset())))),
    )
}

/// Hashes one file's content, returning the lowercase hex digest.
pub fn file_digest(content: &Vec<u8>) -> (r: String)
    ensures
        r@ == file_hex_digest(content@),
        r@.len() == 128,
{
    let d = sha512_digest(content.as_slice());
    let r = hex_lower(d.as_slice());
    proof {
        crate::digest::lemma_hex_chars_len(d@);
    }
    r
}

/// Computes the fingerprint of the given files.  Paths must be distinct, as
/// the regular files of one directory tree always are.
pub fn generate_fingerprint(files: Vec<FileEntry>) -> (r: String)
    requires
        distinct_paths(entries_view(files@)),
    ensures
        r@ == tree_fingerprint(entries_view(files@)),
        r@.len() == 128,
{
    let ghost origviews = entries_view(files@);
    let sorted = sort_entries(files);
    let ghost sv = entries_view(sorted@);
    let mut concat = String::new();
    let n = sorted.len();
    let mut i: usize = 0;
    while i < n
        invariant
            i <= n,
            n == sorted@.len(),
            sv == entries_view(sorted@),
            concat@ == digest_concat(sv.take(i as int)),
        decreases n - i,
    {
        let d = file_digest(&sorted[i].content);
        concat.append(d.as_str());
        proof {
            assert(sv.take(i as int + 1).drop_last() =~= sv.take(i as int));
            assert(sv.take(i as int + 1).last() == sv[i as int]);
            assert(sv[i as int].1 == sorted@[i as int].content@);
        }
        i = i + 1;
    }
    proof {
        assert(sv.take(n as int) =~= sv);
    }
    let cs = concat.as_str();
    let bytes = cs.as_bytes();
    proof {
        assert(bytes@ == encode_utf8(concat@));
    }
    let fin = sha512_digest(bytes);
    let r = hex_lower(fin.as_slice());
    proof {
        lemma_distinct_paths_permutation(origviews, sv);
        lemma_sorted_arrangement_is(sv);
        assert(sorted_arrangement(origviews.to_multiset()) == sv);
        crate::digest::lemma_hex_chars_len(fin@);
    }
    r
}

/// The per-file digests of a run of entries, as a list.
pub open spec fn digest_list(s: Seq<FileView>) -> Seq<Seq<char>> {
    s.map_values(|f: FileView| file_hex_digest(f.1))
}

proof fn lemma_digest_concat_len(s: Seq<FileView>)
    requires
        forall|i: int| 0 <= i < s.len() ==> (#[trigger] file_hex_digest(s[i].1)).len() == 128,
    ensures
        digest_concat(s).len() == 128 * s.len(),
    decreases s.len(),
{
    if s.len() != 0 {
        assert forall|i: int| 0 <= i < s.drop_last().len() implies (#[trigger] file_hex_digest(
            s.drop_last()[i].1,
        )).len() == 128 by {
            assert(s.drop_last()[i] == s[i]);
        }
        lemma_digest_concat_len(s.drop_last());
    }
}

/// Concatenating the fixed-width per-file digests is injective: two runs
/// whose concatenations agree carry the same digests, file for file.  A
/// change to any one per-file digest therefore changes the input of the
/// final hash; the fingerprint can only collide where the underlying hash
/// itself collides.
pub proof fn lemma_digest_concat_injective(x: Seq<FileView>, y: Seq<FileView>)
    requires
        forall|i: int| 0 <= i < x.len() ==> (#[trigger] file_hex_digest(x[i].1)).len() == 128,
        forall|i: int| 0 <= i < y.len() ==> (#[trigger] file_hex_digest(y[i].1)).len() == 128,
        digest_concat(x) == digest_concat(y),
    ensures
        digest_list(x) == digest_list(y),
    decreases x.len(),
{
    lemma_digest_concat_len(x);
    lemma_digest_concat_len(y);
    assert(x.len() == y.len());
    if x.len() == 0 {
        assert(digest_list(x) =~= digest_list(y));
    } else {
        let cx = digest_concat(x);
        let ax = digest_concat(x.drop_last());
        let bx = file_hex_digest(x.last().1);
        let ay = digest_concat(y.drop_last());
        let by = file_hex_digest(y.last().1);
        assert forall|i: int| 0 <= i < x.drop_last().len() implies (#[trigger] file_hex_digest(
            x.drop_last()[i].1,
        )).len() == 128 by {
            assert(x.drop_last()[i] == x[i]);
        }
        assert forall|i: int| 0 <= i < y.drop_last().len() implies (#[trigger] file_hex_digest(
            y.drop_last()[i].1,
        )).len() == 128 by {
            assert(y.drop_last()[i] == y[i]);
        }
        lemma_digest_concat_len(x.drop_last());
        lemma_digest_concat_len(y.drop_last());
        assert(bx.len() == 128);
        assert(by.len() == 128);
        let cut = cx.len() - 128;
        assert(ax.len() == cut);
        assert(ay.len() == cut);
        assert((ax + bx).take(cut) =~= ax);
        assert((ay + by).take(cut) =~= ay);
        assert((ax + bx).skip(cut) =~= bx);
        assert((ay + by).skip(cut) =~= by);
        assert(ax == ay);
        assert(bx == by);
        lemma_digest_concat_injective(x.drop_last(), y.drop_last());
        assert forall|i: int| 0 <= i < x.len() implies digest_list(x)[i] == digest_list(y)[i] by {
            if i < x.len() - 1 {
                assert(digest_list(x.drop_last())[i] == file_hex_digest(x.drop_last()[i].1));
                assert(digest_list(y.drop_last())[i] == file_hex_digest(y.drop_last()[i].1));
                assert(x.drop_last()[i] == x[i]);
                assert(y.drop_last()[i] == y[i]);
            }
        }
        assert(digest_list(x) =~= digest_list(y));
    }
}

/// Trees whose canonical arrangements carry different per-file digest
/// lists are hashed over different byte strings (given the 128-character
/// width every hex SHA-512 digest has).  The fingerprints of two such
/// trees can therefore only coincide where the underlying hash itself
/// collides.
pub proof fn lemma_fingerprint_preimage_sensitive(a: Seq<FileView>, b: Seq<FileView>)
    requires
        ({
            let sa = sorted_arrangement(a.to_multiset());
            let sb = sorted_arrangement(b.to_multiset());
            &&& (forall|i: int|
                0 <= i < sa.len() ==> (#[trigger] file_hex_digest(sa[i].1)).len() == 128)
            &&& (forall|i: int|
                0 <= i < sb.len() ==> (#[trigger] file_hex_digest(sb[i].1)).len() == 128)
            &&& digest_list(sa) != digest_list(sb)
        }),
    ensures
        encode_utf8(digest_concat(sorted_arrangement(a.to_multiset()))) != encode_utf8(
            digest_concat(sorted_arrangement(b.to_multiset())),
        ),
{
    let sa = sorted_arrangement(a.to_multiset());
    let sb = sorted_arrangement(b.to_multiset());
    if encode_utf8(digest_concat(sa)) == encode_utf8(digest_concat(sb)) {
        vstd::utf8::encode_utf8_decode_utf8(digest_concat(sa));
        vstd::utf8::encode_utf8_decode_utf8(digest_concat(sb));
        assert(digest_concat(sa) == digest_concat(sb));
        lemma_digest_concat_injective(sa, sb);
        assert(false);
    }
}

/// The fingerprint depends only on which files the tree holds, not on the
/// order in which they were gathered.
pub proof fn lemma_fingerprint_order_independent(a: Seq<FileView>, b: Seq<FileView>)
    requires
        a.to_multiset() == b.to_multiset(),
    ensures
        tree_fingerprint(a) == tree_fingerprint(b),
{
}

/// An empty tree yields the digest of the empty string.
pub proof fn lemma_empty_tree_fingerprint()
    ensures
        tree_fingerprint(Seq::empty()) == hex_chars_of(sha512_of(Seq::empty())),
{
    let e = Seq::<FileView>::empty();
    lemma_sorted_arrangement_is(e);
    assert(digest_concat(e) == Seq::<char>::empty());
    assert(encode_utf8(Seq::<char>::empty()) =~= Seq::<u8>::empty());
}

} // verus!
