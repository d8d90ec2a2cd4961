//! A directory's photos: their interval, their orders, their groups by day, and the
//! renames and moves proposed for them.

use crate::date::{date_text, lemma_date_key_injective, lemma_date_key_monotone, DateTime};
use crate::file::{ByCreatedDate, File, FileOrder};
use crate::files_interval::FilesInterval;
use crate::path::{
    extension_of, file_name_of, join, parent_of, path_extension, path_file_name, path_join,
    path_parent, path_with_file_name, with_file_name,
};
use crate::text::{digits, push_char, push_padded, zero_padded};
use vstd::prelude::*;
use vstd::string::StringExecFns;

verus! {

/// `s` with `x` placed after the last element that `x` does not come before.
pub open spec fn insert_sorted<O: FileOrder>(s: Seq<File>, x: File) -> Seq<File>
    decreases s.len(),
{
    if s.len() == 0 {
        seq![x]
    } else if O::before(x, s.last()) {
        insert_sorted::<O>(s.drop_last(), x).push(s.last())
    } else {
        s.push(x)
    }
}

/// The files in the order `O`, files that `O` does not tell apart in their order in `s`.
pub open spec fn sorted_by<O: FileOrder>(s: Seq<File>) -> Seq<File>
    decreases s.len(),
{
    if s.len() == 0 {
        Seq::empty()
    } else {
        insert_sorted::<O>(sorted_by::<O>(s.drop_last()), s.last())
    }
}

/// No file comes, in the order `O`, before the file just in front of it.
pub open spec fn is_sorted_by<O: FileOrder>(s: Seq<File>) -> bool {
    forall|k: int| 0 <= k < s.len() - 1 ==> !O::before(#[trigger] s[k + 1], s[k])
}

/// The files in order of creation.
pub open spec fn chronological(s: Seq<File>) -> Seq<File> {
    sorted_by::<ByCreatedDate<()>>(s)
}

/// The runs of consecutive files of `s` that were created on one day.
pub open spec fn day_runs(s: Seq<File>) -> Seq<Seq<File>>
    decreases s.len(),
{
    if s.len() == 0 {
        Seq::empty()
    } else {
        let g = day_runs(s.drop_last());
        let x = s.last();
        if g.len() > 0 && g.last().last().created.date == x.created.date {
            g.update(g.len() - 1, g.last().push(x))
        } else {
            g.push(seq![x])
        }
    }
}

/// The groups one after the other.
pub open spec fn concat_all(g: Seq<Seq<File>>) -> Seq<File>
    decreases g.len(),
{
    if g.len() == 0 {
        Seq::empty()
    } else {
        concat_all(g.drop_last()) + g.last()
    }
}

/// The creation date of the earliest file; the first of them where several are equally early.
pub open spec fn earliest(s: Seq<File>) -> DateTime
    decreases s.len(),
{
    if s.len() <= 1 {
        s[0].created
    } else {
        let e = earliest(s.drop_last());
        if s.last().created.key() < e.key() {
            s.last().created
        } else {
            e
        }
    }
}

/// The creation date of the latest file; the first of them where several are equally late.
pub open spec fn latest(s: Seq<File>) -> DateTime
    decreases s.len(),
{
    if s.len() <= 1 {
        s[0].created
    } else {
        let e = latest(s.drop_last());
        if s.last().created.key() > e.key() {
            s.last().created
        } else {
            e
        }
    }
}

/// The interval spanned by the files' creation dates; none for no files.
pub open spec fn interval_of(s: Seq<File>) -> Option<FilesInterval> {
    if s.len() == 0 {
        None
    } else {
        Some(FilesInterval { from: earliest(s), to: latest(s) })
    }
}

/// The new name of the `n`-th file in a sequence: `<base> <n>.<extension>`, the number with
/// zeros in front to fill `width` characters.
pub open spec fn sequence_name(base: Seq<char>, n: nat, width: nat, ext: Option<Seq<char>>) -> Seq<
    char,
> {
    let stem = base + seq![' '] + zero_padded(digits(n), width);
    match ext {
        Some(e) => stem + seq!['.'] + e,
        None => stem,
    }
}

/// Where a file goes when files are put in folders by day: a folder named by its creation
/// date, beside the file; none where the path has no parent or no final component.
pub open spec fn day_target(f: File) -> Option<Seq<char>> {
    match (path_parent(f.path@), path_file_name(f.path@)) {
        (Some(p), Some(n)) => Some(path_join(path_join(p, date_text(f.created.date)), n)),
        _ => None,
    }
}

/// The files of a group that can be moved into a folder of their day, with their new paths.
pub open spec fn day_moves(g: Seq<File>) -> Seq<(File, Seq<char>)>
    decreases g.len(),
{
    if g.len() == 0 {
        Seq::empty()
    } else {
        let m = day_moves(g.drop_last());
        match day_target(g.last()) {
            Some(t) => m.push((g.last(), t)),
            None => m,
        }
    }
}

/// The files are in chronological order.
pub open spec fn is_chronological(s: Seq<File>) -> bool {
    forall|i: int, j: int| 0 <= i <= j < s.len() ==> (#[trigger] s[i]).created.key() <= (
    #[trigger] s[j]).created.key()
}

/// Every file carries an existing creation date.
pub open spec fn all_wf(s: Seq<File>) -> bool {
    forall|i: int| 0 <= i < s.len() ==> (#[trigger] s[i]).wf()
}

/// For files, the interval runs from the earliest creation date to the latest, both dates
/// of files; for no files there is none.
pub proof fn lemma_interval_bounds(s: Seq<File>)
    ensures
        s.len() == 0 <==> interval_of(s) is None,
        s.len() > 0 ==> {
            let i = interval_of(s)->0;
            &&& forall|k: int|
                0 <= k < s.len() ==> i.from.key() <= (#[trigger] s[k]).created.key() <= i.to.key()
            &&& exists|k: int| 0 <= k < s.len() && s[k].created == i.from
            &&& exists|k: int| 0 <= k < s.len() && s[k].created == i.to
        },
    decreases s.len(),
{
    if s.len() > 1 {
        let t = s.drop_last();
        lemma_interval_bounds(t);
        let it = interval_of(t)->0;
        assert(earliest(s) == if s.last().created.key() < it.from.key() {
            s.last().created
        } else {
            it.from
        });
        let kf = choose|k: int| 0 <= k < t.len() && t[k].created == it.from;
        let kt = choose|k: int| 0 <= k < t.len() && t[k].created == it.to;
        assert(s[kf] == t[kf]);
        assert(s[kt] == t[kt]);
        assert(s[s.len() - 1] == s.last());
        assert forall|k: int| 0 <= k < s.len() implies interval_of(s)->0.from.key() <= (
        #[trigger] s[k]).created.key() <= interval_of(s)->0.to.key() by {
            if k < t.len() {
                assert(s[k] == t[k]);
            }
        }
    } else if s.len() == 1 {
        assert(s[0].created == interval_of(s)->0.from);
    }
}

/// `x` placed in files in chronological order keeps them in that order, and what bounds the
/// keys of the files and of `x` bounds those of the result.
proof fn lemma_insert_chronological(t: Seq<File>, x: File, bound: int)
    requires
        is_chronological(t),
    ensures
        is_chronological(insert_sorted::<ByCreatedDate<()>>(t, x)),
        insert_sorted::<ByCreatedDate<()>>(t, x).len() == t.len() + 1,
        (forall|k: int| 0 <= k < t.len() ==> (#[trigger] t[k]).created.key() <= bound) && x.created.key()
            <= bound ==> forall|k: int|
            0 <= k < t.len() + 1 ==> (#[trigger] insert_sorted::<ByCreatedDate<()>>(t, x)[k]).created.key()
                <= bound,
        all_wf(t) && x.wf() ==> all_wf(insert_sorted::<ByCreatedDate<()>>(t, x)),
    decreases t.len(),
{
    let r = insert_sorted::<ByCreatedDate<()>>(t, x);
    if t.len() > 0 {
        let last = t.last();
        if x.created.key() < last.created.key() {
            let t2 = t.drop_last();
            assert(is_chronological(t2));
            lemma_insert_chronological(t2, x, last.created.key());
            lemma_insert_chronological(t2, x, bound);
            let r2 = insert_sorted::<ByCreatedDate<()>>(t2, x);
            assert(forall|k: int| 0 <= k < t2.len() ==> (#[trigger] t2[k]) == t[k]);
            assert(r == r2.push(last));
            assert forall|i: int, j: int| 0 <= i <= j < r.len() implies (#[trigger] r[i]).created.key()
                <= (#[trigger] r[j]).created.key() by {
                if j == r.len() - 1 {
                    if i < j {
                        assert(r[i] == r2[i]);
                    }
                } else {
                    assert(r[i] == r2[i] && r[j] == r2[j]);
                }
            }
            if all_wf(t) && x.wf() {
                assert(all_wf(t2));
                assert forall|k: int| 0 <= k < r.len() implies (#[trigger] r[k]).wf() by {
                    if k < r2.len() {
                        assert(r[k] == r2[k]);
                    }
                }
            }
            if (forall|k: int| 0 <= k < t.len() ==> (#[trigger] t[k]).created.key() <= bound)
                && x.created.key() <= bound {
                assert forall|k: int| 0 <= k < r.len() implies (#[trigger] r[k]).created.key()
                    <= bound by {
                    if k < r2.len() {
                        assert(r[k] == r2[k]);
                    }
                }
            }
        } else {
            assert(r == t.push(x));
        }
    }
}

/// Placing `x` among files adds `x` and keeps every other file.
proof fn lemma_insert_multiset<O: FileOrder>(t: Seq<File>, x: File)
    ensures
        insert_sorted::<O>(t, x).to_multiset() =~= t.to_multiset().insert(x),
    decreases t.len(),
{
    broadcast use vstd::seq_lib::group_to_multiset_ensures;

    if t.len() == 0 {
        assert(seq![x] =~= Seq::<File>::empty().push(x));
    } else {
        let t2 = t.drop_last();
        assert(t =~= t2.push(t.last()));
        if O::before(x, t.last()) {
            lemma_insert_multiset::<O>(t2, x);
        }
    }
}

/// Sorting in any order keeps the files: the same files, each as often.
pub proof fn lemma_sorted_is_permutation<O: FileOrder>(s: Seq<File>)
    ensures
        sorted_by::<O>(s).to_multiset() =~= s.to_multiset(),
    decreases s.len(),
{
    broadcast use vstd::seq_lib::group_to_multiset_ensures;

    if s.len() > 0 {
        let s2 = s.drop_last();
        lemma_sorted_is_permutation::<O>(s2);
        lemma_insert_multiset::<O>(sorted_by::<O>(s2), s.last());
        assert(s =~= s2.push(s.last()));
    } else {
        assert(s =~= Seq::<File>::empty());
    }
}

/// Where `x` goes among the files `t`: after the last file that `x` does not come before.
pub open spec fn insert_pos<O: FileOrder>(t: Seq<File>, x: File) -> int
    decreases t.len(),
{
    if t.len() == 0 {
        0
    } else if O::before(x, t.last()) {
        insert_pos::<O>(t.drop_last(), x)
    } else {
        t.len() as int
    }
}

/// Placing `x` among files puts it at `insert_pos`, in front of files that it comes before.
proof fn lemma_insert_shape<O: FileOrder>(t: Seq<File>, x: File)
    ensures
        0 <= insert_pos::<O>(t, x) <= t.len(),
        insert_sorted::<O>(t, x) == t.insert(insert_pos::<O>(t, x), x),
        forall|k: int| insert_pos::<O>(t, x) <= k < t.len() ==> O::before(x, #[trigger] t[k]),
    decreases t.len(),
{
    if t.len() == 0 {
        assert(seq![x] =~= t.insert(0, x));
    } else if O::before(x, t.last()) {
        let t2 = t.drop_last();
        lemma_insert_shape::<O>(t2, x);
        let p = insert_pos::<O>(t2, x);
        assert(t2.insert(p, x).push(t.last()) =~= t.insert(p, x));
        assert forall|k: int| p <= k < t.len() implies O::before(x, #[trigger] t[k]) by {
            if k < t2.len() {
                assert(t[k] == t2[k]);
            }
        }
    } else {
        assert(t.push(x) =~= t.insert(t.len() as int, x));
    }
}

/// Wherever both `a` and `b` occur in `s`, `a` stands in front of `b`.
pub open spec fn stands_before(s: Seq<File>, a: File, b: File) -> bool {
    forall|i: int, j: int|
        0 <= i < s.len() && 0 <= j < s.len() && #[trigger] s[i] == a && #[trigger] s[j] == b ==> i
            < j
}

/// Sorting is stable: two files that the order does not tell apart keep the order in which
/// they came.
pub proof fn lemma_sort_is_stable<O: FileOrder>(s: Seq<File>, a: File, b: File)
    requires
        a != b,
        !O::before(a, b),
        !O::before(b, a),
        stands_before(s, a, b),
    ensures
        stands_before(sorted_by::<O>(s), a, b),
    decreases s.len(),
{
    broadcast use vstd::seq_lib::group_to_multiset_ensures;

    if s.len() > 0 {
        let s2 = s.drop_last();
        let x = s.last();
        assert forall|i: int, j: int|
            0 <= i < s2.len() && 0 <= j < s2.len() && #[trigger] s2[i] == a && #[trigger] s2[j]
                == b implies i < j by {
            assert(s[i] == s2[i] && s[j] == s2[j]);
        }
        lemma_sort_is_stable::<O>(s2, a, b);
        let t = sorted_by::<O>(s2);
        lemma_sorted_is_permutation::<O>(s2);
        lemma_insert_shape::<O>(t, x);
        let p = insert_pos::<O>(t, x);
        let r = sorted_by::<O>(s);
        assert(r == t.insert(p, x));
        assert forall|i: int, j: int|
            0 <= i < r.len() && 0 <= j < r.len() && #[trigger] r[i] == a && #[trigger] r[j]
                == b implies i < j by {
            if i != p && j != p {
                let ti = if i < p { i } else { i - 1 };
                let tj = if j < p { j } else { j - 1 };
                assert(t[ti] == a && t[tj] == b);
            } else if i == p {
                if j < p {
                    assert(t[j] == b);
                    assert(t.contains(b));
                    assert(t.to_multiset().count(b) > 0);
                    assert(s2.contains(b));
                    let k = choose|k: int| 0 <= k < s2.len() && s2[k] == b;
                    assert(s[k] == b && s[s.len() - 1] == a);
                }
            } else {
                if i > p {
                    assert(t[i - 1] == a);
                    assert(O::before(x, t[i - 1]));
                }
            }
        }
    }
}

/// Files in order of creation are in chronological order, and each carries an existing date
/// where each in `s` does.
pub proof fn lemma_chronological(s: Seq<File>)
    ensures
        is_chronological(chronological(s)),
        chronological(s).len() == s.len(),
        all_wf(s) ==> all_wf(chronological(s)),
    decreases s.len(),
{
    if s.len() > 0 {
        lemma_chronological(s.drop_last());
        lemma_insert_chronological(chronological(s.drop_last()), s.last(), 0);
        if all_wf(s) {
            assert(all_wf(s.drop_last()));
            assert(s.last() == s[s.len() - 1]);
        }
    }
}

/// Runs of one day, taken from files in chronological order: they are not empty, they give
/// back the files one after the other, all files of a run share its date, and the runs'
/// dates rise.
proof fn lemma_day_runs_sorted(c: Seq<File>)
    requires
        is_chronological(c),
        all_wf(c),
    ensures
        ({
            let g = day_runs(c);
            &&& concat_all(g) == c
            &&& forall|k: int| 0 <= k < g.len() ==> (#[trigger] g[k]).len() > 0
            &&& forall|k: int, a: int|
                0 <= k < g.len() && 0 <= a < g[k].len() ==> (#[trigger] g[k][a]).created.date
                    == g[k][0].created.date
            &&& forall|k: int, l: int|
                0 <= k < l < g.len() ==> (#[trigger] g[k])[0].created.date.key() < (
                #[trigger] g[l])[0].created.date.key()
            &&& c.len() > 0 ==> g.len() > 0 && g.last().last() == c.last()
        }),
    decreases c.len(),
{
    if c.len() > 0 {
        let c2 = c.drop_last();
        let x = c.last();
        assert(is_chronological(c2));
        assert(all_wf(c2));
        lemma_day_runs_sorted(c2);
        let g2 = day_runs(c2);
        let g = day_runs(c);
        assert(x == c[c.len() - 1]);
        assert(x.wf());
        if g2.len() > 0 && g2.last().last().created.date == x.created.date {
            let lg = g2.last().push(x);
            assert(g == g2.update(g2.len() - 1, lg));
            assert(g.drop_last() =~= g2.drop_last());
            assert(concat_all(g2) == concat_all(g2.drop_last()) + g2.last());
            assert(concat_all(g) =~= concat_all(g2) + seq![x]);
            assert(c =~= c2 + seq![x]);
            assert forall|k: int, a: int| 0 <= k < g.len() && 0 <= a < g[k].len() implies (
            #[trigger] g[k][a]).created.date == g[k][0].created.date by {
                if k == g.len() - 1 && a == g[k].len() - 1 {
                    assert(g2.last()[g2.last().len() - 1] == g2.last().last());
                }
            }
            assert forall|k: int, l: int| 0 <= k < l < g.len() implies (#[trigger] g[k])[0].created.date.key()
                < (#[trigger] g[l])[0].created.date.key() by {
                assert(g[k][0] == g2[k][0]);
                assert(g[l][0] == g2[l][0]);
            }
        } else {
            assert(g == g2.push(seq![x]));
            assert(g.drop_last() =~= g2);
            assert(concat_all(g) =~= concat_all(g2) + seq![x]);
            assert(c =~= c2 + seq![x]);
            if g2.len() > 0 {
                let last = g2.last().last();
                assert(c2.len() > 0 && last == c2.last());
                assert(last == c[c2.len() - 1]);
                assert(last.wf());
                lemma_date_key_monotone(last.created, x.created);
                if last.created.date.key() == x.created.date.key() {
                    lemma_date_key_injective(last.created.date, x.created.date);
                }
                let lk = g2.len() - 1;
                assert(g2[lk][g2[lk].len() - 1] == last);
                assert(g2[lk][g2[lk].len() - 1].created.date == g2[lk][0].created.date);
                assert forall|k: int, l: int| 0 <= k < l < g.len() implies (#[trigger] g[k])[0].created.date.key()
                    < (#[trigger] g[l])[0].created.date.key() by {
                    if l == g.len() - 1 {
                        assert(g[k] == g2[k]);
                        if k < lk {
                            assert(g2[k][0].created.date.key() < g2[lk][0].created.date.key());
                        }
                    } else {
                        assert(g[k] == g2[k] && g[l] == g2[l]);
                    }
                }
            }
            assert forall|k: int, a: int| 0 <= k < g.len() && 0 <= a < g[k].len() implies (
            #[trigger] g[k][a]).created.date == g[k][0].created.date by {
                if k < g2.len() {
                    assert(g[k] == g2[k]);
                }
            }
        }
    } else {
        assert(c =~= Seq::<File>::empty());
    }
}

/// Grouping by days: the groups, one after the other, give all the files in order of creation;
/// no group is empty; no two groups share a calendar date.
pub proof fn lemma_group_by_days(s: Seq<File>)
    requires
        all_wf(s),
    ensures
        ({
            let c = chronological(s);
            let g = day_runs(c);
            &&& is_chronological(c)
            &&& c.to_multiset() == s.to_multiset()
            &&& concat_all(g) == c
            &&& forall|k: int| 0 <= k < g.len() ==> (#[trigger] g[k]).len() > 0
            &&& forall|k: int, l: int, a: int, b: int|
                0 <= k < g.len() && 0 <= l < g.len() && k != l && 0 <= a < g[k].len() && 0 <= b
                    < g[l].len() ==> (#[trigger] g[k][a]).created.date != (
                #[trigger] g[l][b]).created.date
        }),
{
    lemma_chronological(s);
    lemma_sorted_is_permutation::<ByCreatedDate<()>>(s);
    let c = chronological(s);
    lemma_day_runs_sorted(c);
    let g = day_runs(c);
    assert forall|k: int, l: int, a: int, b: int|
        0 <= k < g.len() && 0 <= l < g.len() && k != l && 0 <= a < g[k].len() && 0 <= b
            < g[l].len() implies (#[trigger] g[k][a]).created.date != (
    #[trigger] g[l][b]).created.date by {
        assert(g[k][a].created.date == g[k][0].created.date);
        assert(g[l][b].created.date == g[l][0].created.date);
        if k < l {
            assert(g[k][0].created.date.key() < g[l][0].created.date.key());
        } else {
            assert(g[l][0].created.date.key() < g[k][0].created.date.key());
        }
    }
}

/// A file and the path it is to be given.
#[derive(Debug, PartialEq, Eq)]
pub struct RenamedFile(pub File, pub String);

impl RenamedFile {
    pub open spec fn view(self) -> (File, Seq<char>) {
        (self.0, self.1@)
    }
}

/// The photos of a directory.
#[derive(Debug)]
pub struct Files(pub Vec<File>);

impl Files {
    pub open spec fn wf(self) -> bool {
        all_wf(self.0@)
    }

    pub fn new(files: Vec<File>) -> (r: Files)
        ensures
            r.0@ == files@,
    {
        Files(files)
    }

    /// The files in the order `O`; files that `O` does not tell apart keep their order.
    pub fn get_sorted<O: FileOrder>(&self) -> (r: Vec<File>)
        requires
            self.wf(),
        ensures
            r@ == sorted_by::<O>(self.0@),
            forall|i: int| 0 <= i < r@.len() ==> (#[trigger] r@[i]).wf(),
            r@.to_multiset() == self.0@.to_multiset(),
            is_sorted_by::<O>(r@),
            forall|a: File, b: File|
                a != b && !O::before(a, b) && !O::before(b, a) && stands_before(self.0@, a, b)
                    ==> stands_before(r@, a, b),
    {
        proof {
            lemma_sorted_is_permutation::<O>(self.0@);
            assert forall|a: File, b: File|
                a != b && !O::before(a, b) && !O::before(b, a) && stands_before(self.0@, a, b)
                    implies stands_before(sorted_by::<O>(self.0@), a, b) by {
                lemma_sort_is_stable::<O>(self.0@, a, b);
            }
        }
        let n = self.0.len();
        let mut r: Vec<File> = Vec::new();
        let mut i: usize = 0;
        while i < n
            invariant
                n == self.0@.len(),
                self.wf(),
                i <= n,
                r@ == sorted_by::<O>(self.0@.subrange(0, i as int)),
                forall|k: int| 0 <= k < r@.len() ==> (#[trigger] r@[k]).wf(),
                is_sorted_by::<O>(r@),
            decreases n - i,
        {
            let x = self.0[i].clone();
            assert(x.wf());
            let ghost before_r = r@;
            let mut j: usize = r.len();
            assert(r@.subrange(0, j as int) =~= r@);
            assert(insert_sorted::<O>(r@, x) =~= insert_sorted::<O>(r@.subrange(0, j as int), x)
                + r@.subrange(j as int, r@.len() as int));
            while j > 0 && O::is_before(&x, &r[j - 1])
                invariant
                    x.wf(),
                    j <= r@.len(),
                    r@ == before_r,
                    forall|k: int| 0 <= k < r@.len() ==> (#[trigger] r@[k]).wf(),
                    is_sorted_by::<O>(r@),
                    j < r@.len() ==> !O::before(r@[j as int], x),
                    insert_sorted::<O>(r@, x) == insert_sorted::<O>(r@.subrange(0, j as int), x)
                        + r@.subrange(j as int, r@.len() as int),
                decreases j,
            {
                let ghost pre = r@.subrange(0, j as int);
                assert(pre.drop_last() =~= r@.subrange(0, j - 1));
                assert(insert_sorted::<O>(r@.subrange(0, j - 1), x) + r@.subrange(
                    j - 1,
                    r@.len() as int,
                ) =~= insert_sorted::<O>(r@.subrange(0, j - 1), x).push(r@[j - 1]) + r@.subrange(
                    j as int,
                    r@.len() as int,
                ));
                j = j - 1;
            }
            proof {
                if j == 0 {
                    assert(r@.subrange(0, 0) =~= Seq::<File>::empty());
                } else {
                    assert(r@.subrange(0, j as int).last() == r@[j - 1]);
                }
            }
            assert(j > 0 ==> !O::before(x, before_r[j - 1]));
            assert(j < before_r.len() ==> !O::before(before_r[j as int], x));
            r.insert(j, x);
            assert(r@ =~= insert_sorted::<O>(before_r, x));
            assert forall|k: int| 0 <= k < r@.len() - 1 implies !O::before(
                #[trigger] r@[k + 1],
                r@[k],
            ) by {
                if k + 1 < j {
                    assert(r@[k + 1] == before_r[k + 1] && r@[k] == before_r[k]);
                    assert(!O::before(before_r[k + 1], before_r[k]));
                } else if k + 1 == j {
                    assert(r@[k + 1] == x && r@[k] == before_r[k]);
                } else if k == j {
                    assert(r@[k + 1] == before_r[k] && r@[k] == x);
                } else {
                    assert(r@[k + 1] == before_r[k] && r@[k] == before_r[k - 1]);
                    assert(!O::before(before_r[(k - 1) + 1], before_r[k - 1]));
                }
            }
            assert(self.0@.subrange(0, i + 1).drop_last() =~= self.0@.subrange(0, i as int));
            i = i + 1;
        }
        assert(self.0@.subrange(0, n as int) =~= self.0@);
        r
    }

    /// The interval from the earliest to the latest creation date; none for no files.
    pub fn interval(&self) -> (r: Option<FilesInterval>)
        requires
            self.wf(),
        ensures
            r == interval_of(self.0@),
            r matches Some(i) ==> i.wf(),
    {
        let n = self.0.len();
        if n == 0 {
            return None;
        }
        let mut from = self.0[0].created;
        let mut to = self.0[0].created;
        let mut i: usize = 1;
        while i < n
            invariant
                n == self.0@.len(),
                self.wf(),
                1 <= i <= n,
                from == earliest(self.0@.subrange(0, i as int)),
                to == latest(self.0@.subrange(0, i as int)),
                from.wf(),
                to.wf(),
                from.key() <= to.key(),
            decreases n - i,
        {
            let c = self.0[i].created;
            assert(self.0@[i as int].wf());
            assert(self.0@.subrange(0, i + 1).drop_last() =~= self.0@.subrange(0, i as int));
            if c.order_key() < from.order_key() {
                from = c;
            }
            if c.order_key() > to.order_key() {
                to = c;
            }
            i = i + 1;
        }
        assert(self.0@.subrange(0, n as int) =~= self.0@);
        Some(FilesInterval { from, to })
    }

    /// Proposes for each file, in the order `O`, the name `<name> <number>.<extension>`:
    /// numbers count from 1 and have zeros in front to fill `digits` characters, by default
    /// as many as the number of files has.
    pub fn rename_files<O: FileOrder>(&self, name: &str, digits: Option<usize>) -> (r: Vec<
        RenamedFile,
    >)
        requires
            self.wf(),
        ensures
            ({
                let s = sorted_by::<O>(self.0@);
                let width: nat = match digits {
                    Some(w) => w as nat,
                    None => crate::text::digits(self.0@.len()).len(),
                };
                &&& r@.len() == s.len()
                &&& forall|k: int|
                    0 <= k < s.len() ==> (#[trigger] r@[k]).view() == (
                        s[k],
                        path_with_file_name(
                            s[k].path@,
                            sequence_name(name@, (k + 1) as nat, width, path_extension(s[k].path@)),
                        ),
                    )
            }),
    {
        let sorted = self.get_sorted::<O>();
        let width = match digits {
            Some(w) => w,
            None => {
                let mut ds = String::new();
                push_padded(&mut ds, self.0.len() as u64, 0);
                proof {
                    assert(ds@ =~= crate::text::digits(self.0@.len()));
                }
                vstd::string::StrSliceExecFns::unicode_len(ds.as_str())
            },
        };
        let mut r: Vec<RenamedFile> = Vec::new();
        let mut i: usize = 0;
        while i < sorted.len()
            invariant
                i <= sorted@.len(),
                r@.len() == i,
                forall|k: int|
                    0 <= k < i ==> (#[trigger] r@[k]).view() == (
                        sorted@[k],
                        path_with_file_name(
                            sorted@[k].path@,
                            sequence_name(
                                name@,
                                (k + 1) as nat,
                                width as nat,
                                path_extension(sorted@[k].path@),
                            ),
                        ),
                    ),
            decreases sorted.len() - i,
        {
            let f = sorted[i].clone();
            let mut new_name = String::new();
            new_name.append(name);
            push_char(&mut new_name, ' ');
            push_padded(&mut new_name, (i + 1) as u64, width);
            let ext = extension_of(f.path.as_str());
            match ext {
                Some(e) => {
                    push_char(&mut new_name, '.');
                    new_name.append(e.as_str());
                },
                None => {},
            }
            assert(new_name@ =~= sequence_name(
                name@,
                (i + 1) as nat,
                width as nat,
                path_extension(f.path@),
            ));
            let new_path = with_file_name(f.path.as_str(), new_name.as_str());
            r.push(RenamedFile(f, new_path));
            i = i + 1;
        }
        r
    }

    /// The files in order of creation, in runs of files created on the same day.
    pub fn group_by_days(&self) -> (r: Vec<Vec<File>>)
        requires
            self.wf(),
        ensures
            r@.map_values(|g: Vec<File>| g@) == day_runs(chronological(self.0@)),
    {
        let files = self.get_sorted::<ByCreatedDate<()>>();
        let ghost s = files@;
        let n = files.len();
        let mut groups: Vec<Vec<File>> = Vec::new();
        let mut current: Vec<File> = Vec::new();
        let mut i: usize = 0;
        while i < n
            invariant
                s == files@,
                n == s.len(),
                i <= n,
                i == 0 ==> groups@.len() == 0 && current@.len() == 0,
                i > 0 ==> current@.len() > 0 && day_runs(s.subrange(0, i as int)) == groups@.map_values(
                    |g: Vec<File>| g@,
                ).push(current@),
            decreases n - i,
        {
            let x = files[i].clone();
            let ghost prefix = s.subrange(0, i + 1);
            assert(prefix.drop_last() =~= s.subrange(0, i as int));
            assert(prefix.last() == x);
            if i == 0 {
                current.push(x);
                assert(prefix.drop_last() =~= Seq::<File>::empty());
                assert(day_runs(prefix.drop_last()) =~= Seq::<Seq<File>>::empty());
                assert(current@ =~= seq![x]);
                assert(groups@.map_values(|g: Vec<File>| g@).push(current@) =~= day_runs(prefix));
            } else if current[current.len() - 1].created.date == x.created.date {
                let ghost old_groups = groups@.map_values(|g: Vec<File>| g@).push(current@);
                current.push(x);
                assert(old_groups.update(old_groups.len() - 1, old_groups.last().push(x))
                    =~= groups@.map_values(|g: Vec<File>| g@).push(current@));
            } else {
                let ghost old_groups = groups@.map_values(|g: Vec<File>| g@).push(current@);
                groups.push(current);
                current = Vec::new();
                current.push(x);
                assert(old_groups.push(seq![x]) =~= groups@.map_values(|g: Vec<File>| g@).push(
                    current@,
                ));
            }
            i = i + 1;
        }
        assert(s.subrange(0, n as int) =~= s);
        if n > 0 {
            groups.push(current);
        }
        assert(groups@.map_values(|g: Vec<File>| g@) =~= day_runs(s));
        groups
    }

    /// For each day of creation, the files of that day with the path that puts each in a
    /// folder named by the day, beside the file. Files whose path has no parent or no final
    /// component are left out.
    pub fn move_by_days(&self) -> (r: Vec<Vec<RenamedFile>>)
        requires
            self.wf(),
        ensures
            r@.len() == day_runs(chronological(self.0@)).len(),
            forall|k: int|
                0 <= k < r@.len() ==> (#[trigger] r@[k])@.map_values(|m: RenamedFile| m.view())
                    == day_moves(day_runs(chronological(self.0@))[k]),
    {
        let groups = self.group_by_days();
        let ghost runs = day_runs(chronological(self.0@));
        let mut r: Vec<Vec<RenamedFile>> = Vec::new();
        let mut k: usize = 0;
        while k < groups.len()
            invariant
                groups@.map_values(|g: Vec<File>| g@) == runs,
                k <= groups@.len(),
                r@.len() == k,
                forall|l: int|
                    0 <= l < k ==> (#[trigger] r@[l])@.map_values(|m: RenamedFile| m.view())
                        == day_moves(runs[l]),
            decreases groups.len() - k,
        {
            let group = &groups[k];
            assert(group@ == runs[k as int]);
            let mut moves: Vec<RenamedFile> = Vec::new();
            let mut i: usize = 0;
            while i < group.len()
                invariant
                    i <= group@.len(),
                    moves@.map_values(|m: RenamedFile| m.view()) == day_moves(
                        group@.subrange(0, i as int),
                    ),
                decreases group.len() - i,
            {
                let f = &group[i];
                let ghost prefix = group@.subrange(0, i + 1);
                assert(prefix.drop_last() =~= group@.subrange(0, i as int));
                assert(prefix.last() == *f);
                let parent = parent_of(f.path.as_str());
                let name = file_name_of(f.path.as_str());
                match (parent, name) {
                    (Some(p), Some(n)) => {
                        let day = f.created.date.to_text();
                        let folder = join(p.as_str(), day.as_str());
                        let target = join(folder.as_str(), n.as_str());
                        let ghost old_moves = moves@.map_values(|m: RenamedFile| m.view());
                        moves.push(RenamedFile(f.clone(), target));
                        assert(moves@.map_values(|m: RenamedFile| m.view()) =~= old_moves.push(
                            (*f, target@),
                        ));
                    },
                    _ => {},
                }
                i = i + 1;
            }
            assert(group@.subrange(0, group@.len() as int) =~= group@);
            r.push(moves);
            k = k + 1;
        }
        r
    }
}

} // verus!
