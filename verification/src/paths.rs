//! Paths of files, and their order.

use vstd::prelude::*;
use vstd::relations::{sorted_by, total_ordering};
use vstd::seq_lib::{lemma_multiset_commutative, lemma_sorted_unique};
use std::collections::VecDeque;

verus! {

/// The way to a file: the names of the directories, then the name of the file.
#[derive(Debug)]
pub struct FilePath {
    pub parts: Vec<Vec<u8>>,
}

impl View for FilePath {
    type V = Seq<Seq<u8>>;

    open spec fn view(&self) -> Seq<Seq<u8>> {
        self.parts@.map_values(|p: Vec<u8>| p@)
    }
}

/// The paths of a list.
pub open spec fn paths_view(v: Seq<FilePath>) -> Seq<Seq<Seq<u8>>> {
    v.map_values(|p: FilePath| p@)
}

// ---------------------------------------------------------------------------
// Names
// ---------------------------------------------------------------------------

/// The order of names by their bytes, first difference first.
pub open spec fn name_before(a: Seq<u8>, b: Seq<u8>) -> bool
    decreases a.len(),
{
    if b.len() == 0 {
        false
    } else if a.len() == 0 {
        true
    } else if a[0] == b[0] {
        name_before(a.drop_first(), b.drop_first())
    } else {
        a[0] < b[0]
    }
}

proof fn lemma_name_transitive(a: Seq<u8>, b: Seq<u8>, c: Seq<u8>)
    requires
        name_before(a, b),
        name_before(b, c),
    ensures
        name_before(a, c),
    decreases a.len(),
{
    if a.len() > 0 && a[0] == b[0] && b[0] == c[0] {
        lemma_name_transitive(a.drop_first(), b.drop_first(), c.drop_first());
    }
}

proof fn lemma_name_total(a: Seq<u8>, b: Seq<u8>)
    ensures
        a == b || name_before(a, b) || name_before(b, a),
    decreases a.len(),
{
    if a.len() > 0 && b.len() > 0 && a[0] == b[0] {
        lemma_name_total(a.drop_first(), b.drop_first());
        if a.drop_first() == b.drop_first() {
            assert(a =~= seq![a[0]] + a.drop_first());
            assert(b =~= seq![b[0]] + b.drop_first());
        }
    } else if a.len() == 0 && b.len() == 0 {
        assert(a =~= b);
    }
}

proof fn lemma_name_strict(a: Seq<u8>, b: Seq<u8>)
    requires
        name_before(a, b),
    ensures
        !name_before(b, a),
        a != b,
    decreases a.len(),
{
    if a.len() > 0 && a[0] == b[0] {
        lemma_name_strict(a.drop_first(), b.drop_first());
    }
}

/// Whether two names are the same.
fn same_name(a: &Vec<u8>, b: &Vec<u8>) -> (r: bool)
    ensures
        r == (a@ == b@),
{
    if a.len() != b.len() {
        return false;
    }
    let mut i: usize = 0;
    while i < a.len()
        invariant
            i <= a.len(),
            a.len() == b.len(),
            forall|j: int| 0 <= j < i ==> a@[j] == b@[j],
        decreases a.len() - i,
    {
        if a[i] != b[i] {
            assert(a@[i as int] != b@[i as int]);
            return false;
        }
        i = i + 1;
    }
    assert(a@ =~= b@);
    true
}

/// Whether a name comes before another.
fn name_less(a: &Vec<u8>, b: &Vec<u8>) -> (r: bool)
    ensures
        r == name_before(a@, b@),
{
    let mut i: usize = 0;
    assert(a@.skip(0) =~= a@);
    assert(b@.skip(0) =~= b@);
    while i < a.len() && i < b.len() && a[i] == b[i]
        invariant
            i <= a.len(),
            i <= b.len(),
            name_before(a@, b@) == name_before(a@.skip(i as int), b@.skip(i as int)),
        decreases a.len() - i,
    {
        assert(a@.skip(i as int).drop_first() =~= a@.skip(i + 1));
        assert(b@.skip(i as int).drop_first() =~= b@.skip(i + 1));
        i = i + 1;
    }
    if i == b.len() {
        false
    } else if i == a.len() {
        true
    } else {
        a[i] < b[i]
    }
}

// ---------------------------------------------------------------------------
// Paths
// ---------------------------------------------------------------------------

/// The order of paths by their names, first difference first: what lies in a
/// directory comes right behind the directory.
pub open spec fn path_before(a: Seq<Seq<u8>>, b: Seq<Seq<u8>>) -> bool
    decreases a.len(),
{
    if b.len() == 0 {
        false
    } else if a.len() == 0 {
        true
    } else if a[0] == b[0] {
        path_before(a.drop_first(), b.drop_first())
    } else {
        name_before(a[0], b[0])
    }
}

/// The order of paths, with each path beside itself.
pub open spec fn path_order() -> spec_fn(Seq<Seq<u8>>, Seq<Seq<u8>>) -> bool {
    |a: Seq<Seq<u8>>, b: Seq<Seq<u8>>| a == b || path_before(a, b)
}

/// Paths in their order.
pub open spec fn in_order(paths: Seq<Seq<Seq<u8>>>) -> Seq<Seq<Seq<u8>>> {
    paths.sort_by(path_order())
}

proof fn lemma_path_transitive(a: Seq<Seq<u8>>, b: Seq<Seq<u8>>, c: Seq<Seq<u8>>)
    requires
        path_before(a, b),
        path_before(b, c),
    ensures
        path_before(a, c),
    decreases a.len(),
{
    if a.len() > 0 {
        if a[0] == b[0] && b[0] == c[0] {
            lemma_path_transitive(a.drop_first(), b.drop_first(), c.drop_first());
        } else if a[0] != b[0] && b[0] != c[0] {
            lemma_name_transitive(a[0], b[0], c[0]);
            if a[0] == c[0] {
                lemma_name_strict(a[0], b[0]);
            }
        }
    }
}

proof fn lemma_path_total(a: Seq<Seq<u8>>, b: Seq<Seq<u8>>)
    ensures
        a == b || path_before(a, b) || path_before(b, a),
    decreases a.len(),
{
    if a.len() > 0 && b.len() > 0 {
        if a[0] == b[0] {
            lemma_path_total(a.drop_first(), b.drop_first());
            if a.drop_first() == b.drop_first() {
                assert(a =~= seq![a[0]] + a.drop_first());
                assert(b =~= seq![b[0]] + b.drop_first());
            }
        } else {
            lemma_name_total(a[0], b[0]);
        }
    } else if a.len() == 0 && b.len() == 0 {
        assert(a =~= b);
    }
}

proof fn lemma_path_strict(a: Seq<Seq<u8>>, b: Seq<Seq<u8>>)
    requires
        path_before(a, b),
    ensures
        !path_before(b, a),
        a != b,
    decreases a.len(),
{
    if a.len() > 0 {
        if a[0] == b[0] {
            lemma_path_strict(a.drop_first(), b.drop_first());
        } else {
            lemma_name_strict(a[0], b[0]);
        }
    }
}

/// The order of paths is total.
pub proof fn lemma_path_order()
    ensures
        total_ordering(path_order()),
{
    let le = path_order();
    assert forall|x: Seq<Seq<u8>>, y: Seq<Seq<u8>>| #[trigger] le(x, y) && #[trigger] le(
        y,
        x,
    ) implies x == y by {
        if x != y {
            lemma_path_strict(x, y);
        }
    }
    assert forall|x: Seq<Seq<u8>>, y: Seq<Seq<u8>>, z: Seq<Seq<u8>>| #[trigger] le(x, y)
        && #[trigger] le(y, z) implies le(x, z) by {
        if x != y && y != z {
            lemma_path_transitive(x, y, z);
        }
    }
    assert forall|x: Seq<Seq<u8>>, y: Seq<Seq<u8>>| #[trigger] le(x, y) || #[trigger] le(
        y,
        x,
    ) by {
        lemma_path_total(x, y);
    }
}

/// Whether a path comes before another, or is the same.
fn path_at_most(a: &FilePath, b: &FilePath) -> (r: bool)
    ensures
        r == path_order()(a@, b@),
{
    let mut i: usize = 0;
    let ghost x = a@;
    let ghost y = b@;
    assert(x.skip(0) =~= x);
    assert(y.skip(0) =~= y);
    while i < a.parts.len() && i < b.parts.len() && same_name(&a.parts[i], &b.parts[i])
        invariant
            i <= a.parts.len(),
            i <= b.parts.len(),
            x == a@,
            y == b@,
            forall|j: int| 0 <= j < i ==> x[j] == y[j],
            path_before(x, y) == path_before(x.skip(i as int), y.skip(i as int)),
        decreases a.parts.len() - i,
    {
        assert(x[i as int] == y[i as int]);
        assert(x.skip(i as int).drop_first() =~= x.skip(i + 1));
        assert(y.skip(i as int).drop_first() =~= y.skip(i + 1));
        i = i + 1;
    }
    if i == b.parts.len() {
        if i == a.parts.len() {
            assert(x =~= y);
            true
        } else {
            assert(x.len() != y.len());
            false
        }
    } else if i == a.parts.len() {
        true
    } else {
        assert(x[i as int] != y[i as int]);
        name_less(&a.parts[i], &b.parts[i])
    }
}

// ---------------------------------------------------------------------------
// Sorting
// ---------------------------------------------------------------------------

proof fn lemma_views_concat(a: Seq<FilePath>, b: Seq<FilePath>)
    ensures
        paths_view(a + b) == paths_view(a) + paths_view(b),
{
    assert(paths_view(a + b) =~= paths_view(a) + paths_view(b));
}

/// Puts two lists of paths that are in order together into one.
fn merge(a: VecDeque<FilePath>, b: VecDeque<FilePath>) -> (r: VecDeque<FilePath>)
    requires
        sorted_by(paths_view(a@), path_order()),
        sorted_by(paths_view(b@), path_order()),
    ensures
        sorted_by(paths_view(r@), path_order()),
        paths_view(r@).to_multiset() == (paths_view(a@) + paths_view(b@)).to_multiset(),
{
    let ghost all = paths_view(a@) + paths_view(b@);
    let ghost le = path_order();
    let mut a = a;
    let mut b = b;
    let mut out: VecDeque<FilePath> = VecDeque::new();
    proof {
        lemma_path_order();
        assert(paths_view(out@) + paths_view(a@) + paths_view(b@) =~= all);
    }
    while a.len() > 0 || b.len() > 0
        invariant
            le == path_order(),
            total_ordering(le),
            sorted_by(paths_view(a@), le),
            sorted_by(paths_view(b@), le),
            sorted_by(paths_view(out@), le),
            forall|i: int, j: int|
                0 <= i < out@.len() && 0 <= j < a@.len() ==> #[trigger] le(
                    paths_view(out@)[i],
                    paths_view(a@)[j],
                ),
            forall|i: int, j: int|
                0 <= i < out@.len() && 0 <= j < b@.len() ==> #[trigger] le(
                    paths_view(out@)[i],
                    paths_view(b@)[j],
                ),
            (paths_view(out@) + paths_view(a@) + paths_view(b@)).to_multiset()
                == all.to_multiset(),
        decreases a.len() + b.len(),
    {
        let ghost x = paths_view(a@);
        let ghost y = paths_view(b@);
        let ghost o = paths_view(out@);
        let from_a = if a.len() == 0 {
            false
        } else if b.len() == 0 {
            true
        } else {
            path_at_most(&a[0], &b[0])
        };
        proof {
            broadcast use vstd::seq_lib::group_to_multiset_ensures;

            lemma_multiset_commutative(o + x, y);
            lemma_multiset_commutative(o, x);
            lemma_multiset_commutative(o, y);
        }
        if from_a {
            match a.pop_front() {
                Some(p) => {
                    let ghost rest = paths_view(a@);
                    out.push_back(p);
                    proof {
                        assert(x =~= seq![p@] + rest);
                        assert(paths_view(out@) =~= o + seq![p@]);
                        assert(o + x + y =~= (o + seq![p@]) + rest + y);
                        assert forall|j: int| 0 <= j < y.len() implies le(p@, #[trigger] y[j]) by {
                            assert(le(x[0], y[0]));
                            if j > 0 {
                                assert(le(y[0], y[j]));
                            }
                        }
                        assert forall|j: int| 0 <= j < rest.len() implies le(
                            p@,
                            #[trigger] rest[j],
                        ) by {
                            assert(le(x[0], x[j + 1]));
                        }
                        lemma_step(o, x, p@);
                        lemma_tail(x);
                        let n = paths_view(out@);
                        assert(rest =~= x.drop_first());
                        assert forall|i: int, j: int|
                            0 <= i < n.len() && 0 <= j < rest.len() implies #[trigger] le(
                            n[i],
                            rest[j],
                        ) by {
                            if i < o.len() {
                                assert(le(o[i], x[j + 1]));
                            }
                        }
                        assert forall|i: int, j: int|
                            0 <= i < n.len() && 0 <= j < y.len() implies #[trigger] le(
                            n[i],
                            y[j],
                        ) by {
                            if i < o.len() {
                                assert(le(o[i], y[j]));
                            }
                        }
                    }
                },
                None => {},
            }
        } else {
            match b.pop_front() {
                Some(p) => {
                    let ghost rest = paths_view(b@);
                    out.push_back(p);
                    proof {
                        assert(y =~= seq![p@] + rest);
                        assert(paths_view(out@) =~= o + seq![p@]);
                        assert((o + x + y).to_multiset() =~= (o + seq![p@] + x
                            + rest).to_multiset()) by {
                            assert(o + x + y =~= o + x + (seq![p@] + rest));
                            assert(o + x + (seq![p@] + rest) =~= o + (x + seq![p@]) + rest);
                            assert(o + seq![p@] + x + rest =~= o + (seq![p@] + x) + rest);
                            lemma_multiset_commutative(x, seq![p@]);
                            lemma_multiset_commutative(seq![p@], x);
                            lemma_multiset_commutative(o, x + seq![p@]);
                            lemma_multiset_commutative(o, seq![p@] + x);
                            lemma_multiset_commutative(o + (x + seq![p@]), rest);
                            lemma_multiset_commutative(o + (seq![p@] + x), rest);
                        }
                        assert forall|j: int| 0 <= j < x.len() implies le(p@, #[trigger] x[j]) by {
                            assert(le(x[0], y[0]) || le(y[0], x[0]));
                            assert(le(y[0], x[0]));
                            if j > 0 {
                                assert(le(x[0], x[j]));
                            }
                        }
                        assert forall|j: int| 0 <= j < rest.len() implies le(
                            p@,
                            #[trigger] rest[j],
                        ) by {
                            assert(le(y[0], y[j + 1]));
                        }
                        lemma_step(o, y, p@);
                        lemma_tail(y);
                        let n = paths_view(out@);
                        assert(rest =~= y.drop_first());
                        assert forall|i: int, j: int|
                            0 <= i < n.len() && 0 <= j < rest.len() implies #[trigger] le(
                            n[i],
                            rest[j],
                        ) by {
                            if i < o.len() {
                                assert(le(o[i], y[j + 1]));
                            }
                        }
                        assert forall|i: int, j: int|
                            0 <= i < n.len() && 0 <= j < x.len() implies #[trigger] le(
                            n[i],
                            x[j],
                        ) by {
                            if i < o.len() {
                                assert(le(o[i], x[j]));
                            }
                        }
                    }
                },
                None => {},
            }
        }
    }
    proof {
        assert(paths_view(out@) + paths_view(a@) + paths_view(b@) =~= paths_view(out@));
    }
    out
}

/// A path that is behind all of a list in order goes to its end.
proof fn lemma_step(o: Seq<Seq<Seq<u8>>>, x: Seq<Seq<Seq<u8>>>, p: Seq<Seq<u8>>)
    requires
        sorted_by(o, path_order()),
        x.len() > 0,
        x[0] == p,
        forall|i: int, j: int|
            0 <= i < o.len() && 0 <= j < x.len() ==> #[trigger] path_order()(o[i], x[j]),
    ensures
        sorted_by(o + seq![p], path_order()),
{
    let le = path_order();
    let r = o + seq![p];
    assert forall|i: int, j: int| 0 <= i < j < r.len() implies #[trigger] le(r[i], r[j]) by {
        if j == o.len() {
            assert(le(o[i], x[0]));
        } else {
            assert(le(o[i], o[j]));
        }
    }
}

/// What is left of a list in order without its first path is in order.
proof fn lemma_tail(x: Seq<Seq<Seq<u8>>>)
    requires
        sorted_by(x, path_order()),
        x.len() > 0,
    ensures
        sorted_by(x.drop_first(), path_order()),
{
    let le = path_order();
    let r = x.drop_first();
    assert forall|i: int, j: int| 0 <= i < j < r.len() implies #[trigger] le(r[i], r[j]) by {
        assert(le(x[i + 1], x[j + 1]));
    }
}

/// Puts paths in order, by halves.
fn sort_queue(v: VecDeque<FilePath>) -> (r: VecDeque<FilePath>)
    ensures
        sorted_by(paths_view(r@), path_order()),
        paths_view(r@).to_multiset() == paths_view(v@).to_multiset(),
    decreases v@.len(),
{
    if v.len() <= 1 {
        return v;
    }
    let ghost all = v@;
    let half: usize = v.len() / 2;
    let mut left = v;
    let right = left.split_off(half);
    let ghost l = left@;
    let ghost r = right@;
    let a = sort_queue(left);
    let b = sort_queue(right);
    proof {
        assert(all =~= l + r);
        lemma_views_concat(l, r);
        lemma_multiset_commutative(paths_view(l), paths_view(r));
        lemma_multiset_commutative(paths_view(a@), paths_view(b@));
    }
    merge(a, b)
}

/// Puts paths in order.
pub fn sort_paths(paths: Vec<FilePath>) -> (r: Vec<FilePath>)
    ensures
        paths_view(r@) == in_order(paths_view(paths@)),
{
    let mut queue: VecDeque<FilePath> = VecDeque::new();
    for p in it: paths.into_iter()
        invariant
            it.seq() == paths@,
            queue@ == paths@.take(it.index()),
    {
        queue.push_back(p);
        assert(paths@.take(it.index() + 1) =~= paths@.take(it.index()).push(p));
    }
    assert(queue@ =~= paths@);
    let mut sorted = sort_queue(queue);
    let ghost target = sorted@;
    let mut out: Vec<FilePath> = Vec::new();
    while sorted.len() > 0
        invariant
            out@ + sorted@ == target,
        decreases sorted.len(),
    {
        let ghost before = out@ + sorted@;
        match sorted.pop_front() {
            Some(p) => {
                out.push(p);
                assert(out@ + sorted@ =~= before);
            },
            None => {},
        }
    }
    proof {
        assert(out@ =~= target);
        lemma_path_order();
        let s = paths_view(paths@);
        s.lemma_sort_by_ensures(path_order());
        lemma_sorted_unique(paths_view(out@), in_order(s), path_order());
    }
    out
}

/// The order of paths does not depend on the order in which they were found.
pub proof fn law_order_is_unique(a: Seq<Seq<Seq<u8>>>, b: Seq<Seq<Seq<u8>>>)
    requires
        a.to_multiset() == b.to_multiset(),
    ensures
        in_order(a) == in_order(b),
{
    lemma_path_order();
    a.lemma_sort_by_ensures(path_order());
    b.lemma_sort_by_ensures(path_order());
    lemma_sorted_unique(in_order(a), in_order(b), path_order());
}

/// Paths in order are the paths that they were, each as often, every one at its
/// place: no path stands behind one that comes after it.
pub proof fn law_order_keeps_the_paths(a: Seq<Seq<Seq<u8>>>)
    ensures
        in_order(a).to_multiset() == a.to_multiset(),
        sorted_by(in_order(a), path_order()),
{
    lemma_path_order();
    a.lemma_sort_by_ensures(path_order());
}

/// Paths in their order follow each other.
pub proof fn law_order_is_kept(paths: Seq<Seq<Seq<u8>>>)
    ensures
        forall|i: int, j: int|
            0 <= i < j < in_order(paths).len() ==> #[trigger] in_order(paths)[i]
                == #[trigger] in_order(paths)[j] || path_before(
                in_order(paths)[i],
                in_order(paths)[j],
            ),
{
    lemma_path_order();
    paths.lemma_sort_by_ensures(path_order());
    let sorted = in_order(paths);
    let le = path_order();
    assert forall|i: int, j: int| 0 <= i < j < sorted.len() implies #[trigger] sorted[i]
        == #[trigger] sorted[j] || path_before(sorted[i], sorted[j]) by {
        assert(le(sorted[i], sorted[j]));
    }
}

} // verus!
