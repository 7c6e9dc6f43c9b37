//! The order of texts, by code points, and of paths, by their components.

use crate::text;
use vstd::prelude::*;

verus! {

/// Whether `a` comes before `b`, character by character.
pub open spec fn text_lt(a: Seq<char>, b: Seq<char>) -> bool
    decreases a.len(),
{
    if b.len() == 0 {
        false
    } else if a.len() == 0 {
        true
    } else if a[0] == b[0] {
        text_lt(a.drop_first(), b.drop_first())
    } else {
        (a[0] as int) < (b[0] as int)
    }
}

/// No text comes before itself.
pub proof fn lemma_text_lt_irreflexive(a: Seq<char>)
    ensures
        !text_lt(a, a),
    decreases a.len(),
{
    if a.len() > 0 {
        lemma_text_lt_irreflexive(a.drop_first());
    }
}

/// Of two texts that differ one comes before the other.
pub proof fn lemma_text_lt_total(a: Seq<char>, b: Seq<char>)
    ensures
        text_lt(a, b) || text_lt(b, a) || a == b,
    decreases a.len(),
{
    if a.len() == 0 || b.len() == 0 {
        if a.len() == 0 && b.len() == 0 {
            assert(a =~= b);
        }
    } else if a[0] == b[0] {
        lemma_text_lt_total(a.drop_first(), b.drop_first());
        if a.drop_first() == b.drop_first() {
            assert(a =~= seq![a[0]] + a.drop_first());
            assert(b =~= seq![b[0]] + b.drop_first());
        }
    }
}

/// The order of texts is transitive.
pub proof fn lemma_text_lt_transitive(a: Seq<char>, b: Seq<char>, c: Seq<char>)
    requires
        text_lt(a, b),
        text_lt(b, c),
    ensures
        text_lt(a, c),
    decreases a.len(),
{
    if a.len() > 0 && b.len() > 0 && c.len() > 0 && a[0] == b[0] && b[0] == c[0] {
        lemma_text_lt_transitive(a.drop_first(), b.drop_first(), c.drop_first());
    }
}

/// Whether the text `a` comes before `b`.
pub fn text_less(a: &str, b: &str) -> (r: bool)
    ensures
        r == text_lt(a@, b@),
{
    let x = text::chars_of(a);
    let y = text::chars_of(b);
    let mut i: usize = 0;
    assert(x@.skip(0) =~= a@);
    assert(y@.skip(0) =~= b@);
    while i < x.len() && i < y.len()
        invariant
            i <= x.len(),
            i <= y.len(),
            text_lt(a@, b@) == text_lt(x@.skip(i as int), y@.skip(i as int)),
        decreases x.len() - i,
    {
        assert(x@.skip(i as int).drop_first() =~= x@.skip(i + 1));
        assert(y@.skip(i as int).drop_first() =~= y@.skip(i + 1));
        if x[i] != y[i] {
            return text::code(x[i]) < text::code(y[i]);
        }
        i += 1;
    }
    i < y.len()
}

/// The components of a path: the pieces between slashes but for empty ones and single dots.
pub open spec fn components(path: Seq<char>) -> Seq<Seq<char>> {
    kept(text::split_on(path, '/'))
}

/// The pieces that are neither empty nor a single dot.
pub open spec fn kept(pieces: Seq<Seq<char>>) -> Seq<Seq<char>>
    decreases pieces.len(),
{
    if pieces.len() == 0 {
        Seq::empty()
    } else {
        let head = kept(pieces.drop_last());
        if pieces.last().len() == 0 || pieces.last() == "."@ {
            head
        } else {
            head.push(pieces.last())
        }
    }
}

/// The components of a path.
pub fn path_components(path: &str) -> (r: Vec<String>)
    ensures
        text::views(r@) == components(path@),
{
    broadcast use text::lemma_views_push;

    let pieces = text::split(path, '/');
    let ghost p = text::views(pieces@);
    let mut out: Vec<String> = Vec::new();
    let mut i: usize = 0;
    assert(text::views(out@) =~= Seq::empty());
    while i < pieces.len()
        invariant
            i <= pieces.len(),
            p == text::views(pieces@),
            text::views(out@) == kept(p.take(i as int)),
        decreases pieces.len() - i,
    {
        assert(p.take(i + 1).drop_last() =~= p.take(i as int));
        assert(p[i as int] == pieces@[i as int]@);
        if !pieces[i].as_str().is_empty() && !text::str_eq(pieces[i].as_str(), ".") {
            let ghost before = text::views(out@);
            let piece = pieces[i].clone();
            out.push(piece);
            assert(text::views(out@) == before.push(piece@));
        }
        i += 1;
    }
    assert(p.take(p.len() as int) =~= p);
    out
}

/// Whether one list of components comes before another.
pub open spec fn list_lt(a: Seq<Seq<char>>, b: Seq<Seq<char>>) -> bool
    decreases a.len(),
{
    if b.len() == 0 {
        false
    } else if a.len() == 0 {
        true
    } else if a[0] == b[0] {
        list_lt(a.drop_first(), b.drop_first())
    } else {
        text_lt(a[0], b[0])
    }
}

/// Whether the path `a` comes before `b`: component by component.
pub open spec fn path_lt(a: Seq<char>, b: Seq<char>) -> bool {
    list_lt(components(a), components(b))
}

/// Whether two paths have the same components.
pub open spec fn same_path(a: Seq<char>, b: Seq<char>) -> bool {
    components(a) == components(b)
}

/// No list of components comes before itself.
pub proof fn lemma_list_lt_irreflexive(a: Seq<Seq<char>>)
    ensures
        !list_lt(a, a),
    decreases a.len(),
{
    if a.len() > 0 {
        lemma_list_lt_irreflexive(a.drop_first());
    }
}

/// Of two lists of components that differ one comes before the other.
pub proof fn lemma_list_lt_total(a: Seq<Seq<char>>, b: Seq<Seq<char>>)
    ensures
        list_lt(a, b) || list_lt(b, a) || a == b,
    decreases a.len(),
{
    if a.len() == 0 || b.len() == 0 {
        if a.len() == 0 && b.len() == 0 {
            assert(a =~= b);
        }
    } else if a[0] == b[0] {
        lemma_list_lt_total(a.drop_first(), b.drop_first());
        if a.drop_first() == b.drop_first() {
            assert(a =~= seq![a[0]] + a.drop_first());
            assert(b =~= seq![b[0]] + b.drop_first());
        }
    } else {
        lemma_text_lt_total(a[0], b[0]);
    }
}

/// The order of lists of components is transitive.
pub proof fn lemma_list_lt_transitive(a: Seq<Seq<char>>, b: Seq<Seq<char>>, c: Seq<Seq<char>>)
    requires
        list_lt(a, b),
        list_lt(b, c),
    ensures
        list_lt(a, c),
    decreases a.len(),
{
    if a.len() > 0 && b.len() > 0 && c.len() > 0 {
        if a[0] == b[0] && b[0] == c[0] {
            lemma_list_lt_transitive(a.drop_first(), b.drop_first(), c.drop_first());
        } else if a[0] != b[0] && b[0] != c[0] {
            lemma_text_lt_transitive(a[0], b[0], c[0]);
            if a[0] == c[0] {
                lemma_text_lt_irreflexive(a[0]);
            }
        }
    }
}

/// How two things stand in an order.
#[derive(Debug, Clone, Copy, PartialEq, Eq, Structural)]
pub enum Rank {
    Before,
    Same,
    After,
}

/// How two paths stand to each other.
pub fn rank_paths(a: &str, b: &str) -> (r: Rank)
    ensures
        r == Rank::Before <==> path_lt(a@, b@),
        r == Rank::After <==> path_lt(b@, a@),
        r == Rank::Same <==> same_path(a@, b@),
{
    let x = path_components(a);
    let y = path_components(b);
    let ghost p = text::views(x@);
    let ghost q = text::views(y@);
    let mut i: usize = 0;
    assert(p.skip(0) =~= p);
    assert(q.skip(0) =~= q);
    while i < x.len() && i < y.len()
        invariant
            i <= x.len(),
            i <= y.len(),
            p == text::views(x@),
            q == text::views(y@),
            p == components(a@),
            q == components(b@),
            forall|k: int| 0 <= k < i ==> p[k] == q[k],
            path_lt(a@, b@) == list_lt(p.skip(i as int), q.skip(i as int)),
            path_lt(b@, a@) == list_lt(q.skip(i as int), p.skip(i as int)),
        decreases x.len() - i,
    {
        assert(p.skip(i as int).drop_first() =~= p.skip(i + 1));
        assert(q.skip(i as int).drop_first() =~= q.skip(i + 1));
        assert(p[i as int] == x@[i as int]@ && q[i as int] == y@[i as int]@);
        if !text::str_eq(x[i].as_str(), y[i].as_str()) {
            proof {
                lemma_text_lt_total(p[i as int], q[i as int]);
                if text_lt(p[i as int], q[i as int]) && text_lt(q[i as int], p[i as int]) {
                    lemma_text_lt_transitive(p[i as int], q[i as int], p[i as int]);
                    lemma_text_lt_irreflexive(p[i as int]);
                }
            }
            if text_less(x[i].as_str(), y[i].as_str()) {
                return Rank::Before;
            }
            return Rank::After;
        }
        i += 1;
    }
    if i < y.len() {
        assert(p.len() != q.len());
        Rank::Before
    } else if i < x.len() {
        assert(p.len() != q.len());
        Rank::After
    } else {
        assert(p =~= q);
        proof {
            lemma_list_lt_irreflexive(p);
        }
        Rank::Same
    }
}

/// Whether the path at `a` is to stand before the one at `b`: by the paths, and where they are the
/// same by the places they have now.
pub open spec fn stands_before(paths: Seq<Seq<char>>, a: int, b: int) -> bool {
    path_lt(paths[a], paths[b]) || (same_path(paths[a], paths[b]) && a < b)
}

/// Whether `places` lists all places of `paths`, each once, in the order of the paths.
pub open spec fn in_order(places: Seq<usize>, paths: Seq<Seq<char>>) -> bool {
    &&& places.len() == paths.len()
    &&& forall|i: int| 0 <= i < places.len() ==> (#[trigger] places[i]) < paths.len()
    &&& forall|i: int, j: int|
        0 <= i < j < places.len() ==> #[trigger] stands_before(
            paths,
            places[i] as int,
            places[j] as int,
        )
    &&& forall|k: usize| k < paths.len() ==> #[trigger] places.contains(k)
}

proof fn lemma_stands_before_transitive(paths: Seq<Seq<char>>, a: int, b: int, c: int)
    requires
        stands_before(paths, a, b),
        stands_before(paths, b, c),
    ensures
        stands_before(paths, a, c),
{
    let x = components(paths[a]);
    let y = components(paths[b]);
    let z = components(paths[c]);
    if list_lt(x, y) && list_lt(y, z) {
        lemma_list_lt_transitive(x, y, z);
    }
}

/// The places of the paths in the order of the paths; of equal ones the earlier comes first.
pub fn sorted_places(paths: &Vec<String>) -> (r: Vec<usize>)
    ensures
        in_order(r@, text::views(paths@)),
{
    let ghost all = text::views(paths@);
    let mut out: Vec<usize> = Vec::new();
    let mut n: usize = 0;
    while n < paths.len()
        invariant
            n <= paths.len(),
            all == text::views(paths@),
            out@.len() == n,
            forall|i: int| 0 <= i < n ==> (#[trigger] out@[i]) < n,
            forall|i: int, j: int|
                0 <= i < j < n ==> #[trigger] stands_before(all, out@[i] as int, out@[j] as int),
            forall|k: usize| k < n ==> #[trigger] out@.contains(k),
        decreases paths.len() - n,
    {
        let mut at: usize = n;
        let mut placed = false;
        while at > 0 && !placed
            invariant
                at <= n < paths.len(),
                all == text::views(paths@),
                out@.len() == n,
                forall|i: int| 0 <= i < n ==> (#[trigger] out@[i]) < n,
                forall|i: int, j: int|
                    0 <= i < j < n ==> #[trigger] stands_before(
                        all,
                        out@[i] as int,
                        out@[j] as int,
                    ),
                forall|i: int|
                    at <= i < n ==> #[trigger] stands_before(all, n as int, out@[i] as int),
                placed ==> at > 0 && stands_before(all, out@[at - 1] as int, n as int),
            decreases at, (if placed { 0int } else { 1int }),
        {
            let other: usize = out[at - 1];
            assert(all[other as int] == paths@[other as int]@ && all[n as int] == paths@[n as int]@);
            match rank_paths(paths[n].as_str(), paths[other].as_str()) {
                Rank::Before => {
                    at -= 1;
                },
                _ => {
                    placed = true;
                },
            }
        }
        let ghost before = out@;
        out.insert(at, n);
        assert forall|i: int, j: int| 0 <= i < j < n + 1 implies #[trigger] stands_before(
            all,
            out@[i] as int,
            out@[j] as int,
        ) by {
            if j == at {
                if i < at - 1 {
                    assert(stands_before(all, before[i] as int, before[at - 1] as int));
                    lemma_stands_before_transitive(
                        all,
                        before[i] as int,
                        before[at - 1] as int,
                        n as int,
                    );
                }
            } else if i == at {
                assert(stands_before(all, n as int, before[j - 1] as int));
            } else {
                let a = if i < at { i } else { i - 1 };
                let b = if j < at { j } else { j - 1 };
                assert(stands_before(all, before[a] as int, before[b] as int));
            }
        }
        assert forall|k: usize| k < n + 1 implies #[trigger] out@.contains(k) by {
            if k == n {
                assert(out@[at as int] == k);
            } else {
                assert(before.contains(k));
                let i = before.index_of(k);
                if i < at {
                    assert(out@[i] == k);
                } else {
                    assert(out@[i + 1] == k);
                }
            }
        }
        n += 1;
    }
    out
}

} // verus!
