use vstd::prelude::*;

use crate::tree::{
    found, found_among, found_paths, lemma_paths_among_step, node_at, paths_at, visit_of, DirNode,
    Visit,
};

verus! {

/// `b` is `a` itself, or lies beneath it: `a` followed by a separator starts `b`.
pub open spec fn at_or_under(a: Seq<char>, b: Seq<char>) -> bool {
    a == b || (a.len() < b.len() && b.take(a.len() as int) == a && b[a.len() as int] == '/')
}

/// Every entry's path lies strictly beneath its parent's, no entry's path is at
/// or beneath a sibling's, and the same holds of every entry in turn.
pub open spec fn well_formed(node: DirNode) -> bool
    decreases node,
{
    &&& forall|i: int|
        0 <= i < node.children@.len() ==> at_or_under(node.path@, #[trigger] node.children@[i].path@)
            && node.children@[i].path@ != node.path@
    &&& forall|i: int, j: int|
        0 <= i < node.children@.len() && 0 <= j < node.children@.len() && i != j ==> !at_or_under(
            #[trigger] node.children@[i].path@,
            #[trigger] node.children@[j].path@,
        )
    &&& forall|i: int| 0 <= i < node.children@.len() ==> well_formed(#[trigger] node.children@[i])
}

proof fn lemma_at_or_under_trans(a: Seq<char>, b: Seq<char>, c: Seq<char>)
    requires
        at_or_under(a, b),
        at_or_under(b, c),
    ensures
        at_or_under(a, c),
{
    if a != b && b != c {
        assert(c.take(a.len() as int) =~= c.take(b.len() as int).take(a.len() as int));
        assert(c[a.len() as int] == c.take(b.len() as int)[a.len() as int]);
    }
}

proof fn lemma_at_or_under_comparable(a: Seq<char>, b: Seq<char>, x: Seq<char>)
    requires
        at_or_under(a, x),
        at_or_under(b, x),
    ensures
        at_or_under(a, b) || at_or_under(b, a),
{
    if a.len() <= b.len() {
        assert(b.take(a.len() as int) =~= x.take(b.len() as int).take(a.len() as int) || b == x);
        if a.len() == b.len() {
            assert(a =~= b);
        } else {
            assert(b.take(a.len() as int) =~= a);
            assert(b[a.len() as int] == x[a.len() as int]);
        }
    } else {
        assert(a.take(b.len() as int) =~= x.take(a.len() as int).take(b.len() as int) || a == x);
        assert(a.take(b.len() as int) =~= b);
        assert(a[b.len() as int] == x[b.len() as int]);
    }
}

proof fn lemma_apart(ci: Seq<char>, cj: Seq<char>, x: Seq<char>, y: Seq<char>)
    requires
        !at_or_under(ci, cj),
        !at_or_under(cj, ci),
        at_or_under(ci, x),
        at_or_under(cj, y),
    ensures
        !at_or_under(x, y),
{
    if at_or_under(x, y) {
        lemma_at_or_under_trans(ci, x, y);
        lemma_at_or_under_comparable(ci, cj, y);
    }
}

/// Paths recorded in the walk of a well-formed `node` lie at or beneath its
/// path, and none is at or beneath another.
proof fn lemma_paths_apart(
    node: DirNode,
    targets: Seq<Seq<char>>,
    excludes: Seq<Seq<char>>,
    max_depth: nat,
    depth: nat,
)
    requires
        well_formed(node),
    ensures
        ({
            let ps = paths_at(node, found(node, targets, excludes, max_depth, depth));
            &&& forall|k: int| 0 <= k < ps.len() ==> at_or_under(node.path@, #[trigger] ps[k])
            &&& forall|i: int, j: int|
                0 <= i < ps.len() && 0 <= j < ps.len() && i != j ==> !at_or_under(
                    #[trigger] ps[i],
                    #[trigger] ps[j],
                )
        }),
    decreases node, 1nat, 0int,
{
    let ps = paths_at(node, found(node, targets, excludes, max_depth, depth));
    match visit_of(node, targets, excludes, max_depth, depth) {
        Visit::Skip => {},
        Visit::Match => {
            assert(node_at(node, Seq::<int>::empty()) == node);
            assert(ps =~= seq![node.path@]);
        },
        Visit::Descend => {
            let n = node.children@.len() as int;
            lemma_paths_among_apart(node, targets, excludes, max_depth, depth, n);
            let qs = paths_at(node, found_among(node, targets, excludes, max_depth, depth, n));
            assert(ps == qs);
            assert forall|k: int| 0 <= k < ps.len() implies at_or_under(node.path@, #[trigger] ps[k]) by {
                assert(ps[k] == qs[k]);
                let c = choose|c: int| 0 <= c < n && at_or_under(node.children@[c].path@, qs[k]);
                lemma_at_or_under_trans(node.path@, node.children@[c].path@, ps[k]);
            }
        },
    }
}

proof fn lemma_paths_among_apart(
    node: DirNode,
    targets: Seq<Seq<char>>,
    excludes: Seq<Seq<char>>,
    max_depth: nat,
    depth: nat,
    n: int,
)
    requires
        well_formed(node),
        0 <= n <= node.children@.len(),
    ensures
        ({
            let ps = paths_at(node, found_among(node, targets, excludes, max_depth, depth, n));
            &&& forall|k: int|
                0 <= k < ps.len() ==> exists|c: int|
                    0 <= c < n && at_or_under(node.children@[c].path@, #[trigger] ps[k])
            &&& forall|i: int, j: int|
                0 <= i < ps.len() && 0 <= j < ps.len() && i != j ==> !at_or_under(
                    #[trigger] ps[i],
                    #[trigger] ps[j],
                )
        }),
    decreases node, 0nat, n,
{
    if n > 0 {
        let m = n - 1;
        let child = node.children@[m];
        lemma_paths_among_apart(node, targets, excludes, max_depth, depth, m);
        lemma_paths_apart(child, targets, excludes, max_depth, depth + 1);
        lemma_paths_among_step(node, targets, excludes, max_depth, depth, m);
        let before = paths_at(node, found_among(node, targets, excludes, max_depth, depth, m));
        let inner = paths_at(child, found(child, targets, excludes, max_depth, depth + 1));
        let ps = paths_at(node, found_among(node, targets, excludes, max_depth, depth, n));
        assert(ps == before + inner);
        assert forall|k: int| 0 <= k < ps.len() implies exists|c: int|
            0 <= c < n && at_or_under(node.children@[c].path@, #[trigger] ps[k]) by {
            if k < before.len() {
                assert(ps[k] == before[k]);
            } else {
                assert(ps[k] == inner[k - before.len()]);
                assert(at_or_under(node.children@[m].path@, ps[k]));
            }
        }
        assert forall|i: int, j: int|
            0 <= i < ps.len() && 0 <= j < ps.len() && i != j implies !at_or_under(
            #[trigger] ps[i],
            #[trigger] ps[j],
        ) by {
            if i < before.len() && j < before.len() {
                assert(ps[i] == before[i] && ps[j] == before[j]);
            } else if i >= before.len() && j >= before.len() {
                assert(ps[i] == inner[i - before.len()] && ps[j] == inner[j - before.len()]);
            } else {
                let (a, b) = if i < before.len() {
                    (i, j)
                } else {
                    (j, i)
                };
                assert(ps[a] == before[a]);
                assert(ps[b] == inner[b - before.len()]);
                let c = choose|c: int| 0 <= c < m && at_or_under(node.children@[c].path@, before[a]);
                assert(!at_or_under(node.children@[c].path@, child.path@));
                assert(!at_or_under(child.path@, node.children@[c].path@));
                lemma_apart(node.children@[c].path@, child.path@, ps[a], ps[b]);
                lemma_apart(child.path@, node.children@[c].path@, ps[b], ps[a]);
            }
        }
    }
}

/// In a well-formed tree, the recorded paths lie at or beneath the root's path,
/// are pairwise distinct, and none lies beneath another.
pub proof fn law_found_paths_apart(
    root: DirNode,
    targets: Seq<Seq<char>>,
    excludes: Seq<Seq<char>>,
    max_depth: nat,
    i: int,
    j: int,
)
    requires
        well_formed(root),
        0 <= i < found_paths(root, targets, excludes, max_depth).len(),
        0 <= j < found_paths(root, targets, excludes, max_depth).len(),
        i != j,
    ensures
        at_or_under(root.path@, found_paths(root, targets, excludes, max_depth)[i]),
        found_paths(root, targets, excludes, max_depth)[i] != found_paths(
            root,
            targets,
            excludes,
            max_depth,
        )[j],
        !at_or_under(
            found_paths(root, targets, excludes, max_depth)[i],
            found_paths(root, targets, excludes, max_depth)[j],
        ),
{
    lemma_paths_apart(root, targets, excludes, max_depth, 0);
}

} // verus!
