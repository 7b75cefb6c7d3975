use vstd::prelude::*;

use crate::tree::{
    excluded, found, found_among, found_paths, included, lemma_paths_among_step, node_at, paths_at,
    visit_of, DirNode, Visit,
};

verus! {

/// Following `pos` from `node` (at `depth`) passes only through nodes the walk
/// descends into and ends at a node it records.
pub open spec fn leads_to_match(
    node: DirNode,
    targets: Seq<Seq<char>>,
    excludes: Seq<Seq<char>>,
    max_depth: nat,
    depth: nat,
    pos: Seq<int>,
) -> bool
    decreases pos.len(),
{
    if pos.len() == 0 {
        visit_of(node, targets, excludes, max_depth, depth) == Visit::Match
    } else {
        &&& visit_of(node, targets, excludes, max_depth, depth) == Visit::Descend
        &&& 0 <= pos[0] < node.children@.len()
        &&& leads_to_match(
            node.children@[pos[0]],
            targets,
            excludes,
            max_depth,
            depth + 1,
            pos.drop_first(),
        )
    }
}

/// `q` is a prefix of `p` (possibly `p` itself).
pub open spec fn is_prefix(q: Seq<int>, p: Seq<int>) -> bool {
    q.len() <= p.len() && q == p.take(q.len() as int)
}

proof fn lemma_found_among_contains(
    node: DirNode,
    targets: Seq<Seq<char>>,
    excludes: Seq<Seq<char>>,
    max_depth: nat,
    depth: nat,
    n: int,
    pos: Seq<int>,
)
    requires
        0 <= n <= node.children@.len(),
    ensures
        found_among(node, targets, excludes, max_depth, depth, n).contains(pos) <==> {
            &&& pos.len() > 0
            &&& 0 <= pos[0] < n
            &&& found(node.children@[pos[0]], targets, excludes, max_depth, depth + 1).contains(
                pos.drop_first(),
            )
        },
    decreases n,
{
    if n > 0 {
        lemma_found_among_contains(node, targets, excludes, max_depth, depth, n - 1, pos);
        let before = found_among(node, targets, excludes, max_depth, depth, n - 1);
        let inner = found(node.children@[n - 1], targets, excludes, max_depth, depth + 1);
        let shifted = inner.map_values(|p: Seq<int>| seq![n - 1] + p);
        let all = found_among(node, targets, excludes, max_depth, depth, n);
        assert(all == before + shifted);
        if all.contains(pos) {
            let k = choose|k: int| 0 <= k < all.len() && all[k] == pos;
            if k >= before.len() {
                let j = k - before.len();
                assert(pos == seq![n - 1] + inner[j]);
                assert(pos.drop_first() =~= inner[j]);
            } else {
                assert(before[k] == pos);
            }
        }
        if pos.len() > 0 && pos[0] == n - 1 && inner.contains(pos.drop_first()) {
            let j = choose|j: int| 0 <= j < inner.len() && inner[j] == pos.drop_first();
            assert(shifted[j] =~= pos);
            assert(all[before.len() + j] == pos);
        }
        if before.contains(pos) {
            let k = choose|k: int| 0 <= k < before.len() && before[k] == pos;
            assert(all[k] == pos);
        }
    }
}

/// A position is recorded by the walk exactly when it leads to a match.
proof fn lemma_found_iff_leads(
    node: DirNode,
    targets: Seq<Seq<char>>,
    excludes: Seq<Seq<char>>,
    max_depth: nat,
    depth: nat,
    pos: Seq<int>,
)
    ensures
        found(node, targets, excludes, max_depth, depth).contains(pos) <==> leads_to_match(
            node,
            targets,
            excludes,
            max_depth,
            depth,
            pos,
        ),
    decreases node,
{
    match visit_of(node, targets, excludes, max_depth, depth) {
        Visit::Skip => {},
        Visit::Match => {
            let all = found(node, targets, excludes, max_depth, depth);
            assert(all == seq![Seq::<int>::empty()]);
            if all.contains(pos) {
                let k = choose|k: int| 0 <= k < all.len() && all[k] == pos;
                assert(pos == Seq::<int>::empty());
            }
            if pos.len() == 0 {
                assert(pos =~= Seq::<int>::empty());
                assert(all[0] == pos);
            }
        },
        Visit::Descend => {
            lemma_found_among_contains(
                node,
                targets,
                excludes,
                max_depth,
                depth,
                node.children@.len() as int,
                pos,
            );
            if pos.len() > 0 && 0 <= pos[0] < node.children@.len() {
                lemma_found_iff_leads(
                    node.children@[pos[0]],
                    targets,
                    excludes,
                    max_depth,
                    depth + 1,
                    pos.drop_first(),
                );
            }
        },
    }
}

/// Along a position that leads to a match, the walk descends at every proper
/// prefix and records the node at the end.
proof fn lemma_visit_along(
    node: DirNode,
    targets: Seq<Seq<char>>,
    excludes: Seq<Seq<char>>,
    max_depth: nat,
    depth: nat,
    pos: Seq<int>,
    k: int,
)
    requires
        leads_to_match(node, targets, excludes, max_depth, depth, pos),
        0 <= k <= pos.len(),
    ensures
        visit_of(node_at(node, pos.take(k)), targets, excludes, max_depth, depth + k as nat) == (if k
            == pos.len() {
            Visit::Match
        } else {
            Visit::Descend
        }),
    decreases pos.len(),
{
    if k == 0 {
        assert(pos.take(0) =~= Seq::<int>::empty());
    } else {
        let rest = pos.drop_first();
        lemma_visit_along(
            node.children@[pos[0]],
            targets,
            excludes,
            max_depth,
            depth + 1,
            rest,
            k - 1,
        );
        assert(pos.take(k).drop_first() =~= rest.take(k - 1));
        assert(depth + 1 + (k - 1) as nat == depth + k as nat);
    }
}

/// Every recorded directory is a directory whose name matches some target, and
/// no recorded directory has a proper ancestor that is also recorded.
pub proof fn law_matches_named_and_outermost(
    root: DirNode,
    targets: Seq<Seq<char>>,
    excludes: Seq<Seq<char>>,
    max_depth: nat,
    pos: Seq<int>,
    ancestor: Seq<int>,
)
    requires
        found(root, targets, excludes, max_depth, 0).contains(pos),
    ensures
        node_at(root, pos).is_dir,
        node_at(root, pos).name is Some,
        included(targets, node_at(root, pos).name->0@),
        is_prefix(ancestor, pos) && ancestor.len() < pos.len() ==> !found(
            root,
            targets,
            excludes,
            max_depth,
            0,
        ).contains(ancestor),
{
    lemma_found_iff_leads(root, targets, excludes, max_depth, 0, pos);
    lemma_visit_along(root, targets, excludes, max_depth, 0, pos, pos.len() as int);
    assert(pos.take(pos.len() as int) =~= pos);
    if is_prefix(ancestor, pos) && ancestor.len() < pos.len() {
        lemma_visit_along(root, targets, excludes, max_depth, 0, pos, ancestor.len() as int);
        lemma_found_iff_leads(root, targets, excludes, max_depth, 0, ancestor);
        if found(root, targets, excludes, max_depth, 0).contains(ancestor) {
            lemma_visit_along(
                root,
                targets,
                excludes,
                max_depth,
                0,
                ancestor,
                ancestor.len() as int,
            );
            assert(ancestor.take(ancestor.len() as int) =~= ancestor);
        }
    }
}

/// Nothing at or beneath a directory that an exclusion matches is recorded,
/// even where a name there matches a target.
pub proof fn law_excluded_subtree_unreported(
    root: DirNode,
    targets: Seq<Seq<char>>,
    excludes: Seq<Seq<char>>,
    max_depth: nat,
    dir: Seq<int>,
    pos: Seq<int>,
)
    requires
        excluded(excludes, node_at(root, dir)),
    ensures
        is_prefix(dir, pos) ==> !found(root, targets, excludes, max_depth, 0).contains(pos),
{
    lemma_found_iff_leads(root, targets, excludes, max_depth, 0, pos);
    if is_prefix(dir, pos) && found(root, targets, excludes, max_depth, 0).contains(pos) {
        lemma_visit_along(root, targets, excludes, max_depth, 0, pos, dir.len() as int);
    }
}

/// Every recorded directory lies at most `max_depth` levels below the root, and
/// the walk never looks at a node deeper than that.
pub proof fn law_depth_bound(
    root: DirNode,
    targets: Seq<Seq<char>>,
    excludes: Seq<Seq<char>>,
    max_depth: nat,
    pos: Seq<int>,
)
    ensures
        found(root, targets, excludes, max_depth, 0).contains(pos) ==> pos.len() <= max_depth,
        pos.len() > max_depth ==> visit_of(
            node_at(root, pos),
            targets,
            excludes,
            max_depth,
            pos.len(),
        ) == Visit::Skip,
{
    lemma_found_iff_leads(root, targets, excludes, max_depth, 0, pos);
    if found(root, targets, excludes, max_depth, 0).contains(pos) {
        lemma_visit_along(root, targets, excludes, max_depth, 0, pos, pos.len() as int);
        assert(pos.take(pos.len() as int) =~= pos);
    }
}

/// `t1` and `t2` agree on every node at most `max_depth` levels below the
/// root (where `t1` and `t2` sit at `depth`): the same path, name and kind, and
/// above that level the same number of entries, pairwise agreeing. What lies
/// deeper may differ.
pub open spec fn agree_to_depth(t1: DirNode, t2: DirNode, depth: nat, max_depth: nat) -> bool
    decreases t1,
{
    &&& t1.path == t2.path
    &&& t1.name == t2.name
    &&& t1.is_dir == t2.is_dir
    &&& depth < max_depth ==> {
        &&& t1.children@.len() == t2.children@.len()
        &&& forall|i: int|
            0 <= i < t1.children@.len() ==> agree_to_depth(
                #[trigger] t1.children@[i],
                t2.children@[i],
                depth + 1,
                max_depth,
            )
    }
}

proof fn lemma_among_beyond_depth(
    node: DirNode,
    targets: Seq<Seq<char>>,
    excludes: Seq<Seq<char>>,
    max_depth: nat,
    depth: nat,
    n: int,
)
    requires
        depth >= max_depth,
    ensures
        found_among(node, targets, excludes, max_depth, depth, n) == Seq::<Seq<int>>::empty(),
    decreases n,
{
    if n > 0 && n <= node.children@.len() {
        lemma_among_beyond_depth(node, targets, excludes, max_depth, depth, n - 1);
        let inner = found(node.children@[n - 1], targets, excludes, max_depth, depth + 1);
        assert(inner =~= Seq::<Seq<int>>::empty());
        assert(found_among(node, targets, excludes, max_depth, depth, n) =~= Seq::<
            Seq<int>,
        >::empty());
    }
}

proof fn lemma_agree_paths(
    t1: DirNode,
    t2: DirNode,
    targets: Seq<Seq<char>>,
    excludes: Seq<Seq<char>>,
    max_depth: nat,
    depth: nat,
)
    requires
        agree_to_depth(t1, t2, depth, max_depth),
    ensures
        paths_at(t1, found(t1, targets, excludes, max_depth, depth)) == paths_at(
            t2,
            found(t2, targets, excludes, max_depth, depth),
        ),
    decreases t1, 1nat, 0int,
{
    let v = visit_of(t1, targets, excludes, max_depth, depth);
    assert(v == visit_of(t2, targets, excludes, max_depth, depth));
    match v {
        Visit::Skip => {},
        Visit::Match => {
            assert(node_at(t1, Seq::<int>::empty()) == t1);
            assert(node_at(t2, Seq::<int>::empty()) == t2);
            assert(paths_at(t1, found(t1, targets, excludes, max_depth, depth)) =~= seq![t1.path@]);
            assert(paths_at(t2, found(t2, targets, excludes, max_depth, depth)) =~= seq![t2.path@]);
        },
        Visit::Descend => {
            if depth < max_depth {
                lemma_agree_among(
                    t1,
                    t2,
                    targets,
                    excludes,
                    max_depth,
                    depth,
                    t1.children@.len() as int,
                );
            } else {
                lemma_among_beyond_depth(
                    t1,
                    targets,
                    excludes,
                    max_depth,
                    depth,
                    t1.children@.len() as int,
                );
                lemma_among_beyond_depth(
                    t2,
                    targets,
                    excludes,
                    max_depth,
                    depth,
                    t2.children@.len() as int,
                );
                assert(paths_at(t1, Seq::<Seq<int>>::empty()) =~= paths_at(
                    t2,
                    Seq::<Seq<int>>::empty(),
                ));
            }
        },
    }
}

proof fn lemma_agree_among(
    t1: DirNode,
    t2: DirNode,
    targets: Seq<Seq<char>>,
    excludes: Seq<Seq<char>>,
    max_depth: nat,
    depth: nat,
    n: int,
)
    requires
        agree_to_depth(t1, t2, depth, max_depth),
        depth < max_depth,
        0 <= n <= t1.children@.len(),
    ensures
        paths_at(t1, found_among(t1, targets, excludes, max_depth, depth, n)) == paths_at(
            t2,
            found_among(t2, targets, excludes, max_depth, depth, n),
        ),
    decreases t1, 0nat, n,
{
    if n > 0 {
        lemma_agree_among(t1, t2, targets, excludes, max_depth, depth, n - 1);
        lemma_agree_paths(
            t1.children@[n - 1],
            t2.children@[n - 1],
            targets,
            excludes,
            max_depth,
            depth + 1,
        );
        lemma_paths_among_step(t1, targets, excludes, max_depth, depth, n - 1);
        lemma_paths_among_step(t2, targets, excludes, max_depth, depth, n - 1);
    } else {
        assert(paths_at(t1, found_among(t1, targets, excludes, max_depth, depth, n)) =~= paths_at(
            t2,
            found_among(t2, targets, excludes, max_depth, depth, n),
        ));
    }
}

/// Two trees that agree on everything at most `max_depth` levels below the root
/// give the same recorded paths, in the same order, however they differ deeper
/// down: nothing below that level is ever looked at.
pub proof fn law_depth_limited_view(
    t1: DirNode,
    t2: DirNode,
    targets: Seq<Seq<char>>,
    excludes: Seq<Seq<char>>,
    max_depth: nat,
)
    requires
        agree_to_depth(t1, t2, 0, max_depth),
    ensures
        found_paths(t1, targets, excludes, max_depth) == found_paths(t2, targets, excludes, max_depth),
{
    lemma_agree_paths(t1, t2, targets, excludes, max_depth, 0);
}

/// Two walks of the same tree with the same patterns and bound record the same
/// paths in the same order.
pub proof fn law_find_repeatable(
    root: DirNode,
    targets: Seq<Seq<char>>,
    excludes: Seq<Seq<char>>,
    max_depth: nat,
    first: Seq<Seq<char>>,
    second: Seq<Seq<char>>,
)
    requires
        first == found_paths(root, targets, excludes, max_depth),
        second == found_paths(root, targets, excludes, max_depth),
    ensures
        first == second,
        first.to_set() == second.to_set(),
{
}

} // verus!
