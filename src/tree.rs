use vstd::prelude::*;

use crate::pattern::{glob_matches, texts, Glob};

verus! {

/// A directory tree as observed on disk: each node holds its full path, its
/// final component (absent when the path has none, or it is not valid text),
/// whether it is a directory, and the entries read from it.
///
/// A node whose entries were never read simply has no children.
pub struct DirNode {
    pub path: String,
    pub name: Option<String>,
    pub is_dir: bool,
    pub children: Vec<DirNode>,
}

/// What the walk does on reaching a node.
#[derive(PartialEq, Eq, Structural, Clone, Copy, Debug)]
pub enum Visit {
    /// Do not record the node and do not look inside it.
    Skip,
    /// Record the node and do not look inside it.
    Match,
    /// Look at the node's entries.
    Descend,
}

impl DirNode {
    /// A node with no entries read yet.
    pub fn new(path: String, name: Option<String>, is_dir: bool) -> (r: DirNode)
        ensures
            r.path == path,
            r.name == name,
            r.is_dir == is_dir,
            r.children@.len() == 0,
    {
        DirNode { path, name, is_dir, children: Vec::new() }
    }

    /// Appends an entry.
    pub fn push_child(&mut self, child: DirNode)
        ensures
            final(self).path == old(self).path,
            final(self).name == old(self).name,
            final(self).is_dir == old(self).is_dir,
            final(self).children@ == old(self).children@.push(child),
    {
        self.children.push(child);
    }
}

/// Whether exclusion text `pattern` matches `node`, by its full path or by its
/// name.
pub open spec fn excludes_node(pattern: Seq<char>, node: DirNode) -> bool {
    glob_matches(pattern, node.path@) || (node.name is Some && glob_matches(
        pattern,
        node.name->0@,
    ))
}

/// Some exclusion text matches the node, by full path or by name.
pub open spec fn excluded(excludes: Seq<Seq<char>>, node: DirNode) -> bool {
    exists|i: int| 0 <= i < excludes.len() && excludes_node(#[trigger] excludes[i], node)
}

/// Some inclusion text matches the name.
pub open spec fn included(targets: Seq<Seq<char>>, name: Seq<char>) -> bool {
    exists|i: int| 0 <= i < targets.len() && glob_matches(#[trigger] targets[i], name)
}

/// The decision at `node`, reached at `depth`: the depth bound first, then the
/// directory check, then exclusion by full path or name, then inclusion by
/// name.
pub open spec fn visit_of(
    node: DirNode,
    targets: Seq<Seq<char>>,
    excludes: Seq<Seq<char>>,
    max_depth: nat,
    depth: nat,
) -> Visit {
    if depth > max_depth || !node.is_dir || excluded(excludes, node) {
        Visit::Skip
    } else if node.name is Some && included(targets, node.name->0@) {
        Visit::Match
    } else {
        Visit::Descend
    }
}

/// The positions (child indices from `node`) of the matches that the walk
/// from `node` at `depth` records, in the order it records them.
pub open spec fn found(
    node: DirNode,
    targets: Seq<Seq<char>>,
    excludes: Seq<Seq<char>>,
    max_depth: nat,
    depth: nat,
) -> Seq<Seq<int>>
    decreases node, 1nat, 0int,
{
    match visit_of(node, targets, excludes, max_depth, depth) {
        Visit::Skip => seq![],
        Visit::Match => seq![seq![]],
        Visit::Descend => found_among(
            node,
            targets,
            excludes,
            max_depth,
            depth,
            node.children@.len() as int,
        ),
    }
}

/// The matches recorded beneath the first `n` entries of `node`, which sits
/// at `depth`.
pub open spec fn found_among(
    node: DirNode,
    targets: Seq<Seq<char>>,
    excludes: Seq<Seq<char>>,
    max_depth: nat,
    depth: nat,
    n: int,
) -> Seq<Seq<int>>
    decreases node, 0nat, n,
{
    if n <= 0 || n > node.children@.len() {
        seq![]
    } else {
        found_among(node, targets, excludes, max_depth, depth, n - 1) + found(
            node.children@[n - 1],
            targets,
            excludes,
            max_depth,
            depth + 1,
        ).map_values(|p: Seq<int>| seq![n - 1] + p)
    }
}

/// The node reached from `node` by following the child indices in `pos`.
pub open spec fn node_at(node: DirNode, pos: Seq<int>) -> DirNode
    decreases pos.len(),
{
    if pos.len() == 0 {
        node
    } else {
        node_at(node.children@[pos[0]], pos.drop_first())
    }
}

/// The paths of the nodes at `positions` below `node`.
pub open spec fn paths_at(node: DirNode, positions: Seq<Seq<int>>) -> Seq<Seq<char>> {
    positions.map_values(|p: Seq<int>| node_at(node, p).path@)
}

/// The paths that a walk from `root` records, in discovery order.
pub open spec fn found_paths(
    root: DirNode,
    targets: Seq<Seq<char>>,
    excludes: Seq<Seq<char>>,
    max_depth: nat,
) -> Seq<Seq<char>> {
    paths_at(root, found(root, targets, excludes, max_depth, 0))
}

/// The paths recorded beneath the first `n + 1` entries are those beneath the
/// first `n`, followed by those recorded in the walk of entry `n`.
pub(crate) proof fn lemma_paths_among_step(
    node: DirNode,
    targets: Seq<Seq<char>>,
    excludes: Seq<Seq<char>>,
    max_depth: nat,
    depth: nat,
    n: int,
)
    requires
        0 <= n < node.children@.len(),
    ensures
        paths_at(node, found_among(node, targets, excludes, max_depth, depth, n + 1)) == paths_at(
            node,
            found_among(node, targets, excludes, max_depth, depth, n),
        ) + paths_at(
            node.children@[n],
            found(node.children@[n], targets, excludes, max_depth, depth + 1),
        ),
{
    let child = node.children@[n];
    let before = found_among(node, targets, excludes, max_depth, depth, n);
    let inner = found(child, targets, excludes, max_depth, depth + 1);
    let shifted = inner.map_values(|p: Seq<int>| seq![n] + p);
    assert(found_among(node, targets, excludes, max_depth, depth, n + 1) == before + shifted);
    assert forall|k: int| 0 <= k < inner.len() implies node_at(node, #[trigger] shifted[k]) == node_at(
        child,
        inner[k],
    ) by {
        assert((seq![n] + inner[k]).drop_first() =~= inner[k]);
    }
    assert(paths_at(node, before + shifted) =~= paths_at(node, before) + paths_at(child, inner));
}

/// The texts of the strings in `v`, in order.
pub open spec fn strings(v: Seq<String>) -> Seq<Seq<char>> {
    v.map_values(|s: String| s@)
}

fn any_excludes(patterns: &Vec<Glob>, node: &DirNode) -> (r: bool)
    ensures
        r == excluded(texts(patterns@), *node),
{
    let ghost t = texts(patterns@);
    let mut i: usize = 0;
    while i < patterns.len()
        invariant
            i <= patterns.len(),
            t == texts(patterns@),
            forall|j: int| 0 <= j < i ==> !excludes_node(#[trigger] t[j], *node),
        decreases patterns.len() - i,
    {
        let by_name = match &node.name {
            Some(name) => patterns[i].matches(name.as_str()),
            None => false,
        };
        if patterns[i].matches_path(node.path.as_str()) || by_name {
            assert(excludes_node(t[i as int], *node));
            return true;
        }
        i = i + 1;
    }
    false
}

fn any_matches(patterns: &Vec<Glob>, name: &str) -> (r: bool)
    ensures
        r == included(texts(patterns@), name@),
{
    let ghost t = texts(patterns@);
    let mut i: usize = 0;
    while i < patterns.len()
        invariant
            i <= patterns.len(),
            t == texts(patterns@),
            forall|j: int| 0 <= j < i ==> !glob_matches(#[trigger] t[j], name@),
        decreases patterns.len() - i,
    {
        if patterns[i].matches(name) {
            assert(glob_matches(t[i as int], name@));
            return true;
        }
        i = i + 1;
    }
    false
}

/// Decides what the walk does at `node`, reached at `depth`: it is skipped
/// when deeper than `max_depth`, not a directory, or excluded by full path or
/// name; matched when its name matches a target; looked into otherwise.
pub fn classify(
    node: &DirNode,
    target_pattern_list: &Vec<Glob>,
    exclude_dir_pattern_list: &Vec<Glob>,
    max_depth: u8,
    depth: u32,
) -> (r: Visit)
    ensures
        r == visit_of(
            *node,
            texts(target_pattern_list@),
            texts(exclude_dir_pattern_list@),
            max_depth as nat,
            depth as nat,
        ),
{
    if depth > max_depth as u32 || !node.is_dir {
        return Visit::Skip;
    }
    if any_excludes(exclude_dir_pattern_list, node) {
        return Visit::Skip;
    }
    match &node.name {
        Some(name) => {
            if any_matches(target_pattern_list, name.as_str()) {
                return Visit::Match;
            }
        },
        None => {},
    }
    Visit::Descend
}

} // verus!
