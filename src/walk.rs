use vstd::prelude::*;

use crate::pattern::{texts, Glob};
use crate::tree::{
    classify, found, found_among, found_paths, lemma_paths_among_step, paths_at, strings, DirNode,
    Visit,
};

verus! {

/// Records, after what `result` already holds, the matches of the walk from
/// `dir` at `current_depth`.
pub fn find_folders_recursive(
    dir: &DirNode,
    target_pattern_list: &Vec<Glob>,
    exclude_dir_pattern_list: &Vec<Glob>,
    max_depth: u8,
    current_depth: u32,
    result: &mut Vec<String>,
)
    ensures
        strings(final(result)@) == strings(old(result)@) + paths_at(
            *dir,
            found(
                *dir,
                texts(target_pattern_list@),
                texts(exclude_dir_pattern_list@),
                max_depth as nat,
                current_depth as nat,
            ),
        ),
    decreases dir,
{
    let ghost tg = texts(target_pattern_list@);
    let ghost ex = texts(exclude_dir_pattern_list@);
    let ghost md = max_depth as nat;
    let ghost d = current_depth as nat;
    match classify(dir, target_pattern_list, exclude_dir_pattern_list, max_depth, current_depth) {
        Visit::Skip => {
            assert(paths_at(*dir, found(*dir, tg, ex, md, d)) =~= seq![]);
            assert(strings(result@) =~= strings(result@) + seq![]);
        },
        Visit::Match => {
            let ghost start = result@;
            result.push(dir.path.clone());
            assert(paths_at(*dir, found(*dir, tg, ex, md, d)) =~= seq![dir.path@]);
            assert(strings(result@) =~= strings(start) + seq![dir.path@]);
        },
        Visit::Descend => {
            let ghost start = result@;
            let mut i: usize = 0;
            assert(strings(result@) =~= strings(start) + paths_at(
                *dir,
                found_among(*dir, tg, ex, md, d, 0),
            ));
            while i < dir.children.len()
                invariant
                    i <= dir.children@.len(),
                    current_depth <= max_depth as u32,
                    tg == texts(target_pattern_list@),
                    ex == texts(exclude_dir_pattern_list@),
                    md == max_depth as nat,
                    d == current_depth as nat,
                    strings(result@) == strings(start) + paths_at(
                        *dir,
                        found_among(*dir, tg, ex, md, d, i as int),
                    ),
                decreases dir.children@.len() - i,
            {
                let ghost mid = result@;
                find_folders_recursive(
                    &dir.children[i],
                    target_pattern_list,
                    exclude_dir_pattern_list,
                    max_depth,
                    current_depth + 1,
                    result,
                );
                proof {
                    lemma_paths_among_step(*dir, tg, ex, md, d, i as int);
                    assert(strings(result@) =~= strings(start) + paths_at(
                        *dir,
                        found_among(*dir, tg, ex, md, d, i as int + 1),
                    ));
                }
                i = i + 1;
            }
        },
    }
}

/// The paths of the directories under `root` (itself included) whose names
/// match a target, in discovery order: excluded subtrees, directories deeper
/// than `max_depth` and the insides of matched directories are never looked at.
pub fn find_folders(
    root: &DirNode,
    target_pattern_list: &Vec<Glob>,
    exclude_dir_pattern_list: &Vec<Glob>,
    max_depth: u8,
) -> (r: Vec<String>)
    ensures
        strings(r@) == found_paths(
            *root,
            texts(target_pattern_list@),
            texts(exclude_dir_pattern_list@),
            max_depth as nat,
        ),
{
    let mut result: Vec<String> = Vec::new();
    find_folders_recursive(
        root,
        target_pattern_list,
        exclude_dir_pattern_list,
        max_depth,
        0,
        &mut result,
    );
    assert(strings(result@) =~= seq![] + strings(result@));
    result
}

} // verus!
