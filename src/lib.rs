//! Locate directories whose names match glob patterns inside a directory tree,
//! pruning excluded subtrees, bounding depth, and never reporting a directory
//! that lies beneath one already matched.

mod answer;
mod laws;
mod paths;
mod pattern;
mod tree;
mod walk;

pub use answer::{
    answer_accepts, is_white_space, is_yes, lower_of, trim_end_of, trim_of, trim_start_of,
};
pub use laws::{
    agree_to_depth, law_depth_limited_view,
    is_prefix, law_depth_bound, law_excluded_subtree_unreported, law_find_repeatable,
    law_matches_named_and_outermost, leads_to_match,
};
pub use paths::{at_or_under, law_found_paths_apart, well_formed};
pub use pattern::{compile_all, glob_compiles, glob_matches, texts, valid_texts, Glob};
pub use tree::{
    classify, excluded, excludes_node, found, found_among, found_paths, included, node_at,
    paths_at, strings, visit_of, DirNode, Visit,
};
pub use walk::{find_folders, find_folders_recursive};
