//! Finds function declarations in brace-delimited (Solidity-style) source
//! text, counts textual occurrences of their names across a project, decides
//! which functions are unused, and excises the unused ones from the text.

use vstd::prelude::*;

pub mod classify;
pub mod count;
pub mod engine;
pub mod scan;
pub mod span;
pub mod text;

verus! {

/// Full analysis of one file against the project: the names it declares, the
/// occurrence count of each across all project files (capped at the largest
/// `usize` value), and the names marked for removal, in source order.
pub fn analyze_file(content: &[u8], project_files: &Vec<Vec<u8>>, ignore_patterns: &Vec<String>)
    -> (r: (Vec<Vec<u8>>, Vec<usize>, Vec<Vec<u8>>))
    ensures
        r.0.deep_view() == scan::decl_names(content@),
        r.1.len() == r.0.len(),
        forall|k: int|
            0 <= k < r.0.len() ==> #[trigger] r.1@[k] as nat == count::capped(
                count::total_occurrences(project_files.deep_view(), r.0.deep_view()[k]),
            ),
        r.2.deep_view() == classify::spec_select_unused(
            r.0.deep_view(),
            r.1@,
            ignore_patterns.deep_view(),
            0,
        ),
{
    let names = scan::extract_functions(content);
    let counts = count::count_function_occurrences(project_files, &names);
    let unused = classify::select_unused(&names, &counts, ignore_patterns);
    (names, counts, unused)
}

} // verus!
