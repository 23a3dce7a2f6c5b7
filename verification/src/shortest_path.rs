//! Shortest-path search over the standalone remapped link list.

use vstd::prelude::*;

use crate::data::algorithm::bfs;
use crate::data::algorithm::bfs::{is_path, reachable};
use crate::remap::RemappedLinks;

verus! {

/// One shortest (fewest-edges) path from `start` to `end`, both endpoints
/// included, or `None` exactly when `end` is not reachable from `start`:
/// every path between the two takes at least as many nodes as the returned
/// one.
pub fn find_shortest_path(start: i32, end: i32, links: &RemappedLinks) -> (result: Option<
    Vec<i32>,
>)
    ensures
        match result {
            Some(path) => {
                &&& is_path(links@, path@)
                &&& path@.first() == start
                &&& path@.last() == end
                &&& forall|p2: Seq<i32>|
                    #[trigger] is_path(links@, p2) && p2.first() == start && p2.last() == end
                        ==> p2.len() >= path@.len()
            },
            None => !reachable(links@, start, end),
        },
        (result is Some) <==> reachable(links@, start, end),
        start == end ==> match result {
            Some(path) => path@ =~= seq![start],
            None => false,
        },
{
    proof {
        links.lemma_inner_view();
    }
    bfs::find_shortest_path(start, end, &links.inner)
}

} // verus!
