use std::collections::VecDeque;

use page_graph::data::algorithm::bfs;
use page_graph::data::maps::link_map::LinkMap;
use page_graph::indication::ProgressBuilder;

#[test]
fn direct_link() {
    let link_map = LinkMap::new_with_progress(
        vec![(1, 2), (1, 3), (3, 2)].into_iter().collect(),
        ProgressBuilder::empty(),
    );

    let path = bfs::find_shortest_path(1, 2, &link_map);

    assert_eq!(path, Some(vec![1, 2]));
}

#[test]
fn start_is_end() {
    let link_map = LinkMap::new_with_progress(
        vec![(1, 2), (1, 3), (3, 2)].into_iter().collect(),
        ProgressBuilder::empty(),
    );

    let path = bfs::find_shortest_path(1, 1, &link_map);

    assert_eq!(path, Some(vec![1]));
}

#[test]
fn no_way() {
    let link_map = LinkMap::new_with_progress(
        vec![(1, 2), (1, 3), (3, 2)].into_iter().collect(),
        ProgressBuilder::empty(),
    );

    let path = bfs::find_shortest_path(2, 1, &link_map);

    assert_eq!(path, None);
}

#[test]
fn single_possibility() {
    let link_map = LinkMap::new_with_progress(
        vec![(1, 2), (1, 5), (2, 3), (2, 5), (3, 4), (3, 5)]
            .into_iter()
            .collect(),
        ProgressBuilder::empty(),
    );

    let path = bfs::find_shortest_path(1, 4, &link_map);

    assert_eq!(path, Some(vec![1, 2, 3, 4]));
}

#[test]
fn multiple_possibilities_one_shortest() {
    // path over 1->2->3->4 and 1->5->4
    let link_map = LinkMap::new_with_progress(
        vec![(1, 2), (2, 3), (3, 4), (1, 5), (5, 4)]
            .into_iter()
            .collect(),
        ProgressBuilder::empty(),
    );

    let path = bfs::find_shortest_path(1, 4, &link_map);

    assert_eq!(path, Some(vec![1, 5, 4]));
}

#[test]
fn equal_length_uses_first_in_map() {
    // path over 1->2->3->4 and 1->5->6->4
    let link_map = LinkMap::new_with_progress(
        vec![(1, 2), (2, 3), (3, 4), (1, 5), (5, 6), (6, 4)]
            .into_iter()
            .collect(),
        ProgressBuilder::empty(),
    );

    let path = bfs::find_shortest_path(1, 4, &link_map);

    assert_eq!(path, Some(vec![1, 2, 3, 4]));
}

#[test]
fn start_is_end_without_edges() {
    let link_map = LinkMap::new_with_progress(
        vec![(1, 2)].into_iter().collect(),
        ProgressBuilder::empty(),
    );

    let path = bfs::find_shortest_path(42, 42, &link_map);

    assert_eq!(path, Some(vec![42]));
}

#[test]
fn empty_graph_has_no_paths() {
    let link_map = LinkMap::new_with_progress(VecDeque::new(), ProgressBuilder::empty());

    assert_eq!(bfs::find_shortest_path(1, 2, &link_map), None);
    assert_eq!(bfs::find_shortest_path(7, 7, &link_map), Some(vec![7]));
}

#[test]
fn self_loops_and_duplicate_edges_are_harmless() {
    let link_map = LinkMap::new_with_progress(
        vec![(1, 1), (1, 2), (1, 2), (2, 3)].into_iter().collect(),
        ProgressBuilder::empty(),
    );

    assert_eq!(bfs::find_shortest_path(1, 3, &link_map), Some(vec![1, 2, 3]));
}

#[test]
fn standalone_search_matches() {
    let links = page_graph::remap::RemappedLinks::new(
        vec![(1, 2), (2, 3), (3, 4), (1, 5), (5, 4)]
            .into_iter()
            .collect(),
    );

    let path = page_graph::shortest_path::find_shortest_path(1, 4, &links);

    assert_eq!(path, Some(vec![1, 5, 4]));
    assert_eq!(page_graph::shortest_path::find_shortest_path(4, 1, &links), None);
}
