use std::collections::VecDeque;

use page_graph::data::algorithm::bfs::find_shortest_path;
use page_graph::data::database::Database;
use page_graph::data::maps::link_map::LinkMap;
use page_graph::data::maps::page_map::{PageMap, PageMapResult};
use page_graph::indication::ProgressBuilder;
use page_graph::pages::Page;
use page_graph::redirects::Redirect;

fn sample_database() -> Database {
    let pages = VecDeque::from(vec![
        Page {
            id: 1,
            title: "Home".to_string(),
            redirect: false,
        },
        Page {
            id: 2,
            title: "Aw\u{00e4}y \u{1F600}".to_string(),
            redirect: true,
        },
        Page {
            id: -3,
            title: "Odd".to_string(),
            redirect: false,
        },
    ]);
    let redirects = VecDeque::from(vec![Redirect {
        id: 2,
        title: "Home".to_string(),
    }]);
    let links = VecDeque::from(vec![(1, 2), (1, -3), (-3, 1), (1, 2)]);

    let page_map = PageMap::new_with_progress(pages, redirects, ProgressBuilder::empty());
    let link_map = LinkMap::new_with_progress(links, ProgressBuilder::empty());
    Database::new(link_map, page_map)
}

#[test]
fn round_trip_preserves_lookups() {
    let db = sample_database();
    let bytes = db.to_bytes();
    let read = Database::from_bytes(&bytes).expect("a written snapshot reads back");

    assert_eq!(read.pages.name_to_id("Home"), Some(1));
    assert_eq!(read.pages.name_to_id("Aw\u{00e4}y \u{1F600}"), Some(2));
    assert_eq!(read.pages.name_to_id("Odd"), Some(-3));
    assert_eq!(read.pages.id_to_name(2), Some("Aw\u{00e4}y \u{1F600}"));
    assert_eq!(read.pages.id_to_redirect(2), Some(1));
    assert_eq!(
        read.pages.resolve_by_title("Aw\u{00e4}y \u{1F600}"),
        Some(PageMapResult {
            id: 1,
            title: "Home".to_string(),
            redirect: None
        })
    );

    assert_eq!(read.links.get(1), Some(&vec![2, -3, 2]));
    assert_eq!(read.links.get(-3), Some(&vec![1]));
    assert_eq!(read.links.get(2), None);

    // The same search answers before and after the round trip.
    assert_eq!(
        find_shortest_path(1, -3, &db.links),
        find_shortest_path(1, -3, &read.links)
    );
}

#[test]
fn round_trip_of_empty_database() {
    let page_map = PageMap::new_with_progress(
        VecDeque::new(),
        VecDeque::new(),
        ProgressBuilder::empty(),
    );
    let link_map = LinkMap::new_with_progress(VecDeque::new(), ProgressBuilder::empty());
    let db = Database::new(link_map, page_map);

    let bytes = db.to_bytes();
    let read = Database::from_bytes(&bytes).expect("an empty snapshot reads back");
    assert_eq!(read.pages.name_to_id("anything"), None);
    assert_eq!(read.links.get(1), None);
}

#[test]
fn round_trip_keeps_extreme_ids() {
    let pages = VecDeque::from(vec![
        Page {
            id: i32::MAX,
            title: "Big".to_string(),
            redirect: false,
        },
        Page {
            id: i32::MIN,
            title: "Small".to_string(),
            redirect: false,
        },
    ]);
    let links = VecDeque::from(vec![(i32::MAX, i32::MIN)]);
    let page_map = PageMap::new_with_progress(pages, VecDeque::new(), ProgressBuilder::empty());
    let link_map = LinkMap::new_with_progress(links, ProgressBuilder::empty());
    let db = Database::new(link_map, page_map);

    let read = Database::from_bytes(&db.to_bytes()).expect("extreme ids read back");
    assert_eq!(read.pages.name_to_id("Big"), Some(i32::MAX));
    assert_eq!(read.pages.name_to_id("Small"), Some(i32::MIN));
    assert_eq!(read.links.get(i32::MAX), Some(&vec![i32::MIN]));
}

#[test]
fn truncated_snapshot_is_refused() {
    let db = sample_database();
    let mut bytes = db.to_bytes();
    bytes.truncate(bytes.len() - 8);
    assert!(Database::from_bytes(&bytes).is_none());
}

#[test]
fn oversized_snapshot_is_refused() {
    let db = sample_database();
    let mut bytes = db.to_bytes();
    bytes.extend_from_slice(&[0u8; 8]);
    assert!(Database::from_bytes(&bytes).is_none());
}

#[test]
fn ragged_snapshot_is_refused() {
    let db = sample_database();
    let mut bytes = db.to_bytes();
    bytes.push(0);
    assert!(Database::from_bytes(&bytes).is_none());
}

#[test]
fn empty_blob_is_refused() {
    assert!(Database::from_bytes(&Vec::new()).is_none());
}

#[test]
fn corrupted_character_is_refused() {
    // A surrogate code point can never be a character, so a blob holding one
    // in a title is refused as a whole.
    let page_map = PageMap::new_with_progress(
        VecDeque::from(vec![Page {
            id: 1,
            title: "ab".to_string(),
            redirect: false,
        }]),
        VecDeque::new(),
        ProgressBuilder::empty(),
    );
    let link_map = LinkMap::new_with_progress(VecDeque::new(), ProgressBuilder::empty());
    let db = Database::new(link_map, page_map);
    let mut bytes = db.to_bytes();
    // Words: [1, id, flag, 2, 'a', 'b', 0, 0]; the fifth word starts at byte 32.
    let surrogate = 0xD800u64.to_le_bytes();
    for (k, b) in surrogate.iter().enumerate() {
        bytes[32 + k] = *b;
    }
    assert!(Database::from_bytes(&bytes).is_none());
}
