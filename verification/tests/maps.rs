use std::collections::VecDeque;

use page_graph::data::maps::link_map::LinkMap;
use page_graph::data::maps::page_map::{normalize_title, PageMap, PageMapResult};
use page_graph::indication::ProgressBuilder;
use page_graph::pages::Page;
use page_graph::redirects::Redirect;

#[test]
fn new_link_map() {
    let links = VecDeque::from(vec![(1, 2), (1, 3), (3, 2)]);

    let map = LinkMap::new_with_progress(links, ProgressBuilder::empty());

    assert_eq!(map.get(1), Some(&vec![2, 3]));
    assert_eq!(map.get(2), None);
    assert_eq!(map.get(3), Some(&vec![2]));
}

#[test]
fn new_page_map() {
    let pages = {
        let pages = vec![
            Page {
                id: 1,
                title: "Page 1".to_string(),
                redirect: false,
            },
            Page {
                id: 2,
                title: "Page 2".to_string(),
                redirect: false,
            },
            Page {
                id: 3,
                title: "Also Page 2".to_string(),
                redirect: true,
            },
        ];
        VecDeque::from(pages)
    };

    let redirects = {
        let redirects = vec![Redirect {
            id: 3,
            title: "Page 2".to_string(),
        }];
        VecDeque::from(redirects)
    };

    let map = PageMap::new_with_progress(pages, redirects, ProgressBuilder::empty());

    assert_eq!(map.name_to_id("Page 1"), Some(1));
    assert_eq!(map.name_to_id("Page 2"), Some(2));
    assert_eq!(map.name_to_id("Also Page 2"), Some(3));

    assert_eq!(map.id_to_name(1), Some("Page 1"));
    assert_eq!(map.id_to_name(2), Some("Page 2"));
    assert_eq!(map.id_to_name(3), Some("Also Page 2"));

    assert_eq!(map.id_to_redirect(1), None);
    assert_eq!(map.id_to_redirect(2), None);
    assert_eq!(map.id_to_redirect(3), Some(2));

    assert_eq!(
        map.lookup_title("Page 1"),
        Some(PageMapResult {
            id: 1,
            title: "Page 1".to_string(),
            redirect: None
        })
    );
    assert_eq!(
        map.lookup_title("Page 2"),
        Some(PageMapResult {
            id: 2,
            title: "Page 2".to_string(),
            redirect: None
        })
    );
    assert_eq!(
        map.lookup_title("Also Page 2"),
        Some(PageMapResult {
            id: 3,
            title: "Also Page 2".to_string(),
            redirect: Some(2)
        })
    );

    assert_eq!(
        map.lookup_id(1),
        Some(PageMapResult {
            id: 1,
            title: "Page 1".to_string(),
            redirect: None
        })
    );
    assert_eq!(
        map.lookup_id(2),
        Some(PageMapResult {
            id: 2,
            title: "Page 2".to_string(),
            redirect: None
        })
    );
    assert_eq!(
        map.lookup_id(3),
        Some(PageMapResult {
            id: 3,
            title: "Also Page 2".to_string(),
            redirect: Some(2)
        })
    );

    assert_eq!(
        map.resolve_by_title("Page 1"),
        Some(PageMapResult {
            id: 1,
            title: "Page 1".to_string(),
            redirect: None
        })
    );

    assert_eq!(
        map.resolve_by_title("Page 2"),
        Some(PageMapResult {
            id: 2,
            title: "Page 2".to_string(),
            redirect: None
        })
    );

    assert_eq!(
        map.resolve_by_title("Also Page 2"),
        Some(PageMapResult {
            id: 2,
            title: "Page 2".to_string(),
            redirect: None
        })
    );
}

fn page(id: i32, title: &str, redirect: bool) -> Page {
    Page {
        id,
        title: title.to_string(),
        redirect,
    }
}

fn redirect(id: i32, title: &str) -> Redirect {
    Redirect {
        id,
        title: title.to_string(),
    }
}

#[test]
fn resolve_follows_long_chain() {
    // A -> B -> C -> D, each hop a redirect; resolving A ends at D.
    let pages = VecDeque::from(vec![
        page(1, "A", true),
        page(2, "B", true),
        page(3, "C", true),
        page(4, "D", false),
    ]);
    let redirects = VecDeque::from(vec![
        redirect(1, "B"),
        redirect(2, "C"),
        redirect(3, "D"),
    ]);

    let map = PageMap::new_with_progress(pages, redirects, ProgressBuilder::empty());

    assert_eq!(
        map.resolve_by_title("A"),
        Some(PageMapResult {
            id: 4,
            title: "D".to_string(),
            redirect: None
        })
    );
}

#[test]
fn resolve_cycle_gives_none() {
    // A -> B -> A is cyclic; resolving answers nothing instead of looping.
    let pages = VecDeque::from(vec![page(1, "A", true), page(2, "B", true)]);
    let redirects = VecDeque::from(vec![redirect(1, "B"), redirect(2, "A")]);

    let map = PageMap::new_with_progress(pages, redirects, ProgressBuilder::empty());

    assert_eq!(map.resolve_by_title("A"), None);
    assert_eq!(map.resolve_by_title("B"), None);
}

#[test]
fn dangling_redirect_is_dropped() {
    // The redirect's target title names no page, so no entry is recorded.
    let pages = VecDeque::from(vec![page(1, "A", true), page(2, "B", false)]);
    let redirects = VecDeque::from(vec![redirect(1, "Missing")]);

    let map = PageMap::new_with_progress(pages, redirects, ProgressBuilder::empty());

    assert_eq!(map.id_to_redirect(1), None);
    assert_eq!(
        map.resolve_by_title("A"),
        Some(PageMapResult {
            id: 1,
            title: "A".to_string(),
            redirect: None
        })
    );
}

#[test]
fn unknown_title_resolves_to_none() {
    let map = PageMap::new_with_progress(
        VecDeque::from(vec![page(1, "A", false)]),
        VecDeque::new(),
        ProgressBuilder::empty(),
    );

    assert_eq!(map.resolve_by_title("B"), None);
    assert_eq!(map.name_to_id("B"), None);
    assert_eq!(map.id_to_name(9), None);
    assert_eq!(map.lookup_id(9), None);
}

#[test]
fn normalize_maps_spaces_to_underscores() {
    assert_eq!(normalize_title("Main Page"), "Main_Page".to_string());
    assert_eq!(normalize_title("A B C"), "A_B_C".to_string());
    assert_eq!(normalize_title("NoSpaces"), "NoSpaces".to_string());
    assert_eq!(normalize_title(""), "".to_string());
}

#[test]
fn standalone_lookup_matches_page_map() {
    let pages = VecDeque::from(vec![page(1, "A", true), page(2, "B", false)]);
    let redirects = VecDeque::from(vec![redirect(1, "B")]);

    let lookup = page_graph::lookup::PageLookup::new(pages, redirects);

    assert_eq!(lookup.name_to_id("A"), Some(1));
    assert_eq!(lookup.id_to_name(2), Some("B"));
    assert_eq!(lookup.id_to_redirect(1), Some(2));
    let resolved = lookup.resolve_by_title("A").unwrap();
    assert_eq!(resolved.id, 2);
    assert_eq!(resolved.title, "B".to_string());
    assert_eq!(resolved.redirect, None);
}
