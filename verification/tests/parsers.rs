use std::collections::VecDeque;

use page_graph::data::maps::page_map::PageMap;
use page_graph::data::parsers::links::sync_parse_link_entry;
use page_graph::data::parsers::pages::parse_page_entry;
use page_graph::data::parsers::redirects::parse_redirect_entry;
use page_graph::indication::ProgressBuilder;
use page_graph::pages::Page;
use page_graph::redirects::Redirect;

#[test]
fn page_row_is_extracted() {
    let line = "(12,0,'Main Page',0,1,0.85,'','',20,30,'wikitext',)";
    let pages = parse_page_entry(line);

    assert_eq!(pages.len(), 1);
    assert_eq!(pages[0].id, 12);
    assert_eq!(pages[0].title, "Main Page".to_string());
    assert!(!pages[0].redirect);
}

#[test]
fn page_redirect_flag_is_read() {
    let line = "(7,0,'Alias',1,0,1.0,'','',,3,'x',rest)";
    let pages = parse_page_entry(line);

    assert_eq!(pages.len(), 1);
    assert_eq!(pages[0].id, 7);
    assert!(pages[0].redirect);
}

#[test]
fn page_rows_batch_is_extracted_in_order() {
    let line = "INSERT INTO page VALUES (1,0,'A',0,0,1.0,'','',1,2,'',),(2,0,'B',1,0,2.5,'','',,3,'x',);";
    let pages = parse_page_entry(line);

    assert_eq!(pages.len(), 2);
    assert_eq!(pages[0].id, 1);
    assert_eq!(pages[0].title, "A".to_string());
    assert!(!pages[0].redirect);
    assert_eq!(pages[1].id, 2);
    assert_eq!(pages[1].title, "B".to_string());
    assert!(pages[1].redirect);
}

#[test]
fn page_rows_of_other_namespaces_are_skipped() {
    // Namespace 4 instead of 0: the row does not match.
    let line = "(12,4,'Project Page',0,1,0.85,'','',20,30,'wikitext',)";
    assert_eq!(parse_page_entry(line).len(), 0);
}

#[test]
fn malformed_page_lines_give_no_records() {
    assert_eq!(parse_page_entry("").len(), 0);
    assert_eq!(parse_page_entry("CREATE TABLE page (...);").len(), 0);
    assert_eq!(parse_page_entry("(12,0,'Unclosed").len(), 0);
    // An id too large for a 32-bit page id makes the row malformed.
    assert_eq!(
        parse_page_entry("(99999999999,0,'T',0,1,1.0,'','',1,2,'',)").len(),
        0
    );
}

#[test]
fn redirect_row_is_extracted() {
    let line = "(5,0,'Target page','','')";
    let redirects = parse_redirect_entry(line);

    assert_eq!(redirects.len(), 1);
    assert_eq!(redirects[0].id, 5);
    assert_eq!(redirects[0].title, "Target page".to_string());
}

#[test]
fn redirect_rows_batch_is_extracted() {
    let line = "(5,0,'X','a','b'),(6,0,'Y','','')";
    let redirects = parse_redirect_entry(line);

    assert_eq!(redirects.len(), 2);
    assert_eq!(redirects[0].id, 5);
    assert_eq!(redirects[0].title, "X".to_string());
    assert_eq!(redirects[1].id, 6);
    assert_eq!(redirects[1].title, "Y".to_string());
}

#[test]
fn redirect_rows_of_other_namespaces_are_skipped() {
    assert_eq!(parse_redirect_entry("(5,1,'Talk target','','')").len(), 0);
    assert_eq!(parse_redirect_entry("no rows here").len(), 0);
}

fn sample_index() -> PageMap {
    let pages = VecDeque::from(vec![
        Page {
            id: 10,
            title: "Alpha".to_string(),
            redirect: false,
        },
        Page {
            id: 20,
            title: "Beta".to_string(),
            redirect: false,
        },
    ]);
    PageMap::new_with_progress(pages, VecDeque::new(), ProgressBuilder::empty())
}

#[test]
fn link_rows_are_resolved_against_the_index() {
    let index = sample_index();
    let line = "(1,0,'Alpha',0,5),(1,0,'Beta',0,),(2,0,'Missing',0,7)";

    let links = sync_parse_link_entry(line, &index);

    assert_eq!(links, vec![(1, 10), (1, 20)]);
}

#[test]
fn link_rows_of_other_namespaces_are_skipped() {
    let index = sample_index();

    assert_eq!(sync_parse_link_entry("(1,2,'Alpha',0,5)", &index).len(), 0);
    assert_eq!(sync_parse_link_entry("(1,0,'Alpha',3,5)", &index).len(), 0);
}

#[test]
fn parsed_records_build_the_same_index() {
    // The extractors feed the index builder end to end.
    let page_lines = vec![
        "(1,0,'Home',0,0,1.0,'','',1,2,'',)".to_string(),
        "(2,0,'Away',1,0,1.0,'','',1,2,'',)".to_string(),
    ];
    let redirect_lines = vec!["(2,0,'Home','','')".to_string()];

    let mut pages: VecDeque<Page> = VecDeque::new();
    for line in &page_lines {
        pages.extend(parse_page_entry(line));
    }
    let mut redirects: VecDeque<Redirect> = VecDeque::new();
    for line in &redirect_lines {
        redirects.extend(parse_redirect_entry(line));
    }
    assert_eq!(pages.len(), 2);
    assert_eq!(redirects.len(), 1);

    let map = PageMap::new_with_progress(pages, redirects, ProgressBuilder::empty());
    let resolved = map.resolve_by_title("Away").unwrap();
    assert_eq!(resolved.id, 1);
    assert_eq!(resolved.title, "Home".to_string());
}
