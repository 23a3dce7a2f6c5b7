//! The page record: one row of the pages dump, kept only while the page
//! index is being built.

use vstd::prelude::*;

verus! {

/// One content-namespace page row: its numeric id, its title, and whether
/// the page is a redirect.
#[derive(Debug)]
pub struct Page {
    pub id: i32,
    pub title: String,
    pub redirect: bool,
}

/// The mathematical content of a `Page`: the same three fields with the
/// title as a sequence of characters.
pub struct PageModel {
    pub id: i32,
    pub title: Seq<char>,
    pub redirect: bool,
}

impl View for Page {
    type V = PageModel;

    open spec fn view(&self) -> PageModel {
        PageModel { id: self.id, title: self.title@, redirect: self.redirect }
    }
}

} // verus!
