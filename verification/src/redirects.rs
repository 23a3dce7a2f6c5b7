//! The redirect record: one row of the redirects dump, kept only while the
//! page index is being built.

use vstd::prelude::*;

verus! {

/// One redirect row: the id of the redirecting page and the title of the
/// page it points at. The target title may itself name a redirect page;
/// chains are followed when the index resolves a title.
#[derive(Debug)]
pub struct Redirect {
    /// Id of the page that redirects.
    pub id: i32,
    /// Title the redirect points at.
    pub title: String,
}

/// The mathematical content of a `Redirect`.
pub struct RedirectModel {
    pub id: i32,
    pub title: Seq<char>,
}

impl View for Redirect {
    type V = RedirectModel;

    open spec fn view(&self) -> RedirectModel {
        RedirectModel { id: self.id, title: self.title@ }
    }
}

} // verus!
