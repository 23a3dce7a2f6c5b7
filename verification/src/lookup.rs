//! The standalone page lookup: the same bidirectional id/title index and
//! redirect table as `PageMap`, under the older free-standing name.

use std::collections::VecDeque;
use vstd::prelude::*;

use crate::data::maps::page_map::{
    build_ids, build_names, build_redirects, PageMap, PageMapResultModel,
};
use crate::indication::ProgressBuilder;
use crate::pages::Page;
use crate::redirects::Redirect;

verus! {

/// The answer to a lookup: the page's id, its title, and the id its
/// redirect points at when the page is a redirect.
pub struct PageLookupResult {
    pub id: i32,
    pub title: String,
    pub redirect: Option<i32>,
}

impl View for PageLookupResult {
    type V = PageMapResultModel;

    open spec fn view(&self) -> PageMapResultModel {
        PageMapResultModel { id: self.id, title: self.title@, redirect: self.redirect }
    }
}

/// The page lookup; it carries the page index and answers exactly as the
/// index does.
pub struct PageLookup {
    inner: PageMap,
}

impl PageLookup {
    /// Page id to title.
    pub closed spec fn names(&self) -> Map<i32, Seq<char>> {
        self.inner.names()
    }

    /// Title to page id.
    pub closed spec fn ids(&self) -> Map<Seq<char>, i32> {
        self.inner.ids()
    }

    /// Redirecting page id to the id of its target.
    pub closed spec fn redirs(&self) -> Map<i32, i32> {
        self.inner.redirs()
    }

    /// What looking a title up answers.
    pub closed spec fn spec_lookup_title(&self, title: Seq<char>) -> Option<PageMapResultModel> {
        self.inner.spec_lookup_title(title)
    }

    /// What looking an id up answers.
    pub closed spec fn spec_lookup_id(&self, id: i32) -> Option<PageMapResultModel> {
        self.inner.spec_lookup_id(id)
    }

    /// What resolving a title answers.
    pub closed spec fn spec_resolve(&self, title: Seq<char>) -> Option<PageMapResultModel> {
        self.inner.spec_resolve(title)
    }

    /// Builds the lookup from page and redirect records, silently dropping
    /// redirects whose target title is unknown.
    pub fn new(pages: VecDeque<Page>, redirect: VecDeque<Redirect>) -> (result: Self)
        ensures
            result.names() == build_names(pages@.map_values(|p: Page| p@)),
            result.ids() == build_ids(pages@.map_values(|p: Page| p@)),
            result.redirs() == build_redirects(
                redirect@.map_values(|r: Redirect| r@),
                result.ids(),
            ),
    {
        Self { inner: PageMap::new_with_progress(pages, redirect, ProgressBuilder::empty()) }
    }

    /// Builds the lookup, with a progress description for the caller to
    /// render.
    pub fn new_with_progress(
        pages: VecDeque<Page>,
        redirect: VecDeque<Redirect>,
        progress: ProgressBuilder,
    ) -> (result: Self)
        ensures
            result.names() == build_names(pages@.map_values(|p: Page| p@)),
            result.ids() == build_ids(pages@.map_values(|p: Page| p@)),
            result.redirs() == build_redirects(
                redirect@.map_values(|r: Redirect| r@),
                result.ids(),
            ),
    {
        Self { inner: PageMap::new_with_progress(pages, redirect, progress) }
    }

    /// The id stored for a title, if any.
    pub fn name_to_id(&self, name: &str) -> (result: Option<i32>)
        ensures
            match result {
                Some(id) => self.ids().dom().contains(name@) && id == self.ids()[name@],
                None => !self.ids().dom().contains(name@),
            },
    {
        self.inner.name_to_id(name)
    }

    /// The title stored for an id, if any.
    pub fn id_to_name(&self, id: i32) -> (result: Option<&str>)
        ensures
            match result {
                Some(title) => self.names().dom().contains(id) && title@ == self.names()[id],
                None => !self.names().dom().contains(id),
            },
    {
        self.inner.id_to_name(id)
    }

    /// The redirect target stored for an id, if any.
    pub fn id_to_redirect(&self, id: i32) -> (result: Option<i32>)
        ensures
            match result {
                Some(to) => self.redirs().dom().contains(id) && to == self.redirs()[id],
                None => !self.redirs().dom().contains(id),
            },
    {
        self.inner.id_to_redirect(id)
    }

    /// Looks a title up without following redirects.
    pub fn lookup_title(&self, title: &str) -> (result: Option<PageLookupResult>)
        ensures
            match result {
                Some(r) => self.spec_lookup_title(title@) == Some(r@),
                None => self.spec_lookup_title(title@) is None,
            },
    {
        match self.inner.lookup_title(title) {
            Some(r) => Some(PageLookupResult { id: r.id, title: r.title, redirect: r.redirect }),
            None => None,
        }
    }

    /// Looks an id up without following redirects.
    pub fn lookup_id(&self, id: i32) -> (result: Option<PageLookupResult>)
        ensures
            match result {
                Some(r) => self.spec_lookup_id(id) == Some(r@),
                None => self.spec_lookup_id(id) is None,
            },
    {
        match self.inner.lookup_id(id) {
            Some(r) => Some(PageLookupResult { id: r.id, title: r.title, redirect: r.redirect }),
            None => None,
        }
    }

    /// Looks a title up and follows the redirect chain to its final,
    /// non-redirect page; a cyclic chain answers `None`.
    pub fn resolve_by_title(&self, title: &str) -> (result: Option<PageLookupResult>)
        ensures
            match result {
                Some(r) => self.spec_resolve(title@) == Some(r@),
                None => self.spec_resolve(title@) is None,
            },
    {
        match self.inner.resolve_by_title(title) {
            Some(r) => Some(PageLookupResult { id: r.id, title: r.title, redirect: r.redirect }),
            None => None,
        }
    }
}

} // verus!
