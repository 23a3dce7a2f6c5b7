//! The page index: id to title, title to id, and id to redirect target,
//! built once from the page and redirect records and read-only thereafter.

use std::collections::VecDeque;
use vstd::prelude::*;
use vstd::hash_map::HashMapWithView;
use vstd::hash_map::StringHashMap;

use crate::indication::ProgressBuilder;
use crate::pages::{Page, PageModel};
use crate::redirects::{Redirect, RedirectModel};

verus! {

broadcast use vstd::std_specs::hash::group_hash_axioms, vstd::hash_map::group_hash_map_axioms;

/// The id-to-title map that a sequence of page records builds: every record
/// inserts its id, a later record with the same id winning.
pub open spec fn build_names(pages: Seq<PageModel>) -> Map<i32, Seq<char>>
    decreases pages.len(),
{
    if pages.len() == 0 {
        Map::empty()
    } else {
        build_names(pages.drop_last()).insert(pages.last().id, pages.last().title)
    }
}

/// The title-to-id map that a sequence of page records builds: every record
/// inserts its title, a later record with the same title winning.
pub open spec fn build_ids(pages: Seq<PageModel>) -> Map<Seq<char>, i32>
    decreases pages.len(),
{
    if pages.len() == 0 {
        Map::empty()
    } else {
        build_ids(pages.drop_last()).insert(pages.last().title, pages.last().id)
    }
}

/// The id-to-redirect-target map that a sequence of redirect records builds
/// against a fixed title-to-id map: a redirect whose target title has no
/// entry there is dropped silently.
pub open spec fn build_redirects(redirects: Seq<RedirectModel>, ids: Map<Seq<char>, i32>) -> Map<
    i32,
    i32,
>
    decreases redirects.len(),
{
    if redirects.len() == 0 {
        Map::empty()
    } else {
        let m = build_redirects(redirects.drop_last(), ids);
        let r = redirects.last();
        if ids.dom().contains(r.title) {
            m.insert(r.id, ids[r.title])
        } else {
            m
        }
    }
}

/// Repeatedly follows the redirect map from `id` until an id has no entry
/// there, giving up (`None`) once `fuel` hops have been taken. An acyclic
/// chain of any length is fully followed when `fuel` is at least the map's
/// size; only a cyclic chain can exhaust it.
pub open spec fn follow_redirects(redirects: Map<i32, i32>, id: i32, fuel: nat) -> Option<i32>
    decreases fuel,
{
    if !redirects.dom().contains(id) {
        Some(id)
    } else if fuel == 0 {
        None
    } else {
        follow_redirects(redirects, redirects[id], (fuel - 1) as nat)
    }
}

/// The answer to a title or id lookup: the page's id, its title, and the id
/// its redirect points at when the page is a redirect.
#[derive(Debug, PartialEq)]
pub struct PageMapResult {
    pub id: i32,
    pub title: String,
    pub redirect: Option<i32>,
}

/// The mathematical content of a `PageMapResult`.
pub struct PageMapResultModel {
    pub id: i32,
    pub title: Seq<char>,
    pub redirect: Option<i32>,
}

impl View for PageMapResult {
    type V = PageMapResultModel;

    open spec fn view(&self) -> PageMapResultModel {
        PageMapResultModel { id: self.id, title: self.title@, redirect: self.redirect }
    }
}

/// The page index. Its three maps are exactly what `build_names`,
/// `build_ids` and `build_redirects` give on the records it was built from;
/// the records themselves are retained so a snapshot can store them.
pub struct PageMap {
    /// The page records the index was built from.
    pages: Vec<Page>,
    /// The redirect records the index was built from.
    redirects: Vec<Redirect>,
    /// Page id to title.
    id_to_name: HashMapWithView<i32, String>,
    /// Title to page id.
    name_to_id: StringHashMap<i32>,
    /// Redirecting page id to the id its target title resolves to.
    id_to_redirect: HashMapWithView<i32, i32>,
}

impl PageMap {
    /// Page id to title.
    pub closed spec fn names(&self) -> Map<i32, Seq<char>> {
        self.id_to_name@.map_values(|s: String| s@)
    }

    /// Title to page id.
    pub closed spec fn ids(&self) -> Map<Seq<char>, i32> {
        self.name_to_id@
    }

    /// Redirecting page id to the id of its target.
    pub closed spec fn redirs(&self) -> Map<i32, i32> {
        self.id_to_redirect@
    }

    /// The page records the index was built from.
    pub closed spec fn page_records(&self) -> Seq<PageModel> {
        self.pages@.map_values(|p: Page| p@)
    }

    /// The redirect records the index was built from.
    pub closed spec fn redirect_records(&self) -> Seq<RedirectModel> {
        self.redirects@.map_values(|r: Redirect| r@)
    }

    /// Every page index is the one its records build; in particular every id
    /// the title map or the redirect map points at has a title, so chains
    /// never leave the index (the dump may reference pages outside the
    /// captured namespace, but those were dropped while building).
    #[verifier::type_invariant]
    pub closed spec fn wf(&self) -> bool {
        &&& self.names() == build_names(self.page_records())
        &&& self.ids() == build_ids(self.page_records())
        &&& self.redirs() == build_redirects(self.redirect_records(), self.ids())
        &&& self.names().dom().finite()
        &&& self.redirs().dom().finite()
        &&& forall|t: Seq<char>| #[trigger]
            self.ids().dom().contains(t) ==> self.names().dom().contains(self.ids()[t])
        &&& forall|k: i32| #[trigger]
            self.redirs().dom().contains(k) ==> self.names().dom().contains(self.redirs()[k])
    }

    /// What a title lookup answers: the title's id and, when that id is a
    /// redirect, the target id recorded for it.
    pub open spec fn spec_lookup_title(&self, title: Seq<char>) -> Option<PageMapResultModel> {
        if self.ids().dom().contains(title) {
            let id = self.ids()[title];
            Some(
                PageMapResultModel {
                    id,
                    title,
                    redirect: if self.redirs().dom().contains(id) {
                        Some(self.redirs()[id])
                    } else {
                        None
                    },
                },
            )
        } else {
            None
        }
    }

    /// What an id lookup answers: the id's title and, when the id is a
    /// redirect, the target id recorded for it.
    pub open spec fn spec_lookup_id(&self, id: i32) -> Option<PageMapResultModel> {
        if self.names().dom().contains(id) {
            Some(
                PageMapResultModel {
                    id,
                    title: self.names()[id],
                    redirect: if self.redirs().dom().contains(id) {
                        Some(self.redirs()[id])
                    } else {
                        None
                    },
                },
            )
        } else {
            None
        }
    }

    /// What resolving a title answers: the final page of the redirect chain
    /// starting at the title's id, or nothing when the title is unknown or
    /// the chain is cyclic. When the title's own page is not a redirect the
    /// answer keeps the queried title; otherwise it carries the final page's
    /// stored title. The hop budget is the redirect map's size, which every
    /// acyclic chain fits in.
    pub open spec fn spec_resolve(&self, title: Seq<char>) -> Option<PageMapResultModel> {
        if self.ids().dom().contains(title) {
            let id = self.ids()[title];
            match follow_redirects(self.redirs(), id, self.redirs().dom().len()) {
                Some(f) => Some(
                    PageMapResultModel {
                        id: f,
                        title: if f == id {
                            title
                        } else {
                            self.names()[f]
                        },
                        redirect: None,
                    },
                ),
                None => None,
            }
        } else {
            None
        }
    }

    fn new_internal(pages: VecDeque<Page>, redirect: VecDeque<Redirect>, _progress: ProgressBuilder)
        -> (result: Self)
        ensures
            result.page_records() == pages@.map_values(|p: Page| p@),
            result.redirect_records() == redirect@.map_values(|r: Redirect| r@),
            result.names() == build_names(pages@.map_values(|p: Page| p@)),
            result.ids() == build_ids(pages@.map_values(|p: Page| p@)),
            result.redirs() == build_redirects(
                redirect@.map_values(|r: Redirect| r@),
                result.ids(),
            ),
    {
        let ghost pmodels = pages@.map_values(|p: Page| p@);
        let ghost rmodels = redirect@.map_values(|r: Redirect| r@);

        let mut page_list: Vec<Page> = Vec::new();
        let mut redirect_list: Vec<Redirect> = Vec::new();
        let mut id_to_name: HashMapWithView<i32, String> = HashMapWithView::new();
        let mut name_to_id: StringHashMap<i32> = StringHashMap::new();
        let mut id_to_redirect: HashMapWithView<i32, i32> = HashMapWithView::new();

        let np = pages.len();
        for i in 0..np
            invariant
                np == pages@.len(),
                pmodels == pages@.map_values(|p: Page| p@),
                page_list@.map_values(|p: Page| p@) =~= pmodels.take(i as int),
                id_to_name@.map_values(|s: String| s@) == build_names(pmodels.take(i as int)),
                name_to_id@ == build_ids(pmodels.take(i as int)),
        {
            let page = &pages[i];
            id_to_name.insert(page.id, page.title.clone());
            name_to_id.insert(page.title.clone(), page.id);
            page_list.push(Page { id: page.id, title: page.title.clone(), redirect: page.redirect });
            proof {
                assert(pmodels.take(i + 1).drop_last() =~= pmodels.take(i as int));
                assert(pmodels.take(i + 1).last() == pmodels[i as int]);
                assert(id_to_name@.map_values(|s: String| s@) =~= build_names(
                    pmodels.take(i + 1),
                ));
            }
        }
        proof {
            assert(pmodels.take(np as int) =~= pmodels);
        }

        let nr = redirect.len();
        for i in 0..nr
            invariant
                nr == redirect@.len(),
                rmodels == redirect@.map_values(|r: Redirect| r@),
                name_to_id@ == build_ids(pmodels),
                redirect_list@.map_values(|r: Redirect| r@) =~= rmodels.take(i as int),
                id_to_redirect@ == build_redirects(rmodels.take(i as int), name_to_id@),
        {
            let redir = &redirect[i];
            match name_to_id.get(redir.title.as_str()) {
                Some(to) => {
                    let to = *to;
                    id_to_redirect.insert(redir.id, to);
                },
                None => {},
            }
            redirect_list.push(Redirect { id: redir.id, title: redir.title.clone() });
            proof {
                assert(rmodels.take(i + 1).drop_last() =~= rmodels.take(i as int));
                assert(rmodels.take(i + 1).last() == rmodels[i as int]);
            }
        }
        proof {
            assert(rmodels.take(nr as int) =~= rmodels);
        }

        proof {
            lemma_build_names_finite(pmodels);
            lemma_build_redirects_finite(rmodels, name_to_id@);
            lemma_build_ids_in_names(pmodels);
            lemma_build_redirect_targets_in_names(rmodels, pmodels);
        }
        PageMap { pages: page_list, redirects: redirect_list, id_to_name, name_to_id, id_to_redirect }
    }

    /// Builds the page index in one pass: every page's id and title go into
    /// both directional maps, then every redirect whose target title is
    /// known is recorded; the rest are dropped silently.
    pub fn new_with_progress(
        pages: VecDeque<Page>,
        redirect: VecDeque<Redirect>,
        progress: ProgressBuilder,
    ) -> (result: Self)
        ensures
            result.page_records() == pages@.map_values(|p: Page| p@),
            result.redirect_records() == redirect@.map_values(|r: Redirect| r@),
            result.names() == build_names(pages@.map_values(|p: Page| p@)),
            result.ids() == build_ids(pages@.map_values(|p: Page| p@)),
            result.redirs() == build_redirects(
                redirect@.map_values(|r: Redirect| r@),
                result.ids(),
            ),
    {
        Self::new_internal(pages, redirect, progress)
    }

    /// The page records the index was built from.
    pub fn pages_vec(&self) -> (result: &Vec<Page>)
        ensures
            result@.map_values(|p: Page| p@) == self.page_records(),
    {
        &self.pages
    }

    /// The redirect records the index was built from.
    pub fn redirects_vec(&self) -> (result: &Vec<Redirect>)
        ensures
            result@.map_values(|r: Redirect| r@) == self.redirect_records(),
    {
        &self.redirects
    }

    /// The id stored for a title, if any.
    pub fn name_to_id(&self, name: &str) -> (result: Option<i32>)
        ensures
            match result {
                Some(id) => self.ids().dom().contains(name@) && id == self.ids()[name@],
                None => !self.ids().dom().contains(name@),
            },
    {
        match self.name_to_id.get(name) {
            Some(id) => Some(*id),
            None => None,
        }
    }

    /// The title stored for an id, if any.
    pub fn id_to_name(&self, id: i32) -> (result: Option<&str>)
        ensures
            match result {
                Some(title) => self.names().dom().contains(id) && title@ == self.names()[id],
                None => !self.names().dom().contains(id),
            },
    {
        match self.id_to_name.get(&id) {
            Some(title) => Some(title.as_str()),
            None => None,
        }
    }

    /// The redirect target stored for an id, if any; ids that are not
    /// redirects have none.
    pub fn id_to_redirect(&self, id: i32) -> (result: Option<i32>)
        ensures
            match result {
                Some(to) => self.redirs().dom().contains(id) && to == self.redirs()[id],
                None => !self.redirs().dom().contains(id),
            },
    {
        match self.id_to_redirect.get(&id) {
            Some(to) => Some(*to),
            None => None,
        }
    }

    /// Looks a title up without following redirects.
    pub fn lookup_title(&self, title: &str) -> (result: Option<PageMapResult>)
        ensures
            match result {
                Some(r) => self.spec_lookup_title(title@) == Some(r@),
                None => self.spec_lookup_title(title@) is None,
            },
    {
        let id = match self.name_to_id(title) {
            Some(id) => id,
            None => return None,
        };
        let redirect = self.id_to_redirect(id);
        Some(PageMapResult { id, title: title.to_owned(), redirect })
    }

    /// Looks an id up without following redirects.
    pub fn lookup_id(&self, id: i32) -> (result: Option<PageMapResult>)
        ensures
            match result {
                Some(r) => self.spec_lookup_id(id) == Some(r@),
                None => self.spec_lookup_id(id) is None,
            },
    {
        let title = match self.id_to_name(id) {
            Some(title) => title.to_owned(),
            None => return None,
        };
        let redirect = self.id_to_redirect(id);
        Some(PageMapResult { id, title, redirect })
    }

    /// Looks a title up and follows the redirect chain to its final,
    /// non-redirect page. A chain longer than the redirect map's size must
    /// be cyclic and answers `None` instead of looping forever.
    pub fn resolve_by_title(&self, title: &str) -> (result: Option<PageMapResult>)
        ensures
            match result {
                Some(r) => self.spec_resolve(title@) == Some(r@),
                None => self.spec_resolve(title@) is None,
            },
    {
        proof {
            use_type_invariant(self);
        }
        let mut page = match self.lookup_title(title) {
            Some(p) => p,
            None => return None,
        };
        let ghost fuel0 = self.redirs().dom().len();
        let ghost id0 = self.ids()[title@];
        let ghost mut hopped: bool = false;
        let mut fuel: usize = self.id_to_redirect.len();
        loop
            invariant
                self.wf(),
                fuel <= fuel0,
                fuel0 == self.redirs().dom().len(),
                self.ids().dom().contains(title@),
                id0 == self.ids()[title@],
                self.names().dom().contains(page.id),
                if hopped {
                    self.redirs().dom().contains(id0) && page@.title == self.names()[page.id]
                } else {
                    page.id == id0 && page@.title == title@
                },
                page@.redirect == (if self.redirs().dom().contains(page.id) {
                    Some(self.redirs()[page.id])
                } else {
                    None::<i32>
                }),
                follow_redirects(self.redirs(), page.id, fuel as nat) == follow_redirects(
                    self.redirs(),
                    id0,
                    fuel0,
                ),
            decreases fuel,
        {
            match page.redirect {
                None => {
                    return Some(page);
                },
                Some(target) => {
                    if fuel == 0 {
                        return None;
                    }
                    fuel = fuel - 1;
                    proof {
                        hopped = true;
                    }
                    page = match self.lookup_id(target) {
                        Some(p) => p,
                        None => {
                            proof {
                                assert(self.names().dom().contains(target));
                            }
                            return None;
                        },
                    };
                },
            }
        }
    }
}

/// A free-text page name as the index stores titles: spaces become
/// underscores, character by character.
pub open spec fn normalize_spec(s: Seq<char>) -> Seq<char> {
    s.map_values(
        |c: char|
            if c == ' ' {
                '_'
            } else {
                c
            },
    )
}

/// Normalizes a free-text page name to the form titles are stored in.
pub fn normalize_title(s: &str) -> (result: String)
    ensures
        result@ == normalize_spec(s@),
{
    let chars = crate::data::parsers::common::str_chars(s);
    let mut out: Vec<char> = Vec::new();
    let mut i: usize = 0;
    while i < chars.len()
        invariant
            chars@ == s@,
            i <= chars@.len(),
            out@ =~= normalize_spec(s@.take(i as int)),
        decreases chars@.len() - i,
    {
        let c = chars[i];
        if c == ' ' {
            out.push('_');
        } else {
            out.push(c);
        }
        proof {
            assert(s@.take(i + 1) =~= s@.take(i as int).push(s@[i as int]));
            assert(normalize_spec(s@.take(i + 1)) =~= normalize_spec(s@.take(i as int)).push(
                if s@[i as int] == ' ' {
                    '_'
                } else {
                    s@[i as int]
                },
            ));
        }
        i = i + 1;
    }
    proof {
        assert(s@.take(chars@.len() as int) =~= s@);
    }
    crate::data::parsers::common::chars_to_string(&out)
}

/// Following the redirect map along an explicit chain reaches the chain's
/// last element whenever the fuel covers the chain's hops.
proof fn lemma_follow_chain(redirects: Map<i32, i32>, chain: Seq<i32>, fuel: nat)
    requires
        chain.len() >= 1,
        fuel >= chain.len() - 1,
        forall|i: int|
            0 <= i < chain.len() - 1 ==> #[trigger] redirects.dom().contains(chain[i])
                && redirects[chain[i]] == chain[i + 1],
        !redirects.dom().contains(chain.last()),
    ensures
        follow_redirects(redirects, chain[0], fuel) == Some(chain.last()),
    decreases chain.len(),
{
    if chain.len() > 1 {
        let rest = chain.drop_first();
        assert forall|i: int|
            0 <= i < rest.len() - 1 implies #[trigger] redirects.dom().contains(rest[i])
            && redirects[rest[i]] == rest[i + 1] by {
            assert(rest[i] == chain[i + 1]);
            assert(rest[i + 1] == chain[i + 2]);
        }
        assert(rest.last() == chain.last());
        lemma_follow_chain(redirects, rest, (fuel - 1) as nat);
        assert(follow_redirects(redirects, chain[0], fuel) == follow_redirects(
            redirects,
            chain[1],
            (fuel - 1) as nat,
        ));
    }
}

/// Law: resolving the title of a non-redirect page answers that page itself,
/// with no redirect left to follow. The page's title must map back to the
/// page (two pages sharing one title would shadow each other).
pub proof fn lemma_resolve_non_redirect(pm: &PageMap, p: i32)
    requires
        pm.wf(),
        pm.names().dom().contains(p),
        pm.ids().dom().contains(pm.names()[p]),
        pm.ids()[pm.names()[p]] == p,
        !pm.redirs().dom().contains(p),
    ensures
        pm.spec_resolve(pm.names()[p]) == Some(
            PageMapResultModel { id: p, title: pm.names()[p], redirect: None::<i32> },
        ),
{
    assert(follow_redirects(pm.redirs(), p, pm.redirs().dom().len()) == Some(p));
}

/// Law: resolving a title whose page starts an acyclic redirect chain
/// answers the chain's final, non-redirect page, whatever the chain's
/// length.
pub proof fn lemma_resolve_follows_chain(pm: &PageMap, title: Seq<char>, chain: Seq<i32>)
    requires
        pm.wf(),
        chain.len() >= 1,
        chain.no_duplicates(),
        pm.ids().dom().contains(title),
        pm.ids()[title] == chain[0],
        forall|i: int|
            0 <= i < chain.len() - 1 ==> #[trigger] pm.redirs().dom().contains(chain[i])
                && pm.redirs()[chain[i]] == chain[i + 1],
        !pm.redirs().dom().contains(chain.last()),
    ensures
        pm.spec_resolve(title) == Some(
            PageMapResultModel {
                id: chain.last(),
                title: if chain.len() == 1 {
                    title
                } else {
                    pm.names()[chain.last()]
                },
                redirect: None::<i32>,
            },
        ),
{
    let heads = chain.drop_last();
    assert forall|i: int, j: int| 0 <= i < j < heads.len() implies heads[i] != heads[j] by {
        assert(chain[i] != chain[j]);
    }
    heads.unique_seq_to_set();
    assert(heads.to_set().subset_of(pm.redirs().dom())) by {
        assert forall|x: i32| heads.to_set().contains(x) implies pm.redirs().dom().contains(
            x,
        ) by {
            let i = choose|i: int| 0 <= i < heads.len() && heads[i] == x;
            assert(pm.redirs().dom().contains(chain[i]));
        }
    }
    vstd::set_lib::lemma_len_subset(heads.to_set(), pm.redirs().dom());
    lemma_follow_chain(pm.redirs(), chain, pm.redirs().dom().len());
    if chain.len() > 1 {
        assert(chain.last() != chain[0]);
    }
}

/// Law: a dangling redirect (target title not present in the title map) is
/// absent from the id-to-redirect map; every recorded entry comes from a
/// redirect record whose target title was found.
pub proof fn lemma_no_dangling_redirects(
    redirects: Seq<RedirectModel>,
    ids: Map<Seq<char>, i32>,
    k: i32,
)
    requires
        build_redirects(redirects, ids).dom().contains(k),
    ensures
        exists|i: int|
            0 <= i < redirects.len() && (#[trigger] redirects[i]).id == k && ids.dom().contains(
                redirects[i].title,
            ),
    decreases redirects.len(),
{
    let r = redirects.last();
    if ids.dom().contains(r.title) && k == r.id {
        assert(0 <= redirects.len() - 1 < redirects.len() && redirects[redirects.len() - 1].id == k
            && ids.dom().contains(redirects[redirects.len() - 1].title));
    } else {
        lemma_no_dangling_redirects(redirects.drop_last(), ids, k);
        let i = choose|i: int|
            0 <= i < redirects.drop_last().len() && (#[trigger] redirects.drop_last()[i]).id == k
                && ids.dom().contains(redirects.drop_last()[i].title);
        assert(redirects[i].id == k && ids.dom().contains(redirects[i].title));
    }
}

/// The map `build_names` gives has a finite domain.
proof fn lemma_build_names_finite(pages: Seq<PageModel>)
    ensures
        build_names(pages).dom().finite(),
    decreases pages.len(),
{
    if pages.len() > 0 {
        lemma_build_names_finite(pages.drop_last());
    }
}

/// The map `build_redirects` gives has a finite domain.
proof fn lemma_build_redirects_finite(redirects: Seq<RedirectModel>, ids: Map<Seq<char>, i32>)
    ensures
        build_redirects(redirects, ids).dom().finite(),
    decreases redirects.len(),
{
    if redirects.len() > 0 {
        lemma_build_redirects_finite(redirects.drop_last(), ids);
    }
}

/// Every id the title map points at has a title: pages insert into both
/// directional maps together, and titles are never removed.
proof fn lemma_build_ids_in_names(pages: Seq<PageModel>)
    ensures
        forall|t: Seq<char>| #[trigger]
            build_ids(pages).dom().contains(t) ==> build_names(pages).dom().contains(
                build_ids(pages)[t],
            ),
    decreases pages.len(),
{
    if pages.len() > 0 {
        let prev = pages.drop_last();
        let p = pages.last();
        lemma_build_ids_in_names(prev);
        assert forall|t: Seq<char>| #[trigger]
            build_ids(pages).dom().contains(t) implies build_names(pages).dom().contains(
            build_ids(pages)[t],
        ) by {
            if t != p.title {
                assert(build_ids(prev).dom().contains(t));
                assert(build_ids(pages)[t] == build_ids(prev)[t]);
                assert(build_names(prev).dom().contains(build_ids(prev)[t]));
            }
        }
    }
}

/// Every redirect target recorded by `build_redirects` against the title
/// map of some pages has a title among those pages.
proof fn lemma_build_redirect_targets_in_names(redirects: Seq<RedirectModel>, pages: Seq<PageModel>)
    ensures
        forall|k: i32| #[trigger]
            build_redirects(redirects, build_ids(pages)).dom().contains(k)
                ==> build_names(pages).dom().contains(
                build_redirects(redirects, build_ids(pages))[k],
            ),
    decreases redirects.len(),
{
    lemma_build_ids_in_names(pages);
    if redirects.len() > 0 {
        let prev = redirects.drop_last();
        let r = redirects.last();
        let ids = build_ids(pages);
        lemma_build_redirect_targets_in_names(prev, pages);
        assert forall|k: i32| #[trigger]
            build_redirects(redirects, ids).dom().contains(k) implies build_names(
            pages,
        ).dom().contains(build_redirects(redirects, ids)[k]) by {
            if ids.dom().contains(r.title) && k == r.id {
                assert(build_redirects(redirects, ids)[k] == ids[r.title]);
            } else {
                assert(build_redirects(prev, ids).dom().contains(k));
                assert(build_redirects(redirects, ids)[k] == build_redirects(prev, ids)[k]);
            }
        }
    }
}

} // verus!
