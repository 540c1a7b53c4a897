//! One content file resolved to an identifier, and the site-wide page table.
//!
//! A [`Page`] combines a traversal entry with the parsed front matter and
//! rendered body of its source file. [`PageMap::new`] assembles one page per
//! entry of the traversal's `subpages` lists, each owned by the section whose
//! list names it; an identifier listed without a page source is a
//! [`Error::DanglingReference`] — an internal defect the traversal's own
//! invariant rules out.

use crate::error::Error;
use crate::parse::{parse_post, Parse};
use crate::sitemap::{PageSrcV, SiteMap, SiteMapV};
use crate::uri::{segs_wf, Segs, Uri};
use crate::urimap::UriMap;
use vstd::prelude::*;

verus! {

/// One content file, ready for rendering.
pub struct Page {
    pub uri: Uri,
    pub section: Uri,
    pub title: String,
    pub author: Option<String>,
    pub description: Option<String>,
    pub template: Option<String>,
    pub content: String,
    pub extra: Vec<(String, serde_yaml::Value)>,
}

/// The mathematical shape of a [`Page`].
pub ghost struct PageV {
    pub uri: Segs,
    pub section: Segs,
    pub title: Seq<char>,
    pub author: Option<Seq<char>>,
    pub description: Option<Seq<char>>,
    pub template: Option<Seq<char>>,
    pub content: Seq<char>,
    pub extra: Seq<(String, serde_yaml::Value)>,
}

impl DeepView for Page {
    type V = PageV;

    open spec fn deep_view(&self) -> PageV {
        PageV {
            uri: self.uri@,
            section: self.section@,
            title: self.title@,
            author: self.author.deep_view(),
            description: self.description.deep_view(),
            template: self.template.deep_view(),
            content: self.content@,
            extra: self.extra@,
        }
    }
}

/// How a page relates to the parse of its source: identifiers and body are
/// carried over, the title falls back to the file stem, and the extras are
/// the parse's extras.
pub open spec fn page_of(u: Segs, owner: Segs, fallback: Seq<char>, p: Parse, pg: PageV) -> bool {
    &&& pg.uri == u
    &&& pg.section == owner
    &&& pg.title == (match p.title {
        Some(t) => t@,
        None => fallback,
    })
    &&& pg.author == p.author.deep_view()
    &&& pg.description == p.description.deep_view()
    &&& pg.template == p.template.deep_view()
    &&& pg.content == p.content@
    &&& pg.extra == p.extra@
}

impl Page {
    /// Builds the page for `uri`, owned by `section`, out of an already
    /// parsed source; the title falls back to `fallback` when the front
    /// matter gives none.
    pub fn from_parse(uri: Uri, section: Uri, fallback: &str, parse: Parse) -> (r: Page)
        ensures
            page_of(uri@, section@, fallback@, parse, r.deep_view()),
    {
        let title = match parse.title {
            Some(t) => t,
            None => fallback.to_owned(),
        };
        Page {
            uri,
            section,
            title,
            author: parse.author,
            description: parse.description,
            template: parse.template,
            content: parse.content,
            extra: parse.extra,
        }
    }

    /// Parses the source text and builds the page for `uri`, owned by
    /// `section`, with `fallback` as the title of last resort.
    pub fn new(uri: Uri, section: Uri, fallback: &str, text: &str) -> (r: Page)
        ensures
            exists|p: Parse|
                #![auto]
                parse_post(text@, p) && page_of(uri@, section@, fallback@, p, r.deep_view()),
    {
        let p = Parse::from_str(text);
        let r = Page::from_parse(uri, section, fallback, p);
        proof {
            assert(parse_post(text@, p) && page_of(uri@, section@, fallback@, p, r.deep_view()));
        }
        r
    }
}

/// Every identifier listed under `subpages` has a page source.
pub open spec fn subpages_covered(m: SiteMapV) -> bool {
    forall|k: Segs, i: int|
        m.subpages.dom().contains(k) && 0 <= i < m.subpages[k].len() ==> m.pages.dom().contains(
            #[trigger] m.subpages[k][i],
        )
}

/// What the page table binds `k` to: a page assembled from `k`'s source,
/// owned by a section whose child list names `k`.
pub open spec fn good_page(m: SiteMapV, k: Segs, pg: PageV) -> bool {
    exists|s: Segs, p: Parse|
        #![auto]
        m.subpages.dom().contains(s) && m.subpages[s].contains(k) && m.pages.dom().contains(k)
            && parse_post(m.pages[k].text, p) && page_of(k, s, m.pages[k].stem, p, pg)
}

/// The site-wide page table, keyed by identifier.
pub struct PageMap(pub UriMap<Page>);

impl PageMap {
    /// Assembles one page per identifier listed under `subpages`, owned by
    /// the listing section. Succeeds exactly when every listed identifier has
    /// a page source; otherwise fails with [`Error::DanglingReference`]
    /// naming the first identifier without one.
    pub fn new(sitemap: &SiteMap) -> (r: Result<PageMap, Error>)
        requires
            sitemap.wf(),
            forall|k: Segs| #[trigger] sitemap@.pages.dom().contains(k) ==> segs_wf(k),
        ensures
            r is Ok <==> subpages_covered(sitemap@),
            r matches Ok(pm) ==> pm.0.wf() && (forall|k: Segs| #[trigger]
                pm.0.as_map().contains_key(k) ==> good_page(sitemap@, k, pm.0.as_map()[k])) && (
            forall|s: Segs, i: int|
                sitemap@.subpages.dom().contains(s) && 0 <= i < sitemap@.subpages[s].len()
                    ==> pm.0.as_map().contains_key(#[trigger] sitemap@.subpages[s][i])),
            r matches Err(e) ==> e is DanglingReference,
    {
        let mut map: UriMap<Page> = UriMap::new();
        let n = sitemap.subpages.len();
        proof {
            sitemap.subpages.lemma_entries_in_map();
        }
        let mut j: usize = 0;
        while j < n
            invariant
                sitemap.wf(),
                forall|k: Segs| #[trigger] sitemap@.pages.dom().contains(k) ==> segs_wf(k),
                n == sitemap.subpages.entries_seq().len(),
                0 <= j <= n,
                map.wf(),
                forall|k: Segs| #[trigger]
                    map.as_map().contains_key(k) ==> good_page(sitemap@, k, map.as_map()[k]),
                forall|jj: int, l: int|
                    0 <= jj < j && 0 <= l < sitemap.subpages.entries_seq()[jj].1.deep_view().len()
                        ==> map.as_map().contains_key(
                        #[trigger] sitemap.subpages.entries_seq()[jj].1.deep_view()[l],
                    ),
            decreases n - j,
        {
            let entry = sitemap.subpages.entry_at(j);
            let owner = &entry.0;
            let list = &entry.1;
            proof {
                sitemap.subpages.lemma_entries_in_map();
                assert(sitemap@.subpages.contains_key(owner@));
                assert(sitemap@.subpages[owner@] == list.deep_view());
            }
            let m2 = list.len();
            let mut l: usize = 0;
            while l < m2
                invariant
                    sitemap.wf(),
                    forall|k: Segs| #[trigger] sitemap@.pages.dom().contains(k) ==> segs_wf(k),
                    n == sitemap.subpages.entries_seq().len(),
                    0 <= j < n,
                    *entry == sitemap.subpages.entries_seq()[j as int],
                    owner == &entry.0,
                    list == &entry.1,
                    m2 == list@.len(),
                    0 <= l <= m2,
                    sitemap@.subpages.contains_key(owner@),
                    sitemap@.subpages[owner@] == list.deep_view(),
                    map.wf(),
                    forall|k: Segs| #[trigger]
                        map.as_map().contains_key(k) ==> good_page(sitemap@, k, map.as_map()[k]),
                    forall|jj: int, ll: int|
                        0 <= jj < j && 0 <= ll < sitemap.subpages.entries_seq()[jj].1.deep_view().len()
                            ==> map.as_map().contains_key(
                            #[trigger] sitemap.subpages.entries_seq()[jj].1.deep_view()[ll],
                        ),
                    forall|ll: int|
                        0 <= ll < l ==> map.as_map().contains_key(
                        #[trigger] list.deep_view()[ll],
                    ),
                decreases m2 - l,
            {
                let pu = &list[l];
                proof {
                    assert(list.deep_view()[l as int] == pu@);
                }
                match sitemap.pages.get(pu) {
                    Some(src) => {
                        let ghost mpre = map.as_map();
                        let pg = Page::new(
                            pu.clone(),
                            owner.clone(),
                            src.stem.as_str(),
                            src.text.as_str(),
                        );
                        proof {
                            assert(src.deep_view() == sitemap@.pages[pu@]);
                            assert(exists|p: Parse|
                                #![auto]
                                parse_post(src.text@, p) && page_of(
                                    pu@,
                                    owner@,
                                    src.stem@,
                                    p,
                                    pg.deep_view(),
                                ));
                            let p = choose|p: Parse|
                                #![auto]
                                parse_post(src.text@, p) && page_of(
                                    pu@,
                                    owner@,
                                    src.stem@,
                                    p,
                                    pg.deep_view(),
                                );
                            assert(list.deep_view().contains(pu@)) by {
                                assert(list.deep_view()[l as int] == pu@);
                            }
                            assert(sitemap@.subpages.dom().contains(owner@));
                            assert(sitemap@.subpages[owner@].contains(pu@));
                            assert(sitemap@.pages.dom().contains(pu@));
                            assert(parse_post(sitemap@.pages[pu@].text, p));
                            assert(page_of(pu@, owner@, sitemap@.pages[pu@].stem, p, pg.deep_view()));
                            assert(good_page(sitemap@, pu@, pg.deep_view()));
                        }
                        map.insert(pu.clone(), pg);
                        proof {
                            assert forall|k: Segs| #[trigger]
                                map.as_map().contains_key(k) implies good_page(
                                sitemap@,
                                k,
                                map.as_map()[k],
                            ) by {
                                if k != pu@ {
                                    assert(mpre.contains_key(k) && map.as_map()[k] == mpre[k]);
                                }
                            }
                        }
                    },
                    None => {
                        proof {
                            assert(sitemap@.subpages[owner@][l as int] == pu@);
                            assert(!subpages_covered(sitemap@));
                        }
                        return Err(Error::DanglingReference(pu.canonical_string()));
                    },
                }
                l = l + 1;
            }
            j = j + 1;
        }
        proof {
            assert forall|s: Segs, i: int|
                sitemap@.subpages.dom().contains(s) && 0 <= i < sitemap@.subpages[s].len()
                    implies map.as_map().contains_key(#[trigger] sitemap@.subpages[s][i]) by {
                let jj = choose|jj: int|
                    0 <= jj < sitemap.subpages.entries_seq().len() && (
                    #[trigger] sitemap.subpages.entries_seq()[jj]).0@ == s
                        && sitemap@.subpages[s]
                        == sitemap.subpages.entries_seq()[jj].1.deep_view();
                assert(map.as_map().contains_key(
                    sitemap.subpages.entries_seq()[jj].1.deep_view()[i],
                ));
            }
            assert(subpages_covered(sitemap@)) by {
                assert forall|k: Segs, i: int|
                    sitemap@.subpages.dom().contains(k) && 0 <= i < sitemap@.subpages[k].len()
                        implies sitemap@.pages.dom().contains(
                    #[trigger] sitemap@.subpages[k][i],
                ) by {
                    let kk = sitemap@.subpages[k][i];
                    assert(map.as_map().contains_key(kk));
                    assert(good_page(sitemap@, kk, map.as_map()[kk]));
                }
            }
        }
        Ok(PageMap(map))
    }
}

} // verus!
