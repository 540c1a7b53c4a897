//! A directory classified as a section, and the site-wide section table.
//!
//! A [`Section`] combines a traversal entry with the parse of its own index
//! file: the child lists are carried over verbatim, the title comes from the
//! index's front matter with the directory name as fallback, and the index
//! page itself is assembled like any page. A section whose child lists are
//! missing from the traversal is a [`Error::DanglingReference`] — an internal
//! defect the traversal's own invariant rules out.

use crate::error::Error;
use crate::page::{page_of, Page, PageV};
use crate::parse::{parse_post, Parse};
use crate::sitemap::{SectionSource, SectionSrcV, SiteMap, SiteMapV};
use crate::uri::{clone_uris, Segs, Uri};
use crate::urimap::UriMap;
use vstd::prelude::*;

verus! {

/// One section, ready for rendering.
pub struct Section {
    pub uri: Uri,
    pub title: String,
    pub index: Option<Page>,
    pub subsections: Vec<Uri>,
    pub pages: Vec<Uri>,
    pub extra: Vec<(String, serde_yaml::Value)>,
}

/// The mathematical shape of a [`Section`].
pub ghost struct SectionV {
    pub uri: Segs,
    pub title: Seq<char>,
    pub index: Option<PageV>,
    pub subsections: Seq<Segs>,
    pub pages: Seq<Segs>,
    pub extra: Seq<(String, serde_yaml::Value)>,
}

impl DeepView for Section {
    type V = SectionV;

    open spec fn deep_view(&self) -> SectionV {
        SectionV {
            uri: self.uri@,
            title: self.title@,
            index: self.index.deep_view(),
            subsections: self.subsections.deep_view(),
            pages: self.pages.deep_view(),
            extra: self.extra@,
        }
    }
}

/// How a section's own fields relate to the parse of its index text: the
/// title comes from the front matter with `name` as fallback, the extras are
/// the front matter's extras, and the index page is assembled from the same
/// text with `index` as the title of last resort.
pub open spec fn section_fields_of(text: Seq<char>, name: Seq<char>, u: Segs, s: SectionV) -> bool {
    &&& exists|p: Parse|
        #![auto]
        parse_post(text, p) && s.title == (match p.title {
            Some(t) => t@,
            None => name,
        }) && s.extra == p.extra@
    &&& exists|ip: Parse|
        #![auto]
        parse_post(text, ip) && (s.index matches Some(pg) && page_of(u, u, "index"@, ip, pg))
}

/// How a section relates to the traversal and to the parse of its index
/// file: the child lists are the traversal's, the title falls back to the
/// directory name, and a missing index yields defaults rather than an error.
pub open spec fn section_post(m: SiteMapV, u: Segs, srcv: SectionSrcV, s: SectionV) -> bool {
    &&& s.uri == u
    &&& m.subsections.dom().contains(u)
    &&& m.subpages.dom().contains(u)
    &&& s.subsections == m.subsections[u]
    &&& s.pages == m.subpages[u]
    &&& match srcv.index_text {
        Some(text) => section_fields_of(text, srcv.name, u, s),
        None => s.title == srcv.name && s.extra.len() == 0 && s.index is None,
    }
}

impl Section {
    /// Combines the traversal's entry for `uri` with the parse of its index
    /// file. Succeeds exactly when both child lists of `uri` are recorded;
    /// otherwise fails with [`Error::DanglingReference`].
    pub fn new(sitemap: &SiteMap, uri: Uri, src: &SectionSource) -> (r: Result<Section, Error>)
        requires
            sitemap.wf(),
        ensures
            r is Ok <==> sitemap@.subsections.dom().contains(uri@)
                && sitemap@.subpages.dom().contains(uri@),
            r matches Ok(s) ==> section_post(sitemap@, uri@, src.deep_view(), s.deep_view()),
            r matches Err(e) ==> e is DanglingReference,
    {
        let subsections = match sitemap.subsections.get(&uri) {
            Some(v) => clone_uris(v),
            None => {
                return Err(Error::DanglingReference(uri.canonical_string()));
            },
        };
        let pages = match sitemap.subpages.get(&uri) {
            Some(v) => clone_uris(v),
            None => {
                return Err(Error::DanglingReference(uri.canonical_string()));
            },
        };
        match &src.index_text {
            Some(text) => {
                let p = Parse::from_str(text.as_str());
                let title = match &p.title {
                    Some(t) => t.clone(),
                    None => src.name.clone(),
                };
                let ip = Parse::from_str(text.as_str());
                let ghost uv = uri@;
                let page = Page::from_parse(uri.clone(), uri.clone(), "index", ip);
                let s = Section {
                    uri,
                    title,
                    index: Some(page),
                    subsections,
                    pages,
                    extra: p.extra,
                };
                proof {
                    assert(src.deep_view().index_text == Some(text@));
                    assert(s.deep_view().index matches Some(pg) && page_of(
                        uv,
                        uv,
                        "index"@,
                        ip,
                        pg,
                    ));
                    assert(parse_post(text@, p) && parse_post(text@, ip));
                    assert(s.deep_view().title == (match p.title {
                        Some(t) => t@,
                        None => src.deep_view().name,
                    }));
                    assert(s.deep_view().extra == p.extra@);
                    assert(exists|q: Parse|
                        #![auto]
                        parse_post(text@, q) && s.deep_view().title == (match q.title {
                            Some(t) => t@,
                            None => src.deep_view().name,
                        }) && s.deep_view().extra == q.extra@);
                    assert(exists|iq: Parse|
                        #![auto]
                        parse_post(text@, iq) && (s.deep_view().index matches Some(pg) && page_of(
                            uv,
                            uv,
                            "index"@,
                            iq,
                            pg,
                        )));
                    assert(section_fields_of(text@, src.deep_view().name, uv, s.deep_view()));
                    assert(section_post(sitemap@, uv, src.deep_view(), s.deep_view()));
                }
                Ok(s)
            },
            None => {
                let ghost uv = uri@;
                let title = src.name.clone();
                let s = Section {
                    uri,
                    title,
                    index: None,
                    subsections,
                    pages,
                    extra: Vec::new(),
                };
                proof {
                    assert(section_post(sitemap@, uv, src.deep_view(), s.deep_view()));
                }
                Ok(s)
            },
        }
    }
}

/// Every section has both of its child lists recorded.
pub open spec fn sections_covered(m: SiteMapV) -> bool {
    forall|k: Segs| #[trigger]
        m.sections.dom().contains(k) ==> m.subsections.dom().contains(k)
            && m.subpages.dom().contains(k)
}

/// What the section table binds `k` to: the section assembled from `k`'s
/// traversal entry.
pub open spec fn good_section(m: SiteMapV, k: Segs, s: SectionV) -> bool {
    m.sections.dom().contains(k) && section_post(m, k, m.sections[k], s)
}

/// The site-wide section table, keyed by identifier.
pub struct SectionMap(pub UriMap<Section>);

impl SectionMap {
    /// Assembles one section per traversal entry. Succeeds exactly when
    /// every section has both child lists recorded; otherwise fails with
    /// [`Error::DanglingReference`].
    pub fn new(sitemap: &SiteMap) -> (r: Result<SectionMap, Error>)
        requires
            sitemap.wf(),
        ensures
            r is Ok <==> sections_covered(sitemap@),
            r matches Ok(sm) ==> sm.0.wf() && (forall|k: Segs| #[trigger]
                sm.0.as_map().contains_key(k) ==> good_section(sitemap@, k, sm.0.as_map()[k]))
                && (forall|k: Segs| #[trigger]
                sitemap@.sections.dom().contains(k) ==> sm.0.as_map().contains_key(k)),
            r matches Err(e) ==> e is DanglingReference,
    {
        let mut map: UriMap<Section> = UriMap::new();
        let n = sitemap.sections.len();
        let mut j: usize = 0;
        while j < n
            invariant
                sitemap.wf(),
                n == sitemap.sections.entries_seq().len(),
                0 <= j <= n,
                map.wf(),
                forall|k: Segs| #[trigger]
                    map.as_map().contains_key(k) ==> good_section(sitemap@, k, map.as_map()[k]),
                forall|jj: int|
                    0 <= jj < j ==> map.as_map().contains_key(
                        (#[trigger] sitemap.sections.entries_seq()[jj]).0@,
                    ),
            decreases n - j,
        {
            let entry = sitemap.sections.entry_at(j);
            let u = &entry.0;
            let src = &entry.1;
            proof {
                sitemap.sections.lemma_entries_in_map();
                assert(sitemap@.sections.contains_key(u@));
                assert(sitemap@.sections[u@] == src.deep_view());
            }
            let ghost mpre = map.as_map();
            match Section::new(sitemap, u.clone(), src) {
                Ok(s) => {
                    proof {
                        assert(good_section(sitemap@, u@, s.deep_view()));
                    }
                    map.insert(u.clone(), s);
                    proof {
                        assert forall|k: Segs| #[trigger]
                            map.as_map().contains_key(k) implies good_section(
                            sitemap@,
                            k,
                            map.as_map()[k],
                        ) by {
                            if k != u@ {
                                assert(mpre.contains_key(k) && map.as_map()[k] == mpre[k]);
                            }
                        }
                    }
                },
                Err(e) => {
                    proof {
                        assert(!sections_covered(sitemap@));
                    }
                    return Err(e);
                },
            }
            j = j + 1;
        }
        proof {
            sitemap.sections.lemma_entries_in_map();
            assert forall|k: Segs| #[trigger]
                sitemap@.sections.dom().contains(k) implies map.as_map().contains_key(k) by {
                let jj = choose|jj: int|
                    0 <= jj < sitemap.sections.entries_seq().len() && (
                    #[trigger] sitemap.sections.entries_seq()[jj]).0@ == k
                        && sitemap@.sections[k]
                        == sitemap.sections.entries_seq()[jj].1.deep_view();
            }
            assert(sections_covered(sitemap@)) by {
                assert forall|k: Segs| #[trigger]
                    sitemap@.sections.dom().contains(k) implies sitemap@.subsections.dom().contains(
                    k,
                ) && sitemap@.subpages.dom().contains(k) by {
                    assert(map.as_map().contains_key(k));
                    assert(good_section(sitemap@, k, map.as_map()[k]));
                }
            }
        }
        Ok(SectionMap(map))
    }
}

} // verus!
