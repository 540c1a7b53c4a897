//! The traversal result and the classification algorithm that builds it.
//!
//! Starting at the content root, the builder classifies each directory: one
//! that directly contains `index.md` is a section; any other directory is
//! transparent — its markdown files become pages of the nearest ancestor
//! section and its subdirectories are classified in turn. The result is four
//! identifier-keyed maps: section sources, child sections per section, page
//! sources, and child pages per section.
//!
//! The whole traversal is specified by a recursive ghost mirror
//! ([`build_section_v`] and friends) over the content snapshot; the executable
//! builder returns exactly what the mirror describes, including the exact
//! error on the first illegal name.

use crate::error::Error;
use crate::scan::{
    ext_of, file_name, file_stem, has_extension, has_file, index_text, index_text_of,
    is_section_dir, last_component, path_join, stem_of, str_eq, DirTree, FileEntry,
};
use crate::uri::{is_valid_segment, segs_wf, Segs, Uri};
use crate::urimap::UriMap;
use vstd::prelude::*;

verus! {

/// What the traversal records of one section: its directory name, the
/// directory's source path, and the text of its index file when one exists.
pub struct SectionSource {
    pub name: String,
    pub path: String,
    pub index_text: Option<String>,
}

/// The mathematical shape of a [`SectionSource`].
pub ghost struct SectionSrcV {
    pub name: Seq<char>,
    pub path: Seq<char>,
    pub index_text: Option<Seq<char>>,
}

impl DeepView for SectionSource {
    type V = SectionSrcV;

    open spec fn deep_view(&self) -> SectionSrcV {
        SectionSrcV { name: self.name@, path: self.path@, index_text: self.index_text.deep_view() }
    }
}

/// What the traversal records of one page: its source path, the file stem
/// that named it, and its text.
pub struct PageSource {
    pub path: String,
    pub stem: String,
    pub text: String,
}

/// The mathematical shape of a [`PageSource`].
pub ghost struct PageSrcV {
    pub path: Seq<char>,
    pub stem: Seq<char>,
    pub text: Seq<char>,
}

impl DeepView for PageSource {
    type V = PageSrcV;

    open spec fn deep_view(&self) -> PageSrcV {
        PageSrcV { path: self.path@, stem: self.stem@, text: self.text@ }
    }
}

/// The traversal result: four identifier-keyed maps.
pub struct SiteMap {
    pub sections: UriMap<SectionSource>,
    pub subsections: UriMap<Vec<Uri>>,
    pub pages: UriMap<PageSource>,
    pub subpages: UriMap<Vec<Uri>>,
}

/// The mathematical shape of a [`SiteMap`].
pub ghost struct SiteMapV {
    pub sections: Map<Segs, SectionSrcV>,
    pub subsections: Map<Segs, Seq<Segs>>,
    pub pages: Map<Segs, PageSrcV>,
    pub subpages: Map<Segs, Seq<Segs>>,
}

impl View for SiteMap {
    type V = SiteMapV;

    open spec fn view(&self) -> SiteMapV {
        SiteMapV {
            sections: self.sections.as_map(),
            subsections: self.subsections.as_map(),
            pages: self.pages.as_map(),
            subpages: self.subpages.as_map(),
        }
    }
}

impl SiteMap {
    /// The four tables are well-formed association lists.
    pub open spec fn wf(&self) -> bool {
        &&& self.sections.wf()
        &&& self.subsections.wf()
        &&& self.pages.wf()
        &&& self.subpages.wf()
    }
}

/// The page record for file `f` of the directory at `dpath`.
pub open spec fn page_src_v(dpath: Seq<char>, f: FileEntry) -> PageSrcV {
    PageSrcV { path: dpath + seq!['/'] + f.name@, stem: stem_of(f.name@), text: f.text@ }
}

/// Folds the markdown files of one directory into the model as pages of
/// section `u`. `skip_index` leaves the directory's own `index.md` out (the
/// section's index is not a page of itself). Fails with the offending stem on
/// the first stem that is not a valid segment.
pub open spec fn add_pages_v(
    fs: Seq<FileEntry>,
    u: Segs,
    dpath: Seq<char>,
    skip_index: bool,
    m: SiteMapV,
    pgs: Seq<Segs>,
) -> Result<(SiteMapV, Seq<Segs>), Seq<char>>
    decreases fs.len(),
{
    if fs.len() == 0 {
        Ok((m, pgs))
    } else {
        let f = fs[0];
        if ext_of(f.name@) == Some("md"@) && (!skip_index || f.name@ != "index.md"@) {
            let st = stem_of(f.name@);
            if is_valid_segment(st) {
                let pu = u.push(st);
                add_pages_v(
                    fs.drop_first(),
                    u,
                    dpath,
                    skip_index,
                    SiteMapV { pages: m.pages.insert(pu, page_src_v(dpath, f)), ..m },
                    pgs.push(pu),
                )
            } else {
                Err(st)
            }
        } else {
            add_pages_v(fs.drop_first(), u, dpath, skip_index, m, pgs)
        }
    }
}

/// Classifies one subdirectory below the section `pu`. A section directory is
/// registered under `pu` joined with its name and built recursively; a
/// transparent directory contributes its markdown files as pages of `pu` and
/// hands its subdirectories to the same classification.
pub open spec fn descend_one_v(
    d: DirTree,
    pu: Segs,
    base: Seq<char>,
    m: SiteMapV,
    secs: Seq<Segs>,
    pgs: Seq<Segs>,
) -> Result<(SiteMapV, Seq<Segs>, Seq<Segs>), Seq<char>>
    decreases d, 1int,
{
    let dpath = base + seq!['/'] + d.name@;
    if is_section_dir(d) {
        if is_valid_segment(d.name@) {
            let su = pu.push(d.name@);
            let m1 = SiteMapV {
                sections: m.sections.insert(
                    su,
                    SectionSrcV { name: d.name@, path: dpath, index_text: index_text_of(d) },
                ),
                ..m
            };
            match build_section_v(d, su, dpath, m1) {
                Ok(m2) => Ok((m2, secs.push(su), pgs)),
                Err(e) => Err(e),
            }
        } else {
            Err(d.name@)
        }
    } else {
        match add_pages_v(d.files@, pu, dpath, false, m, pgs) {
            Ok(t) => descend_all_v(d.dirs@, pu, dpath, t.0, secs, t.1),
            Err(e) => Err(e),
        }
    }
}

/// Classifies each directory of the list below the section `pu`, in order.
pub open spec fn descend_all_v(
    ds: Seq<DirTree>,
    pu: Segs,
    base: Seq<char>,
    m: SiteMapV,
    secs: Seq<Segs>,
    pgs: Seq<Segs>,
) -> Result<(SiteMapV, Seq<Segs>, Seq<Segs>), Seq<char>>
    decreases ds, 2int,
{
    if ds.len() == 0 {
        Ok((m, secs, pgs))
    } else {
        match descend_one_v(ds[0], pu, base, m, secs, pgs) {
            Ok(t) => descend_all_v(ds.drop_first(), pu, base, t.0, t.1, t.2),
            Err(e) => Err(e),
        }
    }
}

/// Builds the section whose directory is `d` and whose identifier is `u`:
/// collects its own pages, classifies its subdirectories, and records the
/// section's child lists.
pub open spec fn build_section_v(d: DirTree, u: Segs, dpath: Seq<char>, m: SiteMapV) -> Result<
    SiteMapV,
    Seq<char>,
>
    decreases d, 0int,
{
    match add_pages_v(d.files@, u, dpath, true, m, Seq::empty()) {
        Ok(t1) => match descend_all_v(d.dirs@, u, dpath, t1.0, Seq::empty(), t1.1) {
            Ok(t2) => Ok(
                SiteMapV {
                    subsections: t2.0.subsections.insert(u, t2.1),
                    subpages: t2.0.subpages.insert(u, t2.2),
                    ..t2.0
                },
            ),
            Err(e) => Err(e),
        },
        Err(e) => Err(e),
    }
}

/// The root's section record: the source directory's last path component,
/// the source path, and the root index text when one exists.
pub open spec fn root_section_v(tree: DirTree, src_path: Seq<char>) -> SectionSrcV {
    SectionSrcV {
        name: last_component(src_path),
        path: src_path,
        index_text: index_text_of(tree),
    }
}

/// The whole traversal: the root is registered as a section and built.
pub open spec fn sitemap_v(tree: DirTree, src_path: Seq<char>) -> Result<SiteMapV, Seq<char>> {
    let m0 = SiteMapV {
        sections: Map::<Segs, SectionSrcV>::empty().insert(
            Seq::empty(),
            root_section_v(tree, src_path),
        ),
        subsections: Map::empty(),
        pages: Map::empty(),
        subpages: Map::empty(),
    };
    build_section_v(tree, Seq::empty(), src_path, m0)
}

/// The structural invariant of a traversal result: every key is a valid
/// segment list; every identifier listed under `subsections` or `subpages` is
/// a key of `sections` or `pages` respectively; the child-list tables only
/// speak of sections; and every section but the root has its parent —
/// obtained by stripping its last segment — registered as a section.
pub open spec fn model_inv(m: SiteMapV) -> bool {
    &&& forall|k: Segs| #[trigger] m.sections.dom().contains(k) ==> segs_wf(k)
    &&& forall|k: Segs| #[trigger] m.pages.dom().contains(k) ==> segs_wf(k)
    &&& forall|k: Segs| #[trigger]
        m.subsections.dom().contains(k) ==> m.sections.dom().contains(k)
    &&& forall|k: Segs| #[trigger] m.subpages.dom().contains(k) ==> m.sections.dom().contains(k)
    &&& forall|k: Segs, i: int|
        m.subsections.dom().contains(k) && 0 <= i < m.subsections[k].len()
            ==> m.sections.dom().contains(#[trigger] m.subsections[k][i])
    &&& forall|k: Segs, i: int|
        m.subpages.dom().contains(k) && 0 <= i < m.subpages[k].len() ==> m.pages.dom().contains(
            #[trigger] m.subpages[k][i],
        )
    &&& forall|k: Segs| #[trigger]
        m.sections.dom().contains(k) && k.len() > 0 ==> m.sections.dom().contains(k.drop_last())
}

/// No key of any of the four maps is lost going from `a` to `b`.
pub open spec fn dom_extends(a: SiteMapV, b: SiteMapV) -> bool {
    &&& forall|k: Segs| #[trigger] a.sections.dom().contains(k) ==> b.sections.dom().contains(k)
    &&& forall|k: Segs| #[trigger]
        a.subsections.dom().contains(k) ==> b.subsections.dom().contains(k)
    &&& forall|k: Segs| #[trigger] a.pages.dom().contains(k) ==> b.pages.dom().contains(k)
    &&& forall|k: Segs| #[trigger] a.subpages.dom().contains(k) ==> b.subpages.dom().contains(k)
}

/// Every section key of `b` that `a` lacked has both of its child lists
/// recorded in `b`.
pub open spec fn completed_new(a: SiteMapV, b: SiteMapV) -> bool {
    forall|k: Segs| #[trigger]
        b.sections.dom().contains(k) && !a.sections.dom().contains(k)
            ==> b.subsections.dom().contains(k) && b.subpages.dom().contains(k)
}

/// Pushing a valid segment keeps a segment list valid, and the parent of the
/// result is the original list.
pub proof fn lemma_push_wf(u: Segs, s: Seq<char>)
    requires
        segs_wf(u),
        is_valid_segment(s),
    ensures
        segs_wf(u.push(s)),
        u.push(s).len() > 0,
        u.push(s).drop_last() == u,
{
    assert(u.push(s).drop_last() =~= u);
    assert forall|i: int| 0 <= i < u.push(s).len() implies is_valid_segment(
        #[trigger] u.push(s)[i],
    ) by {
        if i < u.len() {
            assert(u.push(s)[i] == u[i]);
        } else {
            assert(u.push(s)[i] == s);
        }
    }
}

/// Extension and completion compose.
proof fn lemma_compose(a: SiteMapV, b: SiteMapV, c: SiteMapV)
    requires
        dom_extends(a, b),
        dom_extends(b, c),
        completed_new(a, b),
        completed_new(b, c),
    ensures
        dom_extends(a, c),
        completed_new(a, c),
{
    assert forall|k: Segs| #[trigger]
        c.sections.dom().contains(k) && !a.sections.dom().contains(k)
            implies c.subsections.dom().contains(k) && c.subpages.dom().contains(k) by {
        if b.sections.dom().contains(k) {
            assert(b.subsections.dom().contains(k) && b.subpages.dom().contains(k));
        }
    }
}

/// [`add_pages_v`] keeps the invariant: it only grows the page table, with
/// valid keys, and every identifier it appends to the running page list is a
/// page key afterwards.
proof fn lemma_add_pages_inv(
    fs: Seq<FileEntry>,
    u: Segs,
    dpath: Seq<char>,
    skip_index: bool,
    m: SiteMapV,
    pgs: Seq<Segs>,
)
    requires
        model_inv(m),
        segs_wf(u),
        forall|i: int| 0 <= i < pgs.len() ==> m.pages.dom().contains(#[trigger] pgs[i]),
    ensures
        add_pages_v(fs, u, dpath, skip_index, m, pgs) matches Ok(t) ==> {
            &&& model_inv(t.0)
            &&& t.0.sections == m.sections
            &&& t.0.subsections == m.subsections
            &&& t.0.subpages == m.subpages
            &&& forall|k: Segs| #[trigger]
                m.pages.dom().contains(k) ==> t.0.pages.dom().contains(k)
            &&& forall|i: int|
                0 <= i < t.1.len() ==> t.0.pages.dom().contains(#[trigger] t.1[i])
        },
    decreases fs.len(),
{
    if fs.len() > 0 {
        let f = fs[0];
        if ext_of(f.name@) == Some("md"@) && (!skip_index || f.name@ != "index.md"@) {
            let st = stem_of(f.name@);
            if is_valid_segment(st) {
                let pu = u.push(st);
                lemma_push_wf(u, st);
                let m1 = SiteMapV { pages: m.pages.insert(pu, page_src_v(dpath, f)), ..m };
                assert(model_inv(m1));
                let pgs1 = pgs.push(pu);
                assert forall|i: int| 0 <= i < pgs1.len() implies m1.pages.dom().contains(
                    #[trigger] pgs1[i],
                ) by {
                    if i < pgs.len() {
                        assert(pgs1[i] == pgs[i]);
                    } else {
                        assert(pgs1[i] == pu);
                    }
                }
                lemma_add_pages_inv(fs.drop_first(), u, dpath, skip_index, m1, pgs1);
                match add_pages_v(fs.drop_first(), u, dpath, skip_index, m1, pgs1) {
                    Ok(t) => {
                        assert forall|k: Segs| #[trigger]
                            m.pages.dom().contains(k) implies t.0.pages.dom().contains(k) by {
                            assert(m1.pages.dom().contains(k));
                        }
                    },
                    Err(_) => {},
                }
            }
        } else {
            lemma_add_pages_inv(fs.drop_first(), u, dpath, skip_index, m, pgs);
        }
    }
}

/// [`descend_one_v`] keeps the invariant, only extends the maps, completes
/// every section it introduces, and keeps both running lists inside the
/// respective key sets.
proof fn lemma_descend_one_inv(
    d: DirTree,
    pu: Segs,
    base: Seq<char>,
    m: SiteMapV,
    secs: Seq<Segs>,
    pgs: Seq<Segs>,
)
    requires
        model_inv(m),
        m.sections.dom().contains(pu),
        segs_wf(pu),
        forall|i: int| 0 <= i < secs.len() ==> m.sections.dom().contains(#[trigger] secs[i]),
        forall|i: int| 0 <= i < pgs.len() ==> m.pages.dom().contains(#[trigger] pgs[i]),
    ensures
        descend_one_v(d, pu, base, m, secs, pgs) matches Ok(t) ==> {
            &&& model_inv(t.0)
            &&& dom_extends(m, t.0)
            &&& completed_new(m, t.0)
            &&& forall|i: int|
                0 <= i < t.1.len() ==> t.0.sections.dom().contains(#[trigger] t.1[i])
            &&& forall|i: int| 0 <= i < t.2.len() ==> t.0.pages.dom().contains(#[trigger] t.2[i])
        },
    decreases d, 1int,
{
    let dpath = base + seq!['/'] + d.name@;
    if is_section_dir(d) {
        if is_valid_segment(d.name@) {
            let su = pu.push(d.name@);
            lemma_push_wf(pu, d.name@);
            let m1 = SiteMapV {
                sections: m.sections.insert(
                    su,
                    SectionSrcV { name: d.name@, path: dpath, index_text: index_text_of(d) },
                ),
                ..m
            };
            assert(model_inv(m1));
            lemma_build_inv(d, su, dpath, m1);
            match build_section_v(d, su, dpath, m1) {
                Ok(m2) => {
                    assert(dom_extends(m, m1));
                    assert forall|k: Segs| #[trigger]
                        m.sections.dom().contains(k) implies m2.sections.dom().contains(k) by {
                        assert(m1.sections.dom().contains(k));
                    }
                    assert forall|k: Segs| #[trigger]
                        m.subsections.dom().contains(k) implies m2.subsections.dom().contains(
                        k,
                    ) by {
                        assert(m1.subsections.dom().contains(k));
                    }
                    assert forall|k: Segs| #[trigger]
                        m.pages.dom().contains(k) implies m2.pages.dom().contains(k) by {
                        assert(m1.pages.dom().contains(k));
                    }
                    assert forall|k: Segs| #[trigger]
                        m.subpages.dom().contains(k) implies m2.subpages.dom().contains(k) by {
                        assert(m1.subpages.dom().contains(k));
                    }
                    assert forall|k: Segs| #[trigger]
                        m2.sections.dom().contains(k) && !m.sections.dom().contains(k)
                            implies m2.subsections.dom().contains(k) && m2.subpages.dom().contains(
                        k,
                    ) by {
                        if k == su {
                        } else {
                            assert(!m1.sections.dom().contains(k));
                        }
                    }
                    let s2 = secs.push(su);
                    assert forall|i: int| 0 <= i < s2.len() implies m2.sections.dom().contains(
                        #[trigger] s2[i],
                    ) by {
                        if i < secs.len() {
                            assert(s2[i] == secs[i]);
                            assert(m1.sections.dom().contains(secs[i]));
                        } else {
                            assert(s2[i] == su);
                            assert(m1.sections.dom().contains(su));
                        }
                    }
                    assert forall|i: int| 0 <= i < pgs.len() implies m2.pages.dom().contains(
                        #[trigger] pgs[i],
                    ) by {
                        assert(m1.pages.dom().contains(pgs[i]));
                    }
                },
                Err(_) => {},
            }
        }
    } else {
        lemma_add_pages_inv(d.files@, pu, dpath, false, m, pgs);
        match add_pages_v(d.files@, pu, dpath, false, m, pgs) {
            Ok(t1) => {
                lemma_descend_all_inv(d.dirs@, pu, dpath, t1.0, secs, t1.1);
                match descend_all_v(d.dirs@, pu, dpath, t1.0, secs, t1.1) {
                    Ok(t2) => {
                        assert(dom_extends(m, t1.0));
                        assert(completed_new(m, t1.0));
                        lemma_compose(m, t1.0, t2.0);
                    },
                    Err(_) => {},
                }
            },
            Err(_) => {},
        }
    }
}

/// [`descend_all_v`] keeps the invariant across the whole directory list.
proof fn lemma_descend_all_inv(
    ds: Seq<DirTree>,
    pu: Segs,
    base: Seq<char>,
    m: SiteMapV,
    secs: Seq<Segs>,
    pgs: Seq<Segs>,
)
    requires
        model_inv(m),
        m.sections.dom().contains(pu),
        segs_wf(pu),
        forall|i: int| 0 <= i < secs.len() ==> m.sections.dom().contains(#[trigger] secs[i]),
        forall|i: int| 0 <= i < pgs.len() ==> m.pages.dom().contains(#[trigger] pgs[i]),
    ensures
        descend_all_v(ds, pu, base, m, secs, pgs) matches Ok(t) ==> {
            &&& model_inv(t.0)
            &&& dom_extends(m, t.0)
            &&& completed_new(m, t.0)
            &&& forall|i: int|
                0 <= i < t.1.len() ==> t.0.sections.dom().contains(#[trigger] t.1[i])
            &&& forall|i: int| 0 <= i < t.2.len() ==> t.0.pages.dom().contains(#[trigger] t.2[i])
        },
    decreases ds, 2int,
{
    if ds.len() > 0 {
        lemma_descend_one_inv(ds[0], pu, base, m, secs, pgs);
        match descend_one_v(ds[0], pu, base, m, secs, pgs) {
            Ok(t1) => {
                lemma_descend_all_inv(ds.drop_first(), pu, base, t1.0, t1.1, t1.2);
                match descend_all_v(ds.drop_first(), pu, base, t1.0, t1.1, t1.2) {
                    Ok(t2) => {
                        lemma_compose(m, t1.0, t2.0);
                    },
                    Err(_) => {},
                }
            },
            Err(_) => {},
        }
    }
}

/// [`build_section_v`] keeps the invariant, completes every section it
/// introduces, and records both child lists of `u` itself.
proof fn lemma_build_inv(d: DirTree, u: Segs, dpath: Seq<char>, m: SiteMapV)
    requires
        model_inv(m),
        m.sections.dom().contains(u),
        segs_wf(u),
    ensures
        build_section_v(d, u, dpath, m) matches Ok(m2) ==> {
            &&& model_inv(m2)
            &&& dom_extends(m, m2)
            &&& completed_new(m, m2)
            &&& m2.subsections.dom().contains(u)
            &&& m2.subpages.dom().contains(u)
        },
    decreases d, 0int,
{
    lemma_add_pages_inv(d.files@, u, dpath, true, m, Seq::empty());
    match add_pages_v(d.files@, u, dpath, true, m, Seq::empty()) {
        Ok(t1) => {
            lemma_descend_all_inv(d.dirs@, u, dpath, t1.0, Seq::empty(), t1.1);
            match descend_all_v(d.dirs@, u, dpath, t1.0, Seq::empty(), t1.1) {
                Ok(t2) => {
                    let m2 = SiteMapV {
                        subsections: t2.0.subsections.insert(u, t2.1),
                        subpages: t2.0.subpages.insert(u, t2.2),
                        ..t2.0
                    };
                    assert(dom_extends(m, t1.0) && completed_new(m, t1.0));
                    lemma_compose(m, t1.0, t2.0);
                    assert(t2.0.sections.dom().contains(u));
                    assert(model_inv(m2)) by {
                        assert forall|k: Segs, i: int|
                            m2.subsections.dom().contains(k) && 0 <= i < m2.subsections[k].len()
                                implies m2.sections.dom().contains(
                            #[trigger] m2.subsections[k][i],
                        ) by {
                            if k == u {
                                assert(m2.subsections[k] == t2.1);
                            } else {
                                assert(m2.subsections[k] == t2.0.subsections[k]);
                            }
                        }
                        assert forall|k: Segs, i: int|
                            m2.subpages.dom().contains(k) && 0 <= i < m2.subpages[k].len()
                                implies m2.pages.dom().contains(#[trigger] m2.subpages[k][i]) by {
                            if k == u {
                                assert(m2.subpages[k] == t2.2);
                            } else {
                                assert(m2.subpages[k] == t2.0.subpages[k]);
                            }
                        }
                    }
                },
                Err(_) => {},
            }
        },
        Err(_) => {},
    }
}

/// The law of the traversal result: when the walk succeeds, the root is a
/// section, every identifier under `subsections` / `subpages` is a key of
/// `sections` / `pages`, every section but the root has its parent section
/// present, every key is a valid segment list, and every section — the root
/// included — has both of its child lists recorded.
pub proof fn lemma_sitemap_inv(tree: DirTree, src_path: Seq<char>)
    ensures
        sitemap_v(tree, src_path) matches Ok(m) ==> {
            &&& model_inv(m)
            &&& m.sections.dom().contains(Seq::<Seq<char>>::empty())
            &&& forall|k: Segs| #[trigger]
                m.sections.dom().contains(k) ==> m.subsections.dom().contains(k)
                    && m.subpages.dom().contains(k)
        },
{
    let root = Seq::<Seq<char>>::empty();
    let m0 = SiteMapV {
        sections: Map::<Segs, SectionSrcV>::empty().insert(
            root,
            root_section_v(tree, src_path),
        ),
        subsections: Map::empty(),
        pages: Map::empty(),
        subpages: Map::empty(),
    };
    assert(model_inv(m0));
    assert(segs_wf(root));
    lemma_build_inv(tree, root, src_path, m0);
    match build_section_v(tree, root, src_path, m0) {
        Ok(m2) => {
            assert forall|k: Segs| #[trigger]
                m2.sections.dom().contains(k) implies m2.subsections.dom().contains(k)
                && m2.subpages.dom().contains(k) by {
                if m0.sections.dom().contains(k) {
                    assert(k == root);
                }
            }
        },
        Err(_) => {},
    }
}

/// A directory with no files and no subdirectories contributes nothing,
/// wherever it stands and whatever the state: it holds no index file, so it
/// is no section; it holds no markdown files and no subdirectories, so
/// classifying it returns the model and both running child lists exactly as
/// they were, with no error.
pub proof fn lemma_empty_dir_contributes_nothing(
    d: DirTree,
    pu: Segs,
    base: Seq<char>,
    m: SiteMapV,
    secs: Seq<Segs>,
    pgs: Seq<Segs>,
)
    requires
        d.files@.len() == 0,
        d.dirs@.len() == 0,
    ensures
        descend_one_v(d, pu, base, m, secs, pgs) == Ok::<
            (SiteMapV, Seq<Segs>, Seq<Segs>),
            Seq<char>,
        >((m, secs, pgs)),
{
    let dpath = base + seq!['/'] + d.name@;
    assert(!is_section_dir(d));
    assert(add_pages_v(d.files@, pu, dpath, false, m, pgs) == Ok::<
        (SiteMapV, Seq<Segs>),
        Seq<char>,
    >((m, pgs)));
    assert(descend_all_v(d.dirs@, pu, dpath, m, secs, pgs) == Ok::<
        (SiteMapV, Seq<Segs>, Seq<Segs>),
        Seq<char>,
    >((m, secs, pgs)));
}

/// Folds the markdown files of `fs` into `m` as pages of `u`, exactly as
/// [`add_pages_v`] describes.
fn add_pages(
    fs: &Vec<FileEntry>,
    u: &Uri,
    dpath: &String,
    skip_index: bool,
    m: &mut SiteMap,
    pgs: &mut Vec<Uri>,
) -> (r: Result<(), Error>)
    requires
        old(m).wf(),
        u.wf(),
    ensures
        final (m).wf(),
        add_pages_v(fs@, u@, dpath@, skip_index, old(m)@, old(pgs).deep_view()) matches Ok(t)
            ==> r is Ok && final (m)@ == t.0 && final (pgs).deep_view() == t.1,
        add_pages_v(fs@, u@, dpath@, skip_index, old(m)@, old(pgs).deep_view()) matches Err(s)
            ==> (r matches Err(e) && e matches Error::InvalidSegment(t) && t@ == s),
{
    let n = fs.len();
    proof {
        assert(fs@.skip(0) =~= fs@);
    }
    let mut i: usize = 0;
    while i < n
        invariant
            0 <= i <= n,
            n == fs@.len(),
            m.wf(),
            u.wf(),
            add_pages_v(fs@.skip(i as int), u@, dpath@, skip_index, m@, pgs.deep_view())
                == add_pages_v(fs@, u@, dpath@, skip_index, old(m)@, old(pgs).deep_view()),
        decreases n - i,
    {
        proof {
            assert(fs@.skip(i as int).drop_first() =~= fs@.skip(i + 1));
            assert(fs@.skip(i as int)[0] == fs@[i as int]);
        }
        let f = &fs[i];
        let md = has_extension(f.name.as_str(), "md");
        let isidx = str_eq(f.name.as_str(), "index.md");
        if md && (!skip_index || !isidx) {
            let st = file_stem(f.name.as_str());
            match u.join(st.as_str()) {
                Ok(pu) => {
                    let ghost pgs_pre = pgs.deep_view();
                    let fpath = path_join(dpath.as_str(), f.name.as_str());
                    let src = PageSource { path: fpath, stem: st, text: f.text.clone() };
                    proof {
                        assert(src.deep_view() == page_src_v(dpath@, fs@[i as int]));
                    }
                    m.pages.insert(pu.clone(), src);
                    pgs.push(pu);
                    proof {
                        assert(pgs.deep_view() =~= pgs_pre.push(u@.push(st@)));
                    }
                },
                Err(e) => {
                    return Err(e);
                },
            }
        }
        i = i + 1;
    }
    proof {
        assert(fs@.skip(n as int) =~= Seq::<FileEntry>::empty());
    }
    Ok(())
}

/// Classifies one subdirectory, exactly as [`descend_one_v`] describes.
fn descend_one(
    d: &DirTree,
    pu: &Uri,
    base: &String,
    m: &mut SiteMap,
    secs: &mut Vec<Uri>,
    pgs: &mut Vec<Uri>,
) -> (r: Result<(), Error>)
    requires
        old(m).wf(),
        pu.wf(),
    ensures
        final (m).wf(),
        descend_one_v(*d, pu@, base@, old(m)@, old(secs).deep_view(), old(pgs).deep_view())
            matches Ok(t) ==> r is Ok && final (m)@ == t.0 && final (secs).deep_view() == t.1
            && final (pgs).deep_view() == t.2,
        descend_one_v(*d, pu@, base@, old(m)@, old(secs).deep_view(), old(pgs).deep_view())
            matches Err(s) ==> (r matches Err(e) && e matches Error::InvalidSegment(t) && t@ == s),
    decreases *d, 1int,
{
    let dpath = path_join(base.as_str(), d.name.as_str());
    if has_file(d, "index.md") {
        match pu.join(d.name.as_str()) {
            Ok(su) => {
                let idx = index_text(d);
                let src = SectionSource { name: d.name.clone(), path: dpath.clone(), index_text: idx };
                proof {
                    assert(src.deep_view() == SectionSrcV {
                        name: d.name@,
                        path: base@ + seq!['/'] + d.name@,
                        index_text: index_text_of(*d),
                    });
                }
                m.sections.insert(su.clone(), src);
                let ghost secs_pre = secs.deep_view();
                let r2 = build_section(d, &su, &dpath, m);
                match r2 {
                    Ok(u2) => {
                        secs.push(su);
                        proof {
                            assert(secs.deep_view() =~= secs_pre.push(pu@.push(d.name@)));
                        }
                        Ok(u2)
                    },
                    Err(e) => Err(e),
                }
            },
            Err(e) => Err(e),
        }
    } else {
        let r1 = add_pages(&d.files, pu, &dpath, false, m, pgs);
        match r1 {
            Ok(_) => descend_all(&d.dirs, pu, &dpath, m, secs, pgs),
            Err(e) => Err(e),
        }
    }
}

/// Classifies each directory of the list, exactly as [`descend_all_v`]
/// describes.
fn descend_all(
    ds: &Vec<DirTree>,
    pu: &Uri,
    base: &String,
    m: &mut SiteMap,
    secs: &mut Vec<Uri>,
    pgs: &mut Vec<Uri>,
) -> (r: Result<(), Error>)
    requires
        old(m).wf(),
        pu.wf(),
    ensures
        final (m).wf(),
        descend_all_v(ds@, pu@, base@, old(m)@, old(secs).deep_view(), old(pgs).deep_view())
            matches Ok(t) ==> r is Ok && final (m)@ == t.0 && final (secs).deep_view() == t.1
            && final (pgs).deep_view() == t.2,
        descend_all_v(ds@, pu@, base@, old(m)@, old(secs).deep_view(), old(pgs).deep_view())
            matches Err(s) ==> (r matches Err(e) && e matches Error::InvalidSegment(t) && t@ == s),
    decreases ds@, 2int,
{
    let n = ds.len();
    proof {
        assert(ds@.skip(0) =~= ds@);
    }
    let mut i: usize = 0;
    while i < n
        invariant
            0 <= i <= n,
            n == ds@.len(),
            m.wf(),
            pu.wf(),
            descend_all_v(ds@.skip(i as int), pu@, base@, m@, secs.deep_view(), pgs.deep_view())
                == descend_all_v(
                ds@,
                pu@,
                base@,
                old(m)@,
                old(secs).deep_view(),
                old(pgs).deep_view(),
            ),
        decreases n - i,
    {
        proof {
            assert(ds@.skip(i as int).drop_first() =~= ds@.skip(i + 1));
            assert(ds@.skip(i as int)[0] == ds@[i as int]);
        }
        let r1 = descend_one(&ds[i], pu, base, m, secs, pgs);
        match r1 {
            Ok(_) => {},
            Err(e) => {
                return Err(e);
            },
        }
        i = i + 1;
    }
    proof {
        assert(ds@.skip(n as int) =~= Seq::<DirTree>::empty());
    }
    Ok(())
}

/// Builds the section `u` out of directory `d`, exactly as
/// [`build_section_v`] describes.
fn build_section(d: &DirTree, u: &Uri, dpath: &String, m: &mut SiteMap) -> (r: Result<(), Error>)
    requires
        old(m).wf(),
        u.wf(),
    ensures
        final (m).wf(),
        build_section_v(*d, u@, dpath@, old(m)@) matches Ok(mv) ==> r is Ok && final (m)@ == mv,
        build_section_v(*d, u@, dpath@, old(m)@) matches Err(s) ==> (r matches Err(e)
            && e matches Error::InvalidSegment(t) && t@ == s),
    decreases *d, 0int,
{
    let mut pgs: Vec<Uri> = Vec::new();
    proof {
        assert(pgs.deep_view() =~= Seq::<Segs>::empty());
    }
    let r1 = add_pages(&d.files, u, dpath, true, m, &mut pgs);
    match r1 {
        Ok(_) => {},
        Err(e) => {
            return Err(e);
        },
    }
    let mut secs: Vec<Uri> = Vec::new();
    proof {
        assert(secs.deep_view() =~= Seq::<Segs>::empty());
    }
    let r2 = descend_all(&d.dirs, u, dpath, m, &mut secs, &mut pgs);
    match r2 {
        Ok(_) => {},
        Err(e) => {
            return Err(e);
        },
    }
    m.subsections.insert(u.clone(), secs);
    m.subpages.insert(u.clone(), pgs);
    Ok(())
}

impl SiteMap {
    /// Walks the content snapshot rooted at `tree` (whose source path is
    /// `src_dir`) and returns the four maps, exactly as [`sitemap_v`]
    /// describes; fails with [`Error::InvalidSegment`] naming the offending
    /// name exactly when the mirror does.
    pub fn new(tree: &DirTree, src_dir: &str) -> (r: Result<SiteMap, Error>)
        ensures
            r is Ok <==> sitemap_v(*tree, src_dir@) is Ok,
            r matches Ok(m) ==> m.wf() && (sitemap_v(*tree, src_dir@) matches Ok(mv) && m@ == mv),
            r matches Ok(m) ==> model_inv(m@) && m@.sections.dom().contains(
                Seq::<Seq<char>>::empty(),
            ) && (forall|k: Segs| #[trigger]
                m@.sections.dom().contains(k) ==> m@.subsections.dom().contains(k)
                    && m@.subpages.dom().contains(k)),
            r matches Err(e) ==> (sitemap_v(*tree, src_dir@) matches Err(s)
                && e matches Error::InvalidSegment(t) && t@ == s),
    {
        proof {
            lemma_sitemap_inv(*tree, src_dir@);
        }
        let mut map = SiteMap {
            sections: UriMap::new(),
            subsections: UriMap::new(),
            pages: UriMap::new(),
            subpages: UriMap::new(),
        };
        let root = Uri::new();
        let idx = index_text(tree);
        let name = file_name(src_dir);
        let src = SectionSource { name, path: src_dir.to_owned(), index_text: idx };
        proof {
            assert(src.deep_view() == root_section_v(*tree, src_dir@));
        }
        map.sections.insert(root, src);
        let path = src_dir.to_owned();
        let root2 = Uri::new();
        let r = build_section(tree, &root2, &path, &mut map);
        match r {
            Ok(_) => Ok(map),
            Err(e) => Err(e),
        }
    }
}

} // verus!
