//! One generation run: from content snapshot to the complete in-memory model.
//!
//! The run walks the snapshot into a [`SiteMap`], insists on a root index
//! file before anything is assembled, and then builds the section and page
//! tables. The run is all-or-nothing: any failure aborts it with a single
//! error and no model is exposed.

use crate::error::Error;
use crate::page::{good_page, subpages_covered, PageMap};
use crate::scan::{dir_has_file, has_file, DirTree};
use crate::section::{good_section, sections_covered, SectionMap};
use crate::sitemap::{model_inv, sitemap_v, SiteMap};
use crate::uri::Segs;
use vstd::prelude::*;

verus! {

/// The complete model of one generation run, handed to the rendering stage.
pub struct Site {
    pub sitemap: SiteMap,
    pub sections: SectionMap,
    pub pages: PageMap,
}

/// Resolves the content snapshot rooted at `tree` (read from `src_dir`) into
/// the complete site model. Succeeds exactly when the walk accepts every name
/// and the content root has an index file; fails with
/// [`Error::InvalidSegment`] naming the first illegal name, or with
/// [`Error::MissingRootIndex`] — checked before any assembly — when the root
/// index is absent.
pub fn generate(tree: &DirTree, src_dir: &str) -> (r: Result<Site, Error>)
    ensures
        r is Ok <==> (sitemap_v(*tree, src_dir@) is Ok && dir_has_file(*tree, "index.md"@)),
        r matches Ok(site) ==> {
            &&& site.sitemap.wf()
            &&& (sitemap_v(*tree, src_dir@) matches Ok(mv) && site.sitemap@ == mv)
            &&& model_inv(site.sitemap@)
            &&& site.sections.0.wf()
            &&& site.pages.0.wf()
            &&& forall|k: Segs| #[trigger]
                site.sections.0.as_map().contains_key(k) ==> good_section(
                    site.sitemap@,
                    k,
                    site.sections.0.as_map()[k],
                )
            &&& forall|k: Segs| #[trigger]
                site.sitemap@.sections.dom().contains(k)
                    ==> site.sections.0.as_map().contains_key(k)
            &&& forall|k: Segs| #[trigger]
                site.pages.0.as_map().contains_key(k) ==> good_page(
                    site.sitemap@,
                    k,
                    site.pages.0.as_map()[k],
                )
            &&& forall|s: Segs, i: int|
                site.sitemap@.subpages.dom().contains(s) && 0 <= i
                    < site.sitemap@.subpages[s].len() ==> site.pages.0.as_map().contains_key(
                    #[trigger] site.sitemap@.subpages[s][i],
                )
        },
        r matches Err(e) ==> match e {
            Error::InvalidSegment(t) => sitemap_v(*tree, src_dir@) matches Err(s) && t@ == s,
            Error::MissingRootIndex => sitemap_v(*tree, src_dir@) is Ok && !dir_has_file(
                *tree,
                "index.md"@,
            ),
            _ => false,
        },
{
    let sitemap = match SiteMap::new(tree, src_dir) {
        Ok(m) => m,
        Err(e) => {
            return Err(e);
        },
    };
    if !has_file(tree, "index.md") {
        return Err(Error::MissingRootIndex);
    }
    proof {
        assert(sections_covered(sitemap@));
        assert(subpages_covered(sitemap@));
    }
    let sections = match SectionMap::new(&sitemap) {
        Ok(sm) => sm,
        Err(e) => {
            return Err(e);
        },
    };
    let pages = match PageMap::new(&sitemap) {
        Ok(pm) => pm,
        Err(e) => {
            return Err(e);
        },
    };
    Ok(Site { sitemap, sections, pages })
}

} // verus!
