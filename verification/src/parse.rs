//! The front-matter / markdown collaborator boundary.
//!
//! A content file may open with a YAML front-matter block carrying a handful
//! of dedicated fields (`title`, `author`, `description`, `template`) plus
//! open-ended extras; the rest of the file is markdown that an outside
//! renderer turns into HTML. [`Parse::from_str`] never fails: a missing
//! block, or one that does not parse to a mapping, yields defaults, and when
//! the renderer rejects the text the raw text stands as the body. Every
//! outside result is a function of the text alone and carries a name, so the
//! contract pins each field to the block.

use crate::scan::str_eq;
use vstd::prelude::*;

verus! {

#[verifier::external_type_specification]
#[verifier::external_body]
pub struct ExYamlValue(serde_yaml::Value);

/// The HTML that the markdown renderer produces for a text, or the message it
/// rejects the text with; a function of the text alone.
pub uninterp spec fn html_of(s: Seq<char>) -> Result<Seq<char>, Seq<char>>;

/// The YAML front-matter block that opens a text, when one does; a function
/// of the text alone.
pub uninterp spec fn frontmatter_of(s: Seq<char>) -> Option<Seq<char>>;

/// The string bound to `key` when the block parses to a mapping holding a
/// string entry there, and nothing otherwise; a function of the block text
/// and the key alone.
pub uninterp spec fn yaml_str_of(block: Seq<char>, key: Seq<char>) -> Option<Seq<char>>;

/// The keys of the block's mapping in order, each reduced to its string form
/// where it has one; empty when the block does not parse to a mapping. A
/// function of the block text alone.
pub uninterp spec fn yaml_keys_of(block: Seq<char>) -> Seq<Option<Seq<char>>>;

/// Relies on markdown::to_html_with_options, with the front matter construct
/// and raw HTML enabled: the rendered HTML depends on the input text alone,
/// and the front-matter block is not part of the output.
#[verifier::external_body]
fn md_to_html(text: &str) -> (r: Result<String, String>)
    ensures
        r is Ok <==> html_of(text@) is Ok,
        r matches Ok(h) ==> (html_of(text@) matches Ok(hv) && h@ == hv),
        r matches Err(e) ==> (html_of(text@) matches Err(ev) && e@ == ev),
{
    let opts = markdown::Options {
        parse: markdown::ParseOptions {
            constructs: markdown::Constructs {
                frontmatter: true,
                html_flow: true,
                html_text: true,
                ..markdown::Constructs::default()
            },
            ..markdown::ParseOptions::default()
        },
        ..markdown::Options::default()
    };
    markdown::to_html_with_options(text, &opts).map_err(|e| e.to_string())
}

/// Relies on markdown::to_mdast with the front matter construct enabled: the
/// tree depends on the input text alone, and the root's first child is the
/// YAML block exactly when the text opens with one.
#[verifier::external_body]
fn frontmatter_block(text: &str) -> (r: Option<String>)
    ensures
        r is Some <==> frontmatter_of(text@) is Some,
        r matches Some(t) ==> (frontmatter_of(text@) matches Some(tv) && t@ == tv),
{
    let opts = markdown::ParseOptions {
        constructs: markdown::Constructs { frontmatter: true, ..markdown::Constructs::default() },
        ..markdown::ParseOptions::default()
    };
    match markdown::to_mdast(text, &opts) {
        Ok(markdown::mdast::Node::Root(root)) => match root.children.into_iter().next() {
            Some(markdown::mdast::Node::Yaml(y)) => Some(y.value),
            _ => None,
        },
        _ => None,
    }
}

/// Relies on serde_yaml::from_str, Value::get and Value::as_str: the string
/// bound to the key when the block parses to a mapping with a string entry
/// there, and nothing — never an error — otherwise.
#[verifier::external_body]
fn yaml_lookup_string(block: &str, key: &str) -> (r: Option<String>)
    ensures
        r.deep_view() == yaml_str_of(block@, key@),
{
    serde_yaml::from_str::<serde_yaml::Value>(block).ok().and_then(
        |v| v.get(key).and_then(|x| x.as_str()).map(|s| s.to_owned()),
    )
}

/// Relies on serde_yaml::from_str, Value::as_mapping and Mapping::iter (an
/// insertion-ordered map): the entries of the block's mapping in order, each
/// key reduced to its string form where it has one; empty when the block
/// does not parse to a mapping. The key list is a function of the block text
/// alone; the values ride along opaquely.
#[verifier::external_body]
fn yaml_entries(block: &str) -> (r: Vec<(Option<String>, serde_yaml::Value)>)
    ensures
        r@.len() == yaml_keys_of(block@).len(),
        forall|i: int|
            0 <= i < r@.len() ==> (#[trigger] r@[i]).0.deep_view() == yaml_keys_of(block@)[i],
{
    let parsed = serde_yaml::from_str::<serde_yaml::Value>(block).ok();
    match parsed.as_ref().and_then(|v| v.as_mapping()) {
        Some(m) => m.iter().map(|(k, x)| (k.as_str().map(|s| s.to_owned()), x.clone())).collect(),
        None => Vec::new(),
    }
}

/// Whether `k` is one of the dedicated front-matter keys.
pub open spec fn is_known_key(k: Seq<char>) -> bool {
    k == "title"@ || k == "author"@ || k == "description"@ || k == "template"@
}

/// Decides [`is_known_key`].
pub fn known_key(k: &str) -> (r: bool)
    ensures
        r == is_known_key(k@),
{
    str_eq(k, "title") || str_eq(k, "author") || str_eq(k, "description") || str_eq(k, "template")
}

/// The string-keyed entries whose key is not dedicated, in order.
pub open spec fn extras_of(es: Seq<(Option<String>, serde_yaml::Value)>) -> Seq<
    (String, serde_yaml::Value),
>
    decreases es.len(),
{
    if es.len() == 0 {
        Seq::empty()
    } else {
        let rest = extras_of(es.drop_first());
        match es[0].0 {
            Some(k) => if !is_known_key(k@) {
                seq![(k, es[0].1)] + rest
            } else {
                rest
            },
            None => rest,
        }
    }
}

/// The non-dedicated string keys of a key list, in order.
pub open spec fn extra_keys_of(ks: Seq<Option<Seq<char>>>) -> Seq<Seq<char>>
    decreases ks.len(),
{
    if ks.len() == 0 {
        Seq::empty()
    } else {
        let rest = extra_keys_of(ks.drop_first());
        match ks[0] {
            Some(k) => if !is_known_key(k) {
                seq![k] + rest
            } else {
                rest
            },
            None => rest,
        }
    }
}

/// No entry that [`extras_of`] keeps carries a dedicated key.
pub proof fn lemma_extras_not_known(es: Seq<(Option<String>, serde_yaml::Value)>)
    ensures
        forall|i: int|
            0 <= i < extras_of(es).len() ==> !is_known_key((#[trigger] extras_of(es)[i]).0@),
    decreases es.len(),
{
    if es.len() > 0 {
        lemma_extras_not_known(es.drop_first());
        let rest = extras_of(es.drop_first());
        match es[0].0 {
            Some(k) => {
                if !is_known_key(k@) {
                    assert forall|i: int| 0 <= i < extras_of(es).len() implies !is_known_key(
                        (#[trigger] extras_of(es)[i]).0@,
                    ) by {
                        if i > 0 {
                            assert(extras_of(es)[i] == rest[i - 1]);
                        }
                    }
                }
            },
            None => {},
        }
    }
}

/// The extras kept from an entry list carry exactly the non-dedicated string
/// keys of the list, in order.
pub proof fn lemma_extras_keys(
    es: Seq<(Option<String>, serde_yaml::Value)>,
    ks: Seq<Option<Seq<char>>>,
)
    requires
        es.len() == ks.len(),
        forall|i: int| 0 <= i < es.len() ==> (#[trigger] es[i]).0.deep_view() == ks[i],
    ensures
        extras_of(es).len() == extra_keys_of(ks).len(),
        forall|i: int|
            0 <= i < extras_of(es).len() ==> (#[trigger] extras_of(es)[i]).0@ == extra_keys_of(
                ks,
            )[i],
    decreases es.len(),
{
    if es.len() > 0 {
        let est = es.drop_first();
        let kst = ks.drop_first();
        assert forall|i: int| 0 <= i < est.len() implies (#[trigger] est[i]).0.deep_view()
            == kst[i] by {
            assert(est[i] == es[i + 1]);
            assert(kst[i] == ks[i + 1]);
        }
        lemma_extras_keys(est, kst);
        assert(es[0].0.deep_view() == ks[0]);
        match es[0].0 {
            Some(k) => {
                assert(ks[0] == Some(k@));
                if !is_known_key(k@) {
                    let hd = seq![(k, es[0].1)];
                    let hk = seq![k@];
                    assert(extras_of(es) == hd + extras_of(est));
                    assert(extra_keys_of(ks) == hk + extra_keys_of(kst));
                    assert forall|i: int| 0 <= i < extras_of(es).len() implies (
                    #[trigger] extras_of(es)[i]).0@ == extra_keys_of(ks)[i] by {
                        if i == 0 {
                            assert(extras_of(es)[0] == (k, es[0].1));
                            assert(extra_keys_of(ks)[0] == k@);
                        } else {
                            assert(extras_of(es)[i] == extras_of(est)[i - 1]);
                            assert(extra_keys_of(ks)[i] == extra_keys_of(kst)[i - 1]);
                        }
                    }
                }
            },
            None => {
                assert(ks[0] is None);
            },
        }
    }
}

/// A parsed content file: the dedicated front-matter fields, the open-ended
/// extras, and the rendered body.
pub struct Parse {
    pub title: Option<String>,
    pub author: Option<String>,
    pub description: Option<String>,
    pub template: Option<String>,
    pub content: String,
    pub extra: Vec<(String, serde_yaml::Value)>,
}

/// What [`Parse::from_str`] guarantees of its result. The body is the
/// renderer's HTML — or the raw text where the renderer rejects it. When a
/// front-matter block opens the text, each dedicated field equals the block's
/// string value for its key, and the extras carry exactly the block's
/// remaining string keys, in order; a text without a block yields defaults
/// throughout. No extra entry shadows a dedicated field.
pub open spec fn parse_post(text: Seq<char>, p: Parse) -> bool {
    &&& p.content@ == (match html_of(text) {
        Ok(h) => h,
        Err(_) => text,
    })
    &&& match frontmatter_of(text) {
        Some(b) => {
            &&& p.title.deep_view() == yaml_str_of(b, "title"@)
            &&& p.author.deep_view() == yaml_str_of(b, "author"@)
            &&& p.description.deep_view() == yaml_str_of(b, "description"@)
            &&& p.template.deep_view() == yaml_str_of(b, "template"@)
            &&& p.extra@.len() == extra_keys_of(yaml_keys_of(b)).len()
            &&& forall|i: int|
                0 <= i < p.extra@.len() ==> (#[trigger] p.extra@[i]).0@ == extra_keys_of(
                    yaml_keys_of(b),
                )[i]
        },
        None => {
            &&& p.title is None
            &&& p.author is None
            &&& p.description is None
            &&& p.template is None
            &&& p.extra@.len() == 0
        },
    }
    &&& forall|i: int| 0 <= i < p.extra@.len() ==> !is_known_key((#[trigger] p.extra@[i]).0@)
}

/// Keeps, in order, exactly the string-keyed entries that do not carry a
/// dedicated front-matter key.
pub fn collect_extras(entries: Vec<(Option<String>, serde_yaml::Value)>) -> (r: Vec<
    (String, serde_yaml::Value),
>)
    ensures
        r@ == extras_of(entries@),
{
    let ghost orig = entries@;
    let mut entries = entries;
    let mut r: Vec<(String, serde_yaml::Value)> = Vec::new();
    proof {
        assert(r@ + extras_of(entries@) =~= extras_of(orig));
    }
    while entries.len() > 0
        invariant
            r@ + extras_of(entries@) == extras_of(orig),
        decreases entries.len(),
    {
        let ghost pre = entries@;
        let ghost rpre = r@;
        let e = entries.remove(0);
        proof {
            assert(entries@ =~= pre.drop_first());
            assert(e == pre[0]);
        }
        match e {
            (Some(k), v) => {
                if !known_key(k.as_str()) {
                    proof {
                        assert(pre[0].0 == Some(k) && pre[0].1 == v);
                    }
                    r.push((k, v));
                    proof {
                        let kv = (pre[0].0->0, pre[0].1);
                        assert(r@ =~= rpre.push(kv));
                        assert(extras_of(pre) == seq![kv] + extras_of(pre.drop_first()));
                        assert(r@ + extras_of(entries@) =~= rpre + (seq![kv] + extras_of(
                            entries@,
                        )));
                    }
                }
            },
            (None, _) => {},
        }
        proof {
            assert(r@ + extras_of(entries@) == extras_of(orig));
        }
    }
    proof {
        assert(extras_of(entries@) =~= Seq::<(String, serde_yaml::Value)>::empty());
        assert(r@ =~= r@ + extras_of(entries@));
    }
    r
}

impl Parse {
    /// Splits a content file into its front-matter fields and its rendered
    /// body, as [`parse_post`] states. Never fails: a missing block or one
    /// that is no mapping yields defaults, and the raw text stands as the
    /// body where the renderer rejects it.
    pub fn from_str(text: &str) -> (p: Parse)
        ensures
            parse_post(text@, p),
    {
        let content = match md_to_html(text) {
            Ok(h) => h,
            Err(_) => text.to_owned(),
        };
        match frontmatter_block(text) {
            Some(block) => {
                let title = yaml_lookup_string(block.as_str(), "title");
                let author = yaml_lookup_string(block.as_str(), "author");
                let description = yaml_lookup_string(block.as_str(), "description");
                let template = yaml_lookup_string(block.as_str(), "template");
                let entries = yaml_entries(block.as_str());
                proof {
                    lemma_extras_not_known(entries@);
                    lemma_extras_keys(entries@, yaml_keys_of(block@));
                }
                let extra = collect_extras(entries);
                Parse { title, author, description, template, content, extra }
            },
            None => Parse {
                title: None,
                author: None,
                description: None,
                template: None,
                content,
                extra: Vec::new(),
            },
        }
    }
}

} // verus!
