//! Rendering markdown through comrak, and the page pipeline built on it:
//! index-region extraction, preview, link rewriting and rendering.
use vstd::prelude::*;
use comrak::nodes::NodeValue;
use crate::page::Page;
use crate::preview::{is_preview_of, preview_of};
use crate::region::{body_source, index_source, split_index_region};
use crate::text::{append, chars_of};

verus! {

#[verifier::external_type_specification]
#[verifier::external_body]
pub struct ExComrakOptions(comrak::ComrakOptions);

/// The markdown extensions and render flags that pages are rendered with.
pub struct MarkdownOptions {
    pub strikethrough: bool,
    pub tagfilter: bool,
    pub table: bool,
    pub autolink: bool,
    pub tasklist: bool,
    pub superscript: bool,
    /// Prefix of generated heading ids; `None` generates none.
    pub header_ids: Option<String>,
    /// Render soft line breaks as hard breaks.
    pub hardbreaks: bool,
}

impl MarkdownOptions {
    /// The wiki's configuration: strikethrough, tag filtering, tables,
    /// autolinks, task lists, superscript, heading ids with an empty prefix,
    /// and hard line breaks.
    pub fn wiki() -> (r: MarkdownOptions)
        ensures
            r.strikethrough && r.tagfilter && r.table && r.autolink,
            r.tasklist && r.superscript && r.hardbreaks,
            r.header_ids matches Some(p) && p@.len() == 0,
    {
        MarkdownOptions {
            strikethrough: true,
            tagfilter: true,
            table: true,
            autolink: true,
            tasklist: true,
            superscript: true,
            header_ids: Some(String::new()),
            hardbreaks: true,
        }
    }
}

/// Builds comrak's options from `o`, field by field.
#[verifier::external_body]
fn comrak_options(o: &MarkdownOptions) -> comrak::ComrakOptions {
    let mut c = comrak::ComrakOptions::default();
    c.extension.strikethrough = o.strikethrough;
    c.extension.tagfilter = o.tagfilter;
    c.extension.table = o.table;
    c.extension.autolink = o.autolink;
    c.extension.tasklist = o.tasklist;
    c.extension.superscript = o.superscript;
    c.extension.header_ids = o.header_ids.clone();
    c.render.hardbreaks = o.hardbreaks;
    c
}

/// A comrak configuration; every renderer is built from the wiki's options,
/// which the rendering names below take as given.
pub struct Renderer {
    opts: comrak::ComrakOptions,
}

impl Renderer {
    /// A renderer with the wiki's options.
    pub fn wiki() -> Renderer {
        Renderer { opts: comrak_options(&MarkdownOptions::wiki()) }
    }
}

/// What `comrak::markdown_to_html` returns for `md` under the wiki's options.
pub uninterp spec fn comrak_html(md: Seq<char>) -> Seq<char>;

/// The destinations of the link nodes of the tree that
/// `comrak::parse_document` builds for `md`, in tree order.
pub uninterp spec fn comrak_links(md: Seq<char>) -> Seq<Seq<char>>;

/// What `comrak::format_html` writes, decoded as UTF-8, for the tree of `md`
/// after the destination of its `i`-th link node, in tree order, is set to
/// `dests[i]` for each `i < dests.len()`; `None` when the bytes are not UTF-8.
pub uninterp spec fn comrak_html_linked(md: Seq<char>, dests: Seq<Seq<char>>) -> Option<Seq<char>>;

/// The views of a sequence of strings.
pub open spec fn views(v: Seq<String>) -> Seq<Seq<char>> {
    v.map_values(|s: String| s@)
}

/// Relies on `comrak::markdown_to_html`: the HTML of `md`.
#[verifier::external_body]
fn markdown_html(r: &Renderer, md: &str) -> (out: String)
    ensures
        out@ == comrak_html(md@),
{
    comrak::markdown_to_html(md, &r.opts)
}

/// Relies on `comrak::parse_document` and the tree-order walk of
/// `descendants`: the destinations of the links of `md`.
#[verifier::external_body]
fn link_destinations(r: &Renderer, md: &str) -> (out: Vec<String>)
    ensures
        views(out@) == comrak_links(md@),
{
    let arena = comrak::Arena::new();
    let root = comrak::parse_document(&arena, md, &r.opts);
    let mut out = Vec::new();
    for node in root.descendants() {
        if let NodeValue::Link(link) = &node.data.borrow().value {
            out.push(link.url.clone());
        }
    }
    out
}

/// Relies on `comrak::parse_document` and `comrak::format_html`: the HTML of
/// `md` with the links, in tree order, pointing to `dests`.
#[verifier::external_body]
fn render_linked(r: &Renderer, md: &str, dests: Vec<String>) -> (out: Option<String>)
    ensures
        out matches Some(h) ==> comrak_html_linked(md@, views(dests@)) == Some(h@),
        out is None ==> comrak_html_linked(md@, views(dests@)) is None,
{
    let arena = comrak::Arena::new();
    let root = comrak::parse_document(&arena, md, &r.opts);
    let mut dests = dests.into_iter();
    for node in root.descendants() {
        if let NodeValue::Link(ref mut link) = node.data.borrow_mut().value {
            if let Some(d) = dests.next() {
                link.url = d;
            }
        }
    }
    let mut html = Vec::new();
    comrak::format_html(root, &r.opts, &mut html).ok()?;
    String::from_utf8(html).ok()
}

/// A root-relative destination: one leading `/`, not followed by another.
pub open spec fn is_root_relative(d: Seq<char>) -> bool {
    d.len() > 0 && d[0] == '/' && !(d.len() > 1 && d[1] == '/')
}

/// The destination `d` after mounting: `/path` becomes `/w/path`, any other
/// destination stays as it is.
pub open spec fn mounted(d: Seq<char>) -> Seq<char> {
    if is_root_relative(d) {
        seq!['/', 'w'] + d
    } else {
        d
    }
}

/// Each destination of `ds` after mounting.
pub open spec fn mounted_all(ds: Seq<Seq<char>>) -> Seq<Seq<char>> {
    ds.map_values(|d: Seq<char>| mounted(d))
}

/// The destination `d` with the wiki's mount path put in front of it when it
/// is root-relative.
pub fn mount_destination(d: &str) -> (r: String)
    ensures
        r@ == mounted(d@),
{
    let cs = chars_of(d);
    if cs.len() > 0 && cs[0] == '/' && !(cs.len() > 1 && cs[1] == '/') {
        let mut r = String::new();
        append_prefix(&mut r);
        append(&mut r, d);
        proof {
            assert(r@ =~= seq!['/', 'w'] + d@);
        }
        r
    } else {
        d.to_owned()
    }
}

fn append_prefix(r: &mut String)
    requires
        old(r)@.len() == 0,
    ensures
        final(r)@ == seq!['/', 'w'],
{
    let p = "/w";
    proof {
        reveal_strlit("/w");
    }
    append(r, p);
    assert(final(r)@ =~= seq!['/', 'w']);
}

/// Mounts each destination of `ds`, keeping their order.
pub fn mount_destinations(ds: &Vec<String>) -> (r: Vec<String>)
    ensures
        views(r@) == mounted_all(views(ds@)),
{
    let mut r: Vec<String> = Vec::new();
    let mut i: usize = 0;
    while i < ds.len()
        invariant
            i <= ds@.len(),
            r@.len() == i,
            forall|j: int| 0 <= j < i ==> #[trigger] r@[j]@ == mounted(ds@[j]@),
        decreases ds@.len() - i,
    {
        let m = mount_destination(ds[i].as_str());
        r.push(m);
        i = i + 1;
    }
    assert(views(r@) =~= mounted_all(views(ds@)));
    r
}

/// Why a page could not be assembled.
#[derive(Debug, Clone, Copy, PartialEq, Eq)]
pub enum AssembleError {
    /// The renderer gave bytes that are not UTF-8.
    InternalRenderDefect,
}

/// The body HTML of the markdown `body`: its tree rendered with every
/// root-relative link mounted under the wiki's path.
pub open spec fn body_html(body: Seq<char>) -> Option<Seq<char>> {
    comrak_html_linked(body, mounted_all(comrak_links(body)))
}

/// The index HTML of the markdown `md`: its first index region rendered on
/// its own, or nothing when it has none.
pub open spec fn index_html(md: Seq<char>) -> Seq<char> {
    match index_source(md) {
        Some(inner) => comrak_html(inner),
        None => Seq::empty(),
    }
}

/// `p` (content, index, preview) is the page that the markdown `md` becomes.
pub open spec fn is_page_of(md: Seq<char>, p: (Seq<char>, Seq<char>, Seq<char>)) -> bool {
    &&& body_html(body_source(md)) == Some(p.0)
    &&& p.1 == index_html(md)
    &&& is_preview_of(body_source(md), p.2)
}

/// Turns the markdown `md` into a page: its first index region is rendered
/// as the index and taken out of the source, the rest gives the preview and,
/// with root-relative links mounted, the content.
pub fn assemble(md: &str) -> (r: Result<Page, AssembleError>)
    ensures
        r is Ok <==> body_html(body_source(md@)) is Some,
        r matches Ok(p) ==> is_page_of(md@, p@),
        r matches Err(e) ==> e == AssembleError::InternalRenderDefect,
{
    let renderer = Renderer::wiki();
    let (index_src, body) = split_index_region(md);
    let index = match index_src {
        Some(inner) => markdown_html(&renderer, inner.as_str()),
        None => String::new(),
    };
    let preview = preview_of(body.as_str());
    let links = link_destinations(&renderer, body.as_str());
    let dests = mount_destinations(&links);
    match render_linked(&renderer, body.as_str(), dests) {
        Some(content) => Ok(Page { content, index, preview }),
        None => Err(AssembleError::InternalRenderDefect),
    }
}

/// Assembling is a function of the source: two pages assembled from the
/// same markdown are the same page.
pub proof fn lemma_assemble_deterministic(
    md: Seq<char>,
    p1: (Seq<char>, Seq<char>, Seq<char>),
    p2: (Seq<char>, Seq<char>, Seq<char>),
)
    requires
        is_page_of(md, p1),
        is_page_of(md, p2),
    ensures
        p1 == p2,
{
    crate::preview::lemma_preview_unique(body_source(md), p1.2, p2.2);
}

} // verus!
