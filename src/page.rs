//! The records that the pipeline produces.
use vstd::prelude::*;
use crate::text::{append, chars_of};

verus! {

/// A stored page: rendered body, rendered index region, raw-source excerpt.
#[derive(Debug, Clone)]
pub struct Page {
    pub content: String,
    pub index: String,
    pub preview: String,
}

impl Page {
    /// The page as three character sequences: content, index, preview.
    pub open spec fn view(&self) -> (Seq<char>, Seq<char>, Seq<char>) {
        (self.content@, self.index@, self.preview@)
    }

    /// A page with empty content, index and preview.
    pub fn empty() -> (r: Page)
        ensures
            r.content@.len() == 0,
            r.index@.len() == 0,
            r.preview@.len() == 0,
    {
        Page { content: String::new(), index: String::new(), preview: String::new() }
    }
}

impl Default for Page {
    fn default() -> (r: Page)
        ensures
            r.content@.len() == 0,
            r.index@.len() == 0,
            r.preview@.len() == 0,
    {
        Page::empty()
    }
}

/// One hit of a title search.
#[derive(Debug, Clone)]
pub struct SearchResult {
    pub title: String,
    pub url: String,
    pub preview: String,
}

impl SearchResult {
    /// The result as three character sequences: title, url, preview.
    pub open spec fn view(&self) -> (Seq<char>, Seq<char>, Seq<char>) {
        (self.title@, self.url@, self.preview@)
    }
}

/// The key of the page at the request path `path`: one leading `/` taken
/// off, and `index.md` in place of an empty key.
pub open spec fn page_key_spec(path: Seq<char>) -> Seq<char> {
    let k = if path.len() > 0 && path[0] == '/' { path.drop_first() } else { path };
    if k.len() == 0 {
        seq!['i', 'n', 'd', 'e', 'x', '.', 'm', 'd']
    } else {
        k
    }
}

/// The store key of the page that the request path `path` names.
pub fn page_key(path: &str) -> (r: String)
    ensures
        r@ == page_key_spec(path@),
{
    let cs = chars_of(path);
    let mut k = String::new();
    let mut i: usize = if cs.len() > 0 && cs[0] == '/' { 1 } else { 0 };
    let ghost start = i as int;
    while i < cs.len()
        invariant
            cs@ == path@,
            start <= i <= cs@.len(),
            start == (if path@.len() > 0 && path@[0] == '/' { 1int } else { 0int }),
            k@ =~= cs@.subrange(start, i as int),
        decreases cs@.len() - i,
    {
        crate::text::append_char(&mut k, cs[i]);
        i = i + 1;
    }
    if k.as_str().is_empty() {
        let d = "index.md";
        proof {
            reveal_strlit("index.md");
        }
        append(&mut k, d);
        assert(k@ =~= page_key_spec(path@));
    } else {
        assert(k@ =~= page_key_spec(path@));
    }
    k
}

/// `name` ends with `.md`.
pub open spec fn is_markdown_name_spec(name: Seq<char>) -> bool {
    name.len() >= 3 && name.subrange(name.len() - 3, name.len() as int) == seq!['.', 'm', 'd']
}

/// Whether the file name `name` marks a markdown document.
pub fn is_markdown_name(name: &str) -> (r: bool)
    ensures
        r == is_markdown_name_spec(name@),
{
    let cs = chars_of(name);
    let n = cs.len();
    if n >= 3 && cs[n - 3] == '.' && cs[n - 2] == 'm' && cs[n - 1] == 'd' {
        assert(name@.subrange(n - 3, n as int) =~= seq!['.', 'm', 'd']);
        true
    } else {
        proof {
            if n >= 3 {
                let t = name@.subrange(n - 3, n as int);
                assert(t[0] == cs@[n - 3] && t[1] == cs@[n - 2] && t[2] == cs@[n - 1]);
            }
        }
        false
    }
}

} // verus!
