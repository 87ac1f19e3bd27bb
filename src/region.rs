//! The index region: an optional block that opens with `+++INDEX+++` and a
//! line break and closes with a line break and `---INDEX---`, rendered apart
//! from the page body.
use vstd::prelude::*;
use crate::text::append;

verus! {

/// The pattern that finds the first index region; group 1 is its inner text.
pub const INDEX_PATTERN: &'static str = "(?s)\\+\\+\\+INDEX\\+\\+\\+\\n(.*?)\\n---INDEX---";

/// The opening delimiter, with the line break that ends it.
pub open spec fn region_open() -> Seq<char> {
    seq!['+', '+', '+', 'I', 'N', 'D', 'E', 'X', '+', '+', '+', '\n']
}

/// The closing delimiter, with the line break that precedes it.
pub open spec fn region_close() -> Seq<char> {
    seq!['\n', '-', '-', '-', 'I', 'N', 'D', 'E', 'X', '-', '-', '-']
}

/// `pat` occurs in `s` at position `i`.
pub open spec fn occurs_at(s: Seq<char>, pat: Seq<char>, i: int) -> bool {
    0 <= i && i + pat.len() <= s.len() && s.subrange(i, i + pat.len()) == pat
}

/// A region opens at `a` and its closing delimiter starts at `z`.
pub open spec fn region_at(s: Seq<char>, a: int, z: int) -> bool {
    &&& occurs_at(s, region_open(), a)
    &&& a + region_open().len() <= z
    &&& occurs_at(s, region_close(), z)
}

/// `s` holds at least one index region.
pub open spec fn has_region(s: Seq<char>) -> bool {
    exists|a: int, z: int| region_at(s, a, z)
}

/// The region at `a`..`z` is the one found first: no region opens earlier,
/// and no closing delimiter comes between its opening and `z`.
pub open spec fn is_first_region(s: Seq<char>, a: int, z: int) -> bool {
    &&& region_at(s, a, z)
    &&& forall|a2: int, z2: int| region_at(s, a2, z2) ==> a <= a2
    &&& forall|z2: int|
        a + region_open().len() <= z2 < z ==> !occurs_at(s, region_close(), z2)
}

/// The first region of `s`, as the positions of its two delimiters.
pub open spec fn first_region(s: Seq<char>) -> (int, int) {
    choose|a: int, z: int| is_first_region(s, a, z)
}

/// The inner text of the first region of `s`, if it has one.
pub open spec fn index_source(s: Seq<char>) -> Option<Seq<char>> {
    if has_region(s) {
        let (a, z) = first_region(s);
        Some(s.subrange(a + region_open().len(), z))
    } else {
        None
    }
}

/// `s` with its first region, delimiters included, taken out.
pub open spec fn body_source(s: Seq<char>) -> Seq<char> {
    if has_region(s) {
        let (a, z) = first_region(s);
        s.subrange(0, a) + s.subrange(z + region_close().len(), s.len() as int)
    } else {
        s
    }
}

/// Only one region of a text is the first.
pub proof fn lemma_first_region_unique(s: Seq<char>, a: int, z: int, a2: int, z2: int)
    requires
        is_first_region(s, a, z),
        is_first_region(s, a2, z2),
    ensures
        a == a2,
        z == z2,
{
    assert(a <= a2 && a2 <= a);
    if z < z2 {
        assert(!occurs_at(s, region_close(), z));
    } else if z2 < z {
        assert(!occurs_at(s, region_close(), z2));
    }
}

/// A text cut around its first region gives that region's inner text and
/// the text on either side of it.
proof fn lemma_split_at_first_region(s: Seq<char>, pre: Seq<char>, inner: Seq<char>, post: Seq<char>)
    requires
        s == pre + region_open() + inner + region_close() + post,
        is_first_region(s, pre.len() as int, (pre.len() + region_open().len() + inner.len()) as int),
    ensures
        has_region(s),
        index_source(s) == Some(inner),
        body_source(s) == pre + post,
{
    let a = pre.len() as int;
    let z = (pre.len() + 12 + inner.len()) as int;
    assert(region_at(s, a, z));
    let (fa, fz) = first_region(s);
    lemma_first_region_unique(s, a, z, fa, fz);
    assert(s.subrange(a + 12, z) =~= inner);
    assert(s.subrange(0, a) =~= pre);
    assert(s.subrange(z + 12, s.len() as int) =~= post);
}

/// Relies on `regex::Regex::new` and `regex::Regex::captures`: the leftmost
/// match of the index pattern, where the lazy group takes the shortest inner
/// text, split into the text before it, the inner text and the text after it.
#[verifier::external_body]
fn find_index_region(pattern: &str, md: &str) -> (r: Option<(String, String, String)>)
    requires
        pattern@ == INDEX_PATTERN@,
    ensures
        r is None <==> !has_region(md@),
        r matches Some((pre, inner, post)) ==> {
            &&& md@ == pre@ + region_open() + inner@ + region_close() + post@
            &&& is_first_region(
                md@,
                pre@.len() as int,
                (pre@.len() + region_open().len() + inner@.len()) as int,
            )
        },
{
    let re = regex::Regex::new(pattern).ok()?;
    let caps = re.captures(md)?;
    let (all, inner) = (caps.get(0)?, caps.get(1)?);
    Some((md[..all.start()].to_string(), inner.as_str().to_string(), md[all.end()..].to_string()))
}

/// Splits `md` into the inner text of its first index region, if any, and the
/// text that remains once that region, delimiters included, is removed.
pub fn split_index_region(md: &str) -> (r: (Option<String>, String))
    ensures
        r.0 is Some <==> has_region(md@),
        r.0 matches Some(inner) ==> Some(inner@) == index_source(md@),
        r.1@ == body_source(md@),
{
    match find_index_region(INDEX_PATTERN, md) {
        Some((pre, inner, post)) => {
            proof {
                lemma_split_at_first_region(md@, pre@, inner@, post@);
            }
            let mut body = pre;
            append(&mut body, post.as_str());
            (Some(inner), body)
        },
        None => (None, md.to_owned()),
    }
}

} // verus!
