//! The plain-text excerpt stored with each page.
use vstd::prelude::*;
use vstd::string::*;
use vstd::utf8::*;

verus! {

/// Bytes an excerpt takes before it is widened to a character boundary.
pub const PREVIEW_BYTES: usize = 500;

/// `k` is the length of the excerpt of the UTF-8 bytes `b`: the least
/// character boundary at or after `min(b.len(), 500)`.
pub open spec fn is_preview_len(b: Seq<u8>, k: int) -> bool {
    let lo = if b.len() < PREVIEW_BYTES { b.len() as int } else { PREVIEW_BYTES as int };
    &&& lo <= k <= b.len()
    &&& is_char_boundary(b, k)
    &&& forall|j: int| lo <= j < k ==> !is_char_boundary(b, j)
}

/// `p` is the excerpt of `s`: its bytes are the first `k` bytes of `s`,
/// where `k` is the excerpt length of `s`.
pub open spec fn is_preview_of(s: Seq<char>, p: Seq<char>) -> bool {
    &&& is_preview_len(encode_utf8(s), encode_utf8(p).len() as int)
    &&& encode_utf8(p) == encode_utf8(s).subrange(0, encode_utf8(p).len() as int)
}

/// A text has one excerpt.
pub proof fn lemma_preview_unique(s: Seq<char>, p1: Seq<char>, p2: Seq<char>)
    requires
        is_preview_of(s, p1),
        is_preview_of(s, p2),
    ensures
        p1 == p2,
{
    let b = encode_utf8(s);
    let k1 = encode_utf8(p1).len() as int;
    let k2 = encode_utf8(p2).len() as int;
    if k1 < k2 {
        assert(!is_char_boundary(b, k1));
    } else if k2 < k1 {
        assert(!is_char_boundary(b, k2));
    }
    encode_utf8_decode_utf8(p1);
    encode_utf8_decode_utf8(p2);
}

/// On an ASCII text of at least 500 characters the excerpt is exactly its
/// first 500 characters.
pub proof fn lemma_preview_of_ascii(s: Seq<char>, p: Seq<char>)
    requires
        is_ascii_chars(s),
        s.len() >= PREVIEW_BYTES,
        is_preview_of(s, p),
    ensures
        encode_utf8(p).len() == PREVIEW_BYTES,
        p == s.subrange(0, PREVIEW_BYTES as int),
{
    let b = encode_utf8(s);
    is_ascii_chars_encode_utf8(s);
    encode_utf8_valid_utf8(s);
    let k = PREVIEW_BYTES as int;
    // Every byte of an ASCII text starts a character.
    if k < b.len() {
        is_char_boundary_iff_not_is_continuation_byte(b, k);
        assert(b[k] == s[k] as u8);
    } else {
        is_char_boundary_start_end_of_seq(b);
    }
    assert(is_char_boundary(b, k));
    let q = s.subrange(0, k);
    assert(is_ascii_chars(q));
    is_ascii_chars_encode_utf8(q);
    assert(encode_utf8(q) =~= b.subrange(0, k));
    assert(is_preview_of(s, q));
    lemma_preview_unique(s, p, q);
}

/// The raw-source excerpt of `md`: its first 500 bytes, extended forward to
/// the next character boundary, or all of `md` when it is shorter.
pub fn preview_of(md: &str) -> (r: String)
    ensures
        is_preview_of(md@, r@),
{
    let ghost b = md.spec_bytes();
    proof {
        encode_utf8_valid_utf8(md@);
        is_char_boundary_start_end_of_seq(b);
    }
    let n = md.as_bytes().len();
    let lo: usize = if n < PREVIEW_BYTES { n } else { PREVIEW_BYTES };
    let mut k: usize = lo;
    while !md.is_char_boundary(k)
        invariant
            b == md.spec_bytes(),
            n == b.len(),
            valid_utf8(b),
            is_char_boundary(b, n as int),
            lo <= k <= n,
            lo == (if b.len() < PREVIEW_BYTES { b.len() as int } else { PREVIEW_BYTES as int }),
            forall|j: int| lo <= j < k ==> !is_char_boundary(b, j),
        decreases n - k,
    {
        k = k + 1;
    }
    let (head, _tail) = md.split_at(k);
    head.to_owned()
}

} // verus!
