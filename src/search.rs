//! Title search over stored pages.
use vstd::prelude::*;
use crate::page::{Page, SearchResult};
use crate::rank::{is_ranking, lemma_ranking_unique, rank_order};
use crate::text::{append, append_char, chars_of, lower_of, lowercase};

verus! {

/// The part of `k` after its last `/`, or all of `k` when it has none.
pub open spec fn last_segment(k: Seq<char>) -> Seq<char>
    decreases k.len(),
{
    if k.len() == 0 {
        k
    } else if k.last() == '/' {
        Seq::empty()
    } else {
        last_segment(k.drop_last()).push(k.last())
    }
}

/// `t` without one trailing `.md`, when it ends so.
pub open spec fn without_md(t: Seq<char>) -> Seq<char> {
    if t.len() >= 3 && t.subrange(t.len() - 3, t.len() as int) == seq!['.', 'm', 'd'] {
        t.subrange(0, t.len() - 3)
    } else {
        t
    }
}

/// `t` with each `-` replaced by a space.
pub open spec fn dashes_to_spaces(t: Seq<char>) -> Seq<char> {
    t.map_values(|c: char| if c == '-' { ' ' } else { c })
}

/// The title of the page stored under the key `k`.
pub open spec fn title_spec(k: Seq<char>) -> Seq<char> {
    dashes_to_spaces(without_md(last_segment(k)))
}

/// The address of the page stored under the key `k`.
pub open spec fn url_spec(k: Seq<char>) -> Seq<char> {
    seq!['w', '/'] + k
}

/// `q` occurs in `s` as a run of consecutive characters.
pub open spec fn contains(s: Seq<char>, q: Seq<char>) -> bool {
    exists|i: int| 0 <= i && i + q.len() <= s.len() && #[trigger] s.subrange(i, i + q.len()) == q
}

/// A stored entry seen as its key and its page.
pub open spec fn entry_view(e: (String, Page)) -> (Seq<char>, (Seq<char>, Seq<char>, Seq<char>)) {
    (e.0@, e.1@)
}

/// The entries of a store, seen as keys and pages.
pub open spec fn entries_view(es: Seq<(String, Page)>) -> Seq<(Seq<char>, (Seq<char>, Seq<char>, Seq<char>))> {
    es.map_values(|e: (String, Page)| entry_view(e))
}

/// The result that the entry with key `k` and page `p` gives.
pub open spec fn result_spec(k: Seq<char>, p: (Seq<char>, Seq<char>, Seq<char>)) -> (Seq<char>, Seq<char>, Seq<char>) {
    (title_spec(k), url_spec(k), p.2)
}

/// The results of the entries whose key holds `q`, in the entries' order.
pub open spec fn hits(q: Seq<char>, es: Seq<(Seq<char>, (Seq<char>, Seq<char>, Seq<char>))>) -> Seq<(Seq<char>, Seq<char>, Seq<char>)>
    decreases es.len(),
{
    if es.len() == 0 {
        Seq::empty()
    } else {
        let h = hits(q, es.drop_last());
        let e = es.last();
        if contains(e.0, q) {
            h.push(result_spec(e.0, e.1))
        } else {
            h
        }
    }
}

/// The views of a sequence of results.
pub open spec fn results_view(rs: Seq<SearchResult>) -> Seq<(Seq<char>, Seq<char>, Seq<char>)> {
    rs.map_values(|r: SearchResult| r@)
}

/// `out` is `items` in the order that `order` gives.
pub open spec fn permuted<T>(items: Seq<T>, order: Seq<usize>, out: Seq<T>) -> bool {
    &&& out.len() == order.len()
    &&& forall|i: int| 0 <= i < out.len() ==> #[trigger] out[i] == items[order[i] as int]
}

/// `out` is `items` ranked by `keys`: the highest key first, equal keys in
/// the order they came in.
pub open spec fn ranked_by<T>(items: Seq<T>, keys: Seq<u64>, out: Seq<T>) -> bool {
    exists|order: Seq<usize>| #[trigger] is_ranking(keys, order) && permuted(items, order, out)
}

/// Items and keys have one ranked sequence: a search's results are
/// determined by the store's entries, the query and the similarity keys.
pub proof fn lemma_ranked_unique<T>(items: Seq<T>, keys: Seq<u64>, out1: Seq<T>, out2: Seq<T>)
    requires
        ranked_by(items, keys, out1),
        ranked_by(items, keys, out2),
    ensures
        out1 == out2,
{
    let o1 = choose|o: Seq<usize>| #[trigger] is_ranking(keys, o) && permuted(items, o, out1);
    let o2 = choose|o: Seq<usize>| #[trigger] is_ranking(keys, o) && permuted(items, o, out2);
    lemma_ranking_unique(keys, o1, o2);
    assert(out1 =~= out2);
}

/// The bit pattern of what `strsim::jaro_winkler` returns for `a` and `b`;
/// the similarity is a float in `[0, 1]`, whose bit patterns order as the
/// values do.
pub uninterp spec fn jaro_winkler_key(a: Seq<char>, b: Seq<char>) -> u64;

/// The similarity keys of the titles of `rs` against `q`.
pub open spec fn keys_against(rs: Seq<(Seq<char>, Seq<char>, Seq<char>)>, q: Seq<char>) -> Seq<u64> {
    rs.map_values(|r: (Seq<char>, Seq<char>, Seq<char>)| jaro_winkler_key(r.0, q))
}

/// Relies on `strsim::jaro_winkler`: the similarity of `a` and `b`, as the
/// bit pattern of the float.
#[verifier::external_body]
fn similarity_key(a: &str, b: &str) -> (r: u64)
    ensures
        r == jaro_winkler_key(a@, b@),
{
    strsim::jaro_winkler(a, b).to_bits()
}

proof fn lemma_last_segment(k: Seq<char>, s: int)
    requires
        0 <= s <= k.len(),
        s == 0 || k[s - 1] == '/',
        forall|j: int| s <= j < k.len() ==> k[j] != '/',
    ensures
        last_segment(k) == k.subrange(s, k.len() as int),
    decreases k.len(),
{
    if k.len() == s {
        assert(k.subrange(s, k.len() as int) =~= Seq::<char>::empty());
    } else {
        lemma_last_segment(k.drop_last(), s);
        assert(k.subrange(s, k.len() as int) =~= k.drop_last().subrange(s, k.len() - 1).push(k.last()));
    }
}

/// The title of the page stored under `key`: the last `/`-separated segment,
/// without a trailing `.md`, with each `-` as a space.
pub fn title_of(key: &str) -> (t: String)
    ensures
        t@ == title_spec(key@),
{
    let cs = chars_of(key);
    let n = cs.len();
    let mut s: usize = n;
    while s > 0 && cs[s - 1] != '/'
        invariant
            s <= n == cs@.len(),
            forall|j: int| s <= j < n ==> cs@[j] != '/',
        decreases s,
    {
        s = s - 1;
    }
    proof {
        lemma_last_segment(cs@, s as int);
    }
    let ghost seg = cs@.subrange(s as int, n as int);
    let mut e: usize = n;
    if n - s >= 3 && cs[n - 3] == '.' && cs[n - 2] == 'm' && cs[n - 1] == 'd' {
        e = n - 3;
        assert(seg.subrange(seg.len() - 3, seg.len() as int) =~= seq!['.', 'm', 'd']);
    } else {
        assert(n - s >= 3 ==> seg.subrange(seg.len() - 3, seg.len() as int)[0] == cs@[n - 3]);
        assert(n - s >= 3 ==> seg.subrange(seg.len() - 3, seg.len() as int)[1] == cs@[n - 2]);
        assert(n - s >= 3 ==> seg.subrange(seg.len() - 3, seg.len() as int)[2] == cs@[n - 1]);
    }
    assert(without_md(seg) =~= cs@.subrange(s as int, e as int));
    let mut t = String::new();
    let mut i: usize = s;
    while i < e
        invariant
            s <= i <= e <= n == cs@.len(),
            t@ =~= dashes_to_spaces(cs@.subrange(s as int, i as int)),
        decreases e - i,
    {
        let c = cs[i];
        let d = if c == '-' { ' ' } else { c };
        append_char(&mut t, d);
        i = i + 1;
        assert(dashes_to_spaces(cs@.subrange(s as int, i as int)) =~= dashes_to_spaces(
            cs@.subrange(s as int, (i - 1) as int),
        ).push(d));
    }
    t
}

/// The address of the page stored under `key`: `w/` followed by the key.
pub fn url_of(key: &str) -> (u: String)
    ensures
        u@ == url_spec(key@),
{
    let mut u = String::new();
    let p = "w/";
    proof {
        reveal_strlit("w/");
    }
    append(&mut u, p);
    append(&mut u, key);
    assert(u@ =~= url_spec(key@));
    u
}

/// Whether `q` occurs in `s` as a run of consecutive characters.
pub fn contains_chars(s: &Vec<char>, q: &Vec<char>) -> (r: bool)
    ensures
        r == contains(s@, q@),
{
    if q.len() == 0 {
        assert(s@.subrange(0, 0 + q@.len() as int) =~= q@);
        return true;
    }
    if q.len() > s.len() {
        return false;
    }
    let sn = s.len();
    let last = sn - q.len();
    let mut i: usize = 0;
    while i <= last
        invariant
            sn == s@.len(),
            last == s@.len() - q@.len(),
            q@.len() > 0,
            i <= last + 1,
            forall|i2: int| 0 <= i2 < i ==> #[trigger] s@.subrange(i2, i2 + q@.len()) != q@,
        decreases last + 1 - i,
    {
        let mut j: usize = 0;
        while j < q.len() && s[i + j] == q[j]
            invariant
                i <= last == s@.len() - q@.len(),
                sn == s@.len(),
                j <= q@.len(),
                forall|j2: int| 0 <= j2 < j ==> s@[i + j2] == q@[j2],
            decreases q@.len() - j,
        {
            j = j + 1;
        }
        if j == q.len() {
            assert(s@.subrange(i as int, i + q@.len()) =~= q@);
            return true;
        }
        assert(s@.subrange(i as int, i + q@.len())[j as int] != q@[j as int]);
        i = i + 1;
    }
    false
}

fn copy_result(r: &SearchResult) -> (c: SearchResult)
    ensures
        c@ == r@,
{
    SearchResult { title: r.title.clone(), url: r.url.clone(), preview: r.preview.clone() }
}

/// The results of the entries whose key holds `q`, in the entries' order.
pub fn matching_results(q: &str, entries: &Vec<(String, Page)>) -> (r: Vec<SearchResult>)
    ensures
        results_view(r@) == hits(q@, entries_view(entries@)),
{
    let qs = chars_of(q);
    let mut r: Vec<SearchResult> = Vec::new();
    let mut i: usize = 0;
    while i < entries.len()
        invariant
            i <= entries@.len(),
            qs@ == q@,
            results_view(r@) == hits(q@, entries_view(entries@).subrange(0, i as int)),
        decreases entries@.len() - i,
    {
        let key = &entries[i].0;
        let ks = chars_of(key.as_str());
        let ghost before = r@;
        if contains_chars(&ks, &qs) {
            let res = SearchResult {
                title: title_of(key.as_str()),
                url: url_of(key.as_str()),
                preview: entries[i].1.preview.clone(),
            };
            r.push(res);
            assert(results_view(r@) =~= results_view(before).push(res@));
        }
        assert(entries_view(entries@).subrange(0, i + 1).drop_last() =~= entries_view(entries@).subrange(0, i as int));
        i = i + 1;
    }
    assert(entries_view(entries@).subrange(0, i as int) =~= entries_view(entries@));
    r
}

/// `hits` reordered by `keys`: the highest key first, equal keys in the
/// order they came in.
pub fn rank_results(hits: &Vec<SearchResult>, keys: &Vec<u64>) -> (r: Vec<SearchResult>)
    requires
        hits@.len() == keys@.len(),
    ensures
        ranked_by(results_view(hits@), keys@, results_view(r@)),
{
    let order = rank_order(keys);
    let mut r: Vec<SearchResult> = Vec::new();
    let mut i: usize = 0;
    while i < order.len()
        invariant
            is_ranking(keys@, order@),
            hits@.len() == keys@.len(),
            i <= order@.len(),
            r@.len() == i,
            forall|j: int| 0 <= j < i ==> #[trigger] r@[j]@ == hits@[order@[j] as int]@,
        decreases order@.len() - i,
    {
        r.push(copy_result(&hits[order[i]]));
        i = i + 1;
    }
    assert(permuted(results_view(hits@), order@, results_view(r@)));
    r
}

/// Ranks `hits` by the similarity of their titles to `query`.
fn rank_by_similarity(query: &str, hits: &Vec<SearchResult>) -> (r: Vec<SearchResult>)
    ensures
        ranked_by(results_view(hits@), keys_against(results_view(hits@), query@), results_view(r@)),
{
    let mut keys: Vec<u64> = Vec::new();
    let mut i: usize = 0;
    while i < hits.len()
        invariant
            i <= hits@.len(),
            keys@ =~= keys_against(results_view(hits@), query@).subrange(0, i as int),
        decreases hits@.len() - i,
    {
        keys.push(similarity_key(hits[i].title.as_str(), query));
        i = i + 1;
    }
    assert(keys@ =~= keys_against(results_view(hits@), query@));
    rank_results(hits, &keys)
}

/// The results of a search for `query` over the store's `entries`: the
/// entries whose key holds the lower-cased query, ranked by the similarity of
/// their titles to the query as given, equal similarities in store order.
pub fn search(query: &str, entries: &Vec<(String, Page)>) -> (r: Vec<SearchResult>)
    ensures
        ranked_by(
            hits(lower_of(query@), entries_view(entries@)),
            keys_against(hits(lower_of(query@), entries_view(entries@)), query@),
            results_view(r@),
        ),
{
    let lowered = lowercase(query);
    let found = matching_results(lowered.as_str(), entries);
    rank_by_similarity(query, &found)
}

} // verus!
