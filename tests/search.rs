use knowbase::page::{Page, SearchResult};
use knowbase::rank::rank_order;
use knowbase::search::{contains_chars, matching_results, rank_results, search, title_of, url_of};

fn stored(key: &str, preview: &str) -> (String, Page) {
    (
        key.to_string(),
        Page { content: String::new(), index: String::new(), preview: preview.to_string() },
    )
}

fn hit(title: &str) -> SearchResult {
    SearchResult { title: title.to_string(), url: String::new(), preview: String::new() }
}

#[test]
fn search_ranks_exact_title_first() {
    let entries = vec![
        stored("docs/setup-advanced.md", "advanced"),
        stored("docs/setup.md", "basic"),
        stored("docs/other.md", "other"),
    ];
    let results = search("setup", &entries);
    assert_eq!(results.len(), 2);
    assert_eq!(results[0].title, "setup");
    assert_eq!(results[0].url, "w/docs/setup.md");
    assert_eq!(results[0].preview, "basic");
    assert_eq!(results[1].title, "setup advanced");
    assert_eq!(results[1].url, "w/docs/setup-advanced.md");
}

#[test]
fn search_lowercases_the_query() {
    let entries = vec![stored("notes/rust.md", "r"), stored("notes/Rust-Tips.md", "t")];
    let results = search("RUST", &entries);
    assert_eq!(results.len(), 1);
    assert_eq!(results[0].title, "rust");
    let none = search("Missing", &entries);
    assert!(none.is_empty());
}

#[test]
fn search_on_empty_store() {
    assert!(search("anything", &Vec::new()).is_empty());
}

#[test]
fn titles_from_keys() {
    assert_eq!(title_of("docs/setup-advanced.md"), "setup advanced");
    assert_eq!(title_of("index.md"), "index");
    assert_eq!(title_of("a/b/c"), "c");
    assert_eq!(title_of("dir/"), "");
    assert_eq!(title_of("x.md.md"), "x.md");
    assert_eq!(title_of("md"), "md");
    assert_eq!(url_of("docs/a.md"), "w/docs/a.md");
}

#[test]
fn substring_matching() {
    let s: Vec<char> = "docs/setup.md".chars().collect();
    assert!(contains_chars(&s, &"setup".chars().collect()));
    assert!(contains_chars(&s, &Vec::new()));
    assert!(!contains_chars(&s, &"Setup".chars().collect()));
    assert!(!contains_chars(&"ab".chars().collect(), &"abc".chars().collect()));
}

#[test]
fn matching_keeps_store_order() {
    let entries = vec![stored("b/setup.md", "1"), stored("a/x.md", "2"), stored("a/setup.md", "3")];
    let found = matching_results("setup", &entries);
    assert_eq!(found.len(), 2);
    assert_eq!(found[0].preview, "1");
    assert_eq!(found[1].preview, "3");
}

#[test]
fn ranking_is_stable_and_descending() {
    assert_eq!(rank_order(&vec![3, 7, 3, 9, 7]), vec![3, 1, 4, 0, 2]);
    assert_eq!(rank_order(&vec![]), Vec::<usize>::new());
    let ranked = rank_results(&vec![hit("a"), hit("b"), hit("c")], &vec![1, 5, 1]);
    let titles: Vec<&str> = ranked.iter().map(|r| r.title.as_str()).collect();
    assert_eq!(titles, vec!["b", "a", "c"]);
}
