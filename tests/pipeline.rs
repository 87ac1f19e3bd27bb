use knowbase::markdown::{assemble, mount_destination, mount_destinations, AssembleError};
use knowbase::page::{is_markdown_name, page_key, Page};
use knowbase::preview::preview_of;
use knowbase::region::split_index_region;
use knowbase::state::State;

#[test]
fn assemble_is_idempotent() {
    let md = "+++INDEX+++\n- [Home](/index.md)\n---INDEX---\n# Title\n\nSee [setup](/docs/setup.md).\n";
    let a = assemble(md).unwrap();
    let b = assemble(md).unwrap();
    assert_eq!(a.content, b.content);
    assert_eq!(a.index, b.index);
    assert_eq!(a.preview, b.preview);
}

#[test]
fn index_region_is_rendered_apart() {
    let page = assemble("+++INDEX+++\nHello\n---INDEX---\nBody text").unwrap();
    assert_eq!(page.index, "<p>Hello</p>\n");
    assert!(page.content.contains("Body text"));
    assert!(!page.content.contains("+++INDEX+++"));
    assert!(!page.content.contains("---INDEX---"));
    assert!(!page.content.contains("INDEX"));
    assert_eq!(page.preview, "\nBody text");
}

#[test]
fn index_region_absent_leaves_source() {
    let (inner, body) = split_index_region("no region here\n---INDEX---\n");
    assert!(inner.is_none());
    assert_eq!(body, "no region here\n---INDEX---\n");
    let page = assemble("plain").unwrap();
    assert_eq!(page.index, "");
    assert_eq!(page.content, "<p>plain</p>\n");
}

#[test]
fn only_first_index_region_is_taken() {
    let src = "a\n+++INDEX+++\none\n---INDEX---\nb\n+++INDEX+++\ntwo\n---INDEX---\nc";
    let (inner, body) = split_index_region(src);
    assert_eq!(inner.unwrap(), "one");
    assert_eq!(body, "a\n\nb\n+++INDEX+++\ntwo\n---INDEX---\nc");
}

#[test]
fn index_region_takes_the_nearest_close() {
    let (inner, body) = split_index_region("+++INDEX+++\nx\n---INDEX---\ny\n---INDEX---");
    assert_eq!(inner.unwrap(), "x");
    assert_eq!(body, "\ny\n---INDEX---");
    let (inner, body) = split_index_region("+++INDEX+++\n\n---INDEX---");
    assert_eq!(inner.unwrap(), "");
    assert_eq!(body, "");
}

#[test]
fn root_relative_links_are_mounted() {
    let page = assemble("[a](/foo/bar) [b](http://example.com) [c](#section)").unwrap();
    assert!(page.content.contains("href=\"/w/foo/bar\""));
    assert!(page.content.contains("href=\"http://example.com\""));
    assert!(page.content.contains("href=\"#section\""));
    assert!(!page.content.contains("href=\"/foo/bar\""));
}

#[test]
fn links_in_nested_blocks_are_mounted() {
    let page = assemble("> - item [x](/deep/page.md)\n\n| h |\n|---|\n| [t](/t) |\n").unwrap();
    assert!(page.content.contains("href=\"/w/deep/page.md\""));
    assert!(page.content.contains("href=\"/w/t\""));
}

#[test]
fn mount_destination_cases() {
    assert_eq!(mount_destination("/foo/bar"), "/w/foo/bar");
    assert_eq!(mount_destination("/"), "/w/");
    assert_eq!(mount_destination("http://example.com"), "http://example.com");
    assert_eq!(mount_destination("#section"), "#section");
    assert_eq!(mount_destination("relative/page.md"), "relative/page.md");
    assert_eq!(mount_destination("//host/x"), "//host/x");
    assert_eq!(mount_destination(""), "");
    let v = mount_destinations(&vec!["/a".to_string(), "b".to_string()]);
    assert_eq!(v, vec!["/w/a".to_string(), "b".to_string()]);
}

#[test]
fn preview_of_ascii_source() {
    let src = "a".repeat(600);
    assert_eq!(preview_of(&src).len(), 500);
    let page = assemble(&src).unwrap();
    assert_eq!(page.preview.len(), 500);
    assert_eq!(preview_of("short"), "short");
    assert_eq!(preview_of(""), "");
}

#[test]
fn preview_widens_to_char_boundary() {
    // 'é' takes bytes 499 and 500, so the cut at 500 moves to 501.
    let src = format!("{}é{}", "a".repeat(499), "b".repeat(100));
    let p = preview_of(&src);
    assert_eq!(p.len(), 501);
    assert!(p.ends_with('é'));
    // A three-byte character over the cut moves it to 502.
    let src = format!("{}€{}", "a".repeat(499), "b".repeat(10));
    assert_eq!(preview_of(&src).len(), 502);
    let src = format!("{}€", "a".repeat(499));
    assert_eq!(preview_of(&src).len(), 502);
}

#[test]
fn preview_excludes_index_region() {
    let page = assemble("+++INDEX+++\nsecret\n---INDEX---\nvisible").unwrap();
    assert_eq!(page.preview, "\nvisible");
}

#[test]
fn default_page_is_empty() {
    let page = Page::default();
    assert_eq!(page.content, "");
    assert_eq!(page.index, "");
    assert_eq!(page.preview, "");
    let page = Page::empty();
    assert!(page.content.is_empty() && page.index.is_empty() && page.preview.is_empty());
}

#[test]
fn renders_table_strikethrough_and_tasks() {
    let table = assemble("| a | b |\n|---|---|\n| 1 | 2 |\n").unwrap();
    assert!(table.content.contains("<table>"));
    assert!(table.content.contains("<td>1</td>"));
    let strike = assemble("~~gone~~").unwrap();
    assert_eq!(strike.content, "<p><del>gone</del></p>\n");
    let tasks = assemble("- [x] done\n- [ ] todo\n").unwrap();
    assert!(tasks.content.contains("<input type=\"checkbox\" disabled=\"\" checked=\"\" /> done"));
    assert!(tasks.content.contains("<input type=\"checkbox\" disabled=\"\" /> todo"));
}

#[test]
fn hard_breaks_are_rendered() {
    let page = assemble("one\ntwo").unwrap();
    assert_eq!(page.content, "<p>one<br />\ntwo</p>\n");
}

#[test]
fn render_error_variant_is_comparable() {
    assert_eq!(AssembleError::InternalRenderDefect, AssembleError::InternalRenderDefect);
}

#[test]
fn access_code_ignores_surrounding_space() {
    let state = State::new("knowbase".to_string(), "s3cret".to_string());
    assert_eq!(state.name(), "knowbase");
    assert!(state.is_access_code_correct("s3cret"));
    assert!(state.is_access_code_correct("  s3cret\n"));
    assert!(!state.is_access_code_correct("s3cre"));
    assert!(!state.is_access_code_correct("S3CRET"));
}

#[test]
fn page_keys_from_paths() {
    assert_eq!(page_key("/docs/a.md"), "docs/a.md");
    assert_eq!(page_key("docs/a.md"), "docs/a.md");
    assert_eq!(page_key(""), "index.md");
    assert_eq!(page_key("/"), "index.md");
    assert_eq!(page_key("//x.md"), "/x.md");
}

#[test]
fn markdown_names() {
    assert!(is_markdown_name("docs/a.md"));
    assert!(is_markdown_name(".md"));
    assert!(!is_markdown_name("a.txt"));
    assert!(!is_markdown_name("md"));
    assert!(!is_markdown_name("a.MD"));
}
