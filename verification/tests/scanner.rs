use mdbase_ls::body_links::{body_link_at, find_body_links, LinkFormat};

#[test]
fn wikilink_simple() {
    let links = find_body_links("See [[target]] here.");
    assert_eq!(links.len(), 1);
    assert_eq!(links[0].target, "target");
    assert_eq!(links[0].alias, None);
    assert_eq!(links[0].anchor, None);
    assert_eq!(links[0].format, LinkFormat::Wikilink);
    assert_eq!(links[0].start_col, 4);
    assert_eq!(links[0].end_col, 14);
}

#[test]
fn wikilink_with_alias() {
    let links = find_body_links("See [[target|display name]] here.");
    assert_eq!(links.len(), 1);
    assert_eq!(links[0].target, "target");
    assert_eq!(links[0].alias, Some("display name".to_string()));
}

#[test]
fn wikilink_with_anchor() {
    let links = find_body_links("See [[target#section]] here.");
    assert_eq!(links.len(), 1);
    assert_eq!(links[0].target, "target");
    assert_eq!(links[0].anchor, Some("section".to_string()));
}

#[test]
fn markdown_link() {
    let links = find_body_links("See [click here](path.md) for details.");
    assert_eq!(links.len(), 1);
    assert_eq!(links[0].target, "path.md");
    assert_eq!(links[0].format, LinkFormat::Markdown);
    assert_eq!(links[0].start_col, 4);
    assert_eq!(links[0].end_col, 25);
}

#[test]
fn markdown_link_with_anchor() {
    let links = find_body_links("See [text](path.md#heading) here.");
    assert_eq!(links.len(), 1);
    assert_eq!(links[0].target, "path.md");
    assert_eq!(links[0].anchor, Some("heading".to_string()));
}

#[test]
fn markdown_link_with_anchor_columns() {
    let links = find_body_links("See [text](path.md#heading) here.");
    assert_eq!(links.len(), 1);
    assert_eq!(links[0].start_col, 4);
    assert_eq!(links[0].end_col, 27);
}

#[test]
fn skips_image_embed_wikilink() {
    let links = find_body_links("![[image.png]]");
    assert_eq!(links.len(), 0);
}

#[test]
fn skips_image_embed_markdown() {
    let links = find_body_links("![alt text](image.png)");
    assert_eq!(links.len(), 0);
}

#[test]
fn skips_external_urls() {
    let links = find_body_links("[Google](https://google.com)");
    assert_eq!(links.len(), 0);
}

#[test]
fn skips_fenced_code_block() {
    let text = "before\n```\n[[inside]]\n```\nafter [[outside]]";
    let links = find_body_links(text);
    assert_eq!(links.len(), 1);
    assert_eq!(links[0].target, "outside");
}

#[test]
fn skips_inline_code() {
    let links = find_body_links("See `[[not a link]]` and [[real]].");
    assert_eq!(links.len(), 1);
    assert_eq!(links[0].target, "real");
}

#[test]
fn body_link_at_cursor() {
    let text = "See [[target]] here.";
    assert!(body_link_at(text, 0, 6).is_some());
    assert!(body_link_at(text, 0, 0).is_none());
    assert!(body_link_at(text, 0, 14).is_none());
}

#[test]
fn multiple_links_on_line() {
    let text = "[[a]] and [[b]] and [c](d.md)";
    let links = find_body_links(text);
    assert_eq!(links.len(), 3);
    assert_eq!(links[0].target, "a");
    assert_eq!(links[1].target, "b");
    assert_eq!(links[2].target, "d.md");
}

#[test]
fn unclosed_wikilink_gives_nothing() {
    let links = find_body_links("look at [[broken");
    assert_eq!(links.len(), 0);
}

#[test]
fn nested_brackets_in_markdown_label() {
    let links = find_body_links("See [a [nested] label](path.md) here.");
    assert_eq!(links.len(), 1);
    assert_eq!(links[0].target, "path.md");
    assert_eq!(links[0].alias, Some("a [nested] label".to_string()));
}

#[test]
fn astral_characters_use_utf16_columns() {
    // the first character weighs two UTF-16 code units
    let links = find_body_links("\u{1F600} [[target]]");
    assert_eq!(links.len(), 1);
    assert_eq!(links[0].start_col, 3);
    assert_eq!(links[0].end_col, 13);
}

#[test]
fn scanning_twice_gives_equal_vectors() {
    let text = "a [[x]] b [y](z.md)\n```\n[[q]]\n```\n[[w#h|l]]";
    let a = find_body_links(text);
    let b = find_body_links(text);
    assert_eq!(a.len(), b.len());
    for k in 0..a.len() {
        assert_eq!(a[k].target, b[k].target);
        assert_eq!(a[k].alias, b[k].alias);
        assert_eq!(a[k].anchor, b[k].anchor);
        assert_eq!(a[k].format, b[k].format);
        assert_eq!(a[k].start_col, b[k].start_col);
        assert_eq!(a[k].end_col, b[k].end_col);
        assert_eq!(a[k].start_line, b[k].start_line);
    }
}

#[test]
fn empty_document_has_no_links() {
    assert_eq!(find_body_links("").len(), 0);
}
