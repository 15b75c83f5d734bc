use mdbase_ls::code_actions::{field_edit, yaml_value_text};
use mdbase_ls::completions::{remove_line, relative_path_from};
use mdbase_ls::text::{
    field_name_for_position, field_name_from_line, find_field_range, frontmatter_bounds,
    is_in_frontmatter, link_at_position, link_completion_context, value_from_frontmatter_line,
    word_at, LinkCompletionKind,
};

#[test]
fn insert_field_into_existing_frontmatter() {
    let text = "---\ntitle: Demo\n---\nBody\n";
    let edit = field_edit(text, "status", "");
    assert_eq!(edit.range.start.line, 2);
    assert_eq!(edit.new_text, "status: \n");
}

#[test]
fn replace_existing_field_line() {
    let text = "---\nstatus: old\n---\n";
    let edit = field_edit(text, "status", "status: new");
    assert_eq!(edit.range.start.line, 1);
    assert_eq!(edit.new_text, "status: new");
}

#[test]
fn field_edit_creates_frontmatter_when_missing() {
    let edit = field_edit("no frontmatter here\n", "status", "");
    assert_eq!(edit.range.start.line, 0);
    assert_eq!(edit.new_text, "---\nstatus: \n---\n");
}

#[test]
fn yaml_value_text_renders_field_and_value() {
    assert_eq!(yaml_value_text("status", "open"), "status: open");
}

#[test]
fn bounds_of_simple_frontmatter() {
    assert_eq!(frontmatter_bounds("---\na: 1\nb: 2\n---\nbody"), Some((1, 2)));
}

#[test]
fn bounds_missing_for_empty_document() {
    assert_eq!(frontmatter_bounds(""), None);
}

#[test]
fn bounds_missing_for_empty_block() {
    assert_eq!(frontmatter_bounds("---\n---\n"), None);
}

#[test]
fn bounds_allow_trailing_whitespace_on_delimiters() {
    assert_eq!(frontmatter_bounds("---  \na: 1\n---\t\nbody"), Some((1, 1)));
}

#[test]
fn bounds_missing_when_unterminated() {
    assert_eq!(frontmatter_bounds("---\na: 1\nbody"), None);
}

#[test]
fn line_membership_in_frontmatter() {
    let text = "---\na: 1\n---\nbody";
    assert!(!is_in_frontmatter(text, 0));
    assert!(is_in_frontmatter(text, 1));
    assert!(!is_in_frontmatter(text, 2));
    assert!(!is_in_frontmatter(text, 3));
}

#[test]
fn field_name_of_plain_line() {
    assert_eq!(field_name_from_line("title: Demo"), Some("title".to_string()));
}

#[test]
fn field_name_of_list_item_line() {
    assert_eq!(field_name_from_line("  - title: Demo"), Some("title".to_string()));
}

#[test]
fn field_name_missing_without_colon() {
    assert_eq!(field_name_from_line("no colon here"), None);
}

#[test]
fn field_range_points_at_key() {
    let text = "---\ntitle: Demo\nstatus: x\n---\n";
    let (start, end) = find_field_range(text, "status", 1);
    assert_eq!(start.line, 2);
    assert_eq!(start.character, 0);
    assert_eq!(end.character, 6);
}

#[test]
fn field_range_falls_back_when_absent() {
    let text = "---\ntitle: Demo\n---\n";
    let (start, end) = find_field_range(text, "missing", 1);
    assert_eq!(start.line, 1);
    assert_eq!(start.character, 0);
    assert_eq!(end.character, 0);
}

#[test]
fn word_under_cursor() {
    assert_eq!(word_at("see my-word here", 5), Some("my-word".to_string()));
    assert_eq!(word_at("see my-word here", 16), Some("here".to_string()));
    assert_eq!(word_at("", 0), None);
}

#[test]
fn value_after_colon() {
    assert_eq!(value_from_frontmatter_line("title: Demo", 8), Some("Demo".to_string()));
    assert_eq!(value_from_frontmatter_line("title: Demo", 2), None);
}

#[test]
fn value_after_list_dash() {
    assert_eq!(value_from_frontmatter_line("  - notes/demo.md", 5), Some("notes/demo.md".to_string()));
}

#[test]
fn link_context_inside_wikilink() {
    let ctx = link_completion_context("see [[dem", 9).unwrap();
    assert_eq!(ctx.kind, LinkCompletionKind::Wikilink);
    assert_eq!(ctx.prefix, "dem");
    assert_eq!(ctx.start_col, 6);
}

#[test]
fn link_context_closed_wikilink_gives_nothing() {
    assert!(link_completion_context("see [[demo]] after", 15).is_none());
}

#[test]
fn link_context_inside_markdown_link() {
    let ctx = link_completion_context("see [text](no", 13).unwrap();
    assert_eq!(ctx.kind, LinkCompletionKind::Markdown);
    assert_eq!(ctx.prefix, "no");
}

#[test]
fn link_context_skips_external_url() {
    assert!(link_completion_context("see [text](https://e", 20).is_none());
}

#[test]
fn cursor_link_in_body() {
    let l = link_at_position("See [[target#sec|label]] here.", 0, 6).unwrap();
    assert_eq!(l.target, "target");
    assert_eq!(l.start_col, 4);
    assert_eq!(l.end_col, 24);
}

#[test]
fn cursor_link_covers_embeds() {
    let l = link_at_position("![[image.png]]", 0, 3).unwrap();
    assert_eq!(l.target, "image.png");
}

#[test]
fn owning_field_of_list_item() {
    let text = "---\ntags:\n  - alpha\n---\n";
    assert_eq!(field_name_for_position(text, 2), Some("tags".to_string()));
    assert_eq!(field_name_for_position(text, 1), Some("tags".to_string()));
}

#[test]
fn remove_line_drops_one_line() {
    assert_eq!(remove_line("a\nb\nc", 1), "a\nc");
}

#[test]
fn relative_path_between_siblings() {
    assert_eq!(relative_path_from("notes/a.md", "notes/b.md"), "b.md");
    assert_eq!(relative_path_from("notes/a.md", "other/c.md"), "../other/c.md");
    assert_eq!(relative_path_from("a.md", "notes/b.md"), "notes/b.md");
}
