use mdbase_ls::diagnostics::{compute_diagnostics, Issue, Severity};
use mdbase_ls::file_index::{build_preview, FileEntry, FileIndex};
use mdbase_ls::json::Val;
use mdbase_ls::protocol::{Position, Range};
use mdbase_ls::refs::{
    exclude_declaration, find_references_in_text, replacement_for_ref, symbol_at_position,
    FoundRef, RefFormat,
};
use mdbase_ls::resolve::{
    is_excluded, match_glob_pattern, normalize_path_segments, parse_link_value,
    resolve_link_target, Settings,
};
use mdbase_ls::schema::{
    derive_path_from_pattern, generate_field_value, make_now_on_write_edit, now_on_write_fields,
    prompt_field_names, FieldDef, GeneratedStrategy, Schema, TypeDef,
};
use mdbase_ls::store::{DocumentState, GenerationMap, ParsedFrontmatter};
use mdbase_ls::symbols::{matches_query, query_entries};

fn settings() -> Settings {
    Settings {
        types_folder: "_types".to_string(),
        cache_folder: ".mdbase".to_string(),
        extensions: vec!["canvas".to_string()],
        include_subfolders: true,
        exclude: vec!["drafts/**".to_string()],
    }
}

fn known() -> Vec<String> {
    vec![
        "notes/demo.md".to_string(),
        "notes/Other.md".to_string(),
        "top.md".to_string(),
        "board.canvas".to_string(),
    ]
}

#[test]
fn resolve_exact_match() {
    let r = resolve_link_target(&settings(), &known(), "notes/demo.md", None);
    assert_eq!(r, Some("notes/demo.md".to_string()));
}

#[test]
fn resolve_appends_md_extension() {
    let r = resolve_link_target(&settings(), &known(), "notes/demo", None);
    assert_eq!(r, Some("notes/demo.md".to_string()));
}

#[test]
fn resolve_appends_configured_extension() {
    let r = resolve_link_target(&settings(), &known(), "board", None);
    assert_eq!(r, Some("board.canvas".to_string()));
}

#[test]
fn resolve_stem_case_insensitive() {
    let r = resolve_link_target(&settings(), &known(), "other", None);
    assert_eq!(r, Some("notes/Other.md".to_string()));
}

#[test]
fn resolve_source_relative() {
    let r = resolve_link_target(&settings(), &known(), "./demo", Some("notes/Other.md"));
    assert_eq!(r, Some("notes/demo.md".to_string()));
    let r2 = resolve_link_target(&settings(), &known(), "../top", Some("notes/demo.md"));
    assert_eq!(r2, Some("top.md".to_string()));
}

#[test]
fn resolve_root_relative() {
    let r = resolve_link_target(&settings(), &known(), "/top.md", None);
    assert_eq!(r, Some("top.md".to_string()));
}

#[test]
fn resolve_strips_wikilink_wrapping() {
    let r = resolve_link_target(&settings(), &known(), "[[notes/demo|Demo]]", None);
    assert_eq!(r, Some("notes/demo.md".to_string()));
}

#[test]
fn resolve_unknown_gives_nothing() {
    assert_eq!(resolve_link_target(&settings(), &known(), "missing", None), None);
}

#[test]
fn normalize_resolves_dots() {
    assert_eq!(normalize_path_segments("a/./b/../c"), "a/c");
    assert_eq!(normalize_path_segments("../x"), "../x");
    assert_eq!(normalize_path_segments("a/.."), ".");
}

#[test]
fn glob_pattern_shapes() {
    assert!(match_glob_pattern("drafts/**", "drafts/x.md"));
    assert!(match_glob_pattern("drafts/**", "drafts"));
    assert!(!match_glob_pattern("drafts/**", "draftsy/x.md"));
    assert!(match_glob_pattern("*.png", "img/a.png"));
    assert!(match_glob_pattern("a*b", "a-middle-b"));
    assert!(match_glob_pattern("exact.md", "exact.md"));
    assert!(match_glob_pattern("dir", "dir/sub.md"));
}

#[test]
fn exclusion_rules() {
    let st = settings();
    assert!(is_excluded(&st, "_types/note.md"));
    assert!(is_excluded(&st, ".mdbase/cache.json"));
    assert!(is_excluded(&st, "mdbase.yaml"));
    assert!(is_excluded(&st, "drafts/wip.md"));
    assert!(!is_excluded(&st, "notes/demo.md"));
}

#[test]
fn parse_link_value_forms() {
    assert_eq!(parse_link_value("[[notes/demo]]"), Some("notes/demo".to_string()));
    assert_eq!(parse_link_value("[[notes/demo|Demo]]"), Some("notes/demo".to_string()));
    assert_eq!(parse_link_value("[label](notes/demo.md)"), Some("notes/demo.md".to_string()));
    assert_eq!(parse_link_value("notes/demo.md"), Some("notes/demo.md".to_string()));
    assert_eq!(parse_link_value("https://example.org"), None);
    assert_eq!(parse_link_value("   "), None);
}

#[test]
fn replacement_wikilink_preserves_alias_and_anchor() {
    let found = FoundRef {
        range: Range {
            start: Position { line: 0, character: 0 },
            end: Position { line: 0, character: 0 },
        },
        format: RefFormat::Wikilink,
        alias: Some("Alias".to_string()),
        anchor: Some("section".to_string()),
    };
    assert_eq!(replacement_for_ref(&found, "notes/new"), "[[notes/new#section|Alias]]");
}

#[test]
fn replacement_markdown_preserves_label() {
    let found = FoundRef {
        range: Range {
            start: Position { line: 0, character: 0 },
            end: Position { line: 0, character: 0 },
        },
        format: RefFormat::Markdown,
        alias: Some("Read".to_string()),
        anchor: None,
    };
    assert_eq!(replacement_for_ref(&found, "notes/new.md"), "[Read](notes/new.md)");
}

#[test]
fn rename_same_target_is_textual_fixed_point() {
    let text = "see [[notes/demo#sec|Label]] here";
    let refs = find_references_in_text(&settings(), &known(), text, "top.md", "notes/demo.md");
    assert_eq!(refs.len(), 1);
    let replacement = replacement_for_ref(&refs[0], "notes/demo");
    assert_eq!(replacement, "[[notes/demo#sec|Label]]");
}

#[test]
fn references_found_in_body_and_frontmatter() {
    let text = "---\nlink: [[demo]]\nother: notes/demo\n---\nbody [[demo]] and [x](../notes/demo.md)\n";
    let refs = find_references_in_text(&settings(), &known(), text, "notes/demo.md", "notes/demo.md");
    // the frontmatter wikilink is seen twice: once by the body scan, once
    // as a frontmatter value
    assert_eq!(refs.len(), 5);
    assert_eq!(refs[0].format, RefFormat::Wikilink);
    assert_eq!(refs[1].format, RefFormat::Wikilink);
    assert_eq!(refs[2].format, RefFormat::Markdown);
    assert_eq!(refs[3].format, RefFormat::FrontmatterValue);
    assert_eq!(refs[4].format, RefFormat::FrontmatterValue);
}

#[test]
fn symbol_under_cursor_resolves_target() {
    let text = "go to [[demo]] now";
    let (target, range) = symbol_at_position(&settings(), &known(), text, "notes/demo.md", 0, 8)
        .unwrap();
    assert_eq!(target, "notes/demo.md");
    assert_eq!(range.start.character, 6);
    assert_eq!(range.end.character, 14);
}

fn entry() -> FileEntry {
    FileEntry {
        rel_path: "notes/demo.md".to_string(),
        types: vec!["zettel".to_string()],
        tags: vec!["project".to_string(), "rust".to_string()],
        display_name: Some("Demo Note".to_string()),
        title: Some("Demo Note".to_string()),
        id: Some("abc-1".to_string()),
        preview: None,
    }
}

#[test]
fn matches_field_queries() {
    let e = entry();
    assert!(matches_query(&e, "type:zettel"));
    assert!(matches_query(&e, "tag:project"));
    assert!(matches_query(&e, "id:abc-1"));
    assert!(!matches_query(&e, "type:person"));
}

#[test]
fn matches_free_text_queries() {
    let e = entry();
    assert!(matches_query(&e, "demo"));
    assert!(matches_query(&e, "notes/demo"));
    assert!(!matches_query(&e, "nonexistent"));
}

#[test]
fn title_query_is_case_insensitive() {
    let e = entry();
    assert!(matches_query(&e, "title:demo"));
    assert!(!matches_query(&e, "title:zzz"));
}

#[test]
fn query_entries_filters() {
    let all = vec![entry()];
    assert_eq!(query_entries(&all, "type:zettel").len(), 1);
    assert_eq!(query_entries(&all, "type:person").len(), 0);
}

#[test]
fn index_upsert_and_remove() {
    let mut idx = FileIndex::new();
    idx.upsert_entry(entry());
    assert_eq!(idx.link_targets(None), vec!["notes/demo.md".to_string()]);
    assert_eq!(idx.link_targets(Some("zettel")), vec!["notes/demo.md".to_string()]);
    assert_eq!(idx.link_targets(Some("ZETTEL")), vec!["notes/demo.md".to_string()]);
    assert_eq!(idx.link_targets(Some("person")), Vec::<String>::new());
    let mut e2 = entry();
    e2.rel_path = "other.md".to_string();
    e2.types = vec!["person".to_string()];
    idx.upsert_entry(e2);
    assert_eq!(idx.all_entries().len(), 2);
    idx.remove_path("notes/demo.md");
    assert_eq!(idx.all_entries().len(), 1);
    assert_eq!(idx.all_entries()[0].rel_path, "other.md");
}

#[test]
fn tag_counts_sorted_by_use_then_name() {
    let mut idx = FileIndex::new();
    let mut a = entry();
    a.rel_path = "a.md".to_string();
    a.tags = vec!["beta".to_string(), "alpha".to_string()];
    let mut b = entry();
    b.rel_path = "b.md".to_string();
    b.tags = vec!["beta".to_string()];
    idx.upsert_entry(a);
    idx.upsert_entry(b);
    let counts = idx.tag_counts();
    assert_eq!(counts, vec![("beta".to_string(), 2), ("alpha".to_string(), 1)]);
}

#[test]
fn preview_truncates_long_text() {
    assert_eq!(build_preview(""), None);
    assert_eq!(build_preview("short"), Some("short".to_string()));
    let long: String = "x".repeat(2500);
    let p = build_preview(&long).unwrap();
    assert_eq!(p.chars().count(), 2003);
    assert!(p.ends_with("..."));
}

#[test]
fn document_state_edits_and_cache() {
    let mut d = DocumentState::new("---\ntitle: a\n---\nbody");
    d.set_frontmatter(ParsedFrontmatter {
        fields: vec![("title".to_string(), Val::Str("a".to_string()))],
        has_frontmatter: true,
        parse_error: false,
        mapping_error: false,
    });
    assert!(d.frontmatter().is_some());
    let applied = d.apply_incremental_change(3, 0, 3, 4, "text");
    assert!(applied);
    d.invalidate_frontmatter();
    assert!(d.frontmatter().is_none());
    let out = d.text_string();
    assert_eq!(out, "---\ntitle: a\n---\ntext");
    let rejected = d.apply_incremental_change(0, 50, 0, 60, "x");
    assert!(!rejected);
}

#[test]
fn debounced_publish_fires_once() {
    // four changes in one burst: only the publisher holding the last
    // generation still matches when the counter is read back
    let mut gens = GenerationMap::new();
    let uri = "file:///notes/demo.md";
    let mut scheduled: Vec<u64> = Vec::new();
    for _ in 0..4 {
        scheduled.push(gens.bump(uri));
    }
    let current = gens.current(uri);
    let firing: Vec<&u64> = scheduled.iter().filter(|g| **g == current).collect();
    assert_eq!(firing.len(), 1);
    assert_eq!(*firing[0], 4);
}

#[test]
fn diagnostics_for_parse_error() {
    let d = compute_diagnostics("---\nbad: [\n---\n", true, false, &Vec::new());
    assert_eq!(d.len(), 1);
    assert_eq!(d[0].code, "invalid_frontmatter");
    assert_eq!(d[0].message, "Failed to parse YAML frontmatter");
    assert_eq!(d[0].source, "mdbase");
    assert_eq!(d[0].range.start.line, 0);
}

#[test]
fn diagnostics_for_mapping_error() {
    let d = compute_diagnostics("---\n- just a list\n---\n", false, true, &Vec::new());
    assert_eq!(d.len(), 1);
    assert_eq!(d[0].message, "Frontmatter must be a YAML mapping");
}

#[test]
fn diagnostics_point_at_field_key() {
    let issues = vec![Issue {
        code: "missing_required".to_string(),
        message: "status is required".to_string(),
        severity: "warning".to_string(),
        field: Some("status".to_string()),
        path: None,
    }];
    let text = "---\ntitle: Demo\nstatus: x\n---\n";
    let d = compute_diagnostics(text, false, false, &issues);
    assert_eq!(d.len(), 1);
    assert_eq!(d[0].severity, Severity::Warning);
    assert_eq!(d[0].range.start.line, 2);
    assert_eq!(d[0].range.end.character, 6);
}

fn schema() -> Schema {
    Schema {
        types: vec![
            (
                "base".to_string(),
                TypeDef {
                    name: "base".to_string(),
                    description: None,
                    fields: vec![
                        (
                            "zid".to_string(),
                            FieldDef {
                                field_type: "string".to_string(),
                                required: true,
                                default: None,
                                values: None,
                                description: None,
                                deprecated: None,
                                generated: Some(GeneratedStrategy::Ulid),
                                target: None,
                                items: None,
                            },
                        ),
                        (
                            "uid".to_string(),
                            FieldDef {
                                field_type: "string".to_string(),
                                required: false,
                                default: None,
                                values: None,
                                description: None,
                                deprecated: None,
                                generated: Some(GeneratedStrategy::Uuid),
                                target: None,
                                items: None,
                            },
                        ),
                        (
                            "created".to_string(),
                            FieldDef {
                                field_type: "string".to_string(),
                                required: false,
                                default: None,
                                values: None,
                                description: None,
                                deprecated: None,
                                generated: Some(GeneratedStrategy::Now),
                                target: None,
                                items: None,
                            },
                        ),
                    ],
                    extends: None,
                    filename_pattern: Some("notes/{title}.md".to_string()),
                    display_name: None,
                },
            ),
            (
                "person".to_string(),
                TypeDef {
                    name: "person".to_string(),
                    description: None,
                    fields: vec![
                        (
                            "title".to_string(),
                            FieldDef {
                                field_type: "string".to_string(),
                                required: true,
                                default: None,
                                values: None,
                                description: None,
                                deprecated: None,
                                generated: None,
                                target: None,
                                items: None,
                            },
                        ),
                        (
                            "updated".to_string(),
                            FieldDef {
                                field_type: "string".to_string(),
                                required: false,
                                default: None,
                                values: None,
                                description: None,
                                deprecated: None,
                                generated: Some(GeneratedStrategy::NowOnWrite),
                                target: None,
                                items: None,
                            },
                        ),
                    ],
                    extends: Some("base".to_string()),
                    filename_pattern: None,
                    display_name: None,
                },
            ),
        ],
    }
}

#[test]
fn generated_values_have_documented_shapes() {
    let s = schema();
    let zid = generate_field_value(&s, "person", "zid").unwrap();
    assert_eq!(zid.chars().count(), 26);
    let uid = generate_field_value(&s, "person", "uid").unwrap();
    assert_eq!(uid.chars().count(), 36);
    let created = generate_field_value(&s, "person", "created").unwrap();
    assert!(!created.is_empty());
    assert!(generate_field_value(&s, "person", "title").is_none());
}

#[test]
fn prompt_fields_skip_generated() {
    let s = schema();
    assert_eq!(prompt_field_names(&s, "person"), vec!["title".to_string()]);
}

#[test]
fn now_on_write_fields_are_collected() {
    let s = schema();
    let names = vec!["person".to_string()];
    assert_eq!(now_on_write_fields(&s, &names), vec!["updated".to_string()]);
}

#[test]
fn will_save_edit_replaces_or_inserts() {
    let text = "---\nupdated: old\n---\nbody";
    let e = make_now_on_write_edit(text, (1, 1), "updated", "NOW");
    assert_eq!(e.range.start.line, 1);
    assert_eq!(e.new_text, "updated: NOW");
    let text2 = "---\ntitle: x\n---\nbody";
    let e2 = make_now_on_write_edit(text2, (1, 1), "updated", "NOW");
    assert_eq!(e2.range.start.line, 2);
    assert_eq!(e2.new_text, "updated: NOW\n");
}

#[test]
fn path_pattern_substitution() {
    let fields = vec![
        ("title".to_string(), Val::Str("hello".to_string())),
        ("n".to_string(), Val::Num("7".to_string())),
    ];
    assert_eq!(
        derive_path_from_pattern("notes/{title}-{n}.md", &fields),
        Some("notes/hello-7.md".to_string())
    );
    assert_eq!(derive_path_from_pattern("notes/{missing}.md", &fields), None);
}

#[test]
fn excluding_declaration_drops_its_entry() {
    let decl = Range {
        start: Position { line: 0, character: 4 },
        end: Position { line: 0, character: 14 },
    };
    let other = Range {
        start: Position { line: 2, character: 0 },
        end: Position { line: 2, character: 5 },
    };
    let locs = vec![
        ("a.md".to_string(), decl),
        ("a.md".to_string(), other),
        ("b.md".to_string(), decl),
    ];
    let kept = exclude_declaration(locs, "a.md", decl);
    assert_eq!(kept.len(), 2);
    assert_eq!(kept[0].1, other);
    assert_eq!(kept[1].0, "b.md");
}
