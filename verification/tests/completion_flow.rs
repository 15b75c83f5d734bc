use mdbase_ls::completions::{
    completion_decision, field_def_for_types, provide_link_completions, CompletionDecision,
};
use mdbase_ls::schema::{FieldDef, Schema, TypeDef};
use mdbase_ls::text::LinkCompletionKind;

fn tiny_schema() -> Schema {
    Schema {
        types: vec![(
            "zettel".to_string(),
            TypeDef {
                name: "zettel".to_string(),
                description: None,
                fields: vec![(
                    "status".to_string(),
                    FieldDef {
                        field_type: "string".to_string(),
                        required: false,
                        default: None,
                        values: Some(vec!["open".to_string(), "done".to_string()]),
                        description: None,
                        deprecated: None,
                        generated: None,
                        target: None,
                        items: None,
                    },
                )],
                extends: None,
                filename_pattern: None,
                display_name: None,
            },
        )],
    }
}

#[test]
fn decision_follows_cursor() {
    let text = "---\ntitle: Demo\n---\nsee [[de";
    match completion_decision(text, 3, 8) {
        CompletionDecision::LinkTargets(ctx) => {
            assert_eq!(ctx.prefix, "de");
            assert_eq!(ctx.kind, LinkCompletionKind::Wikilink);
        },
        _ => panic!("expected link targets"),
    }
    assert!(matches!(
        completion_decision(text, 1, 2),
        CompletionDecision::FrontmatterFieldName
    ));
    assert!(matches!(
        completion_decision(text, 1, 8),
        CompletionDecision::FrontmatterValue
    ));
    let tagged = "body with #ta";
    assert!(matches!(completion_decision(tagged, 0, 11), CompletionDecision::Tags));
    assert!(matches!(completion_decision(tagged, 0, 4), CompletionDecision::Nothing));
}

#[test]
fn field_lookup_prefers_named_types() {
    let s = tiny_schema();
    let names = vec!["zettel".to_string()];
    let d = field_def_for_types(&s, &names, "status").unwrap();
    assert_eq!(d.field_type, "string");
    assert!(field_def_for_types(&s, &names, "missing").is_none());
    let d2 = field_def_for_types(&s, &Vec::new(), "status").unwrap();
    assert_eq!(d2.values.as_ref().unwrap().len(), 2);
}

#[test]
fn wikilink_completions_insert_stem_and_display() {
    let rows = vec![
        ("notes/demo.md".to_string(), Some("Demo Note".to_string()), None),
        ("plain.md".to_string(), None, None),
    ];
    let items = provide_link_completions(&rows, LinkCompletionKind::Wikilink, 6, 3, 8, None);
    assert_eq!(items.len(), 2);
    assert_eq!(items[0].label, "Demo Note");
    assert_eq!(items[0].insert_text, Some("notes/demo|Demo Note".to_string()));
    assert_eq!(items[1].label, "plain");
    assert_eq!(items[1].insert_text, Some("plain".to_string()));
    let edit = items[0].text_edit.as_ref().unwrap();
    assert_eq!(edit.range.start.character, 6);
    assert_eq!(edit.range.end.character, 8);
    assert_eq!(edit.new_text, "notes/demo|Demo Note");
}

#[test]
fn markdown_completions_use_relative_paths() {
    let rows = vec![("notes/demo.md".to_string(), None, None)];
    let items = provide_link_completions(
        &rows,
        LinkCompletionKind::Markdown,
        7,
        0,
        9,
        Some("other/src.md"),
    );
    assert_eq!(items.len(), 1);
    assert_eq!(items[0].label, "../notes/demo.md");
}
