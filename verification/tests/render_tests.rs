use rustbelt::entities::{
    AssistInfo, AssistSourceChange, CompletionItem, CursorCoordinates, DefinitionInfo, FileChange,
    ReferenceInfo, RenameResult, TextEdit, TypeHint, WorkspaceSymbol,
};
use rustbelt::render::{join_comma, u32_text, usize_text};
use rustbelt::utils::RustAnalyzerUtils;
use rustbelt::vfs::{ChangeKind, Vfs};
use rustbelt::watcher::{FileWatcher, WatchMessage};

#[test]
fn numbers_render_in_decimal() {
    assert_eq!(u32_text(0), "0");
    assert_eq!(u32_text(7), "7");
    assert_eq!(u32_text(31), "31");
    assert_eq!(u32_text(4_294_967_295), "4294967295");
    assert_eq!(usize_text(1200), "1200");
    assert_eq!(
        join_comma(&vec!["a".to_string(), "b".to_string(), "c".to_string()]),
        "a, b, c"
    );
    assert_eq!(join_comma(&vec![]), "");
}

#[test]
fn type_hint_renders_position_and_types() {
    let hint = TypeHint {
        file_path: "/w/main.rs".to_string(),
        line: 31,
        column: 13,
        symbol: "people: HashMap<String, Person>".to_string(),
        canonical_types: vec![
            "std::collections::hash::map::HashMap".to_string(),
            "sample::Person".to_string(),
        ],
    };
    let text = hint.render();
    assert_eq!(
        text,
        "/w/main.rs:31:13\n```md\npeople: HashMap<String, Person>\n```\nRelevant types: std::collections::hash::map::HashMap, sample::Person"
    );
}

#[test]
fn definition_and_reference_render() {
    let def = DefinitionInfo {
        file_path: "/w/main.rs".to_string(),
        line: 5,
        column: 12,
        end_line: 9,
        end_column: 2,
        name: "Person".to_string(),
        kind: Some("Struct".to_string()),
        content: "pub struct Person {".to_string(),
        module: "sample".to_string(),
        description: None,
    };
    assert_eq!(def.render(), "/w/main.rs:5:12\npub struct Person {");
    let re = ReferenceInfo {
        file_path: "/w/main.rs".to_string(),
        line: 5,
        column: 12,
        end_line: 5,
        end_column: 18,
        name: "Person".to_string(),
        content: "pub struct Person {".to_string(),
        is_definition: true,
    };
    assert_eq!(re.render(), "/w/main.rs:5:12 (def) - pub struct Person {");
}

#[test]
fn rename_plan_renders_edit_lines() {
    let plan = RenameResult {
        file_changes: vec![FileChange {
            file_path: "/w/main.rs".to_string(),
            edits: vec![TextEdit {
                line: 5,
                column: 12,
                end_line: 5,
                end_column: 18,
                new_text: "Individual".to_string(),
            }],
        }],
    };
    assert_eq!(
        plan.render(),
        "Successfully renamed symbol in 1 file(s):\n\n/w/main.rs\n  -> 5:12-5:18 -> 'Individual'\n\n"
    );
}

#[test]
fn completion_symbol_and_assist_render() {
    let item = CompletionItem {
        name: "insert".to_string(),
        required_import: None,
        kind: Some("Method".to_string()),
        signature: Some("fn(&mut self, k: K, v: V)".to_string()),
        documentation: None,
        deprecated: false,
    };
    assert_eq!(item.render(), "insert (Method) - fn(&mut self, k: K, v: V)");
    let bare = CompletionItem {
        name: "len".to_string(),
        required_import: None,
        kind: None,
        signature: None,
        documentation: None,
        deprecated: false,
    };
    assert_eq!(bare.render(), "len");
    let sym = WorkspaceSymbol {
        name: "Person".to_string(),
        kind: Some("Struct".to_string()),
        file_path: "/w/main.rs".to_string(),
        line: 5,
        column: 12,
        container_name: Some("sample".to_string()),
    };
    assert_eq!(sym.render(), "/w/main.rs:5:12 - Person (Struct) :: sample");
    let assist = AssistInfo {
        id: "add_impl".to_string(),
        kind: "Generate".to_string(),
        label: "Generate impl".to_string(),
        target: "5..9".to_string(),
        source_change: None,
    };
    assert_eq!(assist.render(), "Generate impl (Generate): 5..9");
    let change = AssistSourceChange {
        file_changes: vec![],
        is_snippet: false,
    };
    assert_eq!(change.render(), "Changes to 0 files");
}

#[test]
fn tolerance_box_stops_at_five_lines() {
    // "needle" sits on line 9; a cursor on line 3 is 6 lines away, beyond
    // the tolerance, so the coordinates come back unchanged
    let content = "a\nb\nc\nd\ne\nf\ng\nh\nneedle\n";
    let far = CursorCoordinates {
        file_path: "/w/f.rs".to_string(),
        line: 3,
        column: 1,
        symbol: Some("needle".to_string()),
    };
    let kept = far.resolve_coordinates(content);
    assert_eq!((kept.line, kept.column), (3, 1));
    // from line 4 the needle lies exactly 5 lines away and is found
    let near = CursorCoordinates {
        file_path: "/w/f.rs".to_string(),
        line: 4,
        column: 1,
        symbol: Some("needle".to_string()),
    };
    let found = near.resolve_coordinates(content);
    assert_eq!((found.line, found.column), (9, 1));
}

#[test]
fn carriage_returns_belong_to_line_endings() {
    let content = "alpha\r\nbeta\r\ngamma";
    assert_eq!(
        RustAnalyzerUtils::get_line_content(content, 0).as_deref(),
        Some("alpha")
    );
    assert_eq!(
        RustAnalyzerUtils::get_line_content(content, 1).as_deref(),
        Some("beta")
    );
    assert_eq!(
        RustAnalyzerUtils::get_line_content(content, 2).as_deref(),
        Some("gamma")
    );
}

#[test]
fn deletion_events_reach_the_database() {
    let mut w = FileWatcher::new();
    w.enqueue(WatchMessage::Loaded {
        files: vec![("/w/a.rs".to_string(), Some(b"fn a() {}".to_vec()))],
    });
    let first = w.drain_and_apply_changes();
    assert_eq!(first.len(), 1);
    assert!(first[0].new_text.is_some());
    let a = w.get_file_id(&"/w/a.rs".to_string()).unwrap();
    assert!(w.file_exists(a));
    w.enqueue(WatchMessage::Changed {
        files: vec![("/w/a.rs".to_string(), None)],
    });
    let second = w.drain_and_apply_changes();
    assert_eq!(second.len(), 1);
    assert_eq!(second[0].file_id, a);
    assert_eq!(second[0].new_text, None);
    assert!(!w.file_exists(a));
    assert_eq!(w.file_path(a), None);
}

#[test]
fn vfs_delete_then_recreate_nets_to_modify() {
    let mut v = Vfs::new();
    v.set_file_contents("/w/a.rs".to_string(), Some(b"one".to_vec()));
    let _ = v.take_changes();
    // deleted and recreated within one batch: the database sees one modify
    v.set_file_contents("/w/a.rs".to_string(), None);
    v.set_file_contents("/w/a.rs".to_string(), Some(b"two".to_vec()));
    let delta = v.take_changes();
    assert_eq!(delta.len(), 1);
    assert_eq!(delta[0].kind, ChangeKind::Modify);
}
