use rustbelt::analyzer::{
    canonical_types_from_actions, completion_kind_name, module_path_decision,
    module_path_from_parts, required_import_of, sort_references, str_le_exec,
    CompletionKindTag, CompletionSettings, DbRenameAnswer, HoverAction, HoverSettings,
    InlayHint, InlayHintPosition, InlaySettings, LoadDecision, MonikerAnswer, RustAnalyzerish,
};
use rustbelt::entities::FileChange;
use rustbelt::line_index::{byte_offset_of_char, char_offset_of_byte};
use rustbelt::builder::RustAnalyzerishBuilder;
use rustbelt::command::{extract_workspace_path, AnalyzerCommand};
use rustbelt::entities::{CursorCoordinates, ReferenceInfo, TextEdit};
use rustbelt::errors::EngineError;
use rustbelt::line_index::LineIndex;
use rustbelt::paths::{ancestor_dirs, discover_project_root, is_absolute_path, manifest_path_in, parent_dir};
use rustbelt::ruskel::{feature_choice, FeatureChoice, RuskelAnalyzer};
use rustbelt::text_edit::{apply_span_edits, SpanEdit, TextEditBuilder};
use rustbelt::utils::RustAnalyzerUtils;
use rustbelt::vfs::{ChangeKind, FileId, Vfs};
use rustbelt::watcher::{FileWatcher, WatchMessage};

fn cursor_at(line: u32, column: u32) -> CursorCoordinates {
    CursorCoordinates {
        file_path: "/test/main.rs".to_string(),
        line,
        column,
        symbol: None,
    }
}

#[test]
fn line_index_round_trip() {
    let text = "fn main() {\n    let x = 1;\n}\n";
    let idx = LineIndex::new(text);
    assert_eq!(idx.lines(), 4); // trailing newline opens an empty last line
    let off = idx.offset(1, 8).expect("line 2 col 9 exists");
    assert_eq!(&text[off..off + 1], "x");
    let (l, c) = idx.line_col(off);
    assert_eq!((l, c), (1, 8));
    // offset at a line end (the newline position) is valid
    assert!(idx.offset(0, 11).is_some());
    assert!(idx.offset(0, 12).is_none());
    assert!(idx.offset(9, 0).is_none());
}

#[test]
fn validate_cursor_errors() {
    let idx = LineIndex::new("one\ntwo\n");
    let zero = cursor_at(0, 1);
    assert_eq!(
        RustAnalyzerish::validate_and_convert_cursor(&zero, &idx),
        Err(EngineError::InvalidCoordinates)
    );
    let far = cursor_at(9999, 1);
    assert_eq!(
        RustAnalyzerish::validate_and_convert_cursor(&far, &idx),
        Err(EngineError::OutOfBounds)
    );
    let ok = cursor_at(2, 2);
    assert_eq!(RustAnalyzerish::validate_and_convert_cursor(&ok, &idx), Ok(5));
}

#[test]
fn text_edit_builder_rejects_overlap() {
    let mut b = TextEditBuilder::new();
    assert!(b.replace(0, 3, "abc".to_string()));
    assert!(b.replace(5, 7, "de".to_string()));
    // overlapping the first range is refused
    assert!(!b.replace(2, 4, "xx".to_string()));
    // a reversed range is refused
    assert!(!b.replace(9, 8, "yy".to_string()));
    let edits = b.finish();
    assert_eq!(edits.len(), 2);
    assert!(edits[0].start <= edits[1].start);
}

#[test]
fn apply_edits_rename_in_one_line() {
    let text = "struct Person;\nlet p = Person::new();\n";
    let idx = LineIndex::new(text);
    let edits = vec![
        TextEdit {
            line: 1,
            column: 8,
            end_line: 1,
            end_column: 14,
            new_text: "Individual".to_string(),
        },
        TextEdit {
            line: 2,
            column: 9,
            end_line: 2,
            end_column: 15,
            new_text: "Individual".to_string(),
        },
    ];
    let out = RustAnalyzerUtils::apply_edits_to_text(&idx, text, &edits).expect("edits apply");
    assert_eq!(out, "struct Individual;\nlet p = Individual::new();\n");
}

#[test]
fn apply_edits_rejects_bad_position() {
    let text = "short\n";
    let idx = LineIndex::new(text);
    let edits = vec![TextEdit {
        line: 9,
        column: 1,
        end_line: 9,
        end_column: 2,
        new_text: "x".to_string(),
    }];
    assert_eq!(
        RustAnalyzerUtils::apply_edits_to_text(&idx, text, &edits),
        Err(EngineError::InvalidEditPosition)
    );
    let overlapping = vec![
        TextEdit {
            line: 1,
            column: 1,
            end_line: 1,
            end_column: 4,
            new_text: "a".to_string(),
        },
        TextEdit {
            line: 1,
            column: 2,
            end_line: 1,
            end_column: 5,
            new_text: "b".to_string(),
        },
    ];
    assert_eq!(
        RustAnalyzerUtils::apply_edits_to_text(&idx, text, &overlapping),
        Err(EngineError::InvalidEditPosition)
    );
}

#[test]
fn same_length_plan_is_idempotent() {
    // each replacement keeps its range length, so re-applying the plan
    // to the result changes nothing
    let text = "abc def abc\n";
    let idx = LineIndex::new(text);
    let edits = vec![
        TextEdit {
            line: 1,
            column: 1,
            end_line: 1,
            end_column: 4,
            new_text: "xyz".to_string(),
        },
        TextEdit {
            line: 1,
            column: 9,
            end_line: 1,
            end_column: 12,
            new_text: "xyz".to_string(),
        },
    ];
    let once = RustAnalyzerUtils::apply_edits_to_text(&idx, text, &edits).expect("applies");
    assert_eq!(once, "xyz def xyz\n");
    let idx2 = LineIndex::new(&once);
    let twice = RustAnalyzerUtils::apply_edits_to_text(&idx2, &once, &edits).expect("applies");
    assert_eq!(twice, once);
}

#[test]
fn span_edits_apply_in_order() {
    let mut b = TextEditBuilder::new();
    // registered out of order; the builder sorts by range
    assert!(b.replace(8, 9, "X".to_string()));
    assert!(b.replace(0, 1, "Y".to_string()));
    let edits = b.finish();
    let out = apply_span_edits(&edits, "abcdefghij").expect("in bounds");
    assert_eq!(out, "YbcdefghXj");
    assert!(apply_span_edits(&edits, "abc").is_none());
}

#[test]
fn vfs_bijection_and_tombstones() {
    let mut v = Vfs::new();
    v.set_file_contents("/w/a.rs".to_string(), Some(b"fn a() {}".to_vec()));
    v.set_file_contents("/w/b.rs".to_string(), Some(b"fn b() {}".to_vec()));
    assert_eq!(v.file_count(), 2);
    let a = v.file_id(&"/w/a.rs".to_string()).expect("a is known");
    let b = v.file_id(&"/w/b.rs".to_string()).expect("b is known");
    assert_ne!(a, b);
    // the id bijection: looking the id's path back up returns the path
    assert_eq!(v.file_path(a).as_deref(), Some("/w/a.rs"));
    assert_eq!(v.file_path(b).as_deref(), Some("/w/b.rs"));
    assert!(v.file_exists(a));
    // deletion tombstones the id: it stays known but has no path or content
    v.set_file_contents("/w/a.rs".to_string(), None);
    assert!(!v.file_exists(a));
    assert_eq!(v.file_path(a), None);
    assert!(v.file_id(&"/w/a.rs".to_string()).is_some());
    // re-creating reuses the same id
    v.set_file_contents("/w/a.rs".to_string(), Some(b"fn a2() {}".to_vec()));
    assert_eq!(v.file_id(&"/w/a.rs".to_string()), Some(a));
    assert_eq!(v.file_count(), 2);
}

#[test]
fn vfs_take_changes_drains() {
    let mut v = Vfs::new();
    v.set_file_contents("/w/a.rs".to_string(), Some(b"one".to_vec()));
    let a = v.file_id(&"/w/a.rs".to_string()).unwrap();
    let first = v.take_changes();
    assert_eq!(first.len(), 1);
    assert_eq!(first[0].file_id, a);
    assert_eq!(first[0].kind, ChangeKind::Create);
    // drain monotonicity: no mutation in between, so the next drain is empty
    let second = v.take_changes();
    assert!(second.is_empty());
    // idempotent payloads stage nothing
    v.set_file_contents("/w/a.rs".to_string(), Some(b"one".to_vec()));
    assert!(v.take_changes().is_empty());
    // a modification stages a Modify record
    v.set_file_contents("/w/a.rs".to_string(), Some(b"two".to_vec()));
    let third = v.take_changes();
    assert_eq!(third.len(), 1);
    assert_eq!(third[0].kind, ChangeKind::Modify);
}

#[test]
fn watcher_drain_coalesces_and_translates() {
    let mut w = FileWatcher::new();
    w.enqueue(WatchMessage::Progress { done: 1, total: 2 });
    w.enqueue(WatchMessage::Loaded {
        files: vec![
            ("/w/a.rs".to_string(), Some(b"fn a() {}".to_vec())),
            ("/w/bad.rs".to_string(), Some(vec![0xff, 0xfe])),
        ],
    });
    // the same path changed again within the batch: the last content wins
    w.enqueue(WatchMessage::Changed {
        files: vec![("/w/a.rs".to_string(), Some(b"fn b() {}".to_vec()))],
    });
    let delta = w.drain_and_apply_changes();
    assert_eq!(delta.len(), 2);
    let a = w.get_file_id(&"/w/a.rs".to_string()).expect("a known");
    let bad = w.get_file_id(&"/w/bad.rs".to_string()).expect("bad known");
    for change in &delta {
        if change.file_id == a {
            assert_eq!(change.new_text.as_deref(), Some("fn b() {}"));
        } else {
            assert_eq!(change.file_id, bad);
            // not UTF-8: the database sees no content
            assert_eq!(change.new_text, None);
        }
    }
    // a second drain with no events hands back nothing
    assert!(w.drain_and_apply_changes().is_empty());
    assert_eq!(
        w.get_file_id(&"/w/missing.rs".to_string()),
        Err(EngineError::FileNotInWorkspace)
    );
}

#[test]
fn watch_config_excludes_build_output() {
    let cfg = FileWatcher::watch_config("/w/proj".to_string());
    assert_eq!(cfg.root, "/w/proj");
    assert_eq!(cfg.extensions, vec!["rs".to_string(), "toml".to_string()]);
    assert_eq!(
        cfg.exclude,
        vec!["/w/proj/target".to_string(), "/w/proj/.git".to_string()]
    );
}

#[test]
fn workspace_loads_once() {
    let mut engine = RustAnalyzerish::new();
    let root = "/w/proj".to_string();
    assert_eq!(engine.ensure_project_loaded(&root), Ok(LoadDecision::LoadNeeded));
    engine.install_workspace(root.clone(), Vfs::new());
    // the same root again is a no-op
    assert_eq!(engine.ensure_project_loaded(&root), Ok(LoadDecision::AlreadyLoaded));
    // a different root is refused
    let other = "/w/other".to_string();
    assert_eq!(
        engine.ensure_project_loaded(&other),
        Err(EngineError::WorkspaceAlreadyLoaded)
    );
    assert!(engine.drain_changes().is_empty());
}

#[test]
fn references_sort_by_file_line_column() {
    let mk = |file: &str, line: u32, column: u32| ReferenceInfo {
        file_path: file.to_string(),
        line,
        column,
        end_line: line,
        end_column: column + 6,
        name: "Person".to_string(),
        content: "struct Person".to_string(),
        is_definition: false,
    };
    let refs = vec![
        mk("/w/b.rs", 2, 4),
        mk("/w/a.rs", 9, 1),
        mk("/w/a.rs", 2, 8),
        mk("/w/a.rs", 2, 3),
    ];
    let sorted = sort_references(refs);
    let key: Vec<(String, u32, u32)> = sorted
        .iter()
        .map(|r| (r.file_path.clone(), r.line, r.column))
        .collect();
    assert_eq!(
        key,
        vec![
            ("/w/a.rs".to_string(), 2, 3),
            ("/w/a.rs".to_string(), 2, 8),
            ("/w/a.rs".to_string(), 9, 1),
            ("/w/b.rs".to_string(), 2, 4),
        ]
    );
    for r in &sorted {
        assert!((r.end_line, r.end_column) > (r.line, r.column));
    }
}

#[test]
fn string_order_is_lexicographic() {
    assert!(str_le_exec("a", "b"));
    assert!(str_le_exec("abc", "abd"));
    assert!(str_le_exec("ab", "abc"));
    assert!(!str_le_exec("abd", "abc"));
    assert!(str_le_exec("", "a"));
    assert!(str_le_exec("same", "same"));
}

#[test]
fn inlay_hints_render_into_text() {
    let text = "let x = 1;\nlet y = two();\n";
    // a type hint after `x` (offset 5) and one after `y` (offset 16)
    let hints = vec![
        InlayHint {
            start: 4,
            end: 5,
            position: InlayHintPosition::After,
            label: "i32".to_string(),
        },
        InlayHint {
            start: 15,
            end: 16,
            position: InlayHintPosition::After,
            label: "u8".to_string(),
        },
    ];
    let out = RustAnalyzerish::render_inlay_hints(text, &hints, None, None).expect("hints render");
    assert_eq!(out, "let x: i32 = 1;\nlet y: u8 = two();\n");
    // slicing to the first line keeps only its annotation
    let first = RustAnalyzerish::render_inlay_hints(text, &hints, Some(1), Some(1)).expect("range renders");
    assert_eq!(first, "let x: i32 = 1;");
    // a range outside the file is refused
    assert_eq!(
        RustAnalyzerish::render_inlay_hints(text, &hints, Some(7), Some(9)),
        Err(EngineError::RangeOutOfBounds)
    );
    assert_eq!(
        RustAnalyzerish::render_inlay_hints(text, &hints, Some(2), Some(1)),
        Err(EngineError::RangeOutOfBounds)
    );
    // a hint beyond the text is refused
    let bad = vec![InlayHint {
        start: 900,
        end: 901,
        position: InlayHintPosition::Before,
        label: "nope".to_string(),
    }];
    assert_eq!(
        RustAnalyzerish::render_inlay_hints(text, &bad, None, None),
        Err(EngineError::InvalidEditPosition)
    );
}

#[test]
fn parameter_hints_render_before_anchor() {
    let text = "new(\"Alice\")\n";
    let hints = vec![InlayHint {
        start: 4,
        end: 11,
        position: InlayHintPosition::Before,
        label: "name".to_string(),
    }];
    let out = RustAnalyzerish::render_inlay_hints(text, &hints, None, None).expect("hint renders");
    assert_eq!(out, "new(name: \"Alice\")\n");
}

#[test]
fn plan_edits_from_spans_round_trip() {
    let text = "struct Person;\nuse Person;\n";
    let idx = LineIndex::new(text);
    let spans = vec![
        SpanEdit {
            start: 7,
            end: 13,
            insert: "Individual".to_string(),
        },
        SpanEdit {
            start: 19,
            end: 25,
            insert: "Individual".to_string(),
        },
    ];
    let edits = RustAnalyzerish::edits_from_spans(&idx, spans).expect("spans convert");
    assert_eq!(edits.len(), 2);
    assert_eq!((edits[0].line, edits[0].column), (1, 8));
    assert_eq!((edits[0].end_line, edits[0].end_column), (1, 14));
    assert_eq!((edits[1].line, edits[1].column), (2, 5));
    assert_eq!(edits[1].new_text, "Individual");
    // the produced plan applies back to the same replacement
    let out = RustAnalyzerUtils::apply_edits_to_text(&idx, text, &edits).expect("applies");
    assert_eq!(out, "struct Individual;\nuse Individual;\n");
    // a span beyond the text does not convert
    let bad = vec![SpanEdit {
        start: 0,
        end: 999,
        insert: "x".to_string(),
    }];
    assert!(RustAnalyzerish::edits_from_spans(&idx, bad).is_none());
}

#[test]
fn line_content_and_slices() {
    let text = "alpha\nbeta\ngamma";
    assert_eq!(
        RustAnalyzerUtils::get_line_content(text, 1).as_deref(),
        Some("beta")
    );
    assert_eq!(RustAnalyzerUtils::get_line_content(text, 3), None);
    assert_eq!(
        RustAnalyzerish::slice_text(text, 6, 10).as_deref(),
        Some("beta")
    );
    assert_eq!(RustAnalyzerish::slice_text(text, 10, 6), None);
}

#[test]
fn module_paths_join_with_separators() {
    let joined = module_path_from_parts(
        &"std".to_string(),
        &vec!["collections".to_string(), "hash".to_string(), "map".to_string()],
    );
    assert_eq!(joined, "std::collections::hash::map");
    let bare = module_path_from_parts(&"sample".to_string(), &vec![]);
    assert_eq!(bare, "sample");
}

#[test]
fn ancestors_and_project_discovery() {
    assert!(is_absolute_path("/w/x.rs"));
    assert!(!is_absolute_path("w/x.rs"));
    assert_eq!(parent_dir("/w/proj/src/main.rs").as_deref(), Some("/w/proj/src"));
    assert_eq!(parent_dir("/top").as_deref(), Some("/"));
    assert_eq!(parent_dir("/"), None);
    assert_eq!(parent_dir("plain"), None);
    let dirs = ancestor_dirs("/w/proj/src/main.rs");
    assert_eq!(
        dirs,
        vec![
            "/w/proj/src".to_string(),
            "/w/proj".to_string(),
            "/w".to_string(),
            "/".to_string(),
        ]
    );
    assert_eq!(manifest_path_in(&"/w/proj".to_string()), "/w/proj/Cargo.toml");
    // the first ancestor holding a manifest wins
    let found = vec![false, true, true, false];
    assert_eq!(
        discover_project_root(&dirs, &found),
        Ok("/w/proj".to_string())
    );
    let none = vec![false, false, false, false];
    assert_eq!(
        discover_project_root(&dirs, &none),
        Err(EngineError::NoManifest)
    );
}

#[test]
fn commands_carry_their_paths() {
    let cmd = AnalyzerCommand::RenameSymbol {
        file_path: "/w/src/main.rs".to_string(),
        line: 5,
        column: 12,
        new_name: "Individual".to_string(),
        symbol: Some("Person".to_string()),
    };
    assert_eq!(extract_workspace_path(&cmd), "/w/src/main.rs");
    let cur = cmd.cursor().expect("rename has a cursor");
    assert_eq!((cur.line, cur.column), (5, 12));
    assert_eq!(cur.symbol.as_deref(), Some("Person"));
    let hints = AnalyzerCommand::ViewInlayHints {
        file_path: "/w/src/main.rs".to_string(),
        start_line: Some(30),
        end_line: Some(45),
    };
    assert!(hints.cursor().is_none());
    assert_eq!(extract_workspace_path(&hints), "/w/src/main.rs");
}

#[test]
fn builder_assembles_a_plan() {
    let plan = RustAnalyzerishBuilder::new()
        .with_workspace("/w/proj".to_string())
        .build_plan()
        .expect("root configured");
    assert_eq!(plan.project_root, "/w/proj");
    assert!(plan.cargo_config.sysroot_discover);
    assert!(plan.cargo_config.all_targets);
    assert!(plan.load_config.load_out_dirs_from_check);
    assert!(plan.load_config.with_proc_macro_server);
    assert!(!plan.load_config.prefill_caches);
    assert_eq!(
        RustAnalyzerishBuilder::new().build_plan().err(),
        Some(EngineError::NoManifest)
    );
}

#[test]
fn ruskel_feature_selection() {
    let _tool = RuskelAnalyzer::new();
    assert!(matches!(feature_choice(true, vec!["a".to_string()]), FeatureChoice::All));
    match feature_choice(false, vec!["macros".to_string()]) {
        FeatureChoice::Listed(fs) => assert_eq!(fs, vec!["macros".to_string()]),
        other => panic!("unexpected choice: {:?}", other),
    }
    assert!(matches!(feature_choice(false, vec![]), FeatureChoice::Defaults));
}

#[test]
fn error_messages_are_stable() {
    assert_eq!(
        EngineError::RenameFailed.message(),
        "symbol cannot be renamed at this position"
    );
    assert!(!EngineError::NoReferences.message().is_empty());
    assert!(!EngineError::DbQueryFailure.message().is_empty());
}

#[test]
fn completion_kind_tags_match_schema() {
    assert_eq!(completion_kind_name(&CompletionKindTag::Binding), "Binding");
    assert_eq!(
        completion_kind_name(&CompletionKindTag::UnresolvedReference),
        "UnresolvedReference"
    );
    assert_eq!(completion_kind_name(&CompletionKindTag::Keyword), "Keyword");
}

#[test]
fn type_hint_assembly_keeps_cursor() {
    let cur = cursor_at(31, 13);
    let hint = RustAnalyzerish::type_hint_from_hover(
        &cur,
        "people: HashMap<String, Person>".to_string(),
        vec![
            "std::collections::hash::map::HashMap".to_string(),
            "sample::Person".to_string(),
        ],
    );
    assert_eq!(hint.file_path, "/test/main.rs");
    assert_eq!((hint.line, hint.column), (31, 13));
    assert!(hint.canonical_types.iter().any(|t| t.contains("HashMap")));
    assert!(hint.canonical_types.iter().any(|t| t.contains("Person")));
}

#[test]
fn file_id_is_plain_data() {
    let a = FileId { id: 3 };
    let b = FileId { id: 3 };
    assert_eq!(a, b);
}

#[test]
fn hover_actions_yield_canonical_types() {
    let actions = vec![
        HoverAction::Other,
        HoverAction::GoToType(vec![
            "std::collections::hash::map::HashMap".to_string(),
            "sample::Person".to_string(),
        ]),
        HoverAction::Other,
        HoverAction::GoToType(vec!["alloc::string::String".to_string()]),
    ];
    let types = canonical_types_from_actions(actions);
    assert_eq!(
        types,
        vec![
            "std::collections::hash::map::HashMap".to_string(),
            "sample::Person".to_string(),
            "alloc::string::String".to_string(),
        ]
    );
    assert!(canonical_types_from_actions(vec![HoverAction::Other]).is_empty());
}

#[test]
fn completion_imports_join_or_vanish() {
    assert_eq!(required_import_of(&vec![]), None);
    assert_eq!(
        required_import_of(&vec!["std::fmt".to_string(), "core::ops".to_string()]).as_deref(),
        Some("std::fmt, core::ops")
    );
}

#[test]
fn module_path_prefers_moniker_over_container() {
    let qualified = module_path_decision(
        Some(MonikerAnswer::Qualified {
            crate_name: "std".to_string(),
            parts: vec!["collections".to_string(), "hash".to_string()],
        }),
        Some("ignored".to_string()),
    );
    assert_eq!(qualified, "std::collections::hash");
    assert_eq!(
        module_path_decision(Some(MonikerAnswer::Local), Some("calculate".to_string())),
        "calculate"
    );
    assert_eq!(module_path_decision(Some(MonikerAnswer::Local), None), "local");
    assert_eq!(
        module_path_decision(None, Some("sample".to_string())),
        "sample"
    );
    assert_eq!(module_path_decision(None, None), "unknown");
}

#[test]
fn reference_records_come_from_nonempty_ranges() {
    let text = "struct Person;\n";
    let idx = LineIndex::new(text);
    let rec = RustAnalyzerish::reference_record(
        "/w/main.rs".to_string(),
        text,
        &idx,
        7,
        13,
        "Person".to_string(),
        true,
    )
    .expect("range converts");
    assert_eq!((rec.line, rec.column), (1, 8));
    assert_eq!((rec.end_line, rec.end_column), (1, 14));
    assert!(rec.is_definition);
    assert!((rec.end_line, rec.end_column) > (rec.line, rec.column));
    // the content is the trimmed source line holding the reference
    assert_eq!(rec.content, "struct Person;");
    // an empty range yields no record
    assert!(RustAnalyzerish::reference_record(
        "/w/main.rs".to_string(),
        text,
        &idx,
        7,
        7,
        "Person".to_string(),
        false,
    )
    .is_none());
}

#[test]
fn empty_reference_lists_are_an_error() {
    assert_eq!(
        RustAnalyzerish::finish_references(vec![]),
        Err(EngineError::NoReferences)
    );
    let one = ReferenceInfo {
        file_path: "/w/main.rs".to_string(),
        line: 5,
        column: 12,
        end_line: 5,
        end_column: 18,
        name: "Person".to_string(),
        content: "pub struct Person {".to_string(),
        is_definition: true,
    };
    let sorted = RustAnalyzerish::finish_references(vec![one.clone()]).expect("non-empty");
    assert_eq!(sorted.len(), 1);
    assert_eq!(sorted[0], one);
}

#[test]
fn query_preamble_drains_and_validates() {
    let mut engine = RustAnalyzerish::new();
    engine.install_workspace("/w".to_string(), Vfs::new());
    engine.enqueue_event(WatchMessage::Loaded {
        files: vec![(
            "/w/main.rs".to_string(),
            Some(b"fn main() {\n    let value = 42;\n}\n".to_vec()),
        )],
    });
    // unknown path after the drain
    let missing = CursorCoordinates {
        file_path: "/w/other.rs".to_string(),
        line: 1,
        column: 1,
        symbol: None,
    };
    assert!(matches!(
        engine.prepare_query(&missing),
        Err(EngineError::FileNotInWorkspace)
    ));
    // a symbol-assisted cursor lands on the symbol, with its offset
    let fuzzy = CursorCoordinates {
        file_path: "/w/main.rs".to_string(),
        line: 3,
        column: 9,
        symbol: Some("value".to_string()),
    };
    let q = engine.prepare_query(&fuzzy).expect("file known");
    assert_eq!((q.resolved.line, q.resolved.column), (2, 9));
    assert_eq!(q.offset, 20);
    assert!(q.db_delta.is_empty()); // already drained above
    // zero coordinates are invalid
    let zero = CursorCoordinates {
        file_path: "/w/main.rs".to_string(),
        line: 0,
        column: 3,
        symbol: None,
    };
    assert!(matches!(
        engine.prepare_query(&zero),
        Err(EngineError::InvalidCoordinates)
    ));
}

#[test]
fn definition_records_carry_module_paths() {
    let text = "pub struct Person {\n    name: String,\n}\n";
    let idx = LineIndex::new(text);
    let def = RustAnalyzerish::definition_record(
        "/w/main.rs".to_string(),
        &idx,
        11,
        17,
        "Person".to_string(),
        Some("Struct".to_string()),
        text.to_string(),
        Some(MonikerAnswer::Qualified {
            crate_name: "sample".to_string(),
            parts: vec![],
        }),
        None,
        None,
    )
    .expect("focus range converts");
    assert_eq!((def.line, def.column), (1, 12));
    assert_eq!((def.end_line, def.end_column), (1, 18));
    assert_eq!(def.module, "sample");
    assert_eq!(def.name, "Person");
    // a focus range past the file yields no record
    assert!(RustAnalyzerish::definition_record(
        "/w/main.rs".to_string(),
        &idx,
        11,
        9999,
        "Person".to_string(),
        None,
        String::new(),
        None,
        None,
        None,
    )
    .is_none());
}

#[test]
fn completion_records_join_imports() {
    let item = RustAnalyzerish::completion_record(
        "insert".to_string(),
        &vec!["std::collections::HashMap".to_string()],
        Some("Method".to_string()),
        None,
        None,
        false,
    );
    assert_eq!(item.required_import.as_deref(), Some("std::collections::HashMap"));
    let bare = RustAnalyzerish::completion_record(
        "len".to_string(),
        &vec![],
        None,
        None,
        None,
        false,
    );
    assert_eq!(bare.required_import, None);
}

#[test]
fn reference_content_is_the_trimmed_line() {
    let text = "    let people = HashMap::new();  \n";
    let idx = LineIndex::new(text);
    // "people" spans offsets 8..14
    let rec = RustAnalyzerish::reference_record(
        "/w/main.rs".to_string(),
        text,
        &idx,
        8,
        14,
        "people".to_string(),
        false,
    )
    .expect("range converts");
    assert_eq!(rec.content, "let people = HashMap::new();");
    assert_eq!(rustbelt::utils::trim_text("\t  padded \r\n"), "padded");
    assert_eq!(rustbelt::utils::trim_text("   "), "");
    assert_eq!(rustbelt::utils::trim_text("bare"), "bare");
}

#[test]
fn byte_and_char_offsets_translate() {
    let text = "a\u{e9}b"; // one 1-byte, one 2-byte, one 1-byte character
    assert_eq!(byte_offset_of_char(text, 0), Some(0));
    assert_eq!(byte_offset_of_char(text, 1), Some(1));
    assert_eq!(byte_offset_of_char(text, 2), Some(3));
    assert_eq!(byte_offset_of_char(text, 3), Some(4));
    assert_eq!(byte_offset_of_char(text, 4), None);
    assert_eq!(char_offset_of_byte(text, 0), Some(0));
    assert_eq!(char_offset_of_byte(text, 1), Some(1));
    // byte offset 2 lands inside the 2-byte character
    assert_eq!(char_offset_of_byte(text, 2), None);
    assert_eq!(char_offset_of_byte(text, 3), Some(2));
    assert_eq!(char_offset_of_byte(text, 4), Some(3));
    assert_eq!(char_offset_of_byte(text, 5), None);
}

#[test]
fn query_settings_match_the_fixed_configuration() {
    let hover = HoverSettings::preset();
    assert!(hover.documentation && hover.keywords && hover.plain_text_markup);
    assert_eq!(hover.max_fields, 10);
    let completions = CompletionSettings::preset();
    assert_eq!(completions.limit, 200);
    assert!(completions.postfix_completions && !completions.imports_on_the_fly);
    assert!(completions.skip_glob_imports && completions.prefer_prelude);
    let inlay = InlaySettings::preset();
    assert!(inlay.type_hints && inlay.parameter_hints);
    assert!(!inlay.chaining_hints && !inlay.render_colons);
}

#[test]
fn rename_verdicts_map_to_outcomes() {
    assert!(matches!(
        RustAnalyzerish::rename_decision(DbRenameAnswer::DbError),
        Err(EngineError::DbQueryFailure)
    ));
    assert!(matches!(
        RustAnalyzerish::rename_decision(DbRenameAnswer::NotPossible),
        Ok(None)
    ));
    assert!(matches!(
        RustAnalyzerish::rename_decision(DbRenameAnswer::Failed),
        Err(EngineError::RenameFailed)
    ));
    let change = FileChange {
        file_path: "/w/main.rs".to_string(),
        edits: vec![],
    };
    let plan = RustAnalyzerish::rename_decision(DbRenameAnswer::Changed(vec![change]))
        .expect("changes map to a plan")
        .expect("a plan is present");
    assert_eq!(plan.file_changes.len(), 1);
    assert_eq!(plan.file_changes[0].file_path, "/w/main.rs");
}
