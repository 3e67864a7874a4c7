use code_scan::index::{
    BindingInfo, BindingKind, ExportInfo, FileIndex, FunctionInfo, FunctionKind, OutputMode,
    ScanResult, Stats, Violation,
};
use code_scan::output::{
    compute_dot_names, count_functions, folder_from_parent, folder_of, index_document,
    rules_document, CompactOutput, CompactRulesOutput, FilesOutput, FoldersOutput, IndexDocument,
    RulesDocument, VerboseOutput, VerboseRulesOutput,
};

fn func(name: Option<&str>, kind: FunctionKind, exported: bool, line: u32, line_end: u32) -> FunctionInfo {
    FunctionInfo {
        name: name.map(|s| s.to_string()),
        kind,
        exported,
        is_async: false,
        is_generator: false,
        line,
        col: 1,
        line_end,
    }
}

fn file(path: &str, functions: Vec<FunctionInfo>) -> FileIndex {
    FileIndex {
        path: path.into(),
        functions,
        bindings: vec![],
        exports: vec![],
        violations: vec![],
        parse_errors: 0,
    }
}

fn result_of(file_indices: Vec<FileIndex>) -> ScanResult {
    let n = file_indices.len();
    ScanResult {
        ver: 1,
        root: ".".into(),
        stats: Stats { files: n, parsed: n, skipped: 0, errors: 0 },
        file_indices,
        errors: vec![],
    }
}

fn scan_result_example() -> ScanResult {
    let mut fi1 = file(
        "dir/a.ts",
        vec![
            func(Some("foo"), FunctionKind::Declaration, true, 1, 1),
            func(None, FunctionKind::Arrow, false, 2, 2),
            func(Some("foo"), FunctionKind::Declaration, true, 3, 3),
        ],
    );
    fi1.bindings = vec![BindingInfo {
        name: "x".into(),
        kind: BindingKind::Const,
        exported: false,
        refs: 0,
        line: 1,
        col: 1,
    }];
    let fi2 = file("b.ts", vec![func(Some("bar"), FunctionKind::Declaration, false, 1, 1)]);
    result_of(vec![fi1, fi2])
}

#[test]
fn files_mode_groups_named_functions() {
    let r = scan_result_example();
    let files = FilesOutput::from(&r);

    assert_eq!(files.ver, 1);
    assert_eq!(files.stats.parsed, 2);
    assert_eq!(files.files.get("dir/a.ts").unwrap(), &vec!["foo".to_string()]);
    assert_eq!(files.files.get("b.ts").unwrap(), &vec!["bar".to_string()]);
}

#[test]
fn folders_mode_summarizes_by_parent_dir() {
    let r = scan_result_example();
    let folders = FoldersOutput::from(&r);

    let dir = folders.folders.get("dir").unwrap();
    assert_eq!(dir.functions, 3);
    assert_eq!(dir.names, vec!["foo".to_string()]);

    let root_dir = folders.folders.get(".").unwrap();
    assert_eq!(root_dir.functions, 1);
    assert_eq!(root_dir.names, vec!["bar".to_string()]);
}

#[test]
fn folders_mode_uses_dot_names() {
    let fi = file(
        "dir/x.ts",
        vec![
            func(Some("builder"), FunctionKind::Declaration, false, 1, 50),
            func(Some("get"), FunctionKind::ObjectMethod, false, 10, 20),
        ],
    );
    let r = result_of(vec![fi]);
    let folders = FoldersOutput::from(&r);
    let entry = folders.folders.get("dir").unwrap();
    assert!(entry.names.contains(&"builder.get".to_string()));
    assert!(entry.names.contains(&"builder".to_string()));
}

#[test]
fn dot_names_for_nested_methods() {
    let fi = file(
        "x.ts",
        vec![
            func(Some("builder"), FunctionKind::Declaration, false, 1, 100),
            func(Some("get"), FunctionKind::ObjectMethod, false, 10, 20),
            func(Some("util"), FunctionKind::Declaration, false, 150, 160),
        ],
    );
    let r = result_of(vec![fi]);
    let files = FilesOutput::from(&r);
    let names = files.files.get("x.ts").unwrap();
    assert!(names.contains(&"builder.get".to_string()));
    assert!(names.contains(&"builder".to_string()));
    assert!(names.contains(&"util".to_string()));
}

#[test]
fn dot_names_picks_nearest_parent() {
    let fi = file(
        "x.ts",
        vec![
            func(Some("outer"), FunctionKind::Declaration, false, 1, 200),
            func(Some("inner"), FunctionKind::Declaration, false, 20, 150),
            func(Some("leaf"), FunctionKind::Declaration, false, 50, 60),
        ],
    );
    let names = FilesOutput::from(&result_of(vec![fi])).files.remove("x.ts").unwrap();
    assert!(names.contains(&"inner.leaf".to_string()));
    assert!(!names.contains(&"outer.leaf".to_string()));
}

// Further cases.

#[test]
fn dot_names_are_sorted_and_unique() {
    let fns = vec![
        func(Some("zeta"), FunctionKind::Declaration, false, 1, 1),
        func(Some("alpha"), FunctionKind::Declaration, false, 2, 2),
        func(Some("zeta"), FunctionKind::Declaration, false, 3, 3),
        func(None, FunctionKind::Arrow, false, 4, 4),
        func(Some("Beta"), FunctionKind::Declaration, false, 5, 5),
    ];
    assert_eq!(
        compute_dot_names(&fns),
        vec!["Beta".to_string(), "alpha".to_string(), "zeta".to_string()]
    );
}

fn func_at(name: &str, line: u32, col: u32, line_end: u32) -> FunctionInfo {
    FunctionInfo { col, ..func(Some(name), FunctionKind::Declaration, false, line, line_end) }
}

#[test]
fn dot_names_skip_anonymous_parents_and_equal_starts() {
    let fns = vec![
        func(None, FunctionKind::Arrow, false, 1, 100),
        func(Some("a"), FunctionKind::Declaration, false, 5, 10),
        func(Some("b"), FunctionKind::Declaration, false, 5, 10),
        func(Some("solo"), FunctionKind::Declaration, false, 200, 210),
    ];
    // the anonymous function names nothing; two functions that start at the
    // same place do not enclose each other
    assert_eq!(
        compute_dot_names(&fns),
        vec!["a".to_string(), "b".to_string(), "solo".to_string()]
    );
}

#[test]
fn dot_names_never_put_a_function_under_a_later_one() {
    // function a(){} function b(){}
    let fns = vec![func_at("a", 1, 1, 1), func_at("b", 1, 16, 1)];
    let names = compute_dot_names(&fns);
    assert!(!names.contains(&"b.a".to_string()));
    assert!(names.contains(&"a".to_string()));
}

#[test]
fn dot_names_of_equal_line_spans_take_the_inner_parent() {
    let fns = vec![
        func_at("outer", 1, 1, 10),
        func_at("inner", 1, 20, 10),
        func_at("child", 3, 5, 5),
    ];
    let names = compute_dot_names(&fns);
    assert!(names.contains(&"inner.child".to_string()));
    assert!(!names.contains(&"outer.child".to_string()));
    assert!(names.contains(&"outer.inner".to_string()));
}

#[test]
fn dot_names_of_a_tie_take_the_first_parent() {
    let fns = vec![
        func(Some("p1"), FunctionKind::Declaration, false, 1, 50),
        func(Some("p2"), FunctionKind::Declaration, false, 1, 50),
        func(Some("c"), FunctionKind::Declaration, false, 10, 20),
    ];
    let names = compute_dot_names(&fns);
    assert!(names.contains(&"p1.c".to_string()));
    assert!(!names.contains(&"p2.c".to_string()));
}

#[test]
fn dot_names_of_nothing() {
    assert!(compute_dot_names(&[]).is_empty());
}

#[test]
fn folder_of_paths() {
    assert_eq!(folder_of("dir/a.ts"), "dir");
    assert_eq!(folder_of("a/b/c.ts"), "a/b");
    assert_eq!(folder_of("a.ts"), ".");
    assert_eq!(folder_of(""), ".");
    assert_eq!(folder_from_parent(None), ".");
    assert_eq!(folder_from_parent(Some(String::new())), ".");
    assert_eq!(folder_from_parent(Some("src".into())), "src");
}

#[test]
fn files_mode_keeps_the_last_of_repeated_paths() {
    let r = result_of(vec![
        file("a.ts", vec![func(Some("first"), FunctionKind::Declaration, false, 1, 1)]),
        file("a.ts", vec![func(Some("second"), FunctionKind::Declaration, false, 1, 1)]),
    ]);
    let files = FilesOutput::from(&r);
    assert_eq!(files.files.len(), 1);
    assert_eq!(files.files.get("a.ts").unwrap(), &vec!["second".to_string()]);
}

#[test]
fn folders_mode_merges_files_of_one_folder() {
    let r = result_of(vec![
        file("src/a.ts", vec![func(Some("b"), FunctionKind::Declaration, false, 1, 1)]),
        file(
            "src/b.ts",
            vec![
                func(Some("a"), FunctionKind::Declaration, false, 1, 1),
                func(Some("b"), FunctionKind::Declaration, false, 2, 2),
            ],
        ),
        file("lib/c.ts", vec![]),
    ]);
    let folders = FoldersOutput::from(&r);
    assert_eq!(folders.folders.len(), 2);
    let src = folders.folders.get("src").unwrap();
    assert_eq!(src.functions, 3);
    assert_eq!(src.names, vec!["a".to_string(), "b".to_string()]);
    let lib = folders.folders.get("lib").unwrap();
    assert_eq!(lib.functions, 0);
    assert!(lib.names.is_empty());
    assert_eq!(count_functions(&r), Some(3));
}

#[test]
fn compact_rows_follow_files_in_order() {
    let mut r = scan_result_example();
    r.file_indices[0].exports.push(ExportInfo { name: "foo".into(), kind_code: 1 });
    let o = CompactOutput::from(&r, true);
    assert_eq!(o.ver, 1);
    assert_eq!(o.f.len(), 4);
    assert_eq!(o.f[0].file, "dir/a.ts");
    assert_eq!(o.f[0].name, "foo");
    assert_eq!(o.f[0].exported, 1);
    assert_eq!(o.f[0].kind, "fn");
    assert_eq!(o.f[1].name, "");
    assert_eq!(o.f[1].exported, 0);
    assert_eq!(o.f[1].kind, "arr");
    assert_eq!(o.f[3].file, "b.ts");
    assert_eq!(o.f[3].name, "bar");
    assert_eq!(o.b.len(), 1);
    assert_eq!(o.b[0].kind, "const");
    assert_eq!(o.b[0].refs, 0);
    let x = o.x.as_ref().unwrap();
    assert_eq!(x.len(), 1);
    assert_eq!(x[0].file, "dir/a.ts");
    assert_eq!(x[0].kind_code, 1);
    assert!(o.viol.is_empty());
    assert!(o.err.is_empty());
}

#[test]
fn write_verbose_and_rules_include_errors_and_violations() {
    let mut fi = file("a.ts", vec![func(Some("a"), FunctionKind::Declaration, true, 1, 1)]);
    fi.violations.push(Violation { rule: "demo".into(), count: 1, details: vec!["a".into()] });
    let r = ScanResult {
        ver: 1,
        root: "/repo".into(),
        stats: Stats { files: 1, parsed: 1, skipped: 0, errors: 1 },
        file_indices: vec![fi],
        errors: vec!["oops".into()],
    };
    let v = VerboseOutput::from(&r, true);
    assert_eq!(v.root, "/repo");
    assert_eq!(v.violations[0].rule, "demo");
    assert_eq!(v.violations[0].file, "a.ts");
    assert_eq!(v.violations[0].details, vec!["a".to_string()]);
    assert_eq!(v.errors, vec!["oops".to_string()]);
    assert_eq!(v.functions[0].kind, "FunctionDeclaration");
    assert_eq!(v.functions[0].span.start.line, 1);
    assert_eq!(v.functions[0].span.end.col, 0);

    let rules = VerboseRulesOutput::from(&r);
    assert_eq!(rules.violations[0].rule, "demo");
    assert_eq!(rules.errors, vec!["oops".to_string()]);
    assert_eq!(rules.stats.errors, 1);

    let compact = CompactRulesOutput::from(&r);
    assert_eq!(compact.viol.len(), 1);
    assert_eq!(compact.viol[0].count, 1);
    assert_eq!(compact.err, vec!["oops".to_string()]);
}

#[test]
fn verbose_output_includes_exports_and_folder_none_parent_path() {
    let mut fi = file("", vec![func(Some("top"), FunctionKind::Declaration, true, 1, 1)]);
    fi.exports = vec![ExportInfo { name: "default".into(), kind_code: 2 }];
    let r = result_of(vec![fi]);
    let v = VerboseOutput::from(&r, true);
    let exports = v.exports.as_ref().unwrap();
    assert_eq!(exports[0].name, "default");
    assert_eq!(exports[0].kind_code, 2);
    let folders = FoldersOutput::from(&r);
    assert!(folders.folders.contains_key("."));
}

#[test]
fn documents_follow_the_mode() {
    let r = scan_result_example();
    assert!(matches!(index_document(&r, OutputMode::Compact, false), IndexDocument::Compact(_)));
    assert!(matches!(index_document(&r, OutputMode::Verbose, false), IndexDocument::Verbose(_)));
    assert!(matches!(index_document(&r, OutputMode::Files, false), IndexDocument::Files(_)));
    assert!(matches!(index_document(&r, OutputMode::Folders, false), IndexDocument::Folders(_)));
    assert!(matches!(rules_document(&r, OutputMode::Compact), RulesDocument::Compact(_)));
    assert!(matches!(rules_document(&r, OutputMode::Verbose), RulesDocument::Verbose(_)));
    assert!(matches!(rules_document(&r, OutputMode::Files), RulesDocument::Verbose(_)));
    assert!(matches!(rules_document(&r, OutputMode::Folders), RulesDocument::Verbose(_)));
}

#[test]
fn compact_and_verbose_list_the_same_functions() {
    let r = scan_result_example();
    let c = CompactOutput::from(&r, true);
    let v = VerboseOutput::from(&r, true);
    assert_eq!(c.f.len(), v.functions.len());
    for (row, obj) in c.f.iter().zip(v.functions.iter()) {
        assert_eq!(row.file, obj.file);
        assert_eq!(row.line, obj.span.start.line);
        assert_eq!(row.col, obj.span.start.col);
        assert_eq!(row.name, obj.name.clone().unwrap_or_default());
        assert_eq!(row.exported == 1, obj.exported);
    }
}

fn parent_child_result() -> ScanResult {
    let mut fi = file(
        "p.ts",
        vec![
            func(Some("parent"), FunctionKind::Declaration, true, 1, 50),
            func(Some("child"), FunctionKind::ObjectMethod, false, 10, 20),
        ],
    );
    fi.bindings = vec![BindingInfo {
        name: "x".into(),
        kind: BindingKind::Const,
        exported: false,
        refs: 0,
        line: 1,
        col: 1,
    }];
    result_of(vec![fi])
}

fn index_ver(d: &IndexDocument) -> u8 {
    match d {
        IndexDocument::Compact(o) => o.ver,
        IndexDocument::Verbose(o) => o.ver,
        IndexDocument::Files(o) => o.ver,
        IndexDocument::Folders(o) => o.ver,
    }
}

fn rules_ver(d: &RulesDocument) -> u8 {
    match d {
        RulesDocument::Compact(o) => o.ver,
        RulesDocument::Verbose(o) => o.ver,
    }
}

#[test]
fn write_result_emits_valid_json_all_modes() {
    let r = parent_child_result();
    for mode in [OutputMode::Compact, OutputMode::Verbose, OutputMode::Files, OutputMode::Folders] {
        let d = index_document(&r, mode, false);
        assert_eq!(index_ver(&d), 1);
    }
    match index_document(&r, OutputMode::Files, false) {
        IndexDocument::Files(o) => {
            assert_eq!(
                o.files.get("p.ts").unwrap(),
                &vec!["parent".to_string(), "parent.child".to_string()]
            );
        }
        _ => panic!("not the files document"),
    }
}

#[test]
fn write_rules_result_emits_valid_json() {
    let mut fi = file("a.ts", vec![]);
    fi.violations.push(Violation { rule: "demo".into(), count: 1, details: vec!["x".into()] });
    let r = result_of(vec![fi]);
    for mode in [OutputMode::Compact, OutputMode::Verbose, OutputMode::Files, OutputMode::Folders] {
        let d = rules_document(&r, mode);
        assert_eq!(rules_ver(&d), 1);
    }
}

#[test]
fn write_rules_result_handles_empty() {
    let r = result_of(vec![file("a.ts", vec![])]);
    match rules_document(&r, OutputMode::Compact) {
        RulesDocument::Compact(o) => {
            assert_eq!(o.ver, 1);
            assert!(o.viol.is_empty());
        }
        _ => panic!("not the compact rules document"),
    }
}

#[test]
fn exports_appear_only_when_asked_for() {
    let mut r = scan_result_example();
    r.file_indices[0].exports.push(ExportInfo { name: "foo".into(), kind_code: 1 });
    assert!(CompactOutput::from(&r, false).x.is_none());
    assert!(VerboseOutput::from(&r, false).exports.is_none());
    match index_document(&r, OutputMode::Compact, true) {
        IndexDocument::Compact(o) => assert_eq!(o.x.unwrap().len(), 1),
        _ => panic!("not the compact document"),
    }
    match index_document(&r, OutputMode::Verbose, false) {
        IndexDocument::Verbose(o) => {
            assert!(o.exports.is_none());
            assert_eq!(o.functions.len(), 4);
        }
        _ => panic!("not the verbose document"),
    }
    // the function rows do not depend on the switch
    assert_eq!(CompactOutput::from(&r, false).f.len(), CompactOutput::from(&r, true).f.len());
}
