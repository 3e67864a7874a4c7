use code_scan::index::{BindingInfo, BindingKind, FileIndex, FunctionInfo, FunctionKind, Violation};
use code_scan::scan::{finish_scan, has_violations, rules_exit_code};

fn fi(path: &str, fn_names: &[&str], parse_errors: usize) -> FileIndex {
    FileIndex {
        path: path.into(),
        functions: fn_names
            .iter()
            .map(|n| FunctionInfo {
                name: Some((*n).into()),
                kind: FunctionKind::Declaration,
                exported: true,
                is_async: false,
                is_generator: false,
                line: 1,
                col: 1,
                line_end: 1,
            })
            .collect(),
        bindings: vec![],
        exports: vec![],
        violations: vec![],
        parse_errors,
    }
}

#[test]
fn scan_result_applies_rules_and_counts() {
    let files = vec![fi("a.ts", &["a", "b"], 0)];
    let r = finish_scan(".".into(), 1, files, Some(&["one_exported_function_per_file".into()]));
    assert_eq!(r.ver, 1);
    assert_eq!(r.root, ".");
    assert_eq!(r.stats.files, 1);
    assert_eq!(r.stats.parsed, 1);
    assert_eq!(r.stats.skipped, 0);
    assert_eq!(r.stats.errors, 0);
    assert_eq!(r.file_indices.len(), 1);
    assert_eq!(r.file_indices[0].violations.len(), 1);
    assert_eq!(r.file_indices[0].violations[0].rule, "one_exported_function_per_file");
    assert!(r.errors.is_empty());
    assert!(has_violations(&r));
    assert_eq!(rules_exit_code(&r), 1);
}

#[test]
fn scan_without_rule_selection_runs_none() {
    let mut many: Vec<String> = Vec::new();
    for i in 0..25 {
        many.push(format!("f{i}"));
    }
    let refs: Vec<&str> = many.iter().map(|s| s.as_str()).collect();
    let r = finish_scan(".".into(), 1, vec![fi("a.ts", &refs, 0)], None);
    assert!(r.file_indices[0].violations.is_empty());
    assert!(!has_violations(&r));
    assert_eq!(rules_exit_code(&r), 0);
}

#[test]
fn scan_with_no_rule_named_runs_every_rule() {
    // ok.ts: `export function only(){}`; nothing refers to `only`
    let mut f = fi("ok.ts", &["only"], 0);
    f.bindings.push(BindingInfo {
        name: "only".into(),
        kind: BindingKind::Function,
        exported: true,
        refs: 0,
        line: 1,
        col: 8,
    });
    let r = finish_scan(".".into(), 1, vec![f], Some(&[]));
    let rules: Vec<&str> = r.file_indices[0].violations.iter().map(|v| v.rule.as_str()).collect();
    assert_eq!(rules, vec!["no_unused_bindings"]);
    assert_eq!(rules_exit_code(&r), 1);
}

#[test]
fn scan_orders_files_by_path_and_keeps_ties_in_order() {
    let files = vec![
        fi("src/b.ts", &["b"], 0),
        fi("a.ts", &["first"], 2),
        fi("Z.ts", &[], 0),
        fi("a.ts", &["second"], 0),
        fi("src/a.ts", &[], 1),
    ];
    let r = finish_scan("/repo".into(), 7, files, None);
    let paths: Vec<&str> = r.file_indices.iter().map(|f| f.path.as_str()).collect();
    assert_eq!(paths, vec!["Z.ts", "a.ts", "a.ts", "src/a.ts", "src/b.ts"]);
    assert_eq!(r.file_indices[1].functions[0].name.as_deref(), Some("first"));
    assert_eq!(r.file_indices[2].functions[0].name.as_deref(), Some("second"));
    assert_eq!(r.root, "/repo");
    assert_eq!(r.stats.files, 7);
    assert_eq!(r.stats.parsed, 5);
    assert_eq!(r.stats.skipped, 2);
    assert_eq!(r.stats.errors, 2);
}

#[test]
fn scan_of_nothing() {
    let r = finish_scan(".".into(), 3, vec![], Some(&["no_unused_bindings".into()]));
    assert!(r.file_indices.is_empty());
    assert_eq!(r.stats.skipped, 3);
    assert_eq!(rules_exit_code(&r), 0);
}

#[test]
fn scan_keeps_violations_already_present() {
    let mut f = fi("a.ts", &[], 0);
    f.violations.push(Violation { rule: "earlier".into(), count: 1, details: vec![] });
    let r = finish_scan(".".into(), 1, vec![f], None);
    assert_eq!(r.file_indices[0].violations.len(), 1);
    assert_eq!(rules_exit_code(&r), 1);
}

#[test]
fn scan_order_does_not_depend_on_input_order() {
    let make = |order: &[usize]| {
        let all = [("c.ts", "c"), ("a.ts", "a"), ("b.ts", "b")];
        let files: Vec<FileIndex> = order.iter().map(|&i| fi(all[i].0, &[all[i].1], 0)).collect();
        finish_scan(".".into(), 3, files, Some(&["max_functions_per_file".into()]))
    };
    let x = make(&[0, 1, 2]);
    let y = make(&[2, 0, 1]);
    let px: Vec<&str> = x.file_indices.iter().map(|f| f.path.as_str()).collect();
    let py: Vec<&str> = y.file_indices.iter().map(|f| f.path.as_str()).collect();
    assert_eq!(px, vec!["a.ts", "b.ts", "c.ts"]);
    assert_eq!(px, py);
}
