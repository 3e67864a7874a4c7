use code_scan::index::{
    BindingKind, FunctionKind, FunctionKindsFilter, LineIndex, OutputMode,
};

#[test]
fn function_kinds_filter_includes_variants() {
    assert!(FunctionKindsFilter::All.includes(FunctionKind::Getter));
    assert!(FunctionKindsFilter::Top.includes(FunctionKind::Declaration));
    assert!(!FunctionKindsFilter::Top.includes(FunctionKind::Arrow));
    assert!(FunctionKindsFilter::TopArrow.includes(FunctionKind::Arrow));
    assert!(!FunctionKindsFilter::TopArrow.includes(FunctionKind::ClassMethod));
    assert!(FunctionKindsFilter::TopArrowClass.includes(FunctionKind::Constructor));
    assert!(FunctionKindsFilter::TopArrowClass.includes(FunctionKind::Getter));
    assert!(FunctionKindsFilter::TopArrowClass.includes(FunctionKind::Setter));
}

#[test]
fn top_arrow_class_filter_leaves_out_expressions_and_object_methods() {
    assert!(!FunctionKindsFilter::TopArrowClass.includes(FunctionKind::Expression));
    assert!(!FunctionKindsFilter::TopArrowClass.includes(FunctionKind::ObjectMethod));
    assert!(FunctionKindsFilter::TopArrowClass.includes(FunctionKind::ClassMethod));
    assert!(FunctionKindsFilter::All.includes(FunctionKind::Expression));
}

#[test]
fn filters_are_nested_for_every_kind() {
    let kinds = [
        FunctionKind::Declaration,
        FunctionKind::Arrow,
        FunctionKind::Expression,
        FunctionKind::ClassMethod,
        FunctionKind::ObjectMethod,
        FunctionKind::Getter,
        FunctionKind::Setter,
        FunctionKind::Constructor,
    ];
    for k in kinds {
        if FunctionKindsFilter::Top.includes(k) {
            assert!(FunctionKindsFilter::TopArrow.includes(k));
        }
        if FunctionKindsFilter::TopArrow.includes(k) {
            assert!(FunctionKindsFilter::TopArrowClass.includes(k));
        }
        assert!(FunctionKindsFilter::All.includes(k));
    }
}

#[test]
fn function_kind_codes_and_labels() {
    assert_eq!(FunctionKind::Declaration.code(), "fn");
    assert_eq!(FunctionKind::Arrow.code(), "arr");
    assert_eq!(FunctionKind::Expression.code(), "fex");
    assert_eq!(FunctionKind::ClassMethod.code(), "cls");
    assert_eq!(FunctionKind::ObjectMethod.code(), "obj");
    assert_eq!(FunctionKind::Getter.code(), "get");
    assert_eq!(FunctionKind::Setter.code(), "set");
    assert_eq!(FunctionKind::Constructor.code(), "ctor");
    assert_eq!(FunctionKind::Declaration.label(), "FunctionDeclaration");
    assert_eq!(FunctionKind::Arrow.label(), "ArrowFunctionExpression");
    assert_eq!(FunctionKind::Expression.label(), "FunctionExpression");
    assert_eq!(FunctionKind::Constructor.label(), "Constructor");
}

#[test]
fn binding_kind_names() {
    assert_eq!(BindingKind::Var.as_str(), "var");
    assert_eq!(BindingKind::Let.as_str(), "let");
    assert_eq!(BindingKind::Const.as_str(), "const");
    assert_eq!(BindingKind::Param.as_str(), "param");
    assert_eq!(BindingKind::Function.as_str(), "fn");
    assert_eq!(BindingKind::Class.as_str(), "class");
    assert_eq!(BindingKind::Import.as_str(), "import");
    assert_eq!(BindingKind::Catch.as_str(), "catch");
    assert_eq!(BindingKind::Enum.as_str(), "enum");
}

#[test]
fn defaults_are_compact_and_all() {
    assert_eq!(OutputMode::default(), OutputMode::Compact);
    assert_eq!(FunctionKindsFilter::default(), FunctionKindsFilter::All);
}

#[test]
fn line_index_lines_and_columns() {
    let src = "ab\ncd\n\nx";
    let li = LineIndex::new(src);
    assert_eq!(li.line(0), 1);
    assert_eq!(li.col(0), 1);
    assert_eq!(li.line(1), 1);
    assert_eq!(li.col(1), 2);
    // the newline itself belongs to the line it ends
    assert_eq!(li.line(2), 1);
    assert_eq!(li.col(2), 3);
    assert_eq!(li.line(3), 2);
    assert_eq!(li.col(3), 1);
    assert_eq!(li.line(6), 3);
    assert_eq!(li.col(6), 1);
    assert_eq!(li.line(7), 4);
    assert_eq!(li.col(7), 1);
    // offsets past the end stay on the last line
    assert_eq!(li.line(20), 4);
    assert_eq!(li.col(20), 14);
}

#[test]
fn line_index_of_empty_source() {
    let li = LineIndex::new("");
    assert_eq!(li.line(0), 1);
    assert_eq!(li.col(0), 1);
    assert_eq!(li.line(5), 1);
    assert_eq!(li.col(5), 6);
}

#[test]
fn line_index_counts_bytes_not_characters() {
    // "é" takes two bytes
    let li = LineIndex::new("é\nz");
    assert_eq!(li.line(2), 1);
    assert_eq!(li.col(2), 3);
    assert_eq!(li.line(3), 2);
    assert_eq!(li.col(3), 1);
}

#[test]
fn lines_never_go_back() {
    let src = "a\nbb\n\nccc\n";
    let li = LineIndex::new(src);
    let mut prev = 0;
    for off in 0..12u32 {
        let l = li.line(off);
        assert!(l >= 1);
        assert!(l >= prev);
        assert!(li.col(off) >= 1);
        prev = l;
    }
}
