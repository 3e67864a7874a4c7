use std::collections::BTreeSet;

use code_scan::extract::{
    extract_file, extract_param_names, flags_to_binding_kind, AstEvent, Collector,
    DeclarationShape, DefaultExportShape, FunctionFlags, FunctionType, MethodKind, ParamPattern,
    PropertyKind, SymbolFacts, SymbolRecord,
};
use code_scan::index::{
    BindingKind, FunctionKind, FunctionKindsFilter, LineIndex, EXPORT_DEFAULT, EXPORT_NAMED,
};
use code_scan::parse::{process_file, relative_path, ParseOutcome};

fn at(src: &str, needle: &str) -> u32 {
    src.find(needle).expect("needle in source") as u32
}

fn end_of(src: &str, needle: &str) -> u32 {
    (src.find(needle).expect("needle in source") + needle.len()) as u32
}

fn function(src: &str, ty: FunctionType, name: Option<&str>, text: &str) -> AstEvent {
    AstEvent::Function {
        function_type: ty,
        name: name.map(String::from),
        is_async: false,
        is_generator: false,
        start: at(src, text),
        end: end_of(src, text),
    }
}

fn arrow(src: &str, text: &str) -> AstEvent {
    AstEvent::Arrow { is_async: false, start: at(src, text), end: end_of(src, text) }
}

fn method(src: &str, kind: MethodKind, name: &str, text: &str, value: &str) -> AstEvent {
    AstEvent::MethodEnter {
        kind,
        name: Some(name.into()),
        is_async: false,
        is_generator: false,
        start: at(src, text),
        end: end_of(src, text),
        value_start: at(src, value),
    }
}

fn property(
    src: &str,
    method: bool,
    kind: PropertyKind,
    name: &str,
    value: Option<&str>,
    text: &str,
) -> AstEvent {
    AstEvent::PropertyEnter {
        method,
        kind,
        name: Some(name.into()),
        function: value.map(|v| FunctionFlags { is_async: false, is_generator: false, start: at(src, v) }),
        start: at(src, text),
        end: end_of(src, text),
    }
}

fn declarator(arrow_init: bool, name: &str) -> AstEvent {
    AstEvent::DeclaratorEnter { arrow_init, binding_name: Some(name.into()) }
}

fn facts() -> SymbolFacts {
    SymbolFacts {
        value: false,
        catch_variable: false,
        const_variable: false,
        block_scoped_variable: false,
        function_scoped_variable: false,
        function: false,
        class: false,
        import: false,
        enum_kind: false,
    }
}

fn symbol(src: &str, name: &str, flags: SymbolFacts, needle: &str, references: usize) -> SymbolRecord {
    SymbolRecord { flags, name: name.into(), span_start: at(src, needle), references }
}

#[test]
fn param_extraction_variants() {
    // function f(a,{b},[c], d = 1){}
    let params = vec![
        ParamPattern::Identifier("a".into()),
        ParamPattern::Object,
        ParamPattern::Array,
        ParamPattern::Identifier("d".into()),
    ];
    let names = extract_param_names(&params);
    assert_eq!(names, vec!["a", "{...}", "[...]", "d"]);
}

const COVER_SRC: &str = r"
            export { a1, a2 };
            export function foo() {}
            export default function defFn() {}
            export default function() {}
            export default class NamedCls {}
            export const arr = () => {};
            class K { constructor(){} get g(){ return 1 } set s(v){} m(){} }
            const obj = { get og(){ return 1 }, set os(v){}, method(){ const inner = () => {}; }, key: 1 };
            enum E { A }
            import { z } from 'm';
            try { throw new Error() } catch (e) { const c = 1; }
        ";

fn cover_events(src: &str) -> Vec<AstEvent> {
    vec![
        AstEvent::ExportNamedEnter { specifiers: vec!["a1".into(), "a2".into()], declaration: None },
        AstEvent::ExportNamedExit,
        AstEvent::ExportNamedEnter {
            specifiers: vec![],
            declaration: Some(DeclarationShape::Function(Some("foo".into()))),
        },
        function(src, FunctionType::Declaration, Some("foo"), "function foo() {}"),
        AstEvent::ExportNamedExit,
        AstEvent::ExportDefaultEnter {
            declaration: DefaultExportShape::Function(Some("defFn".into())),
        },
        function(src, FunctionType::Declaration, Some("defFn"), "function defFn() {}"),
        AstEvent::ExportDefaultExit,
        AstEvent::ExportDefaultEnter { declaration: DefaultExportShape::Function(None) },
        function(src, FunctionType::Declaration, None, "function() {}"),
        AstEvent::ExportDefaultExit,
        AstEvent::ExportDefaultEnter {
            declaration: DefaultExportShape::Class(Some("NamedCls".into())),
        },
        AstEvent::ExportDefaultExit,
        AstEvent::ExportNamedEnter {
            specifiers: vec![],
            declaration: Some(DeclarationShape::Variables(vec![Some("arr".into())])),
        },
        declarator(true, "arr"),
        arrow(src, "() => {};"),
        AstEvent::DeclaratorExit,
        AstEvent::ExportNamedExit,
        method(src, MethodKind::Constructor, "constructor", "constructor(){}", "(){}"),
        function(src, FunctionType::Expression, None, "(){}"),
        AstEvent::MethodExit,
        method(src, MethodKind::Getter, "g", "get g(){ return 1 }", "(){ return 1 }"),
        function(src, FunctionType::Expression, None, "(){ return 1 }"),
        AstEvent::MethodExit,
        method(src, MethodKind::Setter, "s", "set s(v){}", "(v){}"),
        function(src, FunctionType::Expression, None, "(v){}"),
        AstEvent::MethodExit,
        method(src, MethodKind::Method, "m", "m(){}", "(){}"),
        function(src, FunctionType::Expression, None, "(){}"),
        AstEvent::MethodExit,
        declarator(false, "obj"),
        property(src, false, PropertyKind::Getter, "og", Some("(){ return 1 }"), "get og(){ return 1 }"),
        function(src, FunctionType::Expression, None, "(){ return 1 }"),
        AstEvent::PropertyExit,
        property(src, false, PropertyKind::Setter, "os", Some("(v){}"), "set os(v){}"),
        function(src, FunctionType::Expression, None, "(v){}"),
        AstEvent::PropertyExit,
        property(src, true, PropertyKind::Init, "method", Some("(){ const inner"), "method(){ const inner = () => {}; }"),
        function(src, FunctionType::Expression, None, "(){ const inner"),
        declarator(true, "inner"),
        arrow(src, "() => {}; }"),
        AstEvent::DeclaratorExit,
        AstEvent::PropertyExit,
        property(src, false, PropertyKind::Init, "key", None, "key: 1"),
        AstEvent::PropertyExit,
        AstEvent::DeclaratorExit,
        declarator(false, "c"),
        AstEvent::DeclaratorExit,
    ]
}

fn cover_symbols(src: &str) -> Vec<SymbolRecord> {
    let value = SymbolFacts { value: true, ..facts() };
    vec![
        symbol(src, "foo", SymbolFacts { function: true, ..value }, "foo", 0),
        symbol(src, "defFn", SymbolFacts { function: true, ..value }, "defFn", 0),
        symbol(src, "NamedCls", SymbolFacts { class: true, ..value }, "NamedCls", 0),
        symbol(
            src,
            "arr",
            SymbolFacts { const_variable: true, block_scoped_variable: true, ..value },
            "arr",
            0,
        ),
        symbol(src, "K", SymbolFacts { class: true, ..value }, "K {", 0),
        symbol(
            src,
            "obj",
            SymbolFacts { const_variable: true, block_scoped_variable: true, ..value },
            "obj",
            0,
        ),
        symbol(src, "E", SymbolFacts { enum_kind: true, ..value }, "E {", 0),
        symbol(src, "z", SymbolFacts { import: true, ..value }, "z }", 0),
        symbol(src, "e", SymbolFacts { catch_variable: true, ..facts() }, "e)", 0),
        symbol(
            src,
            "c",
            SymbolFacts { const_variable: true, block_scoped_variable: true, ..value },
            "c = 1",
            0,
        ),
    ]
}

#[test]
fn covers_exports_classes_object_methods_and_bindings() {
    let src = COVER_SRC;
    let lines = LineIndex::new(src);
    let result =
        extract_file(&cover_events(src), &cover_symbols(src), src, FunctionKindsFilter::All);

    let names: BTreeSet<_> = result.functions.iter().filter_map(|f| f.name.clone()).collect();
    assert!(names.contains("foo"));
    assert!(names.contains("defFn"));
    assert!(names.contains("arr"));
    assert!(names.contains("g"));
    assert!(names.contains("s"));
    assert!(names.contains("m"));
    assert!(names.contains("method"));
    assert!(names.contains("inner"));

    let export_names: BTreeSet<_> = result.exports.iter().map(|e| e.name.as_str()).collect();
    assert!(export_names.contains("default"));
    assert!(export_names.contains("foo"));
    assert!(export_names.contains("NamedCls"));

    let binding_names: BTreeSet<_> = result.bindings.iter().map(|b| b.name.as_str()).collect();
    assert!(binding_names.contains("arr"));
    assert!(binding_names.contains("K"));
    assert!(binding_names.contains("e"));

    assert!(lines.line(0) >= 1);
}

#[test]
fn filter_and_misc_ast_branches_are_covered() {
    let src = r"
        export interface I { x: number }
        const ignored = () => 1;
        const expr = function namedExpr() { return 1; };
        const obj = { plain: function plainFn() { return 1; } };
        declare function declared(a: number): void;
    ";
    let events = vec![
        AstEvent::ExportNamedEnter { specifiers: vec![], declaration: Some(DeclarationShape::Other) },
        AstEvent::ExportNamedExit,
        declarator(true, "ignored"),
        arrow(src, "() => 1"),
        AstEvent::DeclaratorExit,
        declarator(false, "expr"),
        function(src, FunctionType::Expression, Some("namedExpr"), "function namedExpr() { return 1; }"),
        AstEvent::DeclaratorExit,
        declarator(false, "obj"),
        property(src, false, PropertyKind::Init, "plain", None, "plain: function plainFn() { return 1; }"),
        function(src, FunctionType::Expression, Some("plainFn"), "function plainFn() { return 1; }"),
        AstEvent::PropertyExit,
        AstEvent::DeclaratorExit,
        function(src, FunctionType::Other, Some("declared"), "function declared(a: number): void;"),
    ];

    let top_only = extract_file(&events, &vec![], src, FunctionKindsFilter::Top);
    assert!(!top_only.functions.iter().any(|f| f.name.as_deref() == Some("ignored")));

    let all = extract_file(&events, &vec![], src, FunctionKindsFilter::All);
    assert!(all.functions.iter().any(|f| f.kind == FunctionKind::Expression));
    assert!(all.functions.iter().any(|f| f.name.as_deref() == Some("namedExpr")));
    assert!(all.functions.iter().any(|f| f.name.as_deref() == Some("plainFn")));
}

#[test]
fn default_export_misc_and_assignment_pattern_fallback() {
    let src = r"
        export default 123;
        export class C {}
        export enum E { A }
        const obj = { set sx(v) {}, get gx() { return 1; } };
        function p({a} = {}) {}
    ";
    let events = vec![
        AstEvent::ExportDefaultEnter { declaration: DefaultExportShape::Other },
        AstEvent::ExportDefaultExit,
        AstEvent::ExportNamedEnter {
            specifiers: vec![],
            declaration: Some(DeclarationShape::Class(Some("C".into()))),
        },
        AstEvent::ExportNamedExit,
        AstEvent::ExportNamedEnter {
            specifiers: vec![],
            declaration: Some(DeclarationShape::Enum("E".into())),
        },
        AstEvent::ExportNamedExit,
        declarator(false, "obj"),
        property(src, false, PropertyKind::Setter, "sx", Some("(v) {}"), "set sx(v) {}"),
        function(src, FunctionType::Expression, None, "(v) {}"),
        AstEvent::PropertyExit,
        property(src, false, PropertyKind::Getter, "gx", Some("() { return 1; }"), "get gx() { return 1; }"),
        function(src, FunctionType::Expression, None, "() { return 1; }"),
        AstEvent::PropertyExit,
        AstEvent::DeclaratorExit,
        function(src, FunctionType::Declaration, Some("p"), "function p({a} = {}) {}"),
    ];
    let result = extract_file(&events, &vec![], src, FunctionKindsFilter::All);

    let export_names: BTreeSet<_> = result.exports.iter().map(|e| e.name.as_str()).collect();
    assert!(export_names.contains("default"));
    assert!(export_names.contains("C"));
    assert!(export_names.contains("E"));

    assert!(!result.functions.is_empty());

    // function p({a} = {}): the parameter's pattern is the object on the left
    let names = extract_param_names(&vec![ParamPattern::Object]);
    assert_eq!(names, vec!["{...}"]);
}

// Further cases.

#[test]
fn extracted_functions_in_walk_order_with_positions() {
    let src = COVER_SRC;
    let result =
        extract_file(&cover_events(src), &cover_symbols(src), src, FunctionKindsFilter::All);
    let got: Vec<(Option<&str>, FunctionKind, bool, u32)> = result
        .functions
        .iter()
        .map(|f| (f.name.as_deref(), f.kind, f.exported, f.line))
        .collect();
    assert_eq!(
        got,
        vec![
            (Some("foo"), FunctionKind::Declaration, true, 3),
            (Some("defFn"), FunctionKind::Declaration, true, 4),
            (None, FunctionKind::Declaration, true, 5),
            (Some("arr"), FunctionKind::Arrow, true, 7),
            (Some("constructor"), FunctionKind::Constructor, false, 8),
            (Some("g"), FunctionKind::Getter, false, 8),
            (Some("s"), FunctionKind::Setter, false, 8),
            (Some("m"), FunctionKind::ClassMethod, false, 8),
            (Some("og"), FunctionKind::Getter, false, 9),
            (Some("os"), FunctionKind::Setter, false, 9),
            (Some("method"), FunctionKind::ObjectMethod, false, 9),
            (Some("inner"), FunctionKind::Arrow, false, 9),
        ]
    );
    let foo = &result.functions[0];
    assert_eq!(foo.col, 20);
    assert_eq!(foo.line_end, 3);

    let exports: Vec<(&str, u8)> =
        result.exports.iter().map(|e| (e.name.as_str(), e.kind_code)).collect();
    assert_eq!(
        exports,
        vec![
            ("a1", EXPORT_NAMED),
            ("a2", EXPORT_NAMED),
            ("foo", EXPORT_NAMED),
            ("default", EXPORT_DEFAULT),
            ("defFn", EXPORT_DEFAULT),
            ("default", EXPORT_DEFAULT),
            ("default", EXPORT_DEFAULT),
            ("NamedCls", EXPORT_DEFAULT),
            ("arr", EXPORT_NAMED),
        ]
    );
}

#[test]
fn bindings_follow_symbols_and_exported_names() {
    let src = COVER_SRC;
    let result =
        extract_file(&cover_events(src), &cover_symbols(src), src, FunctionKindsFilter::All);
    let got: Vec<(&str, BindingKind, bool)> =
        result.bindings.iter().map(|b| (b.name.as_str(), b.kind, b.exported)).collect();
    assert_eq!(
        got,
        vec![
            ("foo", BindingKind::Function, true),
            ("defFn", BindingKind::Function, true),
            ("NamedCls", BindingKind::Class, true),
            ("arr", BindingKind::Const, true),
            ("K", BindingKind::Class, false),
            ("obj", BindingKind::Const, false),
            ("E", BindingKind::Enum, false),
            ("z", BindingKind::Import, false),
            ("e", BindingKind::Catch, false),
            ("c", BindingKind::Const, false),
        ]
    );
    let k = &result.bindings[4];
    assert_eq!(k.line, 8);
    assert_eq!(k.col, 19);
}

#[test]
fn type_only_symbols_give_no_binding() {
    let src = "interface I {}\ntype T = number;\n";
    let symbols = vec![
        symbol(src, "I", facts(), "I", 0),
        symbol(src, "T", facts(), "T", 0),
        // a value symbol of no known kind
        symbol(src, "x", SymbolFacts { value: true, ..facts() }, "number", 2),
    ];
    let result = extract_file(&vec![], &symbols, src, FunctionKindsFilter::All);
    assert!(result.bindings.is_empty());
    assert!(result.functions.is_empty());
    assert!(result.exports.is_empty());
}

#[test]
fn binding_kind_priority() {
    let base = facts();
    assert_eq!(flags_to_binding_kind(base), None);
    assert_eq!(
        flags_to_binding_kind(SymbolFacts { const_variable: true, block_scoped_variable: true, ..base }),
        Some(BindingKind::Const)
    );
    assert_eq!(
        flags_to_binding_kind(SymbolFacts { block_scoped_variable: true, class: true, ..base }),
        Some(BindingKind::Let)
    );
    assert_eq!(
        flags_to_binding_kind(SymbolFacts { function_scoped_variable: true, ..base }),
        Some(BindingKind::Var)
    );
    assert_eq!(
        flags_to_binding_kind(SymbolFacts { function: true, import: true, ..base }),
        Some(BindingKind::Function)
    );
    assert_eq!(flags_to_binding_kind(SymbolFacts { class: true, ..base }), Some(BindingKind::Class));
    assert_eq!(
        flags_to_binding_kind(SymbolFacts { import: true, catch_variable: true, ..base }),
        Some(BindingKind::Import)
    );
    assert_eq!(
        flags_to_binding_kind(SymbolFacts { catch_variable: true, enum_kind: true, ..base }),
        Some(BindingKind::Catch)
    );
    assert_eq!(flags_to_binding_kind(SymbolFacts { enum_kind: true, ..base }), Some(BindingKind::Enum));
}

#[test]
fn functions_named_after_export_count_as_exported() {
    let src = "export { later };\nfunction later() {}\nfunction other() {}\n";
    let events = vec![
        AstEvent::ExportNamedEnter { specifiers: vec!["later".into()], declaration: None },
        AstEvent::ExportNamedExit,
        function(src, FunctionType::Declaration, Some("later"), "function later() {}"),
        function(src, FunctionType::Declaration, Some("other"), "function other() {}"),
    ];
    let result = extract_file(&events, &vec![], src, FunctionKindsFilter::All);
    assert_eq!(result.functions.len(), 2);
    assert!(result.functions[0].exported);
    assert!(!result.functions[1].exported);
    assert_eq!(result.functions[1].line, 3);
}

#[test]
fn arrow_takes_the_declarator_name_only_when_first() {
    let src = "const a = () => 1; const b = 2;\n";
    // an arrow whose declarator holds something else first keeps no name
    let events = vec![
        AstEvent::DeclaratorEnter { arrow_init: true, binding_name: Some("a".into()) },
        function(src, FunctionType::Expression, Some("f"), "() => 1"),
        arrow(src, "() => 1"),
        AstEvent::DeclaratorExit,
        AstEvent::DeclaratorEnter { arrow_init: false, binding_name: Some("b".into()) },
        arrow(src, "2"),
        AstEvent::DeclaratorExit,
    ];
    let result = extract_file(&events, &vec![], src, FunctionKindsFilter::All);
    assert_eq!(result.functions.len(), 3);
    assert_eq!(result.functions[0].name.as_deref(), Some("f"));
    assert_eq!(result.functions[1].name, None);
    assert_eq!(result.functions[2].name, None);
}

#[test]
fn collector_steps_one_event_at_a_time() {
    let src = "export function f() {}\n";
    let lines = LineIndex::new(src);
    let mut c = Collector::new(FunctionKindsFilter::Top);
    c.step(
        &AstEvent::ExportNamedEnter {
            specifiers: vec![],
            declaration: Some(DeclarationShape::Function(Some("f".into()))),
        },
        &lines,
    );
    assert_eq!(c.exported_names(), &vec!["f".to_string()]);
    c.step(&function(src, FunctionType::Declaration, Some("f"), "function f() {}"), &lines);
    c.step(&AstEvent::ExportNamedExit, &lines);
    c.step(&arrow(src, "f() {}"), &lines);
    assert_eq!(c.functions().len(), 1);
    c.record_export("g", EXPORT_DEFAULT);
    let (functions, exports) = c.finish();
    assert_eq!(functions.len(), 1);
    assert!(functions[0].exported);
    assert_eq!(functions[0].col, 8);
    assert_eq!(exports.len(), 2);
    assert_eq!(exports[1].name, "g");
    assert_eq!(exports[1].kind_code, EXPORT_DEFAULT);
}

#[test]
fn param_names_of_defaults_without_identifier() {
    let params = vec![
        ParamPattern::Assignment(Some("x".into())),
        ParamPattern::Assignment(None),
    ];
    assert_eq!(extract_param_names(&params), vec!["x", "..."]);
    assert!(extract_param_names(&vec![]).is_empty());
}

#[test]
fn process_file_builds_the_index() {
    let src = "export function a(){}\nexport function b(){}\n";
    let parsed = ParseOutcome {
        parse_errors: 0,
        panicked: false,
        events: vec![
            AstEvent::ExportNamedEnter {
                specifiers: vec![],
                declaration: Some(DeclarationShape::Function(Some("a".into()))),
            },
            function(src, FunctionType::Declaration, Some("a"), "function a(){}"),
            AstEvent::ExportNamedExit,
            AstEvent::ExportNamedEnter {
                specifiers: vec![],
                declaration: Some(DeclarationShape::Function(Some("b".into()))),
            },
            function(src, FunctionType::Declaration, Some("b"), "function b(){}"),
            AstEvent::ExportNamedExit,
        ],
        symbols: vec![],
    };
    let fi = process_file("/repo/a.ts", "/repo", src, &parsed, FunctionKindsFilter::All);
    assert_eq!(fi.path, "a.ts");
    assert_eq!(fi.functions.len(), 2);
    assert_eq!(fi.functions[1].line, 2);
    assert_eq!(fi.exports.len(), 2);
    assert!(fi.violations.is_empty());
    assert_eq!(fi.parse_errors, 0);
}

#[test]
fn process_file_after_a_parser_panic_is_empty() {
    let src = "export function a(){}\n";
    let parsed = ParseOutcome {
        parse_errors: 3,
        panicked: true,
        events: vec![function(src, FunctionType::Declaration, Some("a"), "function a(){}")],
        symbols: vec![],
    };
    let fi = process_file("bad.ts", "/repo", src, &parsed, FunctionKindsFilter::All);
    assert_eq!(fi.path, "bad.ts");
    assert!(fi.functions.is_empty());
    assert!(fi.bindings.is_empty());
    assert!(fi.exports.is_empty());
    assert_eq!(fi.parse_errors, 3);
}

#[test]
fn paths_are_shown_relative_to_the_root() {
    assert_eq!(relative_path("/repo/src/a.ts", "/repo"), "src/a.ts");
    assert_eq!(relative_path("/repo/a.ts", "/repo/"), "a.ts");
    // a root that is no prefix by components leaves the path as it is
    assert_eq!(relative_path("/repository/a.ts", "/repo"), "/repository/a.ts");
    assert_eq!(relative_path("/other/a.ts", "/repo"), "/other/a.ts");
    assert_eq!(relative_path("rel/a.ts", "does-not-exist"), "rel/a.ts");
}

#[test]
fn functions_inside_a_method_body_are_indexed() {
    let src = "class C { m() { return function helper() {}; } }\n";
    let events = vec![
        method(src, MethodKind::Method, "m", "m() { return function helper() {}; }", "() { return function helper() {}; }"),
        function(src, FunctionType::Expression, None, "() { return function helper() {}; }"),
        function(src, FunctionType::Expression, Some("helper"), "function helper() {}"),
        AstEvent::MethodExit,
    ];
    let result = extract_file(&events, &vec![], src, FunctionKindsFilter::All);
    let got: Vec<(Option<&str>, FunctionKind)> =
        result.functions.iter().map(|f| (f.name.as_deref(), f.kind)).collect();
    assert_eq!(
        got,
        vec![(Some("m"), FunctionKind::ClassMethod), (Some("helper"), FunctionKind::Expression)]
    );
}

#[test]
fn functions_inside_an_object_method_body_are_indexed() {
    let src = "const o = { get g() { return function inner() {}; }, k: 1 };\n";
    let events = vec![
        declarator(false, "o"),
        property(src, false, PropertyKind::Getter, "g", Some("() { return function inner() {}; }"), "get g() { return function inner() {}; }"),
        function(src, FunctionType::Expression, None, "() { return function inner() {}; }"),
        function(src, FunctionType::Expression, Some("inner"), "function inner() {}"),
        AstEvent::PropertyExit,
        property(src, false, PropertyKind::Init, "k", None, "k: 1"),
        AstEvent::PropertyExit,
        AstEvent::DeclaratorExit,
    ];
    let result = extract_file(&events, &vec![], src, FunctionKindsFilter::All);
    let names: Vec<Option<&str>> = result.functions.iter().map(|f| f.name.as_deref()).collect();
    assert_eq!(names, vec![Some("g"), Some("inner")]);
}

#[test]
fn export_after_the_declaration_marks_the_function() {
    let src = "function foo() {}\nexport { foo };\n";
    let events = vec![
        function(src, FunctionType::Declaration, Some("foo"), "function foo() {}"),
        AstEvent::ExportNamedEnter { specifiers: vec!["foo".into()], declaration: None },
        AstEvent::ExportNamedExit,
    ];
    let symbols = vec![symbol(
        src,
        "foo",
        SymbolFacts { value: true, function: true, ..facts() },
        "foo",
        1,
    )];
    let result = extract_file(&events, &symbols, src, FunctionKindsFilter::All);
    assert_eq!(result.functions.len(), 1);
    assert_eq!(result.functions[0].name.as_deref(), Some("foo"));
    assert!(result.functions[0].exported);
    assert_eq!(result.exports.len(), 1);
    assert_eq!(result.exports[0].name, "foo");
    assert_eq!(result.exports[0].kind_code, EXPORT_NAMED);
    assert!(result.bindings[0].exported);
}

#[test]
fn a_function_in_a_method_key_does_not_take_the_method_value_skip() {
    // class C { [async function k(){}]() {} }
    let src = "class C { [async function k(){}]() {} }\n";
    let events = vec![
        method(src, MethodKind::Method, "m", "[async function k(){}]() {}", "() {}"),
        AstEvent::Function {
            function_type: FunctionType::Expression,
            name: Some("k".into()),
            is_async: true,
            is_generator: false,
            start: at(src, "async function k(){}"),
            end: end_of(src, "async function k(){}"),
        },
        function(src, FunctionType::Expression, None, "() {}"),
        AstEvent::MethodExit,
    ];
    let result = extract_file(&events, &vec![], src, FunctionKindsFilter::All);
    let got: Vec<(Option<&str>, FunctionKind, bool)> =
        result.functions.iter().map(|f| (f.name.as_deref(), f.kind, f.is_async)).collect();
    assert_eq!(
        got,
        vec![
            (Some("m"), FunctionKind::ClassMethod, false),
            (Some("k"), FunctionKind::Expression, true),
        ]
    );
}
