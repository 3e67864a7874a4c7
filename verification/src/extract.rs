//! Extraction of functions, exports and bindings from one file. The syntax tree
//! is walked elsewhere; here each node the walk meets is an event, and the
//! collector decides what every event adds to the index.
use vstd::prelude::*;
use vstd::string::StringExecFns;
use vstd::string::StringSliceAdditionalSpecFns;

use crate::index::{
    col_spec, includes_spec, line_u32, opt_str_view, BindingInfo, BindingInfoView, BindingKind,
    ExportInfo, ExportInfoView, FunctionInfo, FunctionInfoView, FunctionKind,
    FunctionKindsFilter, LineIndex, EXPORT_DEFAULT, EXPORT_NAMED,
};
use crate::text::{str_eq, strs_view};

verus! {

broadcast use vstd::string::group_string_axioms;

// ── Events of the walk ───────────────────────────────────────────

/// How a function node was written.
#[derive(Debug, Clone, Copy, PartialEq, Eq, Structural)]
pub enum FunctionType {
    Declaration,
    Expression,
    /// Any other function node, such as a declared signature without a body.
    Other,
}

/// The kind of a class member definition.
#[derive(Debug, Clone, Copy, PartialEq, Eq, Structural)]
pub enum MethodKind {
    Constructor,
    Getter,
    Setter,
    Method,
}

/// The kind of an object literal property.
#[derive(Debug, Clone, Copy, PartialEq, Eq, Structural)]
pub enum PropertyKind {
    Init,
    Getter,
    Setter,
}

/// The function value of an object property: whether it is async, whether it
/// is a generator, and where it starts.
#[derive(Debug, Clone, Copy, PartialEq, Eq, Structural)]
pub struct FunctionFlags {
    pub is_async: bool,
    pub is_generator: bool,
    pub start: u32,
}

/// The declaration of `export <declaration>`, as far as export naming needs it.
#[derive(Debug)]
pub enum DeclarationShape {
    Function(Option<String>),
    Class(Option<String>),
    /// The declarators of a variable declaration; each is named when it binds a
    /// plain identifier.
    Variables(Vec<Option<String>>),
    Enum(String),
    Other,
}

/// What `export default` exports, as far as export naming needs it.
#[derive(Debug)]
pub enum DefaultExportShape {
    Function(Option<String>),
    Class(Option<String>),
    Other,
}

/// A node met by the walk of a syntax tree, in walk order. The nodes that
/// enclose others come as a pair of events around what they enclose.
#[derive(Debug)]
#[allow(inconsistent_fields)]
pub enum AstEvent {
    /// `export { a, b }` or `export <declaration>`; `specifiers` are the local names.
    ExportNamedEnter { specifiers: Vec<String>, declaration: Option<DeclarationShape> },
    ExportNamedExit,
    /// `export default ...`.
    ExportDefaultEnter { declaration: DefaultExportShape },
    ExportDefaultExit,
    /// A function node (declaration, expression, or other).
    Function {
        function_type: FunctionType,
        name: Option<String>,
        is_async: bool,
        is_generator: bool,
        start: u32,
        end: u32,
    },
    /// An arrow function.
    Arrow { is_async: bool, start: u32, end: u32 },
    /// A variable declarator; `arrow_init` when its initializer is an arrow
    /// function, `binding_name` when it binds a plain identifier.
    DeclaratorEnter { arrow_init: bool, binding_name: Option<String> },
    DeclaratorExit,
    /// A class member definition; `value_start` is where its own function value starts.
    MethodEnter {
        kind: MethodKind,
        name: Option<String>,
        is_async: bool,
        is_generator: bool,
        start: u32,
        end: u32,
        value_start: u32,
    },
    MethodExit,
    /// An object literal property; `function` when its value is a function expression.
    PropertyEnter {
        method: bool,
        kind: PropertyKind,
        name: Option<String>,
        function: Option<FunctionFlags>,
        start: u32,
        end: u32,
    },
    PropertyExit,
}

// ── The collector's state ────────────────────────────────────────

/// What the collector has gathered so far, and where in the tree it is.
pub struct CollectorState {
    pub functions: Seq<FunctionInfoView>,
    pub exported_names: Set<Seq<char>>,
    pub exports: Seq<ExportInfoView>,
    pub filter: FunctionKindsFilter,
    pub in_export: bool,
    pub in_default_export: bool,
    /// Where the function values of the open methods and function-valued
    /// properties start, innermost last: the function at such a start is the
    /// method itself and is not indexed again.
    pub method_values: Seq<u32>,
    /// For each open declarator: the number of functions when it opened and the
    /// name an arrow function it holds will take.
    pub declarators: Seq<Option<(int, Seq<char>)>>,
    /// For each open object property: whether it opened a method value.
    pub properties: Seq<bool>,
}

/// The state before any event.
pub open spec fn initial_state(filter: FunctionKindsFilter) -> CollectorState {
    CollectorState {
        functions: Seq::empty(),
        exported_names: Set::empty(),
        exports: Seq::empty(),
        filter,
        in_export: false,
        in_default_export: false,
        method_values: Seq::empty(),
        declarators: Seq::empty(),
        properties: Seq::empty(),
    }
}

/// Records a function when the filter keeps its kind. It counts as exported
/// when met inside an export; a name that the file exports marks it once the
/// walk is done (`settle_exports`).
pub open spec fn push_function_spec(
    c: CollectorState,
    name: Option<Seq<char>>,
    kind: FunctionKind,
    is_async: bool,
    is_generator: bool,
    start: u32,
    end: u32,
    src: Seq<u8>,
) -> CollectorState {
    if !includes_spec(c.filter, kind) {
        c
    } else {
        let exported = c.in_export || c.in_default_export;
        CollectorState {
            functions: c.functions.push(
                FunctionInfoView {
                    name,
                    kind,
                    exported,
                    is_async,
                    is_generator,
                    line: line_u32(src, start as int),
                    col: col_spec(src, start as int) as u32,
                    line_end: line_u32(src, end as int),
                },
            ),
            ..c
        }
    }
}

/// Records an exported name.
pub open spec fn record_export_spec(c: CollectorState, name: Seq<char>, kind_code: u8) -> CollectorState {
    CollectorState {
        exported_names: c.exported_names.insert(name),
        exports: c.exports.push(ExportInfoView { name, kind_code }),
        ..c
    }
}

/// Records exported names one after the other.
pub open spec fn record_exports_spec(
    c: CollectorState,
    names: Seq<Seq<char>>,
    kind_code: u8,
) -> CollectorState
    decreases names.len(),
{
    if names.len() == 0 {
        c
    } else {
        record_export_spec(record_exports_spec(c, names.drop_last(), kind_code), names.last(), kind_code)
    }
}

/// The names present among optional names, in order.
pub open spec fn present_names(v: Seq<Option<String>>) -> Seq<Seq<char>>
    decreases v.len(),
{
    if v.len() == 0 {
        Seq::empty()
    } else {
        let prev = present_names(v.drop_last());
        match v.last() {
            Some(n) => prev.push(n@),
            None => prev,
        }
    }
}

/// The names an exported declaration exports.
pub open spec fn declaration_names(d: DeclarationShape) -> Seq<Seq<char>> {
    match d {
        DeclarationShape::Function(Some(n)) => seq![n@],
        DeclarationShape::Class(Some(n)) => seq![n@],
        DeclarationShape::Variables(v) => present_names(v@),
        DeclarationShape::Enum(n) => seq![n@],
        _ => Seq::empty(),
    }
}

/// The names `export default` records: `default`, then the declared name if any.
pub open spec fn default_export_names(d: DefaultExportShape) -> Seq<Seq<char>> {
    match d {
        DefaultExportShape::Function(Some(n)) => seq!["default"@, n@],
        DefaultExportShape::Class(Some(n)) => seq!["default"@, n@],
        _ => seq!["default"@],
    }
}

/// The function kind of a class member.
pub open spec fn method_function_kind(k: MethodKind) -> FunctionKind {
    match k {
        MethodKind::Constructor => FunctionKind::Constructor,
        MethodKind::Getter => FunctionKind::Getter,
        MethodKind::Setter => FunctionKind::Setter,
        MethodKind::Method => FunctionKind::ClassMethod,
    }
}

/// The function kind of an object property that is a method, getter or setter.
pub open spec fn property_function_kind(k: PropertyKind) -> FunctionKind {
    match k {
        PropertyKind::Getter => FunctionKind::Getter,
        PropertyKind::Setter => FunctionKind::Setter,
        PropertyKind::Init => FunctionKind::ObjectMethod,
    }
}

/// Whether an object property counts as a function of its own.
pub open spec fn property_is_function(method: bool, kind: PropertyKind) -> bool {
    method || kind == PropertyKind::Getter || kind == PropertyKind::Setter
}

/// Gives the arrow function that a closing declarator held its binding's name.
pub open spec fn close_declarator_spec(c: CollectorState) -> CollectorState {
    if c.declarators.len() == 0 {
        c
    } else {
        let top = c.declarators.last();
        let popped = CollectorState { declarators: c.declarators.drop_last(), ..c };
        match top {
            Some((prev, name)) => if 0 <= prev < c.functions.len() && c.functions[prev].kind
                == FunctionKind::Arrow && c.functions[prev].name is None {
                CollectorState {
                    functions: c.functions.update(
                        prev,
                        FunctionInfoView { name: Some(name), ..c.functions[prev] },
                    ),
                    ..popped
                }
            } else {
                popped
            },
            None => popped,
        }
    }
}

/// What one event does to the collector's state.
pub open spec fn step_spec(c: CollectorState, ev: AstEvent, src: Seq<u8>) -> CollectorState {
    match ev {
        AstEvent::ExportNamedEnter { specifiers, declaration } => {
            let names = strs_view(specifiers@) + match declaration {
                Some(d) => declaration_names(d),
                None => Seq::empty(),
            };
            CollectorState { in_export: true, ..record_exports_spec(c, names, EXPORT_NAMED) }
        },
        AstEvent::ExportNamedExit => CollectorState { in_export: false, ..c },
        AstEvent::ExportDefaultEnter { declaration } => CollectorState {
            in_default_export: true,
            ..record_exports_spec(c, default_export_names(declaration), EXPORT_DEFAULT)
        },
        AstEvent::ExportDefaultExit => CollectorState { in_default_export: false, ..c },
        AstEvent::Function { function_type, name, is_async, is_generator, start, end } => {
            if c.method_values.len() > 0 && c.method_values.last() == start {
                c
            } else {
                match function_type {
                FunctionType::Declaration => push_function_spec(
                    c,
                    opt_str_view(name),
                    FunctionKind::Declaration,
                    is_async,
                    is_generator,
                    start,
                    end,
                    src,
                ),
                FunctionType::Expression => push_function_spec(
                    c,
                    opt_str_view(name),
                    FunctionKind::Expression,
                    is_async,
                    is_generator,
                    start,
                    end,
                    src,
                ),
                FunctionType::Other => c,
                }
            }
        },
        AstEvent::Arrow { is_async, start, end } => push_function_spec(
            c,
            None,
            FunctionKind::Arrow,
            is_async,
            false,
            start,
            end,
            src,
        ),
        AstEvent::DeclaratorEnter { arrow_init, binding_name } => {
            let pending = match binding_name {
                Some(n) => if arrow_init {
                    Some((c.functions.len() as int, n@))
                } else {
                    None
                },
                None => None,
            };
            CollectorState { declarators: c.declarators.push(pending), ..c }
        },
        AstEvent::DeclaratorExit => close_declarator_spec(c),
        AstEvent::MethodEnter { kind, name, is_async, is_generator, start, end, value_start } => {
            let pushed = push_function_spec(
                c,
                opt_str_view(name),
                method_function_kind(kind),
                is_async,
                is_generator,
                start,
                end,
                src,
            );
            CollectorState { method_values: pushed.method_values.push(value_start), ..pushed }
        },
        AstEvent::MethodExit => if c.method_values.len() > 0 {
            CollectorState { method_values: c.method_values.drop_last(), ..c }
        } else {
            c
        },
        AstEvent::PropertyEnter { method, kind, name, function, start, end } => {
            match function {
                Some(flags) => if property_is_function(method, kind) {
                    let pushed = push_function_spec(
                        c,
                        opt_str_view(name),
                        property_function_kind(kind),
                        flags.is_async,
                        flags.is_generator,
                        start,
                        end,
                        src,
                    );
                    CollectorState {
                        method_values: pushed.method_values.push(flags.start),
                        properties: pushed.properties.push(true),
                        ..pushed
                    }
                } else {
                    CollectorState { properties: c.properties.push(false), ..c }
                },
                None => CollectorState { properties: c.properties.push(false), ..c },
            }
        },
        AstEvent::PropertyExit => {
            if c.properties.len() == 0 {
                c
            } else if c.properties.last() && c.method_values.len() > 0 {
                CollectorState {
                    method_values: c.method_values.drop_last(),
                    properties: c.properties.drop_last(),
                    ..c
                }
            } else {
                CollectorState { properties: c.properties.drop_last(), ..c }
            }
        },
    }
}

/// A function with its exported flag settled against the names the file
/// exports: a named function whose name the file exports counts as exported,
/// wherever in the file the export stands.
pub open spec fn settled_function(f: FunctionInfoView, names: Set<Seq<char>>) -> FunctionInfoView {
    FunctionInfoView {
        exported: f.exported || match f.name {
            Some(n) => names.contains(n),
            None => false,
        },
        ..f
    }
}

/// The functions with their exported flags settled against the exported names.
pub open spec fn settle_exports(fs: Seq<FunctionInfoView>, names: Set<Seq<char>>) -> Seq<FunctionInfoView> {
    fs.map_values(|f: FunctionInfoView| settled_function(f, names))
}

/// The state after a sequence of events.
pub open spec fn run_events(c: CollectorState, evs: Seq<AstEvent>, src: Seq<u8>) -> CollectorState
    decreases evs.len(),
{
    if evs.len() == 0 {
        c
    } else {
        step_spec(run_events(c, evs.drop_last(), src), evs.last(), src)
    }
}

/// The start offset of an event that carries a position.
pub open spec fn event_start(ev: AstEvent) -> Option<u32> {
    match ev {
        AstEvent::Function { start, .. } => Some(start),
        AstEvent::Arrow { start, .. } => Some(start),
        AstEvent::MethodEnter { start, .. } => Some(start),
        AstEvent::PropertyEnter { start, .. } => Some(start),
        _ => None,
    }
}

/// Every start offset of the events has a column that fits in a `u32`.
pub open spec fn events_fit(evs: Seq<AstEvent>, src: Seq<u8>) -> bool {
    forall|i: int|
        0 <= i < evs.len() ==> match event_start(#[trigger] evs[i]) {
            Some(s) => col_spec(src, s as int) <= u32::MAX,
            None => true,
        }
}

// ── The collector ────────────────────────────────────────────────

/// Gathers functions and exports from the events of one file's walk.
pub struct Collector {
    functions: Vec<FunctionInfo>,
    exported_names: Vec<String>,
    exports: Vec<ExportInfo>,
    filter: FunctionKindsFilter,
    in_export: bool,
    in_default_export: bool,
    method_values: Vec<u32>,
    declarators: Vec<Option<(usize, String)>>,
    properties: Vec<bool>,
}

/// The views of the open declarators.
pub open spec fn declarators_view(v: Seq<Option<(usize, String)>>) -> Seq<Option<(int, Seq<char>)>> {
    v.map_values(
        |d: Option<(usize, String)>|
            match d {
                Some((n, s)) => Some((n as int, s@)),
                None => None,
            },
    )
}

impl Collector {
    /// The state the collector is in.
    pub closed spec fn state(&self) -> CollectorState {
        CollectorState {
            functions: self.functions@.map_values(|f: FunctionInfo| f@),
            exported_names: strs_view(self.exported_names@).to_set(),
            exports: self.exports@.map_values(|e: ExportInfo| e@),
            filter: self.filter,
            in_export: self.in_export,
            in_default_export: self.in_default_export,
            method_values: self.method_values@,
            declarators: declarators_view(self.declarators@),
            properties: self.properties@,
        }
    }

    pub fn new(filter: FunctionKindsFilter) -> (c: Self)
        ensures
            c.state() == initial_state(filter),
    {
        let c = Collector {
            functions: Vec::new(),
            exported_names: Vec::new(),
            exports: Vec::new(),
            filter,
            in_export: false,
            in_default_export: false,
            method_values: Vec::new(),
            declarators: Vec::new(),
            properties: Vec::new(),
        };
        assert(c.state().functions =~= Seq::<FunctionInfoView>::empty());
        assert(c.state().exported_names =~= Set::<Seq<char>>::empty());
        assert(c.state().exports =~= Seq::<ExportInfoView>::empty());
        assert(c.state().declarators =~= Seq::<Option<(int, Seq<char>)>>::empty());
        c
    }

    fn name_exported(&self, name: &str) -> (r: bool)
        ensures
            r == self.state().exported_names.contains(name@),
    {
        let n = self.exported_names.len();
        let mut i: usize = 0;
        while i < n
            invariant
                n == self.exported_names@.len(),
                i <= n,
                forall|k: int| 0 <= k < i ==> self.exported_names@[k]@ != name@,
            decreases n - i,
        {
            if str_eq(self.exported_names[i].as_str(), name) {
                assert(strs_view(self.exported_names@)[i as int] == name@);
                return true;
            }
            i = i + 1;
        }
        proof {
            let sv = strs_view(self.exported_names@);
            if sv.contains(name@) {
                let k = choose|k: int| 0 <= k < sv.len() && sv[k] == name@;
                assert(self.exported_names@[k]@ == name@);
            }
        }
        false
    }

    /// Records a function when the filter keeps its kind.
    pub fn push_function(
        &mut self,
        lines: &LineIndex,
        name: Option<String>,
        kind: FunctionKind,
        is_async: bool,
        is_generator: bool,
        span_start: u32,
        span_end: u32,
    )
        requires
            lines.col_fits(span_start),
        ensures
            final(self).state() == push_function_spec(
                old(self).state(),
                opt_str_view(name),
                kind,
                is_async,
                is_generator,
                span_start,
                span_end,
                lines.source(),
            ),
    {
        if !self.filter.includes(kind) {
            return;
        }
        let exported = self.in_export || self.in_default_export;
        let ghost before = self.functions@;
        let info = FunctionInfo {
            name,
            kind,
            exported,
            is_async,
            is_generator,
            line: lines.line(span_start),
            col: lines.col(span_start),
            line_end: lines.line(span_end),
        };
        self.functions.push(info);
        assert(self.functions@.map_values(|f: FunctionInfo| f@) =~= before.map_values(
            |f: FunctionInfo| f@,
        ).push(info@));
    }

    /// Records an exported name.
    pub fn record_export(&mut self, name: &str, kind_code: u8)
        ensures
            final(self).state() == record_export_spec(old(self).state(), name@, kind_code),
    {
        let ghost before_names = self.exported_names@;
        let ghost before_exports = self.exports@;
        self.exported_names.push(String::from_str(name));
        self.exports.push(ExportInfo { name: String::from_str(name), kind_code });
        proof {
            assert(strs_view(self.exported_names@) =~= strs_view(before_names).push(name@));
            strs_view(before_names).lemma_push_to_set_commute(name@);
            assert(self.exports@.map_values(|e: ExportInfo| e@) =~= before_exports.map_values(
                |e: ExportInfo| e@,
            ).push(ExportInfoView { name: name@, kind_code }));
        }
    }

    /// Records each of `names` as exported.
    fn record_exports(&mut self, names: &Vec<String>, kind_code: u8)
        ensures
            final(self).state() == record_exports_spec(old(self).state(), strs_view(names@), kind_code),
    {
        let ghost start = self.state();
        let n = names.len();
        for i in 0..n
            invariant
                n == names@.len(),
                self.state() == record_exports_spec(start, strs_view(names@.take(i as int)), kind_code),
        {
            proof {
                assert(strs_view(names@.take(i + 1)) =~= strs_view(names@.take(i as int)).push(
                    names@[i as int]@,
                ));
                lemma_record_push(start, strs_view(names@.take(i as int)), names@[i as int]@, kind_code);
            }
            self.record_export(names[i].as_str(), kind_code);
        }
        assert(names@.take(n as int) =~= names@);
    }

    /// Records the names that an exported declaration exports.
    fn record_declaration(&mut self, decl: &DeclarationShape, kind_code: u8)
        ensures
            final(self).state() == record_exports_spec(old(self).state(), declaration_names(*decl), kind_code),
    {
        match decl {
            DeclarationShape::Function(Some(n)) => {
                proof {
                    lemma_record_one(self.state(), n@, kind_code);
                }
                self.record_export(n.as_str(), kind_code);
            },
            DeclarationShape::Class(Some(n)) => {
                proof {
                    lemma_record_one(self.state(), n@, kind_code);
                }
                self.record_export(n.as_str(), kind_code);
            },
            DeclarationShape::Variables(v) => {
                let ghost start = self.state();
                let n = v.len();
                for i in 0..n
                    invariant
                        n == v@.len(),
                        self.state() == record_exports_spec(start, present_names(v@.take(i as int)), kind_code),
                {
                    assert(v@.take(i + 1).drop_last() =~= v@.take(i as int));
                    assert(v@.take(i + 1).last() == v@[i as int]);
                    match &v[i] {
                        Some(name) => {
                            proof {
                                lemma_record_push(start, present_names(v@.take(i as int)), name@, kind_code);
                            }
                            self.record_export(name.as_str(), kind_code);
                        },
                        None => {},
                    }
                }
                assert(v@.take(n as int) =~= v@);
            },
            DeclarationShape::Enum(n) => {
                proof {
                    lemma_record_one(self.state(), n@, kind_code);
                }
                self.record_export(n.as_str(), kind_code);
            },
            _ => {},
        }
    }

    /// Gives the arrow function that a closing declarator held its binding's name.
    fn close_declarator(&mut self)
        ensures
            final(self).state() == close_declarator_spec(old(self).state()),
    {
        let ghost before = self.state();
        match self.declarators.pop() {
            Some(Some((prev, name))) => {
                assert(declarators_view(self.declarators@) =~= before.declarators.drop_last());
                if prev < self.functions.len() {
                    let f = &self.functions[prev];
                    if f.kind == FunctionKind::Arrow && f.name.is_none() {
                        let updated = FunctionInfo {
                            name: Some(name),
                            kind: f.kind,
                            exported: f.exported,
                            is_async: f.is_async,
                            is_generator: f.is_generator,
                            line: f.line,
                            col: f.col,
                            line_end: f.line_end,
                        };
                        let ghost fs = self.functions@;
                        self.functions.set(prev, updated);
                        assert(self.functions@.map_values(|f: FunctionInfo| f@) =~= fs.map_values(
                            |f: FunctionInfo| f@,
                        ).update(prev as int, updated@));
                    }
                }
            },
            Some(None) => {
                assert(declarators_view(self.declarators@) =~= before.declarators.drop_last());
            },
            None => {},
        }
    }

    /// Applies one event of the walk.
    pub fn step(&mut self, ev: &AstEvent, lines: &LineIndex)
        requires
            match event_start(*ev) {
                Some(s) => lines.col_fits(s),
                None => true,
            },
        ensures
            final(self).state() == step_spec(old(self).state(), *ev, lines.source()),
    {
        match ev {
            AstEvent::ExportNamedEnter { specifiers, declaration } => {
                let ghost start = self.state();
                self.record_exports(specifiers, EXPORT_NAMED);
                match declaration {
                    Some(d) => {
                        self.record_declaration(d, EXPORT_NAMED);
                        proof {
                            lemma_record_exports_concat(start, strs_view(specifiers@), declaration_names(*d), EXPORT_NAMED);
                        }
                    },
                    None => {
                        assert(strs_view(specifiers@) + Seq::<Seq<char>>::empty() =~= strs_view(
                            specifiers@,
                        ));
                    },
                }
                self.in_export = true;
            },
            AstEvent::ExportNamedExit => {
                self.in_export = false;
            },
            AstEvent::ExportDefaultEnter { declaration } => {
                proof {
                    lemma_record_one(self.state(), "default"@, EXPORT_DEFAULT);
                }
                self.record_export("default", EXPORT_DEFAULT);
                match declaration {
                    DefaultExportShape::Function(Some(n)) => {
                        proof {
                            assert(seq!["default"@, n@] =~= seq!["default"@].push(n@));
                            lemma_record_push(old(self).state(), seq!["default"@], n@, EXPORT_DEFAULT);
                        }
                        self.record_export(n.as_str(), EXPORT_DEFAULT);
                    },
                    DefaultExportShape::Class(Some(n)) => {
                        proof {
                            assert(seq!["default"@, n@] =~= seq!["default"@].push(n@));
                            lemma_record_push(old(self).state(), seq!["default"@], n@, EXPORT_DEFAULT);
                        }
                        self.record_export(n.as_str(), EXPORT_DEFAULT);
                    },
                    _ => {},
                }
                self.in_default_export = true;
            },
            AstEvent::ExportDefaultExit => {
                self.in_default_export = false;
            },
            AstEvent::Function { function_type, name, is_async, is_generator, start, end } => {
                let n = self.method_values.len();
                if n > 0 && self.method_values[n - 1] == *start {
                } else {
                    match function_type {
                        FunctionType::Declaration => {
                            self.push_function(
                                lines,
                                clone_opt_string(name),
                                FunctionKind::Declaration,
                                *is_async,
                                *is_generator,
                                *start,
                                *end,
                            );
                        },
                        FunctionType::Expression => {
                            self.push_function(
                                lines,
                                clone_opt_string(name),
                                FunctionKind::Expression,
                                *is_async,
                                *is_generator,
                                *start,
                                *end,
                            );
                        },
                        FunctionType::Other => {},
                    }
                }
            },
            AstEvent::Arrow { is_async, start, end } => {
                self.push_function(lines, None, FunctionKind::Arrow, *is_async, false, *start, *end);
            },
            AstEvent::DeclaratorEnter { arrow_init, binding_name } => {
                let ghost before = self.declarators@;
                let pending = match binding_name {
                    Some(n) => if *arrow_init {
                        Some((self.functions.len(), n.clone()))
                    } else {
                        None
                    },
                    None => None,
                };
                self.declarators.push(pending);
                assert(declarators_view(self.declarators@) =~= declarators_view(before).push(
                    match pending {
                        Some((k, s)) => Some((k as int, s@)),
                        None => None,
                    },
                ));
            },
            AstEvent::DeclaratorExit => {
                self.close_declarator();
            },
            AstEvent::MethodEnter { kind, name, is_async, is_generator, start, end, value_start } => {
                let fkind = match kind {
                    MethodKind::Constructor => FunctionKind::Constructor,
                    MethodKind::Getter => FunctionKind::Getter,
                    MethodKind::Setter => FunctionKind::Setter,
                    MethodKind::Method => FunctionKind::ClassMethod,
                };
                self.push_function(
                    lines,
                    clone_opt_string(name),
                    fkind,
                    *is_async,
                    *is_generator,
                    *start,
                    *end,
                );
                self.method_values.push(*value_start);
            },
            AstEvent::MethodExit => {
                if self.method_values.len() > 0 {
                    self.method_values.pop();
                }
            },
            AstEvent::PropertyEnter { method, kind, name, function, start, end } => {
                let is_function = *method || matches!(kind, PropertyKind::Getter | PropertyKind::Setter);
                match function {
                    Some(flags) => {
                        if is_function {
                            let fkind = match kind {
                                PropertyKind::Getter => FunctionKind::Getter,
                                PropertyKind::Setter => FunctionKind::Setter,
                                PropertyKind::Init => FunctionKind::ObjectMethod,
                            };
                            self.push_function(
                                lines,
                                clone_opt_string(name),
                                fkind,
                                flags.is_async,
                                flags.is_generator,
                                *start,
                                *end,
                            );
                            self.method_values.push(flags.start);
                            self.properties.push(true);
                        } else {
                            self.properties.push(false);
                        }
                    },
                    None => {
                        self.properties.push(false);
                    },
                }
            },
            AstEvent::PropertyExit => {
                match self.properties.pop() {
                    Some(opened_value) => {
                        if opened_value && self.method_values.len() > 0 {
                            self.method_values.pop();
                        }
                    },
                    None => {},
                }
            },
        }
    }

    /// The functions gathered so far, each exported flag as it was when the
    /// function was met.
    pub fn functions(&self) -> (r: &Vec<FunctionInfo>)
        ensures
            r@.map_values(|f: FunctionInfo| f@) == self.state().functions,
    {
        &self.functions
    }

    /// The names recorded as exported.
    pub fn exported_names(&self) -> (r: &Vec<String>)
        ensures
            strs_view(r@).to_set() == self.state().exported_names,
    {
        &self.exported_names
    }

    /// Ends the walk and hands back the functions and exports gathered.
    /// The functions have their exported flags settled against every name the
    /// file exports.
    pub fn finish(self) -> (r: (Vec<FunctionInfo>, Vec<ExportInfo>))
        ensures
            r.0@.map_values(|f: FunctionInfo| f@) == settle_exports(
                self.state().functions,
                self.state().exported_names,
            ),
            r.1@.map_values(|e: ExportInfo| e@) == self.state().exports,
    {
        let ghost fs = self.state().functions;
        let ghost names = self.state().exported_names;
        let mut functions: Vec<FunctionInfo> = Vec::new();
        let n = self.functions.len();
        for i in 0..n
            invariant
                n == self.functions@.len(),
                fs == self.state().functions,
                names == self.state().exported_names,
                functions@.map_values(|f: FunctionInfo| f@) == settle_exports(fs.take(i as int), names),
        {
            let f = &self.functions[i];
            assert(fs[i as int] == f@);
            let exported = f.exported || match &f.name {
                Some(name) => self.name_exported(name.as_str()),
                None => false,
            };
            let ghost before = functions@;
            let info = FunctionInfo {
                name: clone_opt_string(&f.name),
                kind: f.kind,
                exported,
                is_async: f.is_async,
                is_generator: f.is_generator,
                line: f.line,
                col: f.col,
                line_end: f.line_end,
            };
            functions.push(info);
            assert(info@ == settled_function(fs[i as int], names));
            assert(functions@.map_values(|f: FunctionInfo| f@) =~= before.map_values(
                |f: FunctionInfo| f@,
            ).push(info@));
            assert(settle_exports(fs.take(i + 1), names) =~= settle_exports(fs.take(i as int), names).push(
                settled_function(fs[i as int], names),
            ));
        }
        assert(fs.take(n as int) =~= fs);
        (functions, self.exports)
    }
}

/// Recording a one-name list records that name.
proof fn lemma_record_one(c: CollectorState, name: Seq<char>, kind_code: u8)
    ensures
        record_exports_spec(c, seq![name], kind_code) == record_export_spec(c, name, kind_code),
{
    assert(seq![name].drop_last() =~= Seq::<Seq<char>>::empty());
    assert(record_exports_spec(c, Seq::<Seq<char>>::empty(), kind_code) == c);
}

/// Recording one more name at the end of a list.
proof fn lemma_record_push(c: CollectorState, names: Seq<Seq<char>>, name: Seq<char>, kind_code: u8)
    ensures
        record_exports_spec(c, names.push(name), kind_code) == record_export_spec(
            record_exports_spec(c, names, kind_code),
            name,
            kind_code,
        ),
{
    assert(names.push(name).drop_last() =~= names);
}

/// Recording two lists of names one after the other records their concatenation.
proof fn lemma_record_exports_concat(
    c: CollectorState,
    a: Seq<Seq<char>>,
    b: Seq<Seq<char>>,
    kind_code: u8,
)
    ensures
        record_exports_spec(record_exports_spec(c, a, kind_code), b, kind_code)
            == record_exports_spec(c, a + b, kind_code),
    decreases b.len(),
{
    if b.len() == 0 {
        assert(a + b =~= a);
    } else {
        lemma_record_exports_concat(c, a, b.drop_last(), kind_code);
        assert((a + b).drop_last() =~= a + b.drop_last());
        assert((a + b).last() == b.last());
    }
}

fn clone_opt_string(o: &Option<String>) -> (r: Option<String>)
    ensures
        opt_str_view(r) == opt_str_view(*o),
{
    match o {
        Some(s) => Some(s.clone()),
        None => None,
    }
}

// ── Bindings ─────────────────────────────────────────────────────

/// What a symbol's flags say of it: each field is whether the flags hold that
/// flag (`value` and `enum_kind` whether they hold any of the group).
#[derive(Debug, Clone, Copy, PartialEq, Eq, Structural)]
pub struct SymbolFacts {
    /// Any of the flags of value symbols.
    pub value: bool,
    pub catch_variable: bool,
    pub const_variable: bool,
    pub block_scoped_variable: bool,
    pub function_scoped_variable: bool,
    pub function: bool,
    pub class: bool,
    pub import: bool,
    /// A regular or a const enum.
    pub enum_kind: bool,
}

/// A symbol of a file's scopes: its flags, name, declaration offset and the
/// number of resolved references to it.
#[derive(Debug)]
pub struct SymbolRecord {
    pub flags: SymbolFacts,
    pub name: String,
    pub span_start: u32,
    pub references: usize,
}

/// The binding kind of a symbol, the first that applies in this order.
pub open spec fn binding_kind_spec(f: SymbolFacts) -> Option<BindingKind> {
    if f.const_variable {
        Some(BindingKind::Const)
    } else if f.block_scoped_variable {
        Some(BindingKind::Let)
    } else if f.function_scoped_variable {
        Some(BindingKind::Var)
    } else if f.function {
        Some(BindingKind::Function)
    } else if f.class {
        Some(BindingKind::Class)
    } else if f.import {
        Some(BindingKind::Import)
    } else if f.catch_variable {
        Some(BindingKind::Catch)
    } else if f.enum_kind {
        Some(BindingKind::Enum)
    } else {
        None
    }
}

pub fn flags_to_binding_kind(flags: SymbolFacts) -> (r: Option<BindingKind>)
    ensures
        r == binding_kind_spec(flags),
{
    if flags.const_variable {
        Some(BindingKind::Const)
    } else if flags.block_scoped_variable {
        Some(BindingKind::Let)
    } else if flags.function_scoped_variable {
        Some(BindingKind::Var)
    } else if flags.function {
        Some(BindingKind::Function)
    } else if flags.class {
        Some(BindingKind::Class)
    } else if flags.import {
        Some(BindingKind::Import)
    } else if flags.catch_variable {
        Some(BindingKind::Catch)
    } else if flags.enum_kind {
        Some(BindingKind::Enum)
    } else {
        None
    }
}

/// The binding a symbol gives: none for type-only symbols and for symbols of no
/// binding kind.
pub open spec fn binding_spec(
    sym: SymbolRecord,
    src: Seq<u8>,
    exported: Set<Seq<char>>,
) -> Option<BindingInfoView> {
    if !sym.flags.value && !sym.flags.catch_variable {
        None
    } else {
        match binding_kind_spec(sym.flags) {
            Some(kind) => Some(
                BindingInfoView {
                    name: sym.name@,
                    kind,
                    exported: exported.contains(sym.name@),
                    refs: sym.references,
                    line: line_u32(src, sym.span_start as int),
                    col: col_spec(src, sym.span_start as int) as u32,
                },
            ),
            None => None,
        }
    }
}

/// The bindings of the symbols, in symbol order.
pub open spec fn bindings_spec(
    syms: Seq<SymbolRecord>,
    src: Seq<u8>,
    exported: Set<Seq<char>>,
) -> Seq<BindingInfoView>
    decreases syms.len(),
{
    if syms.len() == 0 {
        Seq::empty()
    } else {
        let prev = bindings_spec(syms.drop_last(), src, exported);
        match binding_spec(syms.last(), src, exported) {
            Some(b) => prev.push(b),
            None => prev,
        }
    }
}

/// Every symbol's declaration offset has a column that fits in a `u32`.
pub open spec fn symbols_fit(syms: Seq<SymbolRecord>, src: Seq<u8>) -> bool {
    forall|i: int| 0 <= i < syms.len() ==> col_spec(src, #[trigger] syms[i].span_start as int) <= u32::MAX
}

/// Whether `name` is one of `names`.
fn contains_string(names: &Vec<String>, name: &str) -> (r: bool)
    ensures
        r == strs_view(names@).to_set().contains(name@),
{
    let n = names.len();
    let mut i: usize = 0;
    while i < n
        invariant
            n == names@.len(),
            i <= n,
            forall|k: int| 0 <= k < i ==> names@[k]@ != name@,
        decreases n - i,
    {
        if str_eq(names[i].as_str(), name) {
            assert(strs_view(names@)[i as int] == name@);
            return true;
        }
        i = i + 1;
    }
    proof {
        let sv = strs_view(names@);
        if sv.contains(name@) {
            let k = choose|k: int| 0 <= k < sv.len() && sv[k] == name@;
            assert(names@[k]@ == name@);
        }
    }
    false
}

/// The value bindings of a file, with their reference counts and whether their
/// name was exported.
pub fn extract_bindings(
    symbols: &Vec<SymbolRecord>,
    lines: &LineIndex,
    exported_names: &Vec<String>,
) -> (r: Vec<BindingInfo>)
    requires
        symbols_fit(symbols@, lines.source()),
    ensures
        r@.map_values(|b: BindingInfo| b@) == bindings_spec(
            symbols@,
            lines.source(),
            strs_view(exported_names@).to_set(),
        ),
{
    let ghost src = lines.source();
    let ghost exported = strs_view(exported_names@).to_set();
    let mut out: Vec<BindingInfo> = Vec::new();
    let n = symbols.len();
    for i in 0..n
        invariant
            n == symbols@.len(),
            src == lines.source(),
            exported == strs_view(exported_names@).to_set(),
            symbols_fit(symbols@, src),
            out@.map_values(|b: BindingInfo| b@) == bindings_spec(symbols@.take(i as int), src, exported),
    {
        let sym = &symbols[i];
        let ghost before = out@;
        assert(symbols@.take(i + 1).drop_last() =~= symbols@.take(i as int));
        assert(symbols@.take(i + 1).last() == *sym);
        assert(col_spec(src, symbols@[i as int].span_start as int) <= u32::MAX);
        if sym.flags.value || sym.flags.catch_variable {
            match flags_to_binding_kind(sym.flags) {
                Some(kind) => {
                    let info = BindingInfo {
                        name: sym.name.clone(),
                        kind,
                        exported: contains_string(exported_names, sym.name.as_str()),
                        refs: sym.references,
                        line: lines.line(sym.span_start),
                        col: lines.col(sym.span_start),
                    };
                    out.push(info);
                    assert(out@.map_values(|b: BindingInfo| b@) =~= before.map_values(
                        |b: BindingInfo| b@,
                    ).push(info@));
                },
                None => {},
            }
        }
    }
    assert(symbols@.take(n as int) =~= symbols@);
    out
}

// ── Whole-file extraction ────────────────────────────────────────

/// The functions, bindings and exports of one file.
#[derive(Debug)]
pub struct ExtractionResult {
    pub functions: Vec<FunctionInfo>,
    pub bindings: Vec<BindingInfo>,
    pub exports: Vec<ExportInfo>,
}

/// Runs the collector over the events of a file's walk, then turns its symbols
/// into bindings.
pub fn extract_file(
    events: &Vec<AstEvent>,
    symbols: &Vec<SymbolRecord>,
    source: &str,
    filter: FunctionKindsFilter,
) -> (r: ExtractionResult)
    requires
        source.spec_bytes().len() <= u32::MAX,
        events_fit(events@, source.spec_bytes()),
        symbols_fit(symbols@, source.spec_bytes()),
    ensures
        ({
            let st = run_events(initial_state(filter), events@, source.spec_bytes());
            &&& r.functions@.map_values(|f: FunctionInfo| f@) == settle_exports(
                st.functions,
                st.exported_names,
            )
            &&& r.exports@.map_values(|e: ExportInfo| e@) == st.exports
            &&& r.bindings@.map_values(|b: BindingInfo| b@) == bindings_spec(
                symbols@,
                source.spec_bytes(),
                st.exported_names,
            )
        }),
{
    let lines = LineIndex::new(source);
    let ghost src = source.spec_bytes();
    let mut collector = Collector::new(filter);
    let n = events.len();
    for i in 0..n
        invariant
            n == events@.len(),
            src == lines.source(),
            events_fit(events@, src),
            collector.state() == run_events(initial_state(filter), events@.take(i as int), src),
    {
        assert(events@.take(i + 1).drop_last() =~= events@.take(i as int));
        assert(events@.take(i + 1).last() == events@[i as int]);
        let ev = &events[i];
        assert(match event_start(events@[i as int]) {
            Some(s) => col_spec(src, s as int) <= u32::MAX,
            None => true,
        });
        collector.step(ev, &lines);
    }
    assert(events@.take(n as int) =~= events@);
    let bindings = extract_bindings(symbols, &lines, collector.exported_names());
    let (functions, exports) = collector.finish();
    ExtractionResult { functions, bindings, exports }
}

// ── Parameter names ──────────────────────────────────────────────

/// The pattern a formal parameter binds.
#[derive(Debug)]
pub enum ParamPattern {
    /// A plain identifier.
    Identifier(String),
    /// An object destructuring pattern.
    Object,
    /// An array destructuring pattern.
    Array,
    /// A pattern with a default value, with the identifier its left side binds, if any.
    Assignment(Option<String>),
}

/// How a parameter is shown.
pub open spec fn param_name_spec(p: ParamPattern) -> Seq<char> {
    match p {
        ParamPattern::Identifier(n) => n@,
        ParamPattern::Object => "{...}"@,
        ParamPattern::Array => "[...]"@,
        ParamPattern::Assignment(Some(n)) => n@,
        ParamPattern::Assignment(None) => "..."@,
    }
}

/// The shown names of a function's parameters, in order.
pub fn extract_param_names(params: &Vec<ParamPattern>) -> (r: Vec<String>)
    ensures
        strs_view(r@) == params@.map_values(|p: ParamPattern| param_name_spec(p)),
{
    let mut out: Vec<String> = Vec::new();
    let n = params.len();
    for i in 0..n
        invariant
            n == params@.len(),
            strs_view(out@) == params@.take(i as int).map_values(|p: ParamPattern| param_name_spec(p)),
    {
        let ghost before = out@;
        assert(params@.take(i as int).map_values(|p: ParamPattern| param_name_spec(p)).len() == i);
        assert(strs_view(before).len() == i);
        let name = match &params[i] {
            ParamPattern::Identifier(id) => id.clone(),
            ParamPattern::Object => String::from_str("{...}"),
            ParamPattern::Array => String::from_str("[...]"),
            ParamPattern::Assignment(Some(id)) => id.clone(),
            ParamPattern::Assignment(None) => String::from_str("..."),
        };
        assert(name@ == param_name_spec(params@[i as int]));
        out.push(name);
        assert(strs_view(out@).len() == i + 1);
        assert forall|k: int| 0 <= k < i + 1 implies #[trigger] strs_view(out@)[k] == params@.take(
            i + 1,
        ).map_values(|p: ParamPattern| param_name_spec(p))[k] by {
            if k < i {
                assert(strs_view(before)[k] == params@.take(i as int).map_values(
                    |p: ParamPattern| param_name_spec(p),
                )[k]);
            }
        }
        assert(strs_view(out@) =~= params@.take(i + 1).map_values(|p: ParamPattern| param_name_spec(p)));
    }
    assert(params@.take(n as int) =~= params@);
    out
}

// ── Laws of recording ────────────────────────────────────────────

/// Recording a function whose kind the filter keeps appends exactly one entry
/// and keeps the others: the entry has the given name, kind and flags, the line
/// and column of its start offset, and the line of its end offset. A function
/// the filter leaves out changes nothing.
pub proof fn lemma_push_function_records(
    c: CollectorState,
    name: Option<Seq<char>>,
    kind: FunctionKind,
    is_async: bool,
    is_generator: bool,
    start: u32,
    end: u32,
    src: Seq<u8>,
)
    ensures
        ({
            let d = push_function_spec(c, name, kind, is_async, is_generator, start, end, src);
            &&& includes_spec(c.filter, kind) ==> {
                &&& d.functions.len() == c.functions.len() + 1
                &&& forall|i: int| 0 <= i < c.functions.len() ==> d.functions[i] == c.functions[i]
                &&& d.functions[c.functions.len() as int].name == name
                &&& d.functions[c.functions.len() as int].kind == kind
                &&& d.functions[c.functions.len() as int].is_async == is_async
                &&& d.functions[c.functions.len() as int].is_generator == is_generator
                &&& d.functions[c.functions.len() as int].line == line_u32(src, start as int)
                &&& d.functions[c.functions.len() as int].col == col_spec(src, start as int) as u32
                &&& d.functions[c.functions.len() as int].line_end == line_u32(src, end as int)
            }
            &&& !includes_spec(c.filter, kind) ==> d == c
            &&& d.exports == c.exports
            &&& d.exported_names == c.exported_names
        }),
{
}

/// Recording names as exported appends one export per name, in order, with the
/// given kind code, and counts each name as exported.
proof fn lemma_record_exports_effect(c: CollectorState, names: Seq<Seq<char>>, code: u8)
    ensures
        ({
            let d = record_exports_spec(c, names, code);
            &&& d.exports.len() == c.exports.len() + names.len()
            &&& forall|i: int| 0 <= i < c.exports.len() ==> d.exports[i] == c.exports[i]
            &&& forall|k: int|
                0 <= k < names.len() ==> d.exports[c.exports.len() + k] == (ExportInfoView {
                    name: names[k],
                    kind_code: code,
                })
            &&& forall|k: int| 0 <= k < names.len() ==> d.exported_names.contains(#[trigger] names[k])
        }),
    decreases names.len(),
{
    if names.len() > 0 {
        let p = names.drop_last();
        lemma_record_exports_effect(c, p, code);
        let d0 = record_exports_spec(c, p, code);
        assert forall|k: int| 0 <= k < names.len() implies d0.exported_names.insert(names.last()).contains(
            #[trigger] names[k],
        ) by {
            if k < p.len() {
                assert(names[k] == p[k]);
            }
        }
        assert forall|k: int| 0 <= k < names.len() implies record_exports_spec(c, names, code).exports[c.exports.len() + k] == (ExportInfoView {
            name: names[k],
            kind_code: code,
        }) by {
            if k < p.len() {
                assert(names[k] == p[k]);
            }
        }
    }
}

/// Every declarator that binds a plain identifier has its name among the
/// present names.
proof fn lemma_present_names_contain(v: Seq<Option<String>>)
    ensures
        forall|i: int|
            0 <= i < v.len() && (#[trigger] v[i]) is Some ==> present_names(v).contains(
                v[i].unwrap()@,
            ),
    decreases v.len(),
{
    if v.len() > 0 {
        let p = v.drop_last();
        lemma_present_names_contain(p);
        assert forall|i: int|
            0 <= i < v.len() && (#[trigger] v[i]) is Some implies present_names(v).contains(
                v[i].unwrap()@,
            ) by {
            if i < p.len() {
                assert(v[i] == p[i]);
                let k = choose|k: int| 0 <= k < present_names(p).len() && present_names(p)[k] == p[i].unwrap()@;
                assert(present_names(v)[k] == present_names(p)[k]);
            } else {
                assert(present_names(v).last() == v[i].unwrap()@);
                assert(present_names(v)[present_names(v).len() - 1] == v[i].unwrap()@);
            }
        }
    }
}

/// `export const a = .., b = ..;` exports every declarator that binds a plain
/// identifier: each such name gets an export of the named kind and counts as
/// exported. The exports recorded before stay as they were.
pub proof fn lemma_exported_declarators_recorded(
    c: CollectorState,
    specifiers: Vec<String>,
    v: Vec<Option<String>>,
    src: Seq<u8>,
)
    ensures
        ({
            let d = step_spec(
                c,
                AstEvent::ExportNamedEnter {
                    specifiers,
                    declaration: Some(DeclarationShape::Variables(v)),
                },
                src,
            );
            &&& forall|i: int| 0 <= i < c.exports.len() ==> d.exports[i] == c.exports[i]
            &&& forall|i: int|
                0 <= i < v@.len() && (#[trigger] v@[i]) is Some ==> {
                    &&& d.exported_names.contains(v@[i].unwrap()@)
                    &&& exists|k: int|
                        c.exports.len() <= k < d.exports.len() && d.exports[k] == (ExportInfoView {
                            name: v@[i].unwrap()@,
                            kind_code: EXPORT_NAMED,
                        })
                }
        }),
{
    let names = strs_view(specifiers@) + present_names(v@);
    let d = step_spec(
        c,
        AstEvent::ExportNamedEnter { specifiers, declaration: Some(DeclarationShape::Variables(v)) },
        src,
    );
    lemma_record_exports_effect(c, names, EXPORT_NAMED);
    lemma_present_names_contain(v@);
    assert forall|i: int|
        0 <= i < v@.len() && (#[trigger] v@[i]) is Some implies {
            &&& d.exported_names.contains(v@[i].unwrap()@)
            &&& exists|k: int|
                c.exports.len() <= k < d.exports.len() && d.exports[k] == (ExportInfoView {
                    name: v@[i].unwrap()@,
                    kind_code: EXPORT_NAMED,
                })
        } by {
        let pn = present_names(v@);
        let j = choose|j: int| 0 <= j < pn.len() && pn[j] == v@[i].unwrap()@;
        let sl = strs_view(specifiers@).len() as int;
        assert(names[sl + j] == pn[j]);
        assert(d.exports[c.exports.len() + sl + j] == (ExportInfoView {
            name: v@[i].unwrap()@,
            kind_code: EXPORT_NAMED,
        }));
    }
}

/// The binding `b` is the one the symbol `sym` gives: same name and number of
/// references, the kind of the symbol's flags, the line of its declaration, and
/// exported exactly when the name is among `names`.
pub open spec fn made_from_symbol(
    b: BindingInfoView,
    sym: SymbolRecord,
    src: Seq<u8>,
    names: Set<Seq<char>>,
) -> bool {
    &&& b.name == sym.name@
    &&& b.refs == sym.references
    &&& binding_kind_spec(sym.flags) == Some(b.kind)
    &&& (sym.flags.value || sym.flags.catch_variable)
    &&& b.exported == names.contains(sym.name@)
    &&& b.line == line_u32(src, sym.span_start as int)
}

/// The position of the symbol that binding `i` comes from.
proof fn lemma_binding_source(syms: Seq<SymbolRecord>, src: Seq<u8>, names: Set<Seq<char>>, i: int) -> (k: int)
    requires
        0 <= i < bindings_spec(syms, src, names).len(),
    ensures
        0 <= k < syms.len(),
        made_from_symbol(bindings_spec(syms, src, names)[i], syms[k], src, names),
    decreases syms.len(),
{
    let p = syms.drop_last();
    let prev = bindings_spec(p, src, names);
    if i < prev.len() {
        let k = lemma_binding_source(p, src, names, i);
        assert(syms[k] == p[k]);
        k
    } else {
        (syms.len() - 1) as int
    }
}

/// The position of the binding that symbol `k` gives, when it gives one.
proof fn lemma_symbol_binding(syms: Seq<SymbolRecord>, src: Seq<u8>, names: Set<Seq<char>>, k: int) -> (i: int)
    requires
        0 <= k < syms.len(),
        syms[k].flags.value || syms[k].flags.catch_variable,
        binding_kind_spec(syms[k].flags) is Some,
    ensures
        0 <= i < bindings_spec(syms, src, names).len(),
        made_from_symbol(bindings_spec(syms, src, names)[i], syms[k], src, names),
    decreases syms.len(),
{
    let p = syms.drop_last();
    if k < p.len() {
        assert(syms[k] == p[k]);
        lemma_symbol_binding(p, src, names, k)
    } else {
        bindings_spec(p, src, names).len() as int
    }
}

/// Every binding comes from one of the symbols: it keeps the symbol's name and
/// number of references, takes its kind from the symbol's flags, and counts as
/// exported exactly when the name is exported. Conversely every value (or
/// catch) symbol of a binding kind gives a binding with its references.
pub proof fn lemma_bindings_from_symbols(syms: Seq<SymbolRecord>, src: Seq<u8>, names: Set<Seq<char>>)
    ensures
        forall|i: int|
            0 <= i < bindings_spec(syms, src, names).len() ==> {
                let b = #[trigger] bindings_spec(syms, src, names)[i];
                exists|k: int| 0 <= k < syms.len() && made_from_symbol(b, #[trigger] syms[k], src, names)
            },
        forall|k: int|
            0 <= k < syms.len() && ((#[trigger] syms[k]).flags.value || syms[k].flags.catch_variable)
                && binding_kind_spec(syms[k].flags) is Some ==> {
                let sym = syms[k];
                exists|i: int|
                    0 <= i < bindings_spec(syms, src, names).len() && made_from_symbol(
                        #[trigger] bindings_spec(syms, src, names)[i],
                        sym,
                        src,
                        names,
                    )
            },
{
    assert forall|i: int|
        0 <= i < bindings_spec(syms, src, names).len() implies {
            let b = #[trigger] bindings_spec(syms, src, names)[i];
            exists|k: int| 0 <= k < syms.len() && made_from_symbol(b, #[trigger] syms[k], src, names)
        } by {
        let k = lemma_binding_source(syms, src, names, i);
    }
    assert forall|k: int|
        0 <= k < syms.len() && ((#[trigger] syms[k]).flags.value || syms[k].flags.catch_variable)
            && binding_kind_spec(syms[k].flags) is Some implies {
            let sym = syms[k];
            exists|i: int|
                0 <= i < bindings_spec(syms, src, names).len() && made_from_symbol(
                    #[trigger] bindings_spec(syms, src, names)[i],
                    sym,
                    src,
                    names,
                )
        } by {
        let i = lemma_symbol_binding(syms, src, names, k);
    }
}

// ── Laws of the collector ────────────────────────────────────────

/// The names of the exports, in order.
pub open spec fn export_names(exports: Seq<ExportInfoView>) -> Seq<Seq<char>> {
    exports.map_values(|e: ExportInfoView| e.name)
}

/// All recorded functions are of kinds the filter keeps, and the exported names
/// are exactly the names of the recorded exports.
pub open spec fn collector_consistent(c: CollectorState, filter: FunctionKindsFilter) -> bool {
    &&& c.filter == filter
    &&& forall|i: int| 0 <= i < c.functions.len() ==> includes_spec(filter, #[trigger] c.functions[i].kind)
    &&& c.exported_names == export_names(c.exports).to_set()
}

proof fn lemma_record_exports_consistent(c: CollectorState, names: Seq<Seq<char>>, code: u8, filter: FunctionKindsFilter)
    requires
        collector_consistent(c, filter),
    ensures
        collector_consistent(record_exports_spec(c, names, code), filter),
        record_exports_spec(c, names, code).functions == c.functions,
        record_exports_spec(c, names, code).method_values == c.method_values,
        record_exports_spec(c, names, code).declarators == c.declarators,
        record_exports_spec(c, names, code).properties == c.properties,
    decreases names.len(),
{
    if names.len() > 0 {
        lemma_record_exports_consistent(c, names.drop_last(), code, filter);
        let d = record_exports_spec(c, names.drop_last(), code);
        let e = record_export_spec(d, names.last(), code);
        assert(export_names(e.exports) =~= export_names(d.exports).push(names.last()));
        export_names(d.exports).lemma_push_to_set_commute(names.last());
    }
}

proof fn lemma_push_function_consistent(
    c: CollectorState,
    name: Option<Seq<char>>,
    kind: FunctionKind,
    is_async: bool,
    is_generator: bool,
    start: u32,
    end: u32,
    src: Seq<u8>,
    filter: FunctionKindsFilter,
)
    requires
        collector_consistent(c, filter),
    ensures
        collector_consistent(push_function_spec(c, name, kind, is_async, is_generator, start, end, src), filter),
{
    let d = push_function_spec(c, name, kind, is_async, is_generator, start, end, src);
    assert forall|i: int| 0 <= i < d.functions.len() implies includes_spec(filter, #[trigger] d.functions[i].kind) by {
        if i < c.functions.len() {
            assert(d.functions[i] == c.functions[i]);
        }
    }
}

proof fn lemma_step_consistent(c: CollectorState, ev: AstEvent, src: Seq<u8>, filter: FunctionKindsFilter)
    requires
        collector_consistent(c, filter),
    ensures
        collector_consistent(step_spec(c, ev, src), filter),
{
    match ev {
        AstEvent::ExportNamedEnter { specifiers, declaration } => {
            let names = strs_view(specifiers@) + match declaration {
                Some(d) => declaration_names(d),
                None => Seq::empty(),
            };
            lemma_record_exports_consistent(c, names, EXPORT_NAMED, filter);
        },
        AstEvent::ExportDefaultEnter { declaration } => {
            lemma_record_exports_consistent(c, default_export_names(declaration), EXPORT_DEFAULT, filter);
        },
        AstEvent::Function { function_type, name, is_async, is_generator, start, end } => {
            lemma_push_function_consistent(c, opt_str_view(name), FunctionKind::Declaration, is_async, is_generator, start, end, src, filter);
            lemma_push_function_consistent(c, opt_str_view(name), FunctionKind::Expression, is_async, is_generator, start, end, src, filter);
        },
        AstEvent::Arrow { is_async, start, end } => {
            lemma_push_function_consistent(c, None, FunctionKind::Arrow, is_async, false, start, end, src, filter);
        },
        AstEvent::DeclaratorExit => {
            let d = close_declarator_spec(c);
            assert forall|i: int| 0 <= i < d.functions.len() implies includes_spec(filter, #[trigger] d.functions[i].kind) by {
                assert(d.functions[i].kind == c.functions[i].kind);
            }
        },
        AstEvent::MethodEnter { kind, name, is_async, is_generator, start, end, .. } => {
            lemma_push_function_consistent(c, opt_str_view(name), method_function_kind(kind), is_async, is_generator, start, end, src, filter);
        },
        AstEvent::PropertyEnter { method, kind, name, function, start, end } => {
            match function {
                Some(flags) => {
                    lemma_push_function_consistent(c, opt_str_view(name), property_function_kind(kind), flags.is_async, flags.is_generator, start, end, src, filter);
                },
                None => {},
            }
        },
        _ => {},
    }
}

/// Whatever events a walk produces, every function indexed is of a kind the
/// filter keeps, and the names counted as exported are exactly the names of the
/// file's exports.
pub proof fn lemma_run_events_consistent(filter: FunctionKindsFilter, evs: Seq<AstEvent>, src: Seq<u8>)
    ensures
        collector_consistent(run_events(initial_state(filter), evs, src), filter),
    decreases evs.len(),
{
    if evs.len() == 0 {
        assert(export_names(Seq::<ExportInfoView>::empty()).to_set() =~= Set::<Seq<char>>::empty());
    } else {
        lemma_run_events_consistent(filter, evs.drop_last(), src);
        lemma_step_consistent(run_events(initial_state(filter), evs.drop_last(), src), evs.last(), src, filter);
    }
}

proof fn lemma_bindings_exported(syms: Seq<SymbolRecord>, src: Seq<u8>, names: Set<Seq<char>>)
    ensures
        forall|i: int|
            0 <= i < bindings_spec(syms, src, names).len() ==> (#[trigger] bindings_spec(
                syms,
                src,
                names,
            )[i]).exported == names.contains(bindings_spec(syms, src, names)[i].name),
    decreases syms.len(),
{
    if syms.len() > 0 {
        lemma_bindings_exported(syms.drop_last(), src, names);
    }
}

/// After the walk of a file, a binding counts as exported exactly when the file
/// has an export of its name, and a named function counts as exported whenever
/// the file has an export of its name, before or after the function.
pub proof fn lemma_exports_decide_exported(
    filter: FunctionKindsFilter,
    evs: Seq<AstEvent>,
    src: Seq<u8>,
    syms: Seq<SymbolRecord>,
)
    ensures
        ({
            let st = run_events(initial_state(filter), evs, src);
            let bs = bindings_spec(syms, src, st.exported_names);
            let fs = settle_exports(st.functions, st.exported_names);
            &&& forall|i: int|
                0 <= i < bs.len() ==> ((#[trigger] bs[i]).exported <==> exists|k: int|
                    0 <= k < st.exports.len() && st.exports[k].name == bs[i].name)
            &&& forall|i: int, k: int|
                0 <= i < fs.len() && 0 <= k < st.exports.len() && (#[trigger] fs[i]).name == Some(
                    #[trigger] st.exports[k].name,
                ) ==> fs[i].exported
        }),
{
    let st = run_events(initial_state(filter), evs, src);
    let bs = bindings_spec(syms, src, st.exported_names);
    let fs = settle_exports(st.functions, st.exported_names);
    let en = export_names(st.exports);
    lemma_run_events_consistent(filter, evs, src);
    lemma_bindings_exported(syms, src, st.exported_names);
    assert forall|i: int|
        0 <= i < bs.len() implies ((#[trigger] bs[i]).exported <==> exists|k: int|
            0 <= k < st.exports.len() && st.exports[k].name == bs[i].name) by {
        if bs[i].exported {
            assert(en.contains(bs[i].name));
            let k = choose|k: int| 0 <= k < en.len() && en[k] == bs[i].name;
            assert(st.exports[k].name == en[k]);
        }
        if exists|k: int| 0 <= k < st.exports.len() && st.exports[k].name == bs[i].name {
            let k = choose|k: int| 0 <= k < st.exports.len() && st.exports[k].name == bs[i].name;
            assert(en[k] == bs[i].name);
            assert(en.contains(bs[i].name));
        }
    }
    assert forall|i: int, k: int|
        0 <= i < fs.len() && 0 <= k < st.exports.len() && (#[trigger] fs[i]).name == Some(
            #[trigger] st.exports[k].name,
        ) implies fs[i].exported by {
        assert(en[k] == st.exports[k].name);
        assert(en.contains(st.exports[k].name));
        assert(fs[i] == settled_function(st.functions[i], st.exported_names));
    }
}

} // verus!
