//! The data model of an index: functions, bindings, exports and violations per
//! file, the aggregate scan result, and byte-offset to line/column lookup.
use vstd::prelude::*;

use crate::text::strs_view;
use vstd::string::StringSliceAdditionalSpecFns;

verus! {

// ── Function kinds ───────────────────────────────────────────────

/// The syntactic form a function was written in.
#[derive(Debug, Clone, Copy, PartialEq, Eq, Structural)]
pub enum FunctionKind {
    Declaration,
    Arrow,
    Expression,
    ClassMethod,
    ObjectMethod,
    Getter,
    Setter,
    Constructor,
}

/// The short code of a function kind used in compact output.
pub open spec fn kind_code_spec(k: FunctionKind) -> Seq<char> {
    match k {
        FunctionKind::Declaration => "fn"@,
        FunctionKind::Arrow => "arr"@,
        FunctionKind::Expression => "fex"@,
        FunctionKind::ClassMethod => "cls"@,
        FunctionKind::ObjectMethod => "obj"@,
        FunctionKind::Getter => "get"@,
        FunctionKind::Setter => "set"@,
        FunctionKind::Constructor => "ctor"@,
    }
}

/// The long label of a function kind used in verbose output.
pub open spec fn kind_label_spec(k: FunctionKind) -> Seq<char> {
    match k {
        FunctionKind::Declaration => "FunctionDeclaration"@,
        FunctionKind::Arrow => "ArrowFunctionExpression"@,
        FunctionKind::Expression => "FunctionExpression"@,
        FunctionKind::ClassMethod => "ClassMethod"@,
        FunctionKind::ObjectMethod => "ObjectMethod"@,
        FunctionKind::Getter => "Getter"@,
        FunctionKind::Setter => "Setter"@,
        FunctionKind::Constructor => "Constructor"@,
    }
}

impl FunctionKind {
    pub fn code(self) -> (r: &'static str)
        ensures
            r@ == kind_code_spec(self),
    {
        match self {
            FunctionKind::Declaration => "fn",
            FunctionKind::Arrow => "arr",
            FunctionKind::Expression => "fex",
            FunctionKind::ClassMethod => "cls",
            FunctionKind::ObjectMethod => "obj",
            FunctionKind::Getter => "get",
            FunctionKind::Setter => "set",
            FunctionKind::Constructor => "ctor",
        }
    }

    pub fn label(self) -> (r: &'static str)
        ensures
            r@ == kind_label_spec(self),
    {
        match self {
            FunctionKind::Declaration => "FunctionDeclaration",
            FunctionKind::Arrow => "ArrowFunctionExpression",
            FunctionKind::Expression => "FunctionExpression",
            FunctionKind::ClassMethod => "ClassMethod",
            FunctionKind::ObjectMethod => "ObjectMethod",
            FunctionKind::Getter => "Getter",
            FunctionKind::Setter => "Setter",
            FunctionKind::Constructor => "Constructor",
        }
    }
}

// ── Binding kinds ────────────────────────────────────────────────

/// The declaration form of a value binding.
#[derive(Debug, Clone, Copy, PartialEq, Eq, Structural)]
pub enum BindingKind {
    Var,
    Let,
    Const,
    Param,
    Function,
    Class,
    Import,
    Catch,
    Enum,
}

/// The name of a binding kind in output.
pub open spec fn binding_kind_str_spec(k: BindingKind) -> Seq<char> {
    match k {
        BindingKind::Var => "var"@,
        BindingKind::Let => "let"@,
        BindingKind::Const => "const"@,
        BindingKind::Param => "param"@,
        BindingKind::Function => "fn"@,
        BindingKind::Class => "class"@,
        BindingKind::Import => "import"@,
        BindingKind::Catch => "catch"@,
        BindingKind::Enum => "enum"@,
    }
}

impl BindingKind {
    pub fn as_str(self) -> (r: &'static str)
        ensures
            r@ == binding_kind_str_spec(self),
    {
        match self {
            BindingKind::Var => "var",
            BindingKind::Let => "let",
            BindingKind::Const => "const",
            BindingKind::Param => "param",
            BindingKind::Function => "fn",
            BindingKind::Class => "class",
            BindingKind::Import => "import",
            BindingKind::Catch => "catch",
            BindingKind::Enum => "enum",
        }
    }
}

/// The view of an optional string.
pub open spec fn opt_str_view(o: Option<String>) -> Option<Seq<char>> {
    match o {
        Some(s) => Some(s@),
        None => None,
    }
}

// ── Function info ────────────────────────────────────────────────

/// A function found in a file, with its 1-based start line and column and end line.
#[derive(Debug)]
pub struct FunctionInfo {
    pub name: Option<String>,
    pub kind: FunctionKind,
    pub exported: bool,
    pub is_async: bool,
    pub is_generator: bool,
    pub line: u32,
    pub col: u32,
    pub line_end: u32,
}

pub struct FunctionInfoView {
    pub name: Option<Seq<char>>,
    pub kind: FunctionKind,
    pub exported: bool,
    pub is_async: bool,
    pub is_generator: bool,
    pub line: u32,
    pub col: u32,
    pub line_end: u32,
}

impl View for FunctionInfo {
    type V = FunctionInfoView;

    open spec fn view(&self) -> FunctionInfoView {
        FunctionInfoView {
            name: opt_str_view(self.name),
            kind: self.kind,
            exported: self.exported,
            is_async: self.is_async,
            is_generator: self.is_generator,
            line: self.line,
            col: self.col,
            line_end: self.line_end,
        }
    }
}

// ── Binding info ─────────────────────────────────────────────────

/// A value binding with the number of resolved references to it.
#[derive(Debug)]
pub struct BindingInfo {
    pub name: String,
    pub kind: BindingKind,
    pub exported: bool,
    pub refs: usize,
    pub line: u32,
    pub col: u32,
}

pub struct BindingInfoView {
    pub name: Seq<char>,
    pub kind: BindingKind,
    pub exported: bool,
    pub refs: usize,
    pub line: u32,
    pub col: u32,
}

impl View for BindingInfo {
    type V = BindingInfoView;

    open spec fn view(&self) -> BindingInfoView {
        BindingInfoView {
            name: self.name@,
            kind: self.kind,
            exported: self.exported,
            refs: self.refs,
            line: self.line,
            col: self.col,
        }
    }
}

// ── Export info ──────────────────────────────────────────────────

/// An exported name with its export kind code.
#[derive(Debug)]
pub struct ExportInfo {
    pub name: String,
    pub kind_code: u8,
}

pub struct ExportInfoView {
    pub name: Seq<char>,
    pub kind_code: u8,
}

impl View for ExportInfo {
    type V = ExportInfoView;

    open spec fn view(&self) -> ExportInfoView {
        ExportInfoView { name: self.name@, kind_code: self.kind_code }
    }
}

/// Export kind code of `export { .. }` and `export <declaration>`.
pub const EXPORT_NAMED: u8 = 1;

/// Export kind code of `export default ..`.
pub const EXPORT_DEFAULT: u8 = 2;

/// Export kind code of a re-export.
pub const EXPORT_REEXPORT: u8 = 3;

// ── Violation ────────────────────────────────────────────────────

/// A rule violation in one file: the rule, how many items broke it, and which.
#[derive(Debug)]
pub struct Violation {
    pub rule: String,
    pub count: usize,
    pub details: Vec<String>,
}

pub struct ViolationView {
    pub rule: Seq<char>,
    pub count: usize,
    pub details: Seq<Seq<char>>,
}

impl View for Violation {
    type V = ViolationView;

    open spec fn view(&self) -> ViolationView {
        ViolationView { rule: self.rule@, count: self.count, details: strs_view(self.details@) }
    }
}

/// The view of an optional violation.
pub open spec fn opt_violation_view(o: Option<Violation>) -> Option<ViolationView> {
    match o {
        Some(v) => Some(v@),
        None => None,
    }
}

// ── Per-file index ───────────────────────────────────────────────

/// Everything extracted from one file.
#[derive(Debug)]
pub struct FileIndex {
    pub path: String,
    pub functions: Vec<FunctionInfo>,
    pub bindings: Vec<BindingInfo>,
    pub exports: Vec<ExportInfo>,
    pub violations: Vec<Violation>,
    pub parse_errors: usize,
}

pub struct FileIndexView {
    pub path: Seq<char>,
    pub functions: Seq<FunctionInfoView>,
    pub bindings: Seq<BindingInfoView>,
    pub exports: Seq<ExportInfoView>,
    pub violations: Seq<ViolationView>,
    pub parse_errors: usize,
}

impl View for FileIndex {
    type V = FileIndexView;

    open spec fn view(&self) -> FileIndexView {
        FileIndexView {
            path: self.path@,
            functions: self.functions@.map_values(|f: FunctionInfo| f@),
            bindings: self.bindings@.map_values(|b: BindingInfo| b@),
            exports: self.exports@.map_values(|e: ExportInfo| e@),
            violations: self.violations@.map_values(|v: Violation| v@),
            parse_errors: self.parse_errors,
        }
    }
}

/// The views of a sequence of file indexes.
pub open spec fn indices_view(v: Seq<FileIndex>) -> Seq<FileIndexView> {
    v.map_values(|f: FileIndex| f@)
}

// ── Aggregate result ─────────────────────────────────────────────

/// Counts of files found, parsed, skipped and parsed with errors.
#[derive(Debug, Clone, Copy, PartialEq, Eq, Structural)]
pub struct Stats {
    pub files: usize,
    pub parsed: usize,
    pub skipped: usize,
    pub errors: usize,
}

/// The result of a scan: one index per parsed file, sorted by path.
#[derive(Debug)]
pub struct ScanResult {
    pub ver: u8,
    pub root: String,
    pub stats: Stats,
    pub file_indices: Vec<FileIndex>,
    pub errors: Vec<String>,
}

pub struct ScanResultView {
    pub ver: u8,
    pub root: Seq<char>,
    pub stats: Stats,
    pub file_indices: Seq<FileIndexView>,
    pub errors: Seq<Seq<char>>,
}

impl View for ScanResult {
    type V = ScanResultView;

    open spec fn view(&self) -> ScanResultView {
        ScanResultView {
            ver: self.ver,
            root: self.root@,
            stats: self.stats,
            file_indices: indices_view(self.file_indices@),
            errors: strs_view(self.errors@),
        }
    }
}

// ── Output mode ──────────────────────────────────────────────────

/// The shape of the JSON document written for a scan.
#[derive(Debug, Clone, Copy, PartialEq, Eq, Structural)]
pub enum OutputMode {
    Compact,
    Verbose,
    /// Group by file: { files: { "file": [names...] } }
    Files,
    /// Group by folder: { folders: { "dir": { functions, names } } }
    Folders,
}

impl Default for OutputMode {
    fn default() -> (r: Self)
        ensures
            r == OutputMode::Compact,
    {
        OutputMode::Compact
    }
}

// ── Function-kinds filter ────────────────────────────────────────

/// Which function kinds an index keeps.
#[derive(Debug, Clone, Copy, PartialEq, Eq, Structural)]
pub enum FunctionKindsFilter {
    Top,
    TopArrow,
    TopArrowClass,
    All,
}

impl Default for FunctionKindsFilter {
    fn default() -> (r: Self)
        ensures
            r == FunctionKindsFilter::All,
    {
        FunctionKindsFilter::All
    }
}

/// The function kinds that each filter keeps.
pub open spec fn includes_spec(f: FunctionKindsFilter, kind: FunctionKind) -> bool {
    match f {
        FunctionKindsFilter::Top => kind == FunctionKind::Declaration,
        FunctionKindsFilter::TopArrow => kind == FunctionKind::Declaration || kind
            == FunctionKind::Arrow,
        FunctionKindsFilter::TopArrowClass => kind != FunctionKind::Expression && kind
            != FunctionKind::ObjectMethod,
        FunctionKindsFilter::All => true,
    }
}

impl FunctionKindsFilter {
    pub fn includes(self, kind: FunctionKind) -> (r: bool)
        ensures
            r == includes_spec(self, kind),
    {
        match self {
            FunctionKindsFilter::Top => kind == FunctionKind::Declaration,
            FunctionKindsFilter::TopArrow => {
                matches!(kind, FunctionKind::Declaration | FunctionKind::Arrow)
            },
            FunctionKindsFilter::TopArrowClass => {
                matches!(
                    kind,
                    FunctionKind::Declaration | FunctionKind::Arrow | FunctionKind::ClassMethod
                        | FunctionKind::Constructor | FunctionKind::Getter | FunctionKind::Setter
                )
            },
            FunctionKindsFilter::All => true,
        }
    }
}

/// Each filter keeps every kind that a narrower filter keeps.
pub proof fn lemma_filters_nested(kind: FunctionKind)
    ensures
        includes_spec(FunctionKindsFilter::Top, kind) ==> includes_spec(
            FunctionKindsFilter::TopArrow,
            kind,
        ),
        includes_spec(FunctionKindsFilter::TopArrow, kind) ==> includes_spec(
            FunctionKindsFilter::TopArrowClass,
            kind,
        ),
        includes_spec(FunctionKindsFilter::TopArrowClass, kind) ==> includes_spec(
            FunctionKindsFilter::All,
            kind,
        ),
{
}

// ── Line/column lookup ───────────────────────────────────────────

/// The byte offsets just after each newline of `b`, in order.
pub open spec fn newline_ends(b: Seq<u8>) -> Seq<u32>
    decreases b.len(),
{
    if b.len() == 0 {
        Seq::empty()
    } else {
        let r = newline_ends(b.drop_last());
        if b.last() == 10u8 {
            r.push(b.len() as u32)
        } else {
            r
        }
    }
}

/// The byte offsets at which the lines of `b` start.
pub open spec fn line_starts_spec(b: Seq<u8>) -> Seq<u32> {
    seq![0u32] + newline_ends(b)
}

/// The number of newline bytes among the first `n` bytes of `b`.
pub open spec fn newlines_before(b: Seq<u8>, n: int) -> nat
    decreases n,
{
    if n <= 0 {
        0
    } else if n > b.len() {
        newlines_before(b, b.len() as int)
    } else {
        newlines_before(b, n - 1) + if b[n - 1] == 10u8 {
            1nat
        } else {
            0nat
        }
    }
}

/// The offset at which the line holding byte offset `n` starts.
pub open spec fn line_start_at(b: Seq<u8>, n: int) -> int
    decreases n,
{
    if n <= 0 {
        0
    } else if n > b.len() {
        line_start_at(b, b.len() as int)
    } else if b[n - 1] == 10u8 {
        n
    } else {
        line_start_at(b, n - 1)
    }
}

/// The 1-based line of byte offset `n` in `b`.
pub open spec fn line_spec(b: Seq<u8>, n: int) -> int {
    1 + newlines_before(b, n) as int
}

/// The line of byte offset `n` in `b` as a `u32`. It wraps to 0 in the one case
/// where it does not fit: `u32::MAX` newlines before the offset.
pub open spec fn line_u32(b: Seq<u8>, n: int) -> u32 {
    if line_spec(b, n) <= u32::MAX {
        line_spec(b, n) as u32
    } else {
        0
    }
}

/// The 1-based column of byte offset `n` in `b`.
pub open spec fn col_spec(b: Seq<u8>, n: int) -> int {
    n - line_start_at(b, n) + 1
}

proof fn lemma_newline_ends_shape(b: Seq<u8>)
    requires
        b.len() <= u32::MAX,
    ensures
        newline_ends(b).len() == newlines_before(b, b.len() as int),
        forall|k: int|
            0 <= k < newline_ends(b).len() ==> 1 <= #[trigger] newline_ends(b)[k] <= b.len(),
        forall|j: int, k: int|
            0 <= j < k < newline_ends(b).len() ==> newline_ends(b)[j] < newline_ends(b)[k],
    decreases b.len(),
{
    if b.len() > 0 {
        let p = b.drop_last();
        let len = b.len() as int;
        lemma_newline_ends_shape(p);
        lemma_newlines_before_prefix(b, len - 1);
        assert(newlines_before(b, len) == newlines_before(b, len - 1) + if b[len - 1] == 10u8 {
            1nat
        } else {
            0nat
        });
        assert(b.last() == b[len - 1]);
        let e = newline_ends(b);
        let ep = newline_ends(p);
        if b.last() == 10u8 {
            assert(e == ep.push(len as u32));
            assert forall|k: int| 0 <= k < e.len() implies 1 <= #[trigger] e[k] <= b.len() by {
                if k < ep.len() {
                    assert(e[k] == ep[k]);
                }
            }
            assert forall|j: int, k: int| 0 <= j < k < e.len() implies e[j] < e[k] by {
                assert(e[j] == ep[j]);
                if k < ep.len() {
                    assert(e[k] == ep[k]);
                }
            }
        } else {
            assert(e == ep);
        }
    }
}

/// Counting newlines in a prefix of `b` is the same as counting them in `b`.
proof fn lemma_newlines_before_prefix(b: Seq<u8>, n: int)
    requires
        0 <= n < b.len(),
    ensures
        newlines_before(b.drop_last(), n) == newlines_before(b, n),
        line_start_at(b.drop_last(), n) == line_start_at(b, n),
    decreases n,
{
    if n > 0 {
        lemma_newlines_before_prefix(b, n - 1);
        assert(b.drop_last()[n - 1] == b[n - 1]);
    }
}

proof fn lemma_newlines_before_monotone(b: Seq<u8>, m: int, n: int)
    requires
        m <= n,
    ensures
        newlines_before(b, m) <= newlines_before(b, n),
    decreases n,
{
    if n > 0 && m < n {
        if n > b.len() {
            if m <= b.len() {
                lemma_newlines_before_monotone(b, m, b.len() as int);
            }
        } else {
            lemma_newlines_before_monotone(b, m, n - 1);
        }
    }
}

/// A prefix of `b` holds no more newlines than it holds bytes.
proof fn lemma_newlines_before_bound(b: Seq<u8>, n: int)
    ensures
        newlines_before(b, n) <= b.len(),
        0 <= n <= b.len() ==> newlines_before(b, n) <= n,
    decreases n,
{
    if n > 0 {
        if n > b.len() {
            lemma_newlines_before_bound(b, b.len() as int);
        } else {
            lemma_newlines_before_bound(b, n - 1);
        }
    }
}

/// Beyond the end of `b` the count of newlines stays that of all of `b`.
proof fn lemma_newlines_before_past_end(b: Seq<u8>, n: int)
    requires
        n >= b.len(),
    ensures
        newlines_before(b, n) == newlines_before(b, b.len() as int),
        line_start_at(b, n) == line_start_at(b, b.len() as int),
{
}

/// The newline ends at most `n` are exactly the first `newlines_before(b, n)` of them.
proof fn lemma_newline_ends_count(b: Seq<u8>, n: int)
    requires
        0 <= n,
        b.len() <= u32::MAX,
    ensures
        forall|k: int|
            0 <= k < newline_ends(b).len() ==> (#[trigger] newline_ends(b)[k] <= n <==> k
                < newlines_before(b, n)),
    decreases b.len(),
{
    lemma_newline_ends_shape(b);
    if b.len() > 0 {
        let p = b.drop_last();
        let len = b.len() as int;
        let e = newline_ends(b);
        let ep = newline_ends(p);
        lemma_newline_ends_shape(p);
        lemma_newline_ends_count(p, n);
        lemma_newlines_before_prefix(b, len - 1);
        assert(b.last() == b[len - 1]);
        assert(newlines_before(b, len) == newlines_before(b, len - 1) + if b[len - 1] == 10u8 {
            1nat
        } else {
            0nat
        });
        if n < len {
            lemma_newlines_before_prefix(b, n);
            lemma_newlines_before_monotone(p, n, len - 1);
        } else {
            lemma_newlines_before_past_end(b, n);
            lemma_newlines_before_past_end(p, n);
        }
        if b.last() == 10u8 {
            assert(e == ep.push(len as u32));
        } else {
            assert(e == ep);
        }
        assert forall|k: int| 0 <= k < e.len() implies (#[trigger] e[k] <= n <==> k
            < newlines_before(b, n)) by {
            if k < ep.len() {
                assert(e[k] == ep[k]);
            }
        }
    }
}

/// The start of the line holding `n` is the last newline end at most `n`, or 0.
proof fn lemma_line_start_at(b: Seq<u8>, n: int)
    requires
        0 <= n,
        b.len() <= u32::MAX,
    ensures
        newlines_before(b, n) <= newline_ends(b).len(),
        line_start_at(b, n) == if newlines_before(b, n) == 0 {
            0
        } else {
            newline_ends(b)[newlines_before(b, n) - 1] as int
        },
    decreases b.len(), n,
{
    lemma_newline_ends_shape(b);
    if n <= b.len() {
        lemma_newlines_before_monotone(b, n, b.len() as int);
    }
    if n > b.len() {
        lemma_newlines_before_past_end(b, n);
        lemma_line_start_at(b, b.len() as int);
    } else if n > 0 {
        let len = b.len() as int;
        let p = b.drop_last();
        let e = newline_ends(b);
        let ep = newline_ends(p);
        lemma_newline_ends_shape(p);
        lemma_newlines_before_prefix(b, len - 1);
        assert(b.last() == b[len - 1]);
        assert(newlines_before(b, n) == newlines_before(b, n - 1) + if b[n - 1] == 10u8 {
            1nat
        } else {
            0nat
        });
        if b.last() == 10u8 {
            assert(e == ep.push(len as u32));
        } else {
            assert(e == ep);
        }
        if n == len {
            if b[n - 1] == 10u8 {
                assert(newlines_before(b, n) == ep.len() + 1);
                assert(e[ep.len() as int] == len);
            } else {
                lemma_line_start_at(p, len - 1);
                assert(line_start_at(b, n) == line_start_at(b, n - 1));
                if newlines_before(b, n) > 0 {
                    assert(e[newlines_before(b, n) - 1] == ep[newlines_before(b, n) - 1]);
                }
            }
        } else {
            lemma_line_start_at(p, n);
            lemma_newlines_before_prefix(b, n);
            lemma_newlines_before_monotone(p, n, len - 1);
            if newlines_before(b, n) > 0 {
                assert(e[newlines_before(b, n) - 1] == ep[newlines_before(b, n) - 1]);
            }
        }
    }
}

/// Maps byte offsets of one source text to lines and columns.
pub struct LineIndex {
    line_starts: Vec<u32>,
    text: Ghost<Seq<u8>>,
}

impl LineIndex {
    /// The bytes of the source text this index was built from.
    pub closed spec fn source(&self) -> Seq<u8> {
        self.text@
    }

    #[verifier::type_invariant]
    closed spec fn wf(&self) -> bool {
        &&& self.text@.len() <= u32::MAX
        &&& self.line_starts@ == line_starts_spec(self.text@)
    }

    /// Whether the column of `offset` fits in a `u32`.
    pub open spec fn col_fits(&self, offset: u32) -> bool {
        col_spec(self.source(), offset as int) <= u32::MAX
    }

    pub fn new(source: &str) -> (r: Self)
        requires
            source.spec_bytes().len() <= u32::MAX,
        ensures
            r.source() == source.spec_bytes(),
    {
        let bytes = source.as_bytes();
        let mut line_starts: Vec<u32> = Vec::new();
        line_starts.push(0u32);
        let mut i: usize = 0;
        assert(bytes@.take(0) =~= Seq::<u8>::empty());
        while i < bytes.len()
            invariant
                i <= bytes@.len(),
                bytes@.len() <= u32::MAX,
                line_starts@ == line_starts_spec(bytes@.take(i as int)),
            decreases bytes.len() - i,
        {
            let ghost pre = bytes@.take(i as int);
            let ghost post = bytes@.take(i + 1);
            assert(post.drop_last() =~= pre);
            assert(post.last() == bytes@[i as int]);
            if bytes[i] == 10u8 {
                line_starts.push(i as u32 + 1);
                assert(line_starts@ =~= line_starts_spec(post));
            } else {
                assert(line_starts@ =~= line_starts_spec(post));
            }
            i = i + 1;
        }
        assert(bytes@.take(i as int) =~= bytes@);
        LineIndex { line_starts, text: Ghost(bytes@) }
    }

    /// The number of line starts at most `offset`.
    fn starts_at_most(&self, offset: u32) -> (p: usize)
        ensures
            p == 1 + newlines_before(self.source(), offset as int),
            1 <= p <= self.line_starts@.len(),
            self.line_starts@[p - 1] == line_start_at(self.source(), offset as int),
    {
        proof {
            use_type_invariant(self);
        }
        let ghost b = self.source();
        let ghost s = self.line_starts@;
        proof {
            lemma_newline_ends_shape(b);
            lemma_newline_ends_count(b, offset as int);
            lemma_line_start_at(b, offset as int);
            assert forall|j: int, k: int| 0 <= j < k < s.len() implies s[j] < s[k] by {
                if j > 0 {
                    assert(s[j] == newline_ends(b)[j - 1]);
                }
                assert(s[k] == newline_ends(b)[k - 1]);
            }
        }
        let mut lo: usize = 0;
        let mut hi: usize = self.line_starts.len();
        while lo < hi
            invariant
                0 <= lo <= hi <= s.len(),
                s == self.line_starts@,
                forall|j: int, k: int| 0 <= j < k < s.len() ==> s[j] < s[k],
                forall|k: int| 0 <= k < lo ==> s[k] <= offset,
                forall|k: int| hi <= k < s.len() ==> s[k] > offset,
            decreases hi - lo,
        {
            let mid = lo + (hi - lo) / 2;
            if self.line_starts[mid] <= offset {
                lo = mid + 1;
            } else {
                hi = mid;
            }
        }
        proof {
            assert(s[0] == 0);
            let e = newline_ends(b);
            let c = newlines_before(b, offset as int);
            assert(lo >= 1);
            if lo - 1 < c {
                assert(e[lo - 1] <= offset);
                assert(s[lo as int] == e[lo - 1]);
            }
            if lo - 1 > c {
                assert(e[lo - 2] > offset);
                assert(s[lo - 1] == e[lo - 2]);
            }
        }
        lo
    }

    /// Returns 1-based line number for a byte offset.
    pub fn line(&self, offset: u32) -> (r: u32)
        ensures
            r == line_u32(self.source(), offset as int),
            line_spec(self.source(), offset as int) <= u32::MAX ==> r == line_spec(
                self.source(),
                offset as int,
            ),
    {
        proof {
            use_type_invariant(self);
        }
        let p = self.starts_at_most(offset);
        proof {
            lemma_newlines_before_bound(self.source(), offset as int);
        }
        if p <= u32::MAX as usize {
            p as u32
        } else {
            0
        }
    }

    /// Returns 1-based column number for a byte offset.
    pub fn col(&self, offset: u32) -> (r: u32)
        requires
            self.col_fits(offset),
        ensures
            r == col_spec(self.source(), offset as int),
    {
        let p = self.starts_at_most(offset);
        let line_start = self.line_starts[p - 1];
        proof {
            use_type_invariant(self);
            lemma_line_start_at_bound(self.source(), offset as int);
        }
        offset - line_start + 1
    }
}

proof fn lemma_line_start_at_bound(b: Seq<u8>, n: int)
    ensures
        0 <= line_start_at(b, n),
        n >= 0 ==> line_start_at(b, n) <= n,
    decreases n,
{
    if n > 0 {
        if n > b.len() {
            lemma_line_start_at_bound(b, b.len() as int);
        } else if b[n - 1] != 10u8 {
            lemma_line_start_at_bound(b, n - 1);
        }
    }
}

/// Later byte offsets lie on the same line or a later one.
pub proof fn lemma_line_monotone(b: Seq<u8>, m: int, n: int)
    requires
        m <= n,
    ensures
        line_spec(b, m) <= line_spec(b, n),
{
    lemma_newlines_before_monotone(b, m, n);
}

/// Lines and columns are 1-based: every offset has a line of at least 1 and
/// every offset that is not negative a column of at least 1.
pub proof fn lemma_line_col_positive(b: Seq<u8>, n: int)
    ensures
        line_spec(b, n) >= 1,
        n >= 0 ==> col_spec(b, n) >= 1,
{
    lemma_line_start_at_bound(b, n);
}

} // verus!
