//! The index of one parsed file, from what the parser and the walk of its
//! syntax tree produced.
use vstd::prelude::*;
use vstd::string::StringExecFns;
use vstd::string::StringSliceAdditionalSpecFns;

use crate::extract::{
    bindings_spec, events_fit, extract_file, initial_state, run_events, settle_exports, symbols_fit,
    AstEvent, SymbolRecord,
};
use crate::index::{opt_str_view, FileIndex, FunctionKindsFilter, Violation};

verus! {

/// What parsing one file produced: the number of syntax errors, whether the
/// parser gave up, and (when it did not) the events of the walk of its tree and
/// the symbols of its scopes.
#[derive(Debug)]
pub struct ParseOutcome {
    pub parse_errors: usize,
    pub panicked: bool,
    pub events: Vec<AstEvent>,
    pub symbols: Vec<SymbolRecord>,
}

/// What `std::path::Path::strip_prefix` gives for `path` and `base`, as text.
pub uninterp spec fn path_strip_prefix_spec(path: Seq<char>, base: Seq<char>) -> Option<Seq<char>>;

/// Calls `std::path::Path::strip_prefix` and hands the rest of the path back as
/// text, or `None` where the call fails (its documentation: when `base` is not a
/// prefix of `path`, component by component). The result is the name
/// `path_strip_prefix_spec` of both arguments; nothing else is stated.
#[verifier::external_body]
fn strip_path_prefix(path: &str, base: &str) -> (r: Option<String>)
    ensures
        opt_str_view(r) == path_strip_prefix_spec(path@, base@),
{
    match std::path::Path::new(path).strip_prefix(base) {
        Ok(rest) => Some(rest.to_string_lossy().to_string()),
        Err(_) => None,
    }
}

/// The path of a file as the index shows it: relative to the scan root where
/// the root is a prefix of it, the path itself otherwise.
pub open spec fn relative_path_spec(path: Seq<char>, root: Seq<char>) -> Seq<char> {
    match path_strip_prefix_spec(path, root) {
        Some(rest) => rest,
        None => path,
    }
}

/// The path of the file at `path` relative to the scan root `root`, or `path`
/// itself where it does not lie under `root`.
pub fn relative_path(path: &str, root: &str) -> (r: String)
    ensures
        r@ == relative_path_spec(path@, root@),
{
    match strip_path_prefix(path, root) {
        Some(rest) => rest,
        None => String::from_str(path),
    }
}

/// Builds the index of a parsed file found at `file_path` (canonical where it
/// could be made so) under the scan root `root`. A file whose parser gave up has
/// an empty index with its error count.
pub fn process_file(
    file_path: &str,
    root: &str,
    source: &str,
    parsed: &ParseOutcome,
    filter: FunctionKindsFilter,
) -> (r: FileIndex)
    requires
        !parsed.panicked ==> {
            &&& source.spec_bytes().len() <= u32::MAX
            &&& events_fit(parsed.events@, source.spec_bytes())
            &&& symbols_fit(parsed.symbols@, source.spec_bytes())
        },
    ensures
        r@.path == relative_path_spec(file_path@, root@),
        r@.parse_errors == parsed.parse_errors,
        r@.violations.len() == 0,
        parsed.panicked ==> r@.functions.len() == 0 && r@.bindings.len() == 0 && r@.exports.len()
            == 0,
        !parsed.panicked ==> ({
            let st = run_events(initial_state(filter), parsed.events@, source.spec_bytes());
            &&& r@.functions == settle_exports(st.functions, st.exported_names)
            &&& r@.exports == st.exports
            &&& r@.bindings == bindings_spec(
                parsed.symbols@,
                source.spec_bytes(),
                st.exported_names,
            )
        }),
{
    let path = relative_path(file_path, root);
    if parsed.panicked {
        let r = FileIndex {
            path,
            functions: Vec::new(),
            bindings: Vec::new(),
            exports: Vec::new(),
            violations: Vec::new(),
            parse_errors: parsed.parse_errors,
        };
        assert(r@.violations.len() == 0);
        return r;
    }
    let result = extract_file(&parsed.events, &parsed.symbols, source, filter);
    let violations: Vec<Violation> = Vec::new();
    let r = FileIndex {
        path,
        functions: result.functions,
        bindings: result.bindings,
        exports: result.exports,
        violations,
        parse_errors: parsed.parse_errors,
    };
    assert(r@.violations =~= Seq::empty());
    r
}

} // verus!
