//! Which files a scan reads: the extensions it keeps, the folders it leaves
//! out, and the size limit. Walking the disk itself is done by the caller.
use vstd::prelude::*;
use vstd::string::StringExecFns;

use crate::index::opt_str_view;
use crate::text::{eq_ignore_ascii_case, eq_ignore_ascii_case_spec, strs_view, trim_char, trim_char_spec};

verus! {

broadcast use vstd::string::group_string_axioms;

/// Files larger than this many bytes are skipped unless a scan says otherwise.
pub const DEFAULT_MAX_BYTES: u64 = 1048576;

/// Where and what to scan.
#[derive(Debug)]
pub struct WalkConfig {
    pub root: String,
    pub extensions: Vec<String>,
    pub exclude: Vec<String>,
    pub max_bytes: u64,
    pub single_file: Option<String>,
}

impl Default for WalkConfig {
    fn default() -> (r: Self)
        ensures
            r.root@ == "."@,
            r.extensions@.len() == 0,
            r.exclude@.len() == 0,
            r.max_bytes == DEFAULT_MAX_BYTES,
            r.single_file is None,
    {
        WalkConfig {
            root: String::from_str("."),
            extensions: Vec::new(),
            exclude: Vec::new(),
            max_bytes: DEFAULT_MAX_BYTES,
            single_file: None,
        }
    }
}

/// The extensions scanned when none are given.
pub open spec fn default_extensions_spec() -> Seq<Seq<char>> {
    seq!["ts"@, "tsx"@, "js"@, "jsx"@]
}

/// The folders always left out of a scan.
pub open spec fn default_exclude_dirs_spec() -> Seq<Seq<char>> {
    seq![
        "node_modules"@,
        "dist"@,
        "build"@,
        ".next"@,
        ".git"@,
        "coverage"@,
        ".turbo"@,
        ".cache"@,
    ]
}

/// The views of a sequence of string slices.
pub open spec fn str_slices_view(v: Seq<&str>) -> Seq<Seq<char>> {
    v.map_values(|s: &str| s@)
}

fn strings_of(items: &[&str]) -> (r: Vec<String>)
    ensures
        strs_view(r@) == str_slices_view(items@),
{
    let mut r: Vec<String> = Vec::new();
    let n = items.len();
    for i in 0..n
        invariant
            n == items@.len(),
            strs_view(r@) == str_slices_view(items@.take(i as int)),
    {
        let ghost before = r@;
        assert(str_slices_view(items@.take(i as int)).len() == i);
        assert(strs_view(before).len() == i);
        r.push(String::from_str(items[i]));
        assert forall|k: int| 0 <= k < i + 1 implies #[trigger] strs_view(r@)[k] == str_slices_view(items@.take(
            i + 1,
        ))[k] by {
            if k < i {
                assert(strs_view(before)[k] == str_slices_view(items@.take(i as int))[k]);
            }
        }
        assert(strs_view(r@) =~= str_slices_view(items@.take(i + 1)));
    }
    assert(items@.take(n as int) =~= items@);
    r
}

pub fn default_extensions() -> (r: Vec<String>)
    ensures
        strs_view(r@) == default_extensions_spec(),
{
    let r = strings_of(&["ts", "tsx", "js", "jsx"]);
    assert(strs_view(r@) =~= default_extensions_spec());
    r
}

pub fn default_exclude_dirs() -> (r: Vec<String>)
    ensures
        strs_view(r@) == default_exclude_dirs_spec(),
{
    let r = strings_of(
        &["node_modules", "dist", "build", ".next", ".git", "coverage", ".turbo", ".cache"],
    );
    assert(strs_view(r@) =~= default_exclude_dirs_spec());
    r
}

/// The extensions a scan keeps: those given, or the default ones when none are.
pub open spec fn effective_extensions_spec(given: Seq<Seq<char>>) -> Seq<Seq<char>> {
    if given.len() == 0 {
        default_extensions_spec()
    } else {
        given
    }
}

pub fn effective_extensions(config: &WalkConfig) -> (r: Vec<String>)
    ensures
        strs_view(r@) == effective_extensions_spec(strs_view(config.extensions@)),
{
    if config.extensions.len() == 0 {
        default_extensions()
    } else {
        crate::output::clone_strings(&config.extensions)
    }
}

// ── Exclusion globs ──────────────────────────────────────────────

/// The override glob that leaves out every folder named `pattern` (slashes
/// around it dropped) and everything inside.
pub open spec fn exclude_glob_spec(pattern: Seq<char>) -> Seq<char> {
    "!**/"@ + trim_char_spec(pattern, '/') + "/**"@
}

pub fn exclude_glob(pattern: &str) -> (r: String)
    ensures
        r@ == exclude_glob_spec(pattern@),
{
    let pat = trim_char(pattern, '/');
    let mut glob = String::from_str("!**/");
    glob.append(pat.as_str());
    glob.append("/**");
    glob
}

/// Whether the `ignore` crate accepts a glob as an override.
pub uninterp spec fn override_glob_accepted(glob: Seq<char>) -> bool;

/// Adds `glob` to a fresh `ignore::overrides::OverrideBuilder` and says whether
/// `OverrideBuilder::add` accepted it. The outcome is the name
/// `override_glob_accepted` of the glob: `add` reads the glob alone (the
/// builder's root plays no part in it). When it is accepted is not stated.
#[verifier::external_body]
fn glob_accepted(glob: &str) -> (r: bool)
    ensures
        r == override_glob_accepted(glob@),
{
    ignore::overrides::OverrideBuilder::new(".").add(glob).is_ok()
}

/// The first pattern whose exclusion glob is not accepted.
pub open spec fn first_rejected(patterns: Seq<Seq<char>>) -> Option<Seq<char>>
    decreases patterns.len(),
{
    if patterns.len() == 0 {
        None
    } else if !override_glob_accepted(exclude_glob_spec(patterns[0])) {
        Some(patterns[0])
    } else {
        first_rejected(patterns.drop_first())
    }
}

/// Why a set of files cannot be collected.
#[derive(Debug)]
pub enum WalkError {
    /// The single file to scan is not a file.
    FileNotFound(String),
    /// A built-in exclusion does not make a valid glob.
    InvalidDefaultExcludePattern(String),
    /// A given exclusion does not make a valid glob.
    InvalidExcludePattern(String),
}

/// Builds the exclusion glob of each pattern, stopping at the first that the
/// override builder refuses.
fn globs_of(patterns: &Vec<String>) -> (r: Result<Vec<String>, String>)
    ensures
        match r {
            Ok(globs) => first_rejected(strs_view(patterns@)) is None && strs_view(globs@)
                == strs_view(patterns@).map_values(|p: Seq<char>| exclude_glob_spec(p)),
            Err(p) => first_rejected(strs_view(patterns@)) == Some(p@),
        },
{
    let ghost pats = strs_view(patterns@);
    let mut globs: Vec<String> = Vec::new();
    let n = patterns.len();
    assert(pats.skip(0) =~= pats);
    for i in 0..n
        invariant
            n == patterns@.len(),
            pats == strs_view(patterns@),
            first_rejected(pats) == first_rejected(pats.skip(i as int)),
            strs_view(globs@) == pats.take(i as int).map_values(|p: Seq<char>| exclude_glob_spec(p)),
    {
        let glob = exclude_glob(patterns[i].as_str());
        assert(pats.skip(i as int)[0] == pats[i as int]);
        if !glob_accepted(glob.as_str()) {
            return Err(patterns[i].clone());
        }
        assert(pats.skip(i as int).drop_first() =~= pats.skip(i + 1));
        let ghost before = globs@;
        assert(pats.take(i as int).map_values(|p: Seq<char>| exclude_glob_spec(p)).len() == i);
        assert(strs_view(before).len() == i);
        globs.push(glob);
        assert forall|k: int| 0 <= k < i + 1 implies #[trigger] strs_view(globs@)[k] == pats.take(
            i + 1,
        ).map_values(|p: Seq<char>| exclude_glob_spec(p))[k] by {
            if k < i {
                assert(strs_view(before)[k] == pats.take(i as int).map_values(
                    |p: Seq<char>| exclude_glob_spec(p),
                )[k]);
            }
        }
        assert(strs_view(globs@) =~= pats.take(i + 1).map_values(|p: Seq<char>| exclude_glob_spec(p)));
    }
    assert(pats.take(n as int) =~= pats);
    assert(pats.skip(n as int).len() == 0);
    Ok(globs)
}

/// The exclusion globs of a scan: the built-in folders first, then those
/// given, each checked by the override builder.
pub fn exclude_globs(config: &WalkConfig) -> (r: Result<Vec<String>, WalkError>)
    ensures
        match r {
            Ok(globs) => {
                &&& first_rejected(default_exclude_dirs_spec()) is None
                &&& first_rejected(strs_view(config.exclude@)) is None
                &&& strs_view(globs@) == (default_exclude_dirs_spec() + strs_view(
                    config.exclude@,
                )).map_values(|p: Seq<char>| exclude_glob_spec(p))
            },
            Err(WalkError::InvalidDefaultExcludePattern(p)) => first_rejected(
                default_exclude_dirs_spec(),
            ) == Some(p@),
            Err(WalkError::InvalidExcludePattern(p)) => first_rejected(
                default_exclude_dirs_spec(),
            ) is None && first_rejected(strs_view(config.exclude@)) == Some(p@),
            Err(WalkError::FileNotFound(_)) => false,
        },
{
    let defaults = default_exclude_dirs();
    let mut globs = match globs_of(&defaults) {
        Ok(g) => g,
        Err(p) => {
            return Err(WalkError::InvalidDefaultExcludePattern(p));
        },
    };
    let user = match globs_of(&config.exclude) {
        Ok(g) => g,
        Err(p) => {
            return Err(WalkError::InvalidExcludePattern(p));
        },
    };
    let ghost a = strs_view(globs@);
    let ghost b = strs_view(user@);
    let mut user = user;
    globs.append(&mut user);
    assert(strs_view(globs@) =~= a + b);
    assert((default_exclude_dirs_spec() + strs_view(config.exclude@)).map_values(
        |p: Seq<char>| exclude_glob_spec(p),
    ) =~= a + b);
    Ok(globs)
}

// ── Extensions and entries ───────────────────────────────────────

/// What `std::path::Path::extension` gives for a path, as text.
pub uninterp spec fn path_extension_spec(path: Seq<char>) -> Option<Seq<char>>;

/// Calls `std::path::Path::extension` on `path` and hands the extension back
/// as text. Its result is the name `path_extension_spec` of the path; the
/// documentation of `Path::extension` also promises `None` when the path holds
/// no `.` at all. Nothing else is stated.
#[verifier::external_body]
fn path_extension(path: &str) -> (r: Option<String>)
    ensures
        opt_str_view(r) == path_extension_spec(path@),
        !path@.contains('.') ==> r is None,
{
    match std::path::Path::new(path).extension() {
        Some(ext) => match ext.to_str() {
            Some(s) => Some(s.to_string()),
            None => None,
        },
        None => None,
    }
}

/// Whether an extension equals one of `extensions` when ASCII case is ignored.
pub open spec fn extension_listed(ext: Option<Seq<char>>, extensions: Seq<Seq<char>>) -> bool {
    match ext {
        Some(e) => exists|i: int| 0 <= i < extensions.len() && eq_ignore_ascii_case_spec(
            #[trigger] extensions[i],
            e,
        ),
        None => false,
    }
}

/// Whether `ext` equals one of `extensions` when ASCII case is ignored.
pub fn extension_matches(ext: &str, extensions: &[&str]) -> (r: bool)
    ensures
        r == extension_listed(Some(ext@), str_slices_view(extensions@)),
{
    let ghost exts = str_slices_view(extensions@);
    let n = extensions.len();
    let mut i: usize = 0;
    while i < n
        invariant
            n == extensions@.len(),
            i <= n,
            exts == str_slices_view(extensions@),
            forall|k: int| 0 <= k < i ==> !eq_ignore_ascii_case_spec(#[trigger] exts[k], ext@),
        decreases n - i,
    {
        if eq_ignore_ascii_case(extensions[i], ext) {
            assert(eq_ignore_ascii_case_spec(exts[i as int], ext@));
            return true;
        }
        i = i + 1;
    }
    false
}

/// Whether the extension of `path` is one of `extensions`, ignoring ASCII case.
pub fn has_matching_extension(path: &str, extensions: &[&str]) -> (r: bool)
    ensures
        r == extension_listed(path_extension_spec(path@), str_slices_view(extensions@)),
        !path@.contains('.') ==> !r,
{
    let ext = path_extension(path);
    match &ext {
        Some(e) => extension_matches(e.as_str(), extensions),
        None => false,
    }
}

/// Whether a walked entry is scanned: a file with a kept extension that is not
/// known to be larger than `max_bytes`.
pub open spec fn keep_entry_spec(
    is_file: bool,
    path: Seq<char>,
    extensions: Seq<Seq<char>>,
    size: Option<u64>,
    max_bytes: u64,
) -> bool {
    &&& is_file
    &&& extension_listed(path_extension_spec(path), extensions)
    &&& match size {
        Some(n) => n <= max_bytes,
        None => true,
    }
}

pub fn keep_entry(
    is_file: bool,
    path: &str,
    extensions: &[&str],
    size: Option<u64>,
    max_bytes: u64,
) -> (r: bool)
    ensures
        r == keep_entry_spec(is_file, path@, str_slices_view(extensions@), size, max_bytes),
{
    if !is_file {
        return false;
    }
    if !has_matching_extension(path, extensions) {
        return false;
    }
    match size {
        Some(n) => n <= max_bytes,
        None => true,
    }
}

/// How a scan finds its files.
#[derive(Debug)]
pub enum WalkPlan {
    /// Read this one file.
    SingleFile(String),
    /// Walk the root, keeping these extensions and leaving out what these globs match.
    Tree { extensions: Vec<String>, exclude_globs: Vec<String> },
}

/// Decides how a scan finds its files: a single file when one is named (the
/// patterns are then not looked at), else a walk with the kept extensions and
/// the exclusion globs.
pub fn plan_walk(config: &WalkConfig) -> (r: Result<WalkPlan, WalkError>)
    ensures
        match config.single_file {
            Some(f) => r matches Ok(WalkPlan::SingleFile(p)) && p@ == f@,
            None => match r {
                Ok(WalkPlan::Tree { extensions, exclude_globs }) => {
                    &&& strs_view(extensions@) == effective_extensions_spec(
                        strs_view(config.extensions@),
                    )
                    &&& first_rejected(default_exclude_dirs_spec()) is None
                    &&& first_rejected(strs_view(config.exclude@)) is None
                    &&& strs_view(exclude_globs@) == (default_exclude_dirs_spec() + strs_view(
                        config.exclude@,
                    )).map_values(|p: Seq<char>| exclude_glob_spec(p))
                },
                Ok(WalkPlan::SingleFile(_)) => false,
                Err(WalkError::InvalidDefaultExcludePattern(p)) => first_rejected(
                    default_exclude_dirs_spec(),
                ) == Some(p@),
                Err(WalkError::InvalidExcludePattern(p)) => first_rejected(
                    default_exclude_dirs_spec(),
                ) is None && first_rejected(strs_view(config.exclude@)) == Some(p@),
                Err(WalkError::FileNotFound(_)) => false,
            },
        },
{
    match &config.single_file {
        Some(f) => Ok(WalkPlan::SingleFile(f.clone())),
        None => {
            let exclude_globs = match exclude_globs(config) {
                Ok(g) => g,
                Err(e) => {
                    return Err(e);
                },
            };
            let extensions = effective_extensions(config);
            Ok(WalkPlan::Tree { extensions, exclude_globs })
        },
    }
}

} // verus!
