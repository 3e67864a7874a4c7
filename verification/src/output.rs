//! The documents written for a scan: compact rows, verbose objects, names per
//! file and per folder, and the violation-only documents of the rules command.
use vstd::prelude::*;
use vstd::string::StringExecFns;

use crate::index::{
    binding_kind_str_spec, kind_code_spec, kind_label_spec, opt_str_view, BindingInfoView,
    ExportInfoView, FileIndex, FileIndexView, FunctionInfo, FunctionInfoView, OutputMode,
    ScanResult, ScanResultView, Stats, ViolationView,
};
use crate::namemap::NameMap;
use crate::text::{insert_sorted_unique, strictly_sorted, strs_view};

verus! {

broadcast use vstd::string::group_string_axioms;

// ── Dotted names ─────────────────────────────────────────────────

/// A named function's name with where it starts (line and column) and its last line.
pub struct NamedSpan {
    pub name: String,
    pub line: u32,
    pub col: u32,
    pub line_end: u32,
}

impl View for NamedSpan {
    type V = (Seq<char>, u32, u32, u32);

    open spec fn view(&self) -> (Seq<char>, u32, u32, u32) {
        (self.name@, self.line, self.col, self.line_end)
    }
}

/// The views of a sequence of named spans.
pub open spec fn spans_view(v: Seq<NamedSpan>) -> Seq<(Seq<char>, u32, u32, u32)> {
    v.map_values(|s: NamedSpan| s@)
}

/// The named functions of a file as (name, first line, first column, last line), in order.
pub open spec fn named_spans(fs: Seq<FunctionInfoView>) -> Seq<(Seq<char>, u32, u32, u32)>
    decreases fs.len(),
{
    if fs.len() == 0 {
        Seq::empty()
    } else {
        let prev = named_spans(fs.drop_last());
        match fs.last().name {
            Some(n) => prev.push((n, fs.last().line, fs.last().col, fs.last().line_end)),
            None => prev,
        }
    }
}

/// `p` starts after `q`: on a later line, or further along the same line.
pub open spec fn starts_after(p: (Seq<char>, u32, u32, u32), q: (Seq<char>, u32, u32, u32)) -> bool {
    p.1 > q.1 || (p.1 == q.1 && p.2 > q.2)
}

/// `p` encloses `c`: it starts before `c` and its last line is not before `c`'s.
/// (Only the last line of a function is known, not where on it the function ends.)
pub open spec fn encloses(p: (Seq<char>, u32, u32, u32), c: (Seq<char>, u32, u32, u32)) -> bool {
    starts_after(c, p) && p.3 >= c.3
}

/// The number of lines a span covers beyond its first (zero when it ends before it starts).
pub open spec fn span_width(p: (Seq<char>, u32, u32, u32)) -> int {
    if p.3 >= p.1 {
        p.3 - p.1
    } else {
        0
    }
}

/// `p` is a nearer parent than `q`: it covers fewer lines, or as many and starts later.
pub open spec fn nearer(p: (Seq<char>, u32, u32, u32), q: (Seq<char>, u32, u32, u32)) -> bool {
    span_width(p) < span_width(q) || (span_width(p) == span_width(q) && starts_after(p, q))
}

/// Among the other named functions that enclose function `i`, no one is nearer
/// than `j`, and `j` is the first such.
pub open spec fn is_nearest_parent(ns: Seq<(Seq<char>, u32, u32, u32)>, i: int, j: int) -> bool {
    &&& 0 <= j < ns.len()
    &&& j != i
    &&& encloses(ns[j], ns[i])
    &&& forall|k: int|
        0 <= k < ns.len() && k != i && encloses(#[trigger] ns[k], ns[i]) ==> !nearer(ns[k], ns[j])
    &&& forall|k: int|
        0 <= k < j && k != i && encloses(#[trigger] ns[k], ns[i]) ==> nearer(ns[j], ns[k])
}

/// `parent.child` when function `i` has a nearest enclosing named function, its
/// own name otherwise.
pub open spec fn dot_name(ns: Seq<(Seq<char>, u32, u32, u32)>, i: int) -> Seq<char> {
    if exists|j: int| is_nearest_parent(ns, i, j) {
        let j = choose|j: int| is_nearest_parent(ns, i, j);
        ns[j].0 + "."@ + ns[i].0
    } else {
        ns[i].0
    }
}

/// The dotted names of the named functions of a file.
pub open spec fn dot_name_set(fs: Seq<FunctionInfoView>) -> Set<Seq<char>> {
    let ns = named_spans(fs);
    Set::new(|s: Seq<char>| exists|i: int| 0 <= i < ns.len() && s == dot_name(ns, i))
}

/// The views of a slice of functions.
pub open spec fn functions_view(fs: Seq<FunctionInfo>) -> Seq<FunctionInfoView> {
    fs.map_values(|f: FunctionInfo| f@)
}

/// A function has at most one nearest parent.
pub proof fn lemma_nearest_parent_unique(
    ns: Seq<(Seq<char>, u32, u32, u32)>,
    i: int,
    j1: int,
    j2: int,
)
    requires
        is_nearest_parent(ns, i, j1),
        is_nearest_parent(ns, i, j2),
    ensures
        j1 == j2,
{
    if j1 < j2 {
        assert(nearer(ns[j2], ns[j1]));
        assert(!nearer(ns[j2], ns[j1]));
    } else if j2 < j1 {
        assert(nearer(ns[j1], ns[j2]));
        assert(!nearer(ns[j1], ns[j2]));
    }
}

fn width(s: &NamedSpan) -> (w: u32)
    ensures
        w == span_width(s@),
{
    if s.line_end >= s.line {
        s.line_end - s.line
    } else {
        0
    }
}

/// Whether `p` starts after `q`.
fn span_starts_after(p: &NamedSpan, q: &NamedSpan) -> (r: bool)
    ensures
        r == starts_after(p@, q@),
{
    p.line > q.line || (p.line == q.line && p.col > q.col)
}

/// The named functions of `funcs`, in order.
fn named_spans_of(funcs: &[FunctionInfo]) -> (r: Vec<NamedSpan>)
    ensures
        spans_view(r@) == named_spans(functions_view(funcs@)),
{
    let mut named: Vec<NamedSpan> = Vec::new();
    let n = funcs.len();
    for i in 0..n
        invariant
            n == funcs@.len(),
            spans_view(named@) == named_spans(
                functions_view(funcs@).take(i as int),
            ),
    {
        let ghost fs = functions_view(funcs@);
        assert(fs.take(i + 1).drop_last() =~= fs.take(i as int));
        assert(fs.take(i + 1).last() == funcs@[i as int]@);
        let f = &funcs[i];
        match &f.name {
            Some(name) => {
                named.push(
                    NamedSpan { name: name.clone(), line: f.line, col: f.col, line_end: f.line_end },
                );
            },
            None => {},
        }
        assert(spans_view(named@) =~= named_spans(fs.take(i + 1)));
    }
    assert(functions_view(funcs@).take(n as int) =~= functions_view(funcs@));
    named
}

/// The index of the nearest enclosing named function of `named[i]`, if any.
fn nearest_parent(named: &Vec<NamedSpan>, i: usize) -> (r: Option<usize>)
    requires
        i < named@.len(),
    ensures
        match r {
            Some(j) => is_nearest_parent(spans_view(named@), i as int, j as int),
            None => forall|j: int|
                !#[trigger] is_nearest_parent(spans_view(named@), i as int, j),
        },
{
    let ghost ns = spans_view(named@);
    let child = &named[i];
    let mut parent: Option<usize> = None;
    let n = named.len();
    for j in 0..n
        invariant
            n == named@.len(),
            ns == spans_view(named@),
            i < n,
            child@ == ns[i as int],
            match parent {
                Some(p) => {
                    &&& p < j
                    &&& p != i
                    &&& encloses(ns[p as int], ns[i as int])
                    &&& forall|k: int|
                        0 <= k < j && k != i && encloses(#[trigger] ns[k], ns[i as int])
                            ==> !nearer(ns[k], ns[p as int])
                    &&& forall|k: int|
                        0 <= k < p && k != i && encloses(#[trigger] ns[k], ns[i as int])
                            ==> nearer(ns[p as int], ns[k])
                },
                None => forall|k: int|
                    0 <= k < j && k != i ==> !encloses(#[trigger] ns[k], ns[i as int]),
            },
    {
        if j != i {
            let cand = &named[j];
            assert(cand@ == ns[j as int]);
            if span_starts_after(child, cand) && cand.line_end >= child.line_end {
                match parent {
                    Some(p) => {
                        let cur = &named[p];
                        assert(cur@ == ns[p as int]);
                        let wc = width(cand);
                        let wp = width(cur);
                        if wc < wp || (wc == wp && span_starts_after(cand, cur)) {
                            parent = Some(j);
                        }
                    },
                    None => {
                        parent = Some(j);
                    },
                }
            }
        }
    }
    proof {
        match parent {
            Some(p) => {},
            None => {
                assert forall|j: int| !#[trigger] is_nearest_parent(ns, i as int, j) by {
                    if 0 <= j < ns.len() && j != i {
                        assert(!encloses(ns[j], ns[i as int]));
                    }
                }
            },
        }
    }
    parent
}

/// The dotted names of the named functions of a file (`parent.child` for a
/// function inside another named one), sorted and without repeats.
pub fn compute_dot_names(funcs: &[FunctionInfo]) -> (r: Vec<String>)
    ensures
        strictly_sorted(strs_view(r@)),
        strs_view(r@).to_set() == dot_name_set(functions_view(funcs@)),
{
    let named = named_spans_of(funcs);
    let ghost ns = spans_view(named@);
    let mut out: Vec<String> = Vec::new();
    let n = named.len();
    assert(strs_view(out@).to_set() =~= Set::<Seq<char>>::empty());
    for i in 0..n
        invariant
            n == named@.len(),
            ns == spans_view(named@),
            ns == named_spans(functions_view(funcs@)),
            strictly_sorted(strs_view(out@)),
            strs_view(out@).to_set() == Set::new(
                |s: Seq<char>| exists|k: int| 0 <= k < i && s == dot_name(ns, k),
            ),
    {
        let ghost before = strs_view(out@).to_set();
        let name = match nearest_parent(&named, i) {
            Some(p) => {
                let mut s = named[p].name.clone();
                s.append(".");
                s.append(named[i].name.as_str());
                proof {
                    reveal_strlit(".");
                    assert(exists|j: int| is_nearest_parent(ns, i as int, j));
                    let c = choose|j: int| is_nearest_parent(ns, i as int, j);
                    lemma_nearest_parent_unique(ns, i as int, c, p as int);
                    assert(s@ == dot_name(ns, i as int));
                }
                s
            },
            None => {
                let s = named[i].name.clone();
                assert(s@ == dot_name(ns, i as int));
                s
            },
        };
        let ghost nv = name@;
        insert_sorted_unique(&mut out, name);
        proof {
            assert(strs_view(out@).to_set() =~= Set::new(
                |s: Seq<char>| exists|k: int| 0 <= k < i + 1 && s == dot_name(ns, k),
            )) by {
                assert forall|s: Seq<char>| #[trigger] strs_view(out@).to_set().contains(s) implies (
                exists|k: int| 0 <= k < i + 1 && s == dot_name(ns, k)) by {
                    if s == nv {
                        assert(s == dot_name(ns, i as int));
                    } else {
                        assert(before.contains(s));
                    }
                }
                assert forall|s: Seq<char>|
                    (exists|k: int| 0 <= k < i + 1 && s == dot_name(ns, k)) implies #[trigger] strs_view(
                    out@,
                ).to_set().contains(s) by {
                    let k = choose|k: int| 0 <= k < i + 1 && s == dot_name(ns, k);
                    if k < i {
                        assert(before.contains(s));
                    }
                }
            }
        }
    }
    assert(strs_view(out@).to_set() =~= dot_name_set(functions_view(funcs@)));
    out
}

// ── Folders ──────────────────────────────────────────────────────

/// What `std::path::Path::parent` gives for a path, as text.
pub uninterp spec fn path_parent_spec(path: Seq<char>) -> Option<Seq<char>>;

/// Calls `std::path::Path::parent` on `path` and hands the parent back as text.
/// Its result is the name `path_parent_spec` of the path; the documentation of
/// `Path::parent` also promises `None` for the empty path. Nothing else is stated.
#[verifier::external_body]
fn path_parent(path: &str) -> (r: Option<String>)
    ensures
        opt_str_view(r) == path_parent_spec(path@),
        path@.len() == 0 ==> r is None,
{
    match std::path::Path::new(path).parent() {
        Some(p) => Some(p.to_string_lossy().to_string()),
        None => None,
    }
}

/// The folder named by a parent path: `.` for none or an empty one.
pub open spec fn folder_from_parent_spec(parent: Option<Seq<char>>) -> Seq<char> {
    match parent {
        Some(p) => if p.len() == 0 {
            "."@
        } else {
            p
        },
        None => "."@,
    }
}

/// The folder that holds a file, as the folder summary groups by.
pub open spec fn folder_spec(path: Seq<char>) -> Seq<char> {
    folder_from_parent_spec(path_parent_spec(path))
}

/// The folder named by a parent path: `.` for none or an empty one.
pub fn folder_from_parent(parent: Option<String>) -> (r: String)
    ensures
        r@ == folder_from_parent_spec(opt_str_view(parent)),
{
    match parent {
        Some(p) => {
            if p.as_str().is_empty() {
                String::from_str(".")
            } else {
                p
            }
        },
        None => String::from_str("."),
    }
}

/// The folder that holds the file at `path`.
pub fn folder_of(path: &str) -> (r: String)
    ensures
        r@ == folder_spec(path@),
        path@.len() == 0 ==> r@ == "."@,
{
    folder_from_parent(path_parent(path))
}

// ── Files output ─────────────────────────────────────────────────

/// The dotted names of each file; of several files with one path, the last one counts.
pub open spec fn files_map(fis: Seq<FileIndexView>) -> Map<Seq<char>, Set<Seq<char>>>
    decreases fis.len(),
{
    if fis.len() == 0 {
        Map::empty()
    } else {
        files_map(fis.drop_last()).insert(fis.last().path, dot_name_set(fis.last().functions))
    }
}

/// The document of the `files` mode: dotted function names grouped by file.
#[derive(Debug)]
pub struct FilesOutput {
    pub ver: u8,
    pub stats: Stats,
    pub files: NameMap<Vec<String>>,
}

/// Sorted names without repeats that form the set `names`.
pub open spec fn lists_names(v: Vec<String>, names: Set<Seq<char>>) -> bool {
    strictly_sorted(strs_view(v@)) && strs_view(v@).to_set() == names
}

impl FilesOutput {
    pub fn from(r: &ScanResult) -> (o: Self)
        ensures
            o.ver == r.ver,
            o.stats == r.stats,
            o.files.wf(),
            o.files.map().dom() == files_map(r@.file_indices).dom(),
            forall|k: Seq<char>| #[trigger]
                o.files.map().dom().contains(k) ==> lists_names(
                    o.files.map()[k],
                    files_map(r@.file_indices)[k],
                ),
    {
        let mut map: NameMap<Vec<String>> = NameMap::new();
        let n = r.file_indices.len();
        let ghost fis = r@.file_indices;
        for i in 0..n
            invariant
                n == r.file_indices@.len(),
                fis == r@.file_indices,
                map.wf(),
                map.map().dom() == files_map(fis.take(i as int)).dom(),
                forall|k: Seq<char>| #[trigger]
                    map.map().dom().contains(k) ==> lists_names(
                        map.map()[k],
                        files_map(fis.take(i as int))[k],
                    ),
        {
            let fi = &r.file_indices[i];
            assert(fis.take(i + 1).drop_last() =~= fis.take(i as int));
            assert(fis.take(i + 1).last() == fi@);
            let names = compute_dot_names(fi.functions.as_slice());
            assert(functions_view(fi.functions@) == fi@.functions);
            map.insert(fi.path.clone(), names);
            assert(map.map().dom() =~= files_map(fis.take(i + 1)).dom());
        }
        assert(fis.take(n as int) =~= fis);
        FilesOutput { ver: r.ver, stats: r.stats, files: map }
    }
}

// ── Folders output ───────────────────────────────────────────────

/// The number of functions and the dotted names found in one folder.
#[derive(Debug)]
pub struct FolderSummary {
    pub functions: usize,
    pub names: Vec<String>,
}

/// Per folder, the total number of functions and the set of dotted names of its files.
pub open spec fn folders_map(fis: Seq<FileIndexView>) -> Map<Seq<char>, (int, Set<Seq<char>>)>
    decreases fis.len(),
{
    if fis.len() == 0 {
        Map::empty()
    } else {
        let prev = folders_map(fis.drop_last());
        let fi = fis.last();
        let d = folder_spec(fi.path);
        let before = if prev.dom().contains(d) {
            prev[d]
        } else {
            (0int, Set::empty())
        };
        prev.insert(d, (before.0 + fi.functions.len(), before.1.union(dot_name_set(fi.functions))))
    }
}

/// The number of functions in all files.
pub open spec fn total_functions(fis: Seq<FileIndexView>) -> int
    decreases fis.len(),
{
    if fis.len() == 0 {
        0
    } else {
        total_functions(fis.drop_last()) + fis.last().functions.len()
    }
}

proof fn lemma_folder_counts_bounded(fis: Seq<FileIndexView>)
    ensures
        forall|k: Seq<char>| #[trigger]
            folders_map(fis).dom().contains(k) ==> 0 <= folders_map(fis)[k].0 <= total_functions(
                fis,
            ),
        total_functions(fis) >= 0,
    decreases fis.len(),
{
    if fis.len() > 0 {
        let p = fis.drop_last();
        lemma_folder_counts_bounded(p);
        let prev = folders_map(p);
        let d = folder_spec(fis.last().path);
        assert forall|k: Seq<char>| #[trigger]
            folders_map(fis).dom().contains(k) implies 0 <= folders_map(fis)[k].0
            <= total_functions(fis) by {
            if k != d {
                assert(prev.dom().contains(k));
            } else if prev.dom().contains(d) {
                assert(prev[d].0 <= total_functions(p));
            }
        }
    }
}

proof fn lemma_total_functions_prefix(fis: Seq<FileIndexView>, i: int)
    requires
        0 <= i <= fis.len(),
    ensures
        total_functions(fis.take(i)) <= total_functions(fis),
    decreases fis.len() - i,
{
    if i < fis.len() {
        lemma_total_functions_prefix(fis, i + 1);
        assert(fis.take(i + 1).drop_last() =~= fis.take(i));
    } else {
        assert(fis.take(i) =~= fis);
    }
}

/// The document of the `folders` mode: function counts and dotted names per folder.
#[derive(Debug)]
pub struct FoldersOutput {
    pub ver: u8,
    pub stats: Stats,
    pub folders: NameMap<FolderSummary>,
}

/// A folder summary that holds `counts` and lists `names`.
pub open spec fn summarizes(s: FolderSummary, entry: (int, Set<Seq<char>>)) -> bool {
    s.functions == entry.0 && lists_names(s.names, entry.1)
}

/// Adds every name of the strictly sorted `extra` to the strictly sorted `names`.
fn merge_names(names: &mut Vec<String>, extra: &Vec<String>)
    requires
        strictly_sorted(strs_view(old(names)@)),
    ensures
        strictly_sorted(strs_view(final(names)@)),
        strs_view(final(names)@).to_set() == strs_view(old(names)@).to_set().union(
            strs_view(extra@).to_set(),
        ),
{
    let ghost start = strs_view(names@).to_set();
    let n = extra.len();
    for i in 0..n
        invariant
            n == extra@.len(),
            strictly_sorted(strs_view(names@)),
            strs_view(names@).to_set() == start.union(strs_view(extra@.take(i as int)).to_set()),
    {
        let ghost before = strs_view(names@).to_set();
        insert_sorted_unique(names, extra[i].clone());
        proof {
            assert(strs_view(extra@.take(i + 1)) =~= strs_view(extra@.take(i as int)).push(
                extra@[i as int]@,
            ));
            strs_view(extra@.take(i as int)).lemma_push_to_set_commute(extra@[i as int]@);
            assert(strs_view(names@).to_set() =~= start.union(
                strs_view(extra@.take(i + 1)).to_set(),
            ));
        }
    }
    assert(extra@.take(n as int) =~= extra@);
}

impl FoldersOutput {
    pub fn from(r: &ScanResult) -> (o: Self)
        requires
            total_functions(r@.file_indices) <= usize::MAX,
        ensures
            o.ver == r.ver,
            o.stats == r.stats,
            o.folders.wf(),
            o.folders.map().dom() == folders_map(r@.file_indices).dom(),
            forall|k: Seq<char>| #[trigger]
                o.folders.map().dom().contains(k) ==> summarizes(
                    o.folders.map()[k],
                    folders_map(r@.file_indices)[k],
                ),
    {
        let mut map: NameMap<FolderSummary> = NameMap::new();
        let n = r.file_indices.len();
        let ghost fis = r@.file_indices;
        for i in 0..n
            invariant
                n == r.file_indices@.len(),
                fis == r@.file_indices,
                total_functions(fis) <= usize::MAX,
                map.wf(),
                map.map().dom() == folders_map(fis.take(i as int)).dom(),
                forall|k: Seq<char>| #[trigger]
                    map.map().dom().contains(k) ==> summarizes(
                        map.map()[k],
                        folders_map(fis.take(i as int))[k],
                    ),
        {
            let fi = &r.file_indices[i];
            let ghost pre = fis.take(i as int);
            let ghost post = fis.take(i + 1);
            assert(post.drop_last() =~= pre);
            assert(post.last() == fi@);
            proof {
                lemma_folder_counts_bounded(post);
                lemma_total_functions_prefix(fis, i + 1);
            }
            let dir = folder_of(fi.path.as_str());
            let dots = compute_dot_names(fi.functions.as_slice());
            assert(functions_view(fi.functions@) == fi@.functions);
            let ghost prev_map = folders_map(pre);
            let count = fi.functions.len();
            let summary = match map.remove(dir.as_str()) {
                Some(existing) => {
                    let mut names = existing.names;
                    merge_names(&mut names, &dots);
                    assert(folders_map(post).dom().contains(dir@));
                    FolderSummary { functions: existing.functions + count, names }
                },
                None => FolderSummary { functions: count, names: dots },
            };
            proof {
                if !prev_map.dom().contains(dir@) {
                    assert(Set::<Seq<char>>::empty().union(dot_name_set(fi@.functions))
                        =~= dot_name_set(fi@.functions));
                }
            }
            map.insert(dir, summary);
            assert(map.map().dom() =~= folders_map(post).dom());
        }
        assert(fis.take(n as int) =~= fis);
        FoldersOutput { ver: r.ver, stats: r.stats, folders: map }
    }
}

// ── Rows shared by the documents ─────────────────────────────────


/// Clones a list of strings.
pub fn clone_strings(v: &Vec<String>) -> (r: Vec<String>)
    ensures
        strs_view(r@) == strs_view(v@),
{
    let mut r: Vec<String> = Vec::new();
    let n = v.len();
    for i in 0..n
        invariant
            n == v@.len(),
            strs_view(r@) == strs_view(v@.take(i as int)),
    {
        let ghost before = r@;
        assert(strs_view(v@.take(i as int)).len() == i);
        assert(strs_view(before).len() == i);
        let c = v[i].clone();
        assert(c@ == v@[i as int]@);
        r.push(c);
        assert forall|k: int| 0 <= k < i + 1 implies #[trigger] strs_view(r@)[k] == strs_view(
            v@.take(i + 1),
        )[k] by {
            if k < i {
                assert(strs_view(before)[k] == strs_view(v@.take(i as int))[k]);
            }
        }
        assert(strs_view(r@) =~= strs_view(v@.take(i + 1)));
    }
    assert(v@.take(n as int) =~= v@);
    r
}

/// A function as one compact row: `[file, line, col, name, exported(0/1), kind]`.
#[derive(Debug)]
pub struct FunctionRow {
    pub file: String,
    pub line: u32,
    pub col: u32,
    pub name: String,
    pub exported: u8,
    pub kind: String,
}

pub struct FunctionRowView {
    pub file: Seq<char>,
    pub line: u32,
    pub col: u32,
    pub name: Seq<char>,
    pub exported: u8,
    pub kind: Seq<char>,
}

impl View for FunctionRow {
    type V = FunctionRowView;

    open spec fn view(&self) -> FunctionRowView {
        FunctionRowView {
            file: self.file@,
            line: self.line,
            col: self.col,
            name: self.name@,
            exported: self.exported,
            kind: self.kind@,
        }
    }
}

/// A binding as one compact row: `[file, line, col, name, kind, refs]`.
#[derive(Debug)]
pub struct BindingRow {
    pub file: String,
    pub line: u32,
    pub col: u32,
    pub name: String,
    pub kind: String,
    pub refs: usize,
}

pub struct BindingRowView {
    pub file: Seq<char>,
    pub line: u32,
    pub col: u32,
    pub name: Seq<char>,
    pub kind: Seq<char>,
    pub refs: usize,
}

impl View for BindingRow {
    type V = BindingRowView;

    open spec fn view(&self) -> BindingRowView {
        BindingRowView {
            file: self.file@,
            line: self.line,
            col: self.col,
            name: self.name@,
            kind: self.kind@,
            refs: self.refs,
        }
    }
}

/// An export with the file that makes it: `[file, name, kind_code]`.
#[derive(Debug)]
pub struct ExportRow {
    pub file: String,
    pub name: String,
    pub kind_code: u8,
}

pub struct ExportRowView {
    pub file: Seq<char>,
    pub name: Seq<char>,
    pub kind_code: u8,
}

impl View for ExportRow {
    type V = ExportRowView;

    open spec fn view(&self) -> ExportRowView {
        ExportRowView { file: self.file@, name: self.name@, kind_code: self.kind_code }
    }
}

/// A violation with the file it was found in: `[file, rule, count, details]`.
#[derive(Debug)]
pub struct ViolationRow {
    pub file: String,
    pub rule: String,
    pub count: usize,
    pub details: Vec<String>,
}

pub struct ViolationRowView {
    pub file: Seq<char>,
    pub rule: Seq<char>,
    pub count: usize,
    pub details: Seq<Seq<char>>,
}

impl View for ViolationRow {
    type V = ViolationRowView;

    open spec fn view(&self) -> ViolationRowView {
        ViolationRowView {
            file: self.file@,
            rule: self.rule@,
            count: self.count,
            details: strs_view(self.details@),
        }
    }
}

/// A line and column.
#[derive(Debug, Clone, Copy, PartialEq, Eq, Structural)]
pub struct VerbosePos {
    pub line: u32,
    pub col: u32,
}

/// Where a function starts and ends (the end column is not tracked and is 0).
#[derive(Debug, Clone, Copy, PartialEq, Eq, Structural)]
pub struct VerboseSpan {
    pub start: VerbosePos,
    pub end: VerbosePos,
}

/// A function as a verbose object.
#[derive(Debug)]
pub struct VerboseFunction {
    pub file: String,
    pub name: Option<String>,
    pub kind: String,
    pub exported: bool,
    pub is_async: bool,
    pub is_generator: bool,
    pub span: VerboseSpan,
}

pub struct VerboseFunctionView {
    pub file: Seq<char>,
    pub name: Option<Seq<char>>,
    pub kind: Seq<char>,
    pub exported: bool,
    pub is_async: bool,
    pub is_generator: bool,
    pub span: VerboseSpan,
}

impl View for VerboseFunction {
    type V = VerboseFunctionView;

    open spec fn view(&self) -> VerboseFunctionView {
        VerboseFunctionView {
            file: self.file@,
            name: opt_str_view(self.name),
            kind: self.kind@,
            exported: self.exported,
            is_async: self.is_async,
            is_generator: self.is_generator,
            span: self.span,
        }
    }
}

/// A binding as a verbose object.
#[derive(Debug)]
pub struct VerboseBinding {
    pub file: String,
    pub name: String,
    pub kind: String,
    pub exported: bool,
    pub refs: usize,
    pub decl: VerbosePos,
}

pub struct VerboseBindingView {
    pub file: Seq<char>,
    pub name: Seq<char>,
    pub kind: Seq<char>,
    pub exported: bool,
    pub refs: usize,
    pub decl: VerbosePos,
}

impl View for VerboseBinding {
    type V = VerboseBindingView;

    open spec fn view(&self) -> VerboseBindingView {
        VerboseBindingView {
            file: self.file@,
            name: self.name@,
            kind: self.kind@,
            exported: self.exported,
            refs: self.refs,
            decl: self.decl,
        }
    }
}

pub open spec fn function_row_spec(file: Seq<char>, f: FunctionInfoView) -> FunctionRowView {
    FunctionRowView {
        file,
        line: f.line,
        col: f.col,
        name: match f.name {
            Some(n) => n,
            None => Seq::empty(),
        },
        exported: if f.exported {
            1u8
        } else {
            0u8
        },
        kind: kind_code_spec(f.kind),
    }
}

pub open spec fn binding_row_spec(file: Seq<char>, b: BindingInfoView) -> BindingRowView {
    BindingRowView {
        file,
        line: b.line,
        col: b.col,
        name: b.name,
        kind: binding_kind_str_spec(b.kind),
        refs: b.refs,
    }
}

pub open spec fn export_row_spec(file: Seq<char>, e: ExportInfoView) -> ExportRowView {
    ExportRowView { file, name: e.name, kind_code: e.kind_code }
}

pub open spec fn violation_row_spec(file: Seq<char>, v: ViolationView) -> ViolationRowView {
    ViolationRowView { file, rule: v.rule, count: v.count, details: v.details }
}

pub open spec fn verbose_function_spec(file: Seq<char>, f: FunctionInfoView) -> VerboseFunctionView {
    VerboseFunctionView {
        file,
        name: f.name,
        kind: kind_label_spec(f.kind),
        exported: f.exported,
        is_async: f.is_async,
        is_generator: f.is_generator,
        span: VerboseSpan {
            start: VerbosePos { line: f.line, col: f.col },
            end: VerbosePos { line: f.line_end, col: 0 },
        },
    }
}

pub open spec fn verbose_binding_spec(file: Seq<char>, b: BindingInfoView) -> VerboseBindingView {
    VerboseBindingView {
        file,
        name: b.name,
        kind: binding_kind_str_spec(b.kind),
        exported: b.exported,
        refs: b.refs,
        decl: VerbosePos { line: b.line, col: b.col },
    }
}

/// The compact function rows of all files, file by file.
pub open spec fn function_rows(fis: Seq<FileIndexView>) -> Seq<FunctionRowView>
    decreases fis.len(),
{
    if fis.len() == 0 {
        Seq::empty()
    } else {
        let fi = fis.last();
        function_rows(fis.drop_last()) + fi.functions.map_values(
            |f: FunctionInfoView| function_row_spec(fi.path, f),
        )
    }
}

/// The compact binding rows of all files, file by file.
pub open spec fn binding_rows(fis: Seq<FileIndexView>) -> Seq<BindingRowView>
    decreases fis.len(),
{
    if fis.len() == 0 {
        Seq::empty()
    } else {
        let fi = fis.last();
        binding_rows(fis.drop_last()) + fi.bindings.map_values(
            |b: BindingInfoView| binding_row_spec(fi.path, b),
        )
    }
}

/// The export rows of all files, file by file.
pub open spec fn export_rows(fis: Seq<FileIndexView>) -> Seq<ExportRowView>
    decreases fis.len(),
{
    if fis.len() == 0 {
        Seq::empty()
    } else {
        let fi = fis.last();
        export_rows(fis.drop_last()) + fi.exports.map_values(
            |e: ExportInfoView| export_row_spec(fi.path, e),
        )
    }
}

/// The violation rows of all files, file by file.
pub open spec fn violation_rows(fis: Seq<FileIndexView>) -> Seq<ViolationRowView>
    decreases fis.len(),
{
    if fis.len() == 0 {
        Seq::empty()
    } else {
        let fi = fis.last();
        violation_rows(fis.drop_last()) + fi.violations.map_values(
            |v: ViolationView| violation_row_spec(fi.path, v),
        )
    }
}

/// The verbose function objects of all files, file by file.
pub open spec fn verbose_functions(fis: Seq<FileIndexView>) -> Seq<VerboseFunctionView>
    decreases fis.len(),
{
    if fis.len() == 0 {
        Seq::empty()
    } else {
        let fi = fis.last();
        verbose_functions(fis.drop_last()) + fi.functions.map_values(
            |f: FunctionInfoView| verbose_function_spec(fi.path, f),
        )
    }
}

/// The verbose binding objects of all files, file by file.
pub open spec fn verbose_bindings(fis: Seq<FileIndexView>) -> Seq<VerboseBindingView>
    decreases fis.len(),
{
    if fis.len() == 0 {
        Seq::empty()
    } else {
        let fi = fis.last();
        verbose_bindings(fis.drop_last()) + fi.bindings.map_values(
            |b: BindingInfoView| verbose_binding_spec(fi.path, b),
        )
    }
}

pub open spec fn function_rows_view(v: Seq<FunctionRow>) -> Seq<FunctionRowView> {
    v.map_values(|r: FunctionRow| r@)
}

pub open spec fn binding_rows_view(v: Seq<BindingRow>) -> Seq<BindingRowView> {
    v.map_values(|r: BindingRow| r@)
}

pub open spec fn export_rows_view(v: Seq<ExportRow>) -> Seq<ExportRowView> {
    v.map_values(|r: ExportRow| r@)
}

pub open spec fn violation_rows_view(v: Seq<ViolationRow>) -> Seq<ViolationRowView> {
    v.map_values(|r: ViolationRow| r@)
}

pub open spec fn verbose_functions_view(v: Seq<VerboseFunction>) -> Seq<VerboseFunctionView> {
    v.map_values(|r: VerboseFunction| r@)
}

pub open spec fn verbose_bindings_view(v: Seq<VerboseBinding>) -> Seq<VerboseBindingView> {
    v.map_values(|r: VerboseBinding| r@)
}

fn push_function_rows(rows: &mut Vec<FunctionRow>, fi: &FileIndex)
    ensures
        function_rows_view(final(rows)@) == function_rows_view(old(rows)@) + fi@.functions.map_values(
            |f: FunctionInfoView| function_row_spec(fi@.path, f),
        ),
{
    let ghost start = function_rows_view(rows@);
    let n = fi.functions.len();
    for j in 0..n
        invariant
            n == fi.functions@.len(),
            function_rows_view(rows@) == start + fi@.functions.take(j as int).map_values(
                |f: FunctionInfoView| function_row_spec(fi@.path, f),
            ),
    {
        let func = &fi.functions[j];
        let name = match &func.name {
            Some(n) => n.clone(),
            None => String::new(),
        };
        let ghost before = rows@;
        rows.push(
            FunctionRow {
                file: fi.path.clone(),
                line: func.line,
                col: func.col,
                name,
                exported: if func.exported {
                    1u8
                } else {
                    0u8
                },
                kind: String::from_str(func.kind.code()),
            },
        );
        assert(fi@.functions.take(j + 1) =~= fi@.functions.take(j as int).push(func@));
        assert(rows@.last()@ == function_row_spec(fi@.path, func@));
        assert(function_rows_view(before).len() == before.len());
        assert(before.len() == start.len() + j);
        assert(function_rows_view(rows@).len() == rows@.len());
        assert forall|k: int| 0 <= k < rows@.len() implies #[trigger] function_rows_view(rows@)[k] == (start
            + fi@.functions.take(j + 1).map_values(|f: FunctionInfoView| function_row_spec(fi@.path, f)))[k] by {
            if k < before.len() {
                assert(function_rows_view(before)[k] == (start + fi@.functions.take(j as int).map_values(
                    |f: FunctionInfoView| function_row_spec(fi@.path, f),
                ))[k]);
            }
        }
        assert(function_rows_view(rows@) =~= start + fi@.functions.take(j + 1).map_values(
            |f: FunctionInfoView| function_row_spec(fi@.path, f),
        ));
    }
    assert(fi@.functions.take(n as int) =~= fi@.functions);
}

fn push_binding_rows(rows: &mut Vec<BindingRow>, fi: &FileIndex)
    ensures
        binding_rows_view(final(rows)@) == binding_rows_view(old(rows)@) + fi@.bindings.map_values(
            |b: BindingInfoView| binding_row_spec(fi@.path, b),
        ),
{
    let ghost start = binding_rows_view(rows@);
    let n = fi.bindings.len();
    for j in 0..n
        invariant
            n == fi.bindings@.len(),
            binding_rows_view(rows@) == start + fi@.bindings.take(j as int).map_values(
                |b: BindingInfoView| binding_row_spec(fi@.path, b),
            ),
    {
        let b = &fi.bindings[j];
        let ghost before = rows@;
        rows.push(
            BindingRow {
                file: fi.path.clone(),
                line: b.line,
                col: b.col,
                name: b.name.clone(),
                kind: String::from_str(b.kind.as_str()),
                refs: b.refs,
            },
        );
        assert(fi@.bindings.take(j + 1) =~= fi@.bindings.take(j as int).push(b@));
        assert(binding_rows_view(before).len() == before.len());
        assert(before.len() == start.len() + j);
        assert(binding_rows_view(rows@).len() == rows@.len());
        assert forall|k: int| 0 <= k < rows@.len() implies #[trigger] binding_rows_view(rows@)[k] == (start
            + fi@.bindings.take(j + 1).map_values(|b: BindingInfoView| binding_row_spec(fi@.path, b)))[k] by {
            if k < before.len() {
                assert(binding_rows_view(before)[k] == (start + fi@.bindings.take(j as int).map_values(
                    |b: BindingInfoView| binding_row_spec(fi@.path, b),
                ))[k]);
            }
        }
        assert(binding_rows_view(rows@) =~= start + fi@.bindings.take(j + 1).map_values(
            |b: BindingInfoView| binding_row_spec(fi@.path, b),
        ));
    }
    assert(fi@.bindings.take(n as int) =~= fi@.bindings);
}

fn push_export_rows(rows: &mut Vec<ExportRow>, fi: &FileIndex)
    ensures
        export_rows_view(final(rows)@) == export_rows_view(old(rows)@) + fi@.exports.map_values(
            |e: ExportInfoView| export_row_spec(fi@.path, e),
        ),
{
    let ghost start = export_rows_view(rows@);
    let n = fi.exports.len();
    for j in 0..n
        invariant
            n == fi.exports@.len(),
            export_rows_view(rows@) == start + fi@.exports.take(j as int).map_values(
                |e: ExportInfoView| export_row_spec(fi@.path, e),
            ),
    {
        let e = &fi.exports[j];
        let ghost before = rows@;
        rows.push(ExportRow { file: fi.path.clone(), name: e.name.clone(), kind_code: e.kind_code });
        assert(fi@.exports.take(j + 1) =~= fi@.exports.take(j as int).push(e@));
        assert(export_rows_view(before).len() == before.len());
        assert(before.len() == start.len() + j);
        assert(export_rows_view(rows@).len() == rows@.len());
        assert forall|k: int| 0 <= k < rows@.len() implies #[trigger] export_rows_view(rows@)[k] == (start
            + fi@.exports.take(j + 1).map_values(|e: ExportInfoView| export_row_spec(fi@.path, e)))[k] by {
            if k < before.len() {
                assert(export_rows_view(before)[k] == (start + fi@.exports.take(j as int).map_values(
                    |e: ExportInfoView| export_row_spec(fi@.path, e),
                ))[k]);
            }
        }
        assert(export_rows_view(rows@) =~= start + fi@.exports.take(j + 1).map_values(
            |e: ExportInfoView| export_row_spec(fi@.path, e),
        ));
    }
    assert(fi@.exports.take(n as int) =~= fi@.exports);
}

fn push_violation_rows(rows: &mut Vec<ViolationRow>, fi: &FileIndex)
    ensures
        violation_rows_view(final(rows)@) == violation_rows_view(old(rows)@) + fi@.violations.map_values(
            |v: ViolationView| violation_row_spec(fi@.path, v),
        ),
{
    let ghost start = violation_rows_view(rows@);
    let n = fi.violations.len();
    for j in 0..n
        invariant
            n == fi.violations@.len(),
            violation_rows_view(rows@) == start + fi@.violations.take(j as int).map_values(
                |v: ViolationView| violation_row_spec(fi@.path, v),
            ),
    {
        let v = &fi.violations[j];
        let ghost before = rows@;
        rows.push(
            ViolationRow {
                file: fi.path.clone(),
                rule: v.rule.clone(),
                count: v.count,
                details: clone_strings(&v.details),
            },
        );
        assert(fi@.violations.take(j + 1) =~= fi@.violations.take(j as int).push(v@));
        assert(violation_rows_view(before).len() == before.len());
        assert(before.len() == start.len() + j);
        assert(violation_rows_view(rows@).len() == rows@.len());
        assert forall|k: int| 0 <= k < rows@.len() implies #[trigger] violation_rows_view(rows@)[k] == (start
            + fi@.violations.take(j + 1).map_values(|v: ViolationView| violation_row_spec(fi@.path, v)))[k] by {
            if k < before.len() {
                assert(violation_rows_view(before)[k] == (start + fi@.violations.take(j as int).map_values(
                    |v: ViolationView| violation_row_spec(fi@.path, v),
                ))[k]);
            }
        }
        assert(violation_rows_view(rows@) =~= start + fi@.violations.take(j + 1).map_values(
            |v: ViolationView| violation_row_spec(fi@.path, v),
        ));
    }
    assert(fi@.violations.take(n as int) =~= fi@.violations);
}

fn push_verbose_functions(rows: &mut Vec<VerboseFunction>, fi: &FileIndex)
    ensures
        verbose_functions_view(final(rows)@) == verbose_functions_view(old(rows)@)
            + fi@.functions.map_values(|f: FunctionInfoView| verbose_function_spec(fi@.path, f)),
{
    let ghost start = verbose_functions_view(rows@);
    let n = fi.functions.len();
    for j in 0..n
        invariant
            n == fi.functions@.len(),
            verbose_functions_view(rows@) == start + fi@.functions.take(j as int).map_values(
                |f: FunctionInfoView| verbose_function_spec(fi@.path, f),
            ),
    {
        let func = &fi.functions[j];
        let name = match &func.name {
            Some(n) => Some(n.clone()),
            None => None,
        };
        let ghost before = rows@;
        rows.push(
            VerboseFunction {
                file: fi.path.clone(),
                name,
                kind: String::from_str(func.kind.label()),
                exported: func.exported,
                is_async: func.is_async,
                is_generator: func.is_generator,
                span: VerboseSpan {
                    start: VerbosePos { line: func.line, col: func.col },
                    end: VerbosePos { line: func.line_end, col: 0 },
                },
            },
        );
        assert(fi@.functions.take(j + 1) =~= fi@.functions.take(j as int).push(func@));
        assert(verbose_functions_view(before).len() == before.len());
        assert(before.len() == start.len() + j);
        assert(verbose_functions_view(rows@).len() == rows@.len());
        assert forall|k: int| 0 <= k < rows@.len() implies #[trigger] verbose_functions_view(rows@)[k] == (start
            + fi@.functions.take(j + 1).map_values(|f: FunctionInfoView| verbose_function_spec(fi@.path, f)))[k] by {
            if k < before.len() {
                assert(verbose_functions_view(before)[k] == (start + fi@.functions.take(j as int).map_values(
                    |f: FunctionInfoView| verbose_function_spec(fi@.path, f),
                ))[k]);
            }
        }
        assert(verbose_functions_view(rows@) =~= start + fi@.functions.take(j + 1).map_values(
            |f: FunctionInfoView| verbose_function_spec(fi@.path, f),
        ));
    }
    assert(fi@.functions.take(n as int) =~= fi@.functions);
}

fn push_verbose_bindings(rows: &mut Vec<VerboseBinding>, fi: &FileIndex)
    ensures
        verbose_bindings_view(final(rows)@) == verbose_bindings_view(old(rows)@)
            + fi@.bindings.map_values(|b: BindingInfoView| verbose_binding_spec(fi@.path, b)),
{
    let ghost start = verbose_bindings_view(rows@);
    let n = fi.bindings.len();
    for j in 0..n
        invariant
            n == fi.bindings@.len(),
            verbose_bindings_view(rows@) == start + fi@.bindings.take(j as int).map_values(
                |b: BindingInfoView| verbose_binding_spec(fi@.path, b),
            ),
    {
        let b = &fi.bindings[j];
        let ghost before = rows@;
        rows.push(
            VerboseBinding {
                file: fi.path.clone(),
                name: b.name.clone(),
                kind: String::from_str(b.kind.as_str()),
                exported: b.exported,
                refs: b.refs,
                decl: VerbosePos { line: b.line, col: b.col },
            },
        );
        assert(fi@.bindings.take(j + 1) =~= fi@.bindings.take(j as int).push(b@));
        assert(verbose_bindings_view(before).len() == before.len());
        assert(before.len() == start.len() + j);
        assert(verbose_bindings_view(rows@).len() == rows@.len());
        assert forall|k: int| 0 <= k < rows@.len() implies #[trigger] verbose_bindings_view(rows@)[k] == (start
            + fi@.bindings.take(j + 1).map_values(|b: BindingInfoView| verbose_binding_spec(fi@.path, b)))[k] by {
            if k < before.len() {
                assert(verbose_bindings_view(before)[k] == (start + fi@.bindings.take(j as int).map_values(
                    |b: BindingInfoView| verbose_binding_spec(fi@.path, b),
                ))[k]);
            }
        }
        assert(verbose_bindings_view(rows@) =~= start + fi@.bindings.take(j + 1).map_values(
            |b: BindingInfoView| verbose_binding_spec(fi@.path, b),
        ));
    }
    assert(fi@.bindings.take(n as int) =~= fi@.bindings);
}

// ── Compact and verbose documents ────────────────────────────────

/// The document of the `compact` mode: tuple rows with short keys.
#[derive(Debug)]
pub struct CompactOutput {
    pub ver: u8,
    pub stats: Stats,
    /// Functions: [file, line, col, name, exported(0/1), kind]
    pub f: Vec<FunctionRow>,
    /// Bindings: [file, line, col, name, kind, refs]
    pub b: Vec<BindingRow>,
    /// Exports: `[file, name, kind_code]`; present only when asked for.
    pub x: Option<Vec<ExportRow>>,
    /// Violations: [file, rule, count, details]
    pub viol: Vec<ViolationRow>,
    pub err: Vec<String>,
}

/// The export rows of a document: all of them when asked for, none otherwise.
pub open spec fn exports_as_asked(x: Option<Vec<ExportRow>>, fis: Seq<FileIndexView>, with_exports: bool) -> bool {
    match x {
        Some(rows) => with_exports && export_rows_view(rows@) == export_rows(fis),
        None => !with_exports,
    }
}

/// `o` is the compact document of `r`, with export rows when `with_exports`.
pub open spec fn is_compact_output(o: CompactOutput, r: ScanResultView, with_exports: bool) -> bool {
    &&& o.ver == r.ver
    &&& o.stats == r.stats
    &&& function_rows_view(o.f@) == function_rows(r.file_indices)
    &&& binding_rows_view(o.b@) == binding_rows(r.file_indices)
    &&& exports_as_asked(o.x, r.file_indices, with_exports)
    &&& violation_rows_view(o.viol@) == violation_rows(r.file_indices)
    &&& strs_view(o.err@) == r.errors
}

impl CompactOutput {
    pub fn from(r: &ScanResult, with_exports: bool) -> (o: Self)
        ensures
            is_compact_output(o, r@, with_exports),
    {
        let mut f: Vec<FunctionRow> = Vec::new();
        let mut b: Vec<BindingRow> = Vec::new();
        let mut x: Vec<ExportRow> = Vec::new();
        let mut viol: Vec<ViolationRow> = Vec::new();
        let ghost fis = r@.file_indices;
        let n = r.file_indices.len();
        for i in 0..n
            invariant
                n == r.file_indices@.len(),
                fis == r@.file_indices,
                function_rows_view(f@) == function_rows(fis.take(i as int)),
                binding_rows_view(b@) == binding_rows(fis.take(i as int)),
                export_rows_view(x@) == export_rows(fis.take(i as int)),
                violation_rows_view(viol@) == violation_rows(fis.take(i as int)),
        {
            let fi = &r.file_indices[i];
            assert(fis.take(i + 1).drop_last() =~= fis.take(i as int));
            assert(fis.take(i + 1).last() == fi@);
            push_function_rows(&mut f, fi);
            push_binding_rows(&mut b, fi);
            push_export_rows(&mut x, fi);
            push_violation_rows(&mut viol, fi);
        }
        assert(fis.take(n as int) =~= fis);
        let x = if with_exports {
            Some(x)
        } else {
            None
        };
        CompactOutput { ver: r.ver, stats: r.stats, f, b, x, viol, err: clone_strings(&r.errors) }
    }
}

/// The document of the `verbose` mode: objects with full spans.
#[derive(Debug)]
pub struct VerboseOutput {
    pub ver: u8,
    pub root: String,
    pub stats: Stats,
    pub functions: Vec<VerboseFunction>,
    pub bindings: Vec<VerboseBinding>,
    /// Present only when asked for.
    pub exports: Option<Vec<ExportRow>>,
    pub violations: Vec<ViolationRow>,
    pub errors: Vec<String>,
}

/// `o` is the verbose document of `r`, with exports when `with_exports`.
pub open spec fn is_verbose_output(o: VerboseOutput, r: ScanResultView, with_exports: bool) -> bool {
    &&& o.ver == r.ver
    &&& o.root@ == r.root
    &&& o.stats == r.stats
    &&& verbose_functions_view(o.functions@) == verbose_functions(r.file_indices)
    &&& verbose_bindings_view(o.bindings@) == verbose_bindings(r.file_indices)
    &&& exports_as_asked(o.exports, r.file_indices, with_exports)
    &&& violation_rows_view(o.violations@) == violation_rows(r.file_indices)
    &&& strs_view(o.errors@) == r.errors
}

impl VerboseOutput {
    pub fn from(r: &ScanResult, with_exports: bool) -> (o: Self)
        ensures
            is_verbose_output(o, r@, with_exports),
    {
        let mut functions: Vec<VerboseFunction> = Vec::new();
        let mut bindings: Vec<VerboseBinding> = Vec::new();
        let mut exports: Vec<ExportRow> = Vec::new();
        let mut violations: Vec<ViolationRow> = Vec::new();
        let ghost fis = r@.file_indices;
        let n = r.file_indices.len();
        for i in 0..n
            invariant
                n == r.file_indices@.len(),
                fis == r@.file_indices,
                verbose_functions_view(functions@) == verbose_functions(fis.take(i as int)),
                verbose_bindings_view(bindings@) == verbose_bindings(fis.take(i as int)),
                export_rows_view(exports@) == export_rows(fis.take(i as int)),
                violation_rows_view(violations@) == violation_rows(fis.take(i as int)),
        {
            let fi = &r.file_indices[i];
            assert(fis.take(i + 1).drop_last() =~= fis.take(i as int));
            assert(fis.take(i + 1).last() == fi@);
            push_verbose_functions(&mut functions, fi);
            push_verbose_bindings(&mut bindings, fi);
            push_export_rows(&mut exports, fi);
            push_violation_rows(&mut violations, fi);
        }
        assert(fis.take(n as int) =~= fis);
        let exports = if with_exports {
            Some(exports)
        } else {
            None
        };
        VerboseOutput {
            ver: r.ver,
            root: r.root.clone(),
            stats: r.stats,
            functions,
            bindings,
            exports,
            violations,
            errors: clone_strings(&r.errors),
        }
    }
}

/// The violations of every file, file by file.
fn all_violation_rows(r: &ScanResult) -> (rows: Vec<ViolationRow>)
    ensures
        violation_rows_view(rows@) == violation_rows(r@.file_indices),
{
    let mut viol: Vec<ViolationRow> = Vec::new();
    let ghost fis = r@.file_indices;
    let n = r.file_indices.len();
    for i in 0..n
        invariant
            n == r.file_indices@.len(),
            fis == r@.file_indices,
            violation_rows_view(viol@) == violation_rows(fis.take(i as int)),
    {
        let fi = &r.file_indices[i];
        assert(fis.take(i + 1).drop_last() =~= fis.take(i as int));
        assert(fis.take(i + 1).last() == fi@);
        push_violation_rows(&mut viol, fi);
    }
    assert(fis.take(n as int) =~= fis);
    viol
}

/// The compact document of the rules command: violations only.
#[derive(Debug)]
pub struct CompactRulesOutput {
    pub ver: u8,
    pub stats: Stats,
    pub viol: Vec<ViolationRow>,
    pub err: Vec<String>,
}

pub open spec fn is_compact_rules_output(o: CompactRulesOutput, r: ScanResultView) -> bool {
    &&& o.ver == r.ver
    &&& o.stats == r.stats
    &&& violation_rows_view(o.viol@) == violation_rows(r.file_indices)
    &&& strs_view(o.err@) == r.errors
}

impl CompactRulesOutput {
    pub fn from(r: &ScanResult) -> (o: Self)
        ensures
            is_compact_rules_output(o, r@),
    {
        CompactRulesOutput {
            ver: r.ver,
            stats: r.stats,
            viol: all_violation_rows(r),
            err: clone_strings(&r.errors),
        }
    }
}

/// The verbose document of the rules command: violations only.
#[derive(Debug)]
pub struct VerboseRulesOutput {
    pub ver: u8,
    pub stats: Stats,
    pub violations: Vec<ViolationRow>,
    pub errors: Vec<String>,
}

pub open spec fn is_verbose_rules_output(o: VerboseRulesOutput, r: ScanResultView) -> bool {
    &&& o.ver == r.ver
    &&& o.stats == r.stats
    &&& violation_rows_view(o.violations@) == violation_rows(r.file_indices)
    &&& strs_view(o.errors@) == r.errors
}

impl VerboseRulesOutput {
    pub fn from(r: &ScanResult) -> (o: Self)
        ensures
            is_verbose_rules_output(o, r@),
    {
        VerboseRulesOutput {
            ver: r.ver,
            stats: r.stats,
            violations: all_violation_rows(r),
            errors: clone_strings(&r.errors),
        }
    }
}

// ── Choosing the document ────────────────────────────────────────

/// `o` is the `files` document of `r`.
pub open spec fn is_files_output(o: FilesOutput, r: ScanResultView) -> bool {
    &&& o.ver == r.ver
    &&& o.stats == r.stats
    &&& o.files.wf()
    &&& o.files.map().dom() == files_map(r.file_indices).dom()
    &&& forall|k: Seq<char>| #[trigger]
        o.files.map().dom().contains(k) ==> lists_names(o.files.map()[k], files_map(r.file_indices)[k])
}

/// `o` is the `folders` document of `r`.
pub open spec fn is_folders_output(o: FoldersOutput, r: ScanResultView) -> bool {
    &&& o.ver == r.ver
    &&& o.stats == r.stats
    &&& o.folders.wf()
    &&& o.folders.map().dom() == folders_map(r.file_indices).dom()
    &&& forall|k: Seq<char>| #[trigger]
        o.folders.map().dom().contains(k) ==> summarizes(
            o.folders.map()[k],
            folders_map(r.file_indices)[k],
        )
}

/// The document written by the index command.
#[derive(Debug)]
pub enum IndexDocument {
    Compact(CompactOutput),
    Verbose(VerboseOutput),
    Files(FilesOutput),
    Folders(FoldersOutput),
}

/// Builds the document that the index command writes in `mode`; the compact and
/// verbose documents carry the exports only when `with_exports` asks for them.
pub fn index_document(r: &ScanResult, mode: OutputMode, with_exports: bool) -> (d: IndexDocument)
    requires
        mode == OutputMode::Folders ==> total_functions(r@.file_indices) <= usize::MAX,
    ensures
        match mode {
            OutputMode::Compact => d matches IndexDocument::Compact(o) && is_compact_output(
                o,
                r@,
                with_exports,
            ),
            OutputMode::Verbose => d matches IndexDocument::Verbose(o) && is_verbose_output(
                o,
                r@,
                with_exports,
            ),
            OutputMode::Files => d matches IndexDocument::Files(o) && is_files_output(o, r@),
            OutputMode::Folders => d matches IndexDocument::Folders(o) && is_folders_output(o, r@),
        },
{
    match mode {
        OutputMode::Compact => IndexDocument::Compact(CompactOutput::from(r, with_exports)),
        OutputMode::Verbose => IndexDocument::Verbose(VerboseOutput::from(r, with_exports)),
        OutputMode::Files => IndexDocument::Files(FilesOutput::from(r)),
        OutputMode::Folders => IndexDocument::Folders(FoldersOutput::from(r)),
    }
}

/// The document written by the rules command.
#[derive(Debug)]
pub enum RulesDocument {
    Compact(CompactRulesOutput),
    Verbose(VerboseRulesOutput),
}

/// Builds the document that the rules command writes in `mode`: compact rows in
/// the compact mode, verbose objects in every other.
pub fn rules_document(r: &ScanResult, mode: OutputMode) -> (d: RulesDocument)
    ensures
        mode == OutputMode::Compact ==> (d matches RulesDocument::Compact(o)
            && is_compact_rules_output(o, r@)),
        mode != OutputMode::Compact ==> (d matches RulesDocument::Verbose(o)
            && is_verbose_rules_output(o, r@)),
{
    match mode {
        OutputMode::Compact => RulesDocument::Compact(CompactRulesOutput::from(r)),
        _ => RulesDocument::Verbose(VerboseRulesOutput::from(r)),
    }
}

/// The number of functions in all files of `r`, or `None` when it does not fit in a `usize`.
pub fn count_functions(r: &ScanResult) -> (c: Option<usize>)
    ensures
        match c {
            Some(n) => n == total_functions(r@.file_indices),
            None => total_functions(r@.file_indices) > usize::MAX,
        },
{
    let mut total: usize = 0;
    let ghost fis = r@.file_indices;
    let n = r.file_indices.len();
    for i in 0..n
        invariant
            n == r.file_indices@.len(),
            fis == r@.file_indices,
            total == total_functions(fis.take(i as int)),
    {
        assert(fis.take(i + 1).drop_last() =~= fis.take(i as int));
        let len = r.file_indices[i].functions.len();
        if total > usize::MAX - len {
            proof {
                lemma_total_functions_prefix(fis, i + 1);
            }
            return None;
        }
        total = total + len;
    }
    assert(fis.take(n as int) =~= fis);
    Some(total)
}

/// The compact and the verbose documents list the same functions in the same
/// order, one row or object per function of every file.
pub proof fn lemma_compact_matches_verbose(fis: Seq<FileIndexView>)
    ensures
        function_rows(fis).len() == total_functions(fis),
        verbose_functions(fis).len() == total_functions(fis),
        forall|i: int|
            0 <= i < function_rows(fis).len() ==> {
                let row = #[trigger] function_rows(fis)[i];
                let obj = verbose_functions(fis)[i];
                &&& row.file == obj.file
                &&& row.line == obj.span.start.line
                &&& row.col == obj.span.start.col
                &&& (row.exported == 1u8) == obj.exported
            },
    decreases fis.len(),
{
    if fis.len() > 0 {
        let p = fis.drop_last();
        let fi = fis.last();
        lemma_compact_matches_verbose(p);
        let a = function_rows(p);
        let b = verbose_functions(p);
        let ra = fi.functions.map_values(|f: FunctionInfoView| function_row_spec(fi.path, f));
        let rb = fi.functions.map_values(|f: FunctionInfoView| verbose_function_spec(fi.path, f));
        assert(function_rows(fis) == a + ra);
        assert(verbose_functions(fis) == b + rb);
        assert forall|i: int| 0 <= i < function_rows(fis).len() implies {
            let row = #[trigger] function_rows(fis)[i];
            let obj = verbose_functions(fis)[i];
            &&& row.file == obj.file
            &&& row.line == obj.span.start.line
            &&& row.col == obj.span.start.col
            &&& (row.exported == 1u8) == obj.exported
        } by {
            if i < a.len() {
                assert(function_rows(fis)[i] == a[i]);
                assert(verbose_functions(fis)[i] == b[i]);
            } else {
                assert(function_rows(fis)[i] == ra[i - a.len()]);
                assert(verbose_functions(fis)[i] == rb[i - a.len()]);
            }
        }
    }
}


/// Every function of every file with the path of its file, file by file.
pub open spec fn all_functions(fis: Seq<FileIndexView>) -> Seq<(Seq<char>, FunctionInfoView)>
    decreases fis.len(),
{
    if fis.len() == 0 {
        Seq::empty()
    } else {
        all_functions(fis.drop_last()) + fis.last().functions.map_values(
            |f: FunctionInfoView| (fis.last().path, f),
        )
    }
}

/// The verbose document has one object per function of every file, in order,
/// and each object carries its function's own file, name, kind label, exported,
/// async and generator flags, start line and column, and last line.
pub proof fn lemma_verbose_functions_describe(fis: Seq<FileIndexView>)
    ensures
        verbose_functions(fis).len() == all_functions(fis).len(),
        forall|k: int|
            0 <= k < verbose_functions(fis).len() ==> {
                let obj = #[trigger] verbose_functions(fis)[k];
                let file = all_functions(fis)[k].0;
                let f = all_functions(fis)[k].1;
                &&& obj.file == file
                &&& obj.name == f.name
                &&& obj.kind == kind_label_spec(f.kind)
                &&& obj.exported == f.exported
                &&& obj.is_async == f.is_async
                &&& obj.is_generator == f.is_generator
                &&& obj.span.start.line == f.line
                &&& obj.span.start.col == f.col
                &&& obj.span.end.line == f.line_end
            },
    decreases fis.len(),
{
    if fis.len() > 0 {
        let p = fis.drop_last();
        let fi = fis.last();
        lemma_verbose_functions_describe(p);
        let a = verbose_functions(p);
        let b = all_functions(p);
        let ra = fi.functions.map_values(|f: FunctionInfoView| verbose_function_spec(fi.path, f));
        let rb = fi.functions.map_values(|f: FunctionInfoView| (fi.path, f));
        assert(verbose_functions(fis) == a + ra);
        assert(all_functions(fis) == b + rb);
        assert forall|k: int| 0 <= k < verbose_functions(fis).len() implies {
            let obj = #[trigger] verbose_functions(fis)[k];
            let file = all_functions(fis)[k].0;
            let f = all_functions(fis)[k].1;
            &&& obj.file == file
            &&& obj.name == f.name
            &&& obj.kind == kind_label_spec(f.kind)
            &&& obj.exported == f.exported
            &&& obj.is_async == f.is_async
            &&& obj.is_generator == f.is_generator
            &&& obj.span.start.line == f.line
            &&& obj.span.start.col == f.col
            &&& obj.span.end.line == f.line_end
        } by {
            if k < a.len() {
                assert(verbose_functions(fis)[k] == a[k]);
                assert(all_functions(fis)[k] == b[k]);
            } else {
                assert(verbose_functions(fis)[k] == ra[k - a.len()]);
                assert(all_functions(fis)[k] == rb[k - a.len()]);
            }
        }
    }
}

} // verus!
