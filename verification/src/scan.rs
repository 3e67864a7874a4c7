//! Assembling a scan's result from the indexes of the files it parsed: rules,
//! the order of files, and the counts.
use vstd::prelude::*;

use crate::index::{indices_view, FileIndex, FileIndexView, ScanResult, ScanResultView, Stats};
use crate::rules::{builtin_rules, rule_violations, run_rules};
use crate::text::{
    chars_le, chars_lt, compare_str, lemma_chars_lt_asymmetric, lemma_chars_lt_irreflexive,
    lemma_chars_lt_total, lemma_chars_lt_transitive, strs_view, Order,
};

verus! {

/// The indexes whose file has path `p`, in order.
pub open spec fn with_path(s: Seq<FileIndexView>, p: Seq<char>) -> Seq<FileIndexView>
    decreases s.len(),
{
    if s.len() == 0 {
        Seq::empty()
    } else {
        let prev = with_path(s.drop_last(), p);
        if s.last().path == p {
            prev.push(s.last())
        } else {
            prev
        }
    }
}

/// The indexes are in order of path.
pub open spec fn sorted_by_path(s: Seq<FileIndexView>) -> bool {
    forall|i: int, j: int| 0 <= i < j < s.len() ==> chars_le(#[trigger] s[i].path, #[trigger] s[j].path)
}

/// `out` holds the indexes of `input` ordered by path, those of one path in their order in `input`.
pub open spec fn stably_sorted_from(out: Seq<FileIndexView>, input: Seq<FileIndexView>) -> bool {
    &&& sorted_by_path(out)
    &&& forall|p: Seq<char>| #[trigger] with_path(out, p) == with_path(input, p)
}

/// The rule names a scan runs: `None` when it runs no rule (the index command),
/// the names given otherwise (where naming none runs every rule).
pub open spec fn rule_selection(rules: Option<&[String]>) -> Option<Seq<Seq<char>>> {
    match rules {
        Some(names) => Some(strs_view(names@)),
        None => None,
    }
}

/// A file's index after the selected rules ran on it.
pub open spec fn apply_rules_spec(enabled: Option<Seq<Seq<char>>>, fi: FileIndexView) -> FileIndexView {
    match enabled {
        None => fi,
        Some(names) => FileIndexView {
            violations: fi.violations + rule_violations(builtin_rules(), names, fi),
            ..fi
        },
    }
}

/// Every file's index after the selected rules ran on it.
pub open spec fn with_rules(enabled: Option<Seq<Seq<char>>>, s: Seq<FileIndexView>) -> Seq<FileIndexView> {
    s.map_values(|f: FileIndexView| apply_rules_spec(enabled, f))
}

/// The number of files parsed with errors.
pub open spec fn files_with_errors(s: Seq<FileIndexView>) -> int
    decreases s.len(),
{
    if s.len() == 0 {
        0
    } else {
        files_with_errors(s.drop_last()) + if s.last().parse_errors > 0 {
            1int
        } else {
            0int
        }
    }
}

/// The files of one path in two lists one after the other are those of the
/// first list, then those of the second.
pub proof fn lemma_with_path_concat(a: Seq<FileIndexView>, b: Seq<FileIndexView>, p: Seq<char>)
    ensures
        with_path(a + b, p) == with_path(a, p) + with_path(b, p),
    decreases b.len(),
{
    if b.len() == 0 {
        assert(a + b =~= a);
        assert(with_path(a, p) + with_path(b, p) =~= with_path(a, p));
    } else {
        lemma_with_path_concat(a, b.drop_last(), p);
        assert((a + b).drop_last() =~= a + b.drop_last());
        assert((a + b).last() == b.last());
        if b.last().path == p {
            assert(with_path(a, p) + with_path(b.drop_last(), p).push(b.last()) =~= (with_path(
                a,
                p,
            ) + with_path(b.drop_last(), p)).push(b.last()));
        }
    }
}

proof fn lemma_with_path_single(x: FileIndexView, p: Seq<char>)
    ensures
        with_path(seq![x], p) == if x.path == p {
            seq![x]
        } else {
            Seq::<FileIndexView>::empty()
        },
{
    assert(seq![x].drop_last() =~= Seq::<FileIndexView>::empty());
    assert(with_path(Seq::<FileIndexView>::empty(), p) == Seq::<FileIndexView>::empty());
    if x.path == p {
        assert(Seq::<FileIndexView>::empty().push(x) =~= seq![x]);
    }
}

proof fn lemma_with_path_none(s: Seq<FileIndexView>, p: Seq<char>)
    requires
        forall|k: int| 0 <= k < s.len() ==> (#[trigger] s[k]).path != p,
    ensures
        with_path(s, p) == Seq::<FileIndexView>::empty(),
    decreases s.len(),
{
    if s.len() > 0 {
        lemma_with_path_none(s.drop_last(), p);
    }
}

/// Moves `fi` into the path-ordered `out`, before every index whose path is not smaller.
fn insert_by_path(out: &mut Vec<FileIndex>, fi: FileIndex)
    requires
        sorted_by_path(indices_view(old(out)@)),
    ensures
        sorted_by_path(indices_view(final(out)@)),
        forall|p: Seq<char>|
            #[trigger] with_path(indices_view(final(out)@), p) == with_path(
                seq![fi@] + indices_view(old(out)@),
                p,
            ),
{
    let ghost before = indices_view(out@);
    let ghost x = fi@;
    let mut k: usize = 0;
    while k < out.len() && compare_str(out[k].path.as_str(), fi.path.as_str()) == Order::Less
        invariant
            k <= out@.len(),
            before == indices_view(out@),
            forall|j: int| 0 <= j < k ==> chars_lt(#[trigger] before[j].path, x.path),
            x == fi@,
        decreases out.len() - k,
    {
        k = k + 1;
    }
    proof {
        assert forall|j: int| k <= j < before.len() implies chars_le(x.path, #[trigger] before[j].path) by {
            assert(!chars_lt(before[k as int].path, x.path));
            lemma_chars_lt_total(before[k as int].path, x.path);
            if j > k {
                assert(chars_le(before[k as int].path, before[j].path));
                if before[k as int].path != before[j].path {
                    if before[k as int].path != x.path {
                        lemma_chars_lt_transitive(x.path, before[k as int].path, before[j].path);
                    }
                }
            }
        }
    }
    out.insert(k, fi);
    proof {
        let after = indices_view(out@);
        assert(after =~= before.insert(k as int, x));
        assert forall|i: int, j: int| 0 <= i < j < after.len() implies chars_le(
            #[trigger] after[i].path,
            #[trigger] after[j].path,
        ) by {
            if j < k {
            } else if j == k {
                assert(after[i] == before[i]);
            } else if i == k {
                assert(after[j] == before[j - 1]);
            } else if i < k {
                assert(after[i] == before[i]);
                assert(after[j] == before[j - 1]);
                assert(chars_lt(before[i].path, x.path));
                if before[j - 1].path != x.path {
                    lemma_chars_lt_transitive(before[i].path, x.path, before[j - 1].path);
                }
            } else {
                assert(after[i] == before[i - 1]);
                assert(after[j] == before[j - 1]);
            }
        }
        let lo = before.take(k as int);
        let hi = before.skip(k as int);
        assert(before =~= lo + hi);
        assert(after =~= lo + (seq![x] + hi));
        assert forall|p: Seq<char>| #[trigger] with_path(after, p) == with_path(seq![x] + before, p) by {
            lemma_with_path_concat(lo, seq![x] + hi, p);
            lemma_with_path_concat(seq![x], hi, p);
            lemma_with_path_concat(seq![x], before, p);
            lemma_with_path_concat(lo, hi, p);
            lemma_with_path_single(x, p);
            if x.path == p {
                assert forall|j: int| 0 <= j < lo.len() implies (#[trigger] lo[j]).path != p by {
                    assert(lo[j] == before[j]);
                    lemma_chars_lt_irreflexive(p);
                }
                lemma_with_path_none(lo, p);
                assert(with_path(after, p) =~= seq![x] + with_path(hi, p));
                assert(with_path(seq![x] + before, p) =~= seq![x] + with_path(hi, p));
            } else {
                assert(with_path(after, p) =~= with_path(lo, p) + with_path(hi, p));
                assert(with_path(seq![x] + before, p) =~= with_path(lo, p) + with_path(hi, p));
            }
        }
    }
}

/// Assembles a scan's result: the selected rules run on each parsed file (with
/// `None` no rule runs; an empty list of names runs every rule), the files are ordered by path (files of one path
/// keep their order), and the counts are filled in.
pub fn finish_scan(
    root: String,
    total: usize,
    file_indices: Vec<FileIndex>,
    enabled_rules: Option<&[String]>,
) -> (r: ScanResult)
    requires
        file_indices@.len() <= total,
    ensures
        r.ver == 1,
        r@.root == root@,
        r@.errors.len() == 0,
        r.stats == (Stats {
            files: total,
            parsed: file_indices@.len() as usize,
            skipped: (total - file_indices@.len()) as usize,
            errors: files_with_errors(indices_view(file_indices@)) as usize,
        }),
        r.stats.errors <= r.stats.parsed,
        stably_sorted_from(
            r@.file_indices,
            with_rules(rule_selection(enabled_rules), indices_view(file_indices@)),
        ),
{
    let ghost input = indices_view(file_indices@);
    let ghost ruled = with_rules(rule_selection(enabled_rules), input);
    let parsed = file_indices.len();
    let mut errors: usize = 0;
    let mut i: usize = 0;
    while i < parsed
        invariant
            i <= parsed,
            parsed == file_indices@.len(),
            input == indices_view(file_indices@),
            errors == files_with_errors(input.take(i as int)),
            errors <= i,
        decreases parsed - i,
    {
        assert(input.take(i + 1).drop_last() =~= input.take(i as int));
        if file_indices[i].parse_errors > 0 {
            errors = errors + 1;
        }
        i = i + 1;
    }
    assert(input.take(parsed as int) =~= input);
    let mut remaining = file_indices;
    let mut out: Vec<FileIndex> = Vec::new();
    assert(ruled.skip(parsed as int).len() == 0);
    assert forall|p: Seq<char>| #[trigger] with_path(indices_view(out@), p)
        == with_path(ruled.skip(parsed as int), p) by {
        assert(indices_view(out@) =~= ruled.skip(parsed as int));
    }
    while remaining.len() > 0
        invariant
            remaining@.len() <= parsed,
            ruled.len() == parsed,
            ruled == with_rules(rule_selection(enabled_rules), input),
            indices_view(remaining@) == input.take(remaining@.len() as int),
            input.len() == parsed,
            sorted_by_path(indices_view(out@)),
            forall|p: Seq<char>| #[trigger] with_path(indices_view(out@), p)
                == with_path(ruled.skip(remaining@.len() as int), p),
        decreases remaining@.len(),
    {
        let ghost m = remaining@.len() as int;
        let ghost before_out = indices_view(out@);
        let mut fi = remaining.pop().unwrap();
        assert(input.take(m)[m - 1] == input[m - 1]);
        assert(indices_view(remaining@) =~= input.take(m - 1));
        assert(fi@ == input[m - 1]);
        match enabled_rules {
            Some(names) => {
                run_rules(names, &mut fi);
                assert(fi@ =~= apply_rules_spec(rule_selection(enabled_rules), input[m - 1]));
            },
            None => {},
        }
        assert(fi@ == ruled[m - 1]);
        insert_by_path(&mut out, fi);
        proof {
            assert(ruled.skip(m - 1) =~= seq![ruled[m - 1]] + ruled.skip(m));
            assert forall|p: Seq<char>| #[trigger] with_path(indices_view(out@), p)
                == with_path(ruled.skip(m - 1), p) by {
                lemma_with_path_concat(seq![ruled[m - 1]], before_out, p);
                lemma_with_path_concat(seq![ruled[m - 1]], ruled.skip(m), p);
            }
        }
    }
    assert(ruled.skip(0) =~= ruled);
    let result = ScanResult {
        ver: 1,
        root,
        stats: Stats { files: total, parsed, skipped: total - parsed, errors },
        file_indices: out,
        errors: Vec::new(),
    };
    assert(result@.errors =~= Seq::<Seq<char>>::empty());
    result
}

/// Whether a file of the result has a violation.
pub open spec fn has_violations_spec(r: ScanResultView) -> bool {
    exists|i: int| 0 <= i < r.file_indices.len() && (#[trigger] r.file_indices[i]).violations.len() > 0
}

pub fn has_violations(r: &ScanResult) -> (b: bool)
    ensures
        b == has_violations_spec(r@),
{
    let n = r.file_indices.len();
    let mut i: usize = 0;
    while i < n
        invariant
            n == r.file_indices@.len(),
            i <= n,
            forall|k: int| 0 <= k < i ==> (#[trigger] r@.file_indices[k]).violations.len() == 0,
        decreases n - i,
    {
        if r.file_indices[i].violations.len() > 0 {
            assert(r@.file_indices[i as int].violations.len() > 0);
            return true;
        }
        assert(r@.file_indices[i as int].violations.len() == 0);
        i = i + 1;
    }
    false
}

/// The exit status of the rules command: 1 when a violation was found, 0 otherwise.
pub fn rules_exit_code(r: &ScanResult) -> (code: u8)
    ensures
        code == if has_violations_spec(r@) {
            1u8
        } else {
            0u8
        },
{
    if has_violations(r) {
        1
    } else {
        0
    }
}

proof fn lemma_with_path_nonempty(s: Seq<FileIndexView>, p: Seq<char>)
    requires
        with_path(s, p).len() > 0,
    ensures
        exists|k: int| 0 <= k < s.len() && (#[trigger] s[k]).path == p,
    decreases s.len(),
{
    if s.len() > 0 && s.last().path != p {
        lemma_with_path_nonempty(s.drop_last(), p);
        let k = choose|k: int| 0 <= k < s.drop_last().len() && (#[trigger] s.drop_last()[k]).path == p;
        assert(s[k] == s.drop_last()[k]);
    } else if s.len() > 0 {
        assert(s[s.len() - 1].path == p);
    }
}

proof fn lemma_with_path_has(s: Seq<FileIndexView>, k: int)
    requires
        0 <= k < s.len(),
    ensures
        with_path(s, s[k].path).len() > 0,
    decreases s.len(),
{
    if k < s.len() - 1 {
        lemma_with_path_has(s.drop_last(), k);
        assert(s.drop_last()[k] == s[k]);
    }
}

proof fn lemma_chars_le_antisymmetric(a: Seq<char>, b: Seq<char>)
    requires
        chars_le(a, b),
        chars_le(b, a),
    ensures
        a == b,
{
    lemma_chars_lt_asymmetric(a, b);
}

proof fn lemma_last_paths_equal(a: Seq<FileIndexView>, b: Seq<FileIndexView>)
    requires
        a.len() > 0,
        b.len() > 0,
        sorted_by_path(a),
        sorted_by_path(b),
        with_path(a, a.last().path) == with_path(b, a.last().path),
        with_path(a, b.last().path) == with_path(b, b.last().path),
    ensures
        a.last().path == b.last().path,
{
    let la = a.last();
    let lb = b.last();
    lemma_with_path_has(a, a.len() - 1);
    lemma_with_path_has(b, b.len() - 1);
    lemma_with_path_nonempty(b, la.path);
    lemma_with_path_nonempty(a, lb.path);
    let kb = choose|k: int| 0 <= k < b.len() && (#[trigger] b[k]).path == la.path;
    let ka = choose|k: int| 0 <= k < a.len() && (#[trigger] a[k]).path == lb.path;
    if kb < b.len() - 1 {
        assert(chars_le(b[kb].path, b[b.len() - 1].path));
    }
    if ka < a.len() - 1 {
        assert(chars_le(a[ka].path, a[a.len() - 1].path));
    }
    lemma_chars_le_antisymmetric(la.path, lb.path);
}

proof fn lemma_drop_last_same(a: Seq<FileIndexView>, b: Seq<FileIndexView>, q: Seq<char>, p: Seq<char>)
    requires
        a.len() > 0,
        b.len() > 0,
        a.last().path == q,
        b.last().path == q,
        with_path(a, p) == with_path(b, p),
    ensures
        with_path(a.drop_last(), p) == with_path(b.drop_last(), p),
{
    if p == q {
        assert(with_path(a.drop_last(), p) =~= with_path(a, p).drop_last());
        assert(with_path(b.drop_last(), p) =~= with_path(b, p).drop_last());
    }
}

/// The order of a scan's files is determined: two orderings by path that keep,
/// for every path, the same files in the same order are the same ordering.
pub proof fn lemma_stably_sorted_unique(a: Seq<FileIndexView>, b: Seq<FileIndexView>)
    requires
        sorted_by_path(a),
        sorted_by_path(b),
        forall|p: Seq<char>| #[trigger] with_path(a, p) == with_path(b, p),
    ensures
        a == b,
    decreases a.len() + b.len(),
{
    if a.len() == 0 && b.len() == 0 {
        assert(a =~= b);
    } else if a.len() == 0 {
        lemma_with_path_has(b, 0);
        assert(with_path(a, b[0].path) == with_path(b, b[0].path));
    } else if b.len() == 0 {
        lemma_with_path_has(a, 0);
        assert(with_path(a, a[0].path) == with_path(b, a[0].path));
    } else {
        let la = a.last();
        let lb = b.last();
        assert(with_path(a, la.path) == with_path(b, la.path));
        assert(with_path(a, lb.path) == with_path(b, lb.path));
        lemma_last_paths_equal(a, b);
        let p0 = la.path;
        assert(la == with_path(a, p0).last());
        assert(lb == with_path(b, p0).last());
        let a2 = a.drop_last();
        let b2 = b.drop_last();
        assert forall|p: Seq<char>| #[trigger] with_path(a2, p) == with_path(b2, p) by {
            lemma_drop_last_same(a, b, p0, p);
        }
        assert forall|i: int, j: int| 0 <= i < j < a2.len() implies chars_le(#[trigger] a2[i].path, #[trigger] a2[j].path) by {
            assert(a2[i] == a[i] && a2[j] == a[j]);
        }
        assert forall|i: int, j: int| 0 <= i < j < b2.len() implies chars_le(#[trigger] b2[i].path, #[trigger] b2[j].path) by {
            assert(b2[i] == b[i] && b2[j] == b[j]);
        }
        lemma_stably_sorted_unique(a2, b2);
        assert(a =~= a2.push(la));
        assert(b =~= b2.push(lb));
    }
}

/// A scan's file order does not depend on the order its files were parsed in:
/// inputs that hold, for every path, the same files in the same order give the
/// same result order.
pub proof fn lemma_scan_order_deterministic(
    out1: Seq<FileIndexView>,
    in1: Seq<FileIndexView>,
    out2: Seq<FileIndexView>,
    in2: Seq<FileIndexView>,
)
    requires
        stably_sorted_from(out1, in1),
        stably_sorted_from(out2, in2),
        forall|p: Seq<char>| #[trigger] with_path(in1, p) == with_path(in2, p),
    ensures
        out1 == out2,
{
    assert forall|p: Seq<char>| #[trigger] with_path(out1, p) == with_path(out2, p) by {
        assert(with_path(out1, p) == with_path(in1, p));
        assert(with_path(out2, p) == with_path(in2, p));
    }
    lemma_stably_sorted_unique(out1, out2);
}

} // verus!
