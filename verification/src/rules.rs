//! Lint rules over a file's index, and running a chosen set of them.
use vstd::prelude::*;
use vstd::string::StringExecFns;

use crate::index::{
    opt_violation_view, BindingInfoView, BindingKind, FileIndex, FileIndexView,
    FunctionInfoView, Violation, ViolationView,
};
use crate::text::{starts_with_char, starts_with_str, str_eq, strs_view};

verus! {

/// A check over one file's index that may report a violation.
pub trait Rule {
    /// The rule's name, as given on the command line and in violations.
    spec fn rule_name(&self) -> Seq<char>;

    /// What the rule reports for an index.
    spec fn rule_check(&self, index: FileIndexView) -> Option<ViolationView>;

    fn name(&self) -> (r: &'static str)
        ensures
            r@ == self.rule_name(),
    ;

    fn check(&self, index: &FileIndex) -> (r: Option<Violation>)
        ensures
            opt_violation_view(r) == self.rule_check(index@),
    ;
}

// ── no_unused_bindings ───────────────────────────────────────────

/// A binding nothing refers to, not named with a leading `_`, and not an import.
pub open spec fn is_unused_binding(b: BindingInfoView) -> bool {
    &&& b.refs == 0
    &&& !(b.name.len() > 0 && b.name[0] == '_')
    &&& b.kind != BindingKind::Import
}

/// The names of the unused bindings, in order.
pub open spec fn unused_binding_names(bs: Seq<BindingInfoView>) -> Seq<Seq<char>>
    decreases bs.len(),
{
    if bs.len() == 0 {
        Seq::empty()
    } else {
        let prev = unused_binding_names(bs.drop_last());
        if is_unused_binding(bs.last()) {
            prev.push(bs.last().name)
        } else {
            prev
        }
    }
}

/// The names of the named functions, in order.
pub open spec fn function_names(fs: Seq<FunctionInfoView>) -> Seq<Seq<char>>
    decreases fs.len(),
{
    if fs.len() == 0 {
        Seq::empty()
    } else {
        let prev = function_names(fs.drop_last());
        match fs.last().name {
            Some(n) => prev.push(n),
            None => prev,
        }
    }
}

/// How an exported function without a name is listed.
pub open spec fn anonymous_function_name() -> Seq<char> {
    "<anonymous>"@
}

/// The names of the exported functions, in order; one without a name is listed
/// as `<anonymous>`.
pub open spec fn exported_function_names(fs: Seq<FunctionInfoView>) -> Seq<Seq<char>>
    decreases fs.len(),
{
    if fs.len() == 0 {
        Seq::empty()
    } else {
        let prev = exported_function_names(fs.drop_last());
        if fs.last().exported {
            match fs.last().name {
                Some(n) => prev.push(n),
                None => prev.push(anonymous_function_name()),
            }
        } else {
            prev
        }
    }
}

/// Flags bindings with zero references (skips `_`-prefixed names and imports).
#[derive(Debug)]
pub struct NoUnusedBindings;

pub open spec fn no_unused_bindings_name() -> Seq<char> {
    "no_unused_bindings"@
}

impl Rule for NoUnusedBindings {
    open spec fn rule_name(&self) -> Seq<char> {
        no_unused_bindings_name()
    }

    open spec fn rule_check(&self, index: FileIndexView) -> Option<ViolationView> {
        let unused = unused_binding_names(index.bindings);
        if unused.len() == 0 {
            None
        } else {
            Some(
                ViolationView {
                    rule: no_unused_bindings_name(),
                    count: unused.len() as usize,
                    details: unused,
                },
            )
        }
    }

    fn name(&self) -> (r: &'static str) {
        "no_unused_bindings"
    }

    fn check(&self, index: &FileIndex) -> (r: Option<Violation>) {
        let mut unused: Vec<String> = Vec::new();
        let n = index.bindings.len();
        for i in 0..n
            invariant
                n == index.bindings@.len(),
                strs_view(unused@) == unused_binding_names(index@.bindings.take(i as int)),
        {
            let b = &index.bindings[i];
            let ghost bs = index@.bindings;
            assert(bs.take(i + 1).drop_last() =~= bs.take(i as int));
            assert(bs.take(i + 1).last() == b@);
            if b.refs == 0 && !starts_with_char(b.name.as_str(), '_') && !matches!(
                b.kind,
                BindingKind::Import
            ) {
                unused.push(b.name.clone());
                assert(strs_view(unused@) =~= unused_binding_names(bs.take(i + 1)));
            } else {
                assert(strs_view(unused@) =~= unused_binding_names(bs.take(i + 1)));
            }
        }
        assert(index@.bindings.take(n as int) =~= index@.bindings);
        if unused.len() == 0 {
            return None;
        }
        let count = unused.len();
        Some(Violation { rule: String::from_str(self.name()), count, details: unused })
    }
}

// ── one_exported_function_per_file ───────────────────────────────

/// Flags files with more than one exported function; with a path prefix, only
/// files under it are checked.
#[derive(Debug)]
pub struct OneExportedFunctionPerFile {
    pub path_prefix: Option<String>,
}

pub open spec fn one_exported_function_per_file_name() -> Seq<char> {
    "one_exported_function_per_file"@
}

impl Rule for OneExportedFunctionPerFile {
    open spec fn rule_name(&self) -> Seq<char> {
        one_exported_function_per_file_name()
    }

    open spec fn rule_check(&self, index: FileIndexView) -> Option<ViolationView> {
        let names = exported_function_names(index.functions);
        let in_scope = match self.path_prefix {
            Some(prefix) => prefix@.is_prefix_of(index.path),
            None => true,
        };
        if !in_scope || names.len() <= 1 {
            None
        } else {
            Some(
                ViolationView {
                    rule: one_exported_function_per_file_name(),
                    count: names.len() as usize,
                    details: names,
                },
            )
        }
    }

    fn name(&self) -> (r: &'static str) {
        "one_exported_function_per_file"
    }

    fn check(&self, index: &FileIndex) -> (r: Option<Violation>) {
        if let Some(prefix) = &self.path_prefix {
            if !starts_with_str(index.path.as_str(), prefix.as_str()) {
                return None;
            }
        }
        let mut names: Vec<String> = Vec::new();
        let n = index.functions.len();
        for i in 0..n
            invariant
                n == index.functions@.len(),
                strs_view(names@) == exported_function_names(index@.functions.take(i as int)),
        {
            let f = &index.functions[i];
            let ghost fs = index@.functions;
            assert(fs.take(i + 1).drop_last() =~= fs.take(i as int));
            assert(fs.take(i + 1).last() == f@);
            if f.exported {
                match &f.name {
                    Some(name) => {
                        names.push(name.clone());
                    },
                    None => {
                        names.push(String::from_str("<anonymous>"));
                    },
                }
            }
            assert(strs_view(names@) =~= exported_function_names(fs.take(i + 1)));
        }
        assert(index@.functions.take(n as int) =~= index@.functions);
        if names.len() <= 1 {
            return None;
        }
        let count = names.len();
        Some(Violation { rule: String::from_str(self.name()), count, details: names })
    }
}

// ── max_functions_per_file ───────────────────────────────────────

/// Flags files with more than `max` functions.
#[derive(Debug)]
pub struct MaxFunctionsPerFile {
    pub max: usize,
}

pub open spec fn max_functions_per_file_name() -> Seq<char> {
    "max_functions_per_file"@
}

impl Rule for MaxFunctionsPerFile {
    open spec fn rule_name(&self) -> Seq<char> {
        max_functions_per_file_name()
    }

    open spec fn rule_check(&self, index: FileIndexView) -> Option<ViolationView> {
        let count = index.functions.len();
        if count <= self.max {
            None
        } else {
            Some(
                ViolationView {
                    rule: max_functions_per_file_name(),
                    count: count as usize,
                    details: function_names(index.functions),
                },
            )
        }
    }

    fn name(&self) -> (r: &'static str) {
        "max_functions_per_file"
    }

    fn check(&self, index: &FileIndex) -> (r: Option<Violation>) {
        let count = index.functions.len();
        if count <= self.max {
            return None;
        }
        let mut names: Vec<String> = Vec::new();
        for i in 0..count
            invariant
                count == index.functions@.len(),
                strs_view(names@) == function_names(index@.functions.take(i as int)),
        {
            let f = &index.functions[i];
            let ghost fs = index@.functions;
            assert(fs.take(i + 1).drop_last() =~= fs.take(i as int));
            assert(fs.take(i + 1).last() == f@);
            match &f.name {
                Some(name) => {
                    names.push(name.clone());
                },
                None => {},
            }
            assert(strs_view(names@) =~= function_names(fs.take(i + 1)));
        }
        assert(index@.functions.take(count as int) =~= index@.functions);
        Some(Violation { rule: String::from_str(self.name()), count, details: names })
    }
}

// ── Rule registry ────────────────────────────────────────────────

/// One of the rules this library provides.
#[derive(Debug)]
pub enum BuiltinRule {
    NoUnusedBindings(NoUnusedBindings),
    OneExportedFunctionPerFile(OneExportedFunctionPerFile),
    MaxFunctionsPerFile(MaxFunctionsPerFile),
}

impl Rule for BuiltinRule {
    open spec fn rule_name(&self) -> Seq<char> {
        match self {
            BuiltinRule::NoUnusedBindings(r) => r.rule_name(),
            BuiltinRule::OneExportedFunctionPerFile(r) => r.rule_name(),
            BuiltinRule::MaxFunctionsPerFile(r) => r.rule_name(),
        }
    }

    open spec fn rule_check(&self, index: FileIndexView) -> Option<ViolationView> {
        match self {
            BuiltinRule::NoUnusedBindings(r) => r.rule_check(index),
            BuiltinRule::OneExportedFunctionPerFile(r) => r.rule_check(index),
            BuiltinRule::MaxFunctionsPerFile(r) => r.rule_check(index),
        }
    }

    fn name(&self) -> (r: &'static str) {
        match self {
            BuiltinRule::NoUnusedBindings(r) => r.name(),
            BuiltinRule::OneExportedFunctionPerFile(r) => r.name(),
            BuiltinRule::MaxFunctionsPerFile(r) => r.name(),
        }
    }

    fn check(&self, index: &FileIndex) -> (r: Option<Violation>) {
        match self {
            BuiltinRule::NoUnusedBindings(r) => r.check(index),
            BuiltinRule::OneExportedFunctionPerFile(r) => r.check(index),
            BuiltinRule::MaxFunctionsPerFile(r) => r.check(index),
        }
    }
}

/// The rules this library provides, in the order they run.
pub open spec fn builtin_rules() -> Seq<BuiltinRule> {
    seq![
        BuiltinRule::NoUnusedBindings(NoUnusedBindings),
        BuiltinRule::OneExportedFunctionPerFile(OneExportedFunctionPerFile { path_prefix: None }),
        BuiltinRule::MaxFunctionsPerFile(MaxFunctionsPerFile { max: 20 }),
    ]
}

pub fn all_rules() -> (r: Vec<BuiltinRule>)
    ensures
        r@ == builtin_rules(),
{
    let mut r: Vec<BuiltinRule> = Vec::new();
    r.push(BuiltinRule::NoUnusedBindings(NoUnusedBindings));
    r.push(BuiltinRule::OneExportedFunctionPerFile(OneExportedFunctionPerFile { path_prefix: None }));
    r.push(BuiltinRule::MaxFunctionsPerFile(MaxFunctionsPerFile { max: 20 }));
    assert(r@ =~= builtin_rules());
    r
}

/// A rule runs when no rules are named or when it is among those named.
pub open spec fn rule_enabled(enabled: Seq<Seq<char>>, name: Seq<char>) -> bool {
    enabled.len() == 0 || enabled.contains(name)
}

/// The violations that the enabled ones among `rules` report for `index`, in rule order.
pub open spec fn rule_violations(
    rules: Seq<BuiltinRule>,
    enabled: Seq<Seq<char>>,
    index: FileIndexView,
) -> Seq<ViolationView>
    decreases rules.len(),
{
    if rules.len() == 0 {
        Seq::empty()
    } else {
        let prev = rule_violations(rules.drop_last(), enabled, index);
        let r = rules.last();
        if rule_enabled(enabled, r.rule_name()) {
            match r.rule_check(index) {
                Some(v) => prev.push(v),
                None => prev,
            }
        } else {
            prev
        }
    }
}

/// Whether `name` is one of `names`.
fn contains_name(names: &[String], name: &str) -> (r: bool)
    ensures
        r == strs_view(names@).contains(name@),
{
    let mut i: usize = 0;
    while i < names.len()
        invariant
            i <= names@.len(),
            forall|k: int| 0 <= k < i ==> names@[k]@ != name@,
        decreases names.len() - i,
    {
        if str_eq(names[i].as_str(), name) {
            assert(strs_view(names@)[i as int] == name@);
            return true;
        }
        i = i + 1;
    }
    proof {
        if strs_view(names@).contains(name@) {
            let k = choose|k: int| 0 <= k < strs_view(names@).len() && strs_view(names@)[k] == name@;
            assert(names@[k]@ == name@);
        }
    }
    false
}

/// A rule's report depends on the functions, bindings and path of an index only.
proof fn lemma_check_ignores_violations(r: BuiltinRule, a: FileIndexView, b: FileIndexView)
    requires
        a.functions == b.functions,
        a.bindings == b.bindings,
        a.path == b.path,
    ensures
        r.rule_check(a) == r.rule_check(b),
{
}

/// Runs the enabled rules (all of them when `enabled` is empty) on `index` and
/// appends what they report to its violations.
pub fn run_rules(enabled: &[String], index: &mut FileIndex)
    ensures
        final(index)@.path == old(index)@.path,
        final(index)@.functions == old(index)@.functions,
        final(index)@.bindings == old(index)@.bindings,
        final(index)@.exports == old(index)@.exports,
        final(index)@.parse_errors == old(index)@.parse_errors,
        final(index)@.violations == old(index)@.violations + rule_violations(
            builtin_rules(),
            strs_view(enabled@),
            old(index)@,
        ),
{
    let rules = all_rules();
    let ghost names = strs_view(enabled@);
    let ghost start = index@;
    let n = rules.len();
    for i in 0..n
        invariant
            n == rules@.len(),
            rules@ == builtin_rules(),
            names == strs_view(enabled@),
            index@.path == start.path,
            index@.functions == start.functions,
            index@.bindings == start.bindings,
            index@.exports == start.exports,
            index@.parse_errors == start.parse_errors,
            index@.violations == start.violations + rule_violations(
                rules@.take(i as int),
                names,
                start,
            ),
    {
        let rule = &rules[i];
        let ghost pre = index@.violations;
        assert(rules@.take(i + 1).drop_last() =~= rules@.take(i as int));
        assert(rules@.take(i + 1).last() == *rule);
        let active = enabled.len() == 0 || contains_name(enabled, rule.name());
        if active {
            proof {
                lemma_check_ignores_violations(*rule, index@, start);
            }
            match rule.check(index) {
                Some(v) => {
                    index.violations.push(v);
                    assert(index@.violations =~= pre.push(v@));
                },
                None => {},
            }
        }
        assert(index@.violations =~= start.violations + rule_violations(
            rules@.take(i + 1),
            names,
            start,
        ));
    }
    assert(rules@.take(n as int) =~= rules@);
}

/// Every violation that the unused-bindings and exported-functions rules report
/// counts exactly the names it lists; the function-count rule counts all the
/// functions of the file, which are more than its limit.
pub proof fn lemma_violation_counts(index: FileIndexView, prefix: Option<String>, max: usize)
    requires
        index.bindings.len() <= usize::MAX,
        index.functions.len() <= usize::MAX,
    ensures
        NoUnusedBindings.rule_check(index) matches Some(v) ==> v.count == v.details.len() && v.count > 0,
        (OneExportedFunctionPerFile { path_prefix: prefix }).rule_check(index) matches Some(v)
            ==> v.count == v.details.len() && v.count > 1,
        (MaxFunctionsPerFile { max }).rule_check(index) matches Some(v) ==> v.count
            == index.functions.len() && v.count > max,
{
    lemma_names_bounded(index);
}

proof fn lemma_names_bounded(index: FileIndexView)
    ensures
        unused_binding_names(index.bindings).len() <= index.bindings.len(),
        exported_function_names(index.functions).len() <= index.functions.len(),
{
    lemma_unused_names_len(index.bindings);
    lemma_exported_names_len(index.functions);
}

proof fn lemma_unused_names_len(bs: Seq<BindingInfoView>)
    ensures
        unused_binding_names(bs).len() <= bs.len(),
    decreases bs.len(),
{
    if bs.len() > 0 {
        lemma_unused_names_len(bs.drop_last());
    }
}

proof fn lemma_exported_names_len(fs: Seq<FunctionInfoView>)
    ensures
        exported_function_names(fs).len() <= fs.len(),
    decreases fs.len(),
{
    if fs.len() > 0 {
        lemma_exported_names_len(fs.drop_last());
    }
}

/// The names of the built-in rules, in the order they run.
pub open spec fn builtin_rule_names() -> Seq<Seq<char>> {
    seq![
        no_unused_bindings_name(),
        one_exported_function_per_file_name(),
        max_functions_per_file_name(),
    ]
}

/// Naming no rule runs every rule: it reports what naming all of them reports.
pub proof fn lemma_no_names_runs_all(index: FileIndexView)
    ensures
        rule_violations(builtin_rules(), Seq::empty(), index) == rule_violations(
            builtin_rules(),
            builtin_rule_names(),
            index,
        ),
{
    let rs = builtin_rules();
    let names = builtin_rule_names();
    assert(names[0] == no_unused_bindings_name());
    assert(names[1] == one_exported_function_per_file_name());
    assert(names[2] == max_functions_per_file_name());
    assert(names.contains(rs[0].rule_name()));
    assert(names.contains(rs[1].rule_name()));
    assert(names.contains(rs[2].rule_name()));
    lemma_rule_violations_unfold(index, Seq::empty());
    lemma_rule_violations_unfold(index, names);
}

/// The violations of the built-in rules, rule by rule.
proof fn lemma_rule_violations_unfold(index: FileIndexView, enabled: Seq<Seq<char>>)
    ensures
        rule_violations(builtin_rules(), enabled, index) == rule_violations(
            builtin_rules().take(2),
            enabled,
            index,
        ) + if rule_enabled(enabled, builtin_rules()[2].rule_name()) {
            match builtin_rules()[2].rule_check(index) {
                Some(v) => seq![v],
                None => Seq::empty(),
            }
        } else {
            Seq::empty()
        },
        rule_violations(builtin_rules().take(2), enabled, index) == rule_violations(
            builtin_rules().take(1),
            enabled,
            index,
        ) + if rule_enabled(enabled, builtin_rules()[1].rule_name()) {
            match builtin_rules()[1].rule_check(index) {
                Some(v) => seq![v],
                None => Seq::empty(),
            }
        } else {
            Seq::empty()
        },
        rule_violations(builtin_rules().take(1), enabled, index) == if rule_enabled(
            enabled,
            builtin_rules()[0].rule_name(),
        ) {
            match builtin_rules()[0].rule_check(index) {
                Some(v) => seq![v],
                None => Seq::empty(),
            }
        } else {
            Seq::empty()
        },
{
    let rs = builtin_rules();
    assert(rs.drop_last() =~= rs.take(2));
    assert(rs.take(2).drop_last() =~= rs.take(1));
    assert(rs.take(1).drop_last() =~= rs.take(0));
    assert(rs.take(2).last() == rs[1]);
    assert(rs.take(1).last() == rs[0]);
    assert(rule_violations(rs.take(0), enabled, index) == Seq::<ViolationView>::empty());
    let v2 = rule_violations(rs.take(2), enabled, index);
    let v1 = rule_violations(rs.take(1), enabled, index);
    assert(v2 + Seq::<ViolationView>::empty() =~= v2);
    assert(v1 + Seq::<ViolationView>::empty() =~= v1);
    assert(Seq::<ViolationView>::empty() + Seq::<ViolationView>::empty() =~= Seq::<ViolationView>::empty());
    match rs[2].rule_check(index) {
        Some(v) => {
            assert(v2.push(v) =~= v2 + seq![v]);
        },
        None => {},
    }
    match rs[1].rule_check(index) {
        Some(v) => {
            assert(v1.push(v) =~= v1 + seq![v]);
        },
        None => {},
    }
    match rs[0].rule_check(index) {
        Some(v) => {
            assert(Seq::<ViolationView>::empty().push(v) =~= seq![v]);
        },
        None => {},
    }
}

/// Naming only names that are no rule's runs no rule.
pub proof fn lemma_unknown_names_run_nothing(index: FileIndexView, enabled: Seq<Seq<char>>)
    requires
        enabled.len() > 0,
        forall|i: int| 0 <= i < 3 ==> !enabled.contains(#[trigger] builtin_rule_names()[i]),
    ensures
        rule_violations(builtin_rules(), enabled, index) == Seq::<ViolationView>::empty(),
{
    let names = builtin_rule_names();
    assert(!enabled.contains(names[0]));
    assert(!enabled.contains(names[1]));
    assert(!enabled.contains(names[2]));
    lemma_rule_violations_unfold(index, enabled);
    assert(Seq::<ViolationView>::empty() + Seq::<ViolationView>::empty() =~= Seq::<ViolationView>::empty());
}


/// The position of an unused name among the unused-binding names.
proof fn lemma_unused_name_position(bs: Seq<BindingInfoView>, i: int) -> (m: int)
    requires
        0 <= i < bs.len(),
        is_unused_binding(bs[i]),
    ensures
        0 <= m < unused_binding_names(bs).len(),
        unused_binding_names(bs)[m] == bs[i].name,
    decreases bs.len(),
{
    let p = bs.drop_last();
    if i < p.len() {
        assert(bs[i] == p[i]);
        lemma_unused_name_position(p, i)
    } else {
        unused_binding_names(p).len() as int
    }
}

/// The binding that an unused-binding name comes from.
proof fn lemma_unused_name_source(bs: Seq<BindingInfoView>, m: int) -> (i: int)
    requires
        0 <= m < unused_binding_names(bs).len(),
    ensures
        0 <= i < bs.len(),
        is_unused_binding(bs[i]),
        bs[i].name == unused_binding_names(bs)[m],
    decreases bs.len(),
{
    let p = bs.drop_last();
    if m < unused_binding_names(p).len() {
        let i = lemma_unused_name_source(p, m);
        assert(bs[i] == p[i]);
        i
    } else {
        (bs.len() - 1) as int
    }
}

/// Whether `b` is a binding that nothing refers to, that is not an import, and
/// whose name does not begin with `_`.
pub open spec fn unreferenced_non_import(b: BindingInfoView) -> bool {
    &&& b.refs == 0
    &&& b.kind != BindingKind::Import
    &&& (b.name.len() == 0 || b.name[0] != '_')
}

/// Whether some binding that nothing refers to, not an import and not named with
/// a leading `_`, has the name `name`.
pub open spec fn has_unreferenced_binding(bs: Seq<BindingInfoView>, name: Seq<char>) -> bool {
    exists|i: int| 0 <= i < bs.len() && unreferenced_non_import(#[trigger] bs[i]) && bs[i].name == name
}

/// `no_unused_bindings` reports every binding that nothing refers to, that is
/// not an import and whose name does not begin with `_` (whatever follows its
/// first character), and every name it lists is such a binding's.
pub proof fn lemma_unused_bindings_reported(index: FileIndexView)
    ensures
        forall|i: int|
            0 <= i < index.bindings.len() && unreferenced_non_import(#[trigger] index.bindings[i])
                ==> {
                &&& NoUnusedBindings.rule_check(index) is Some
                &&& NoUnusedBindings.rule_check(index).unwrap().details.contains(
                    index.bindings[i].name,
                )
            },
        NoUnusedBindings.rule_check(index) is Some ==> forall|m: int|
            #![trigger NoUnusedBindings.rule_check(index).unwrap().details[m]]
            0 <= m < NoUnusedBindings.rule_check(index).unwrap().details.len()
                ==> has_unreferenced_binding(
                index.bindings,
                NoUnusedBindings.rule_check(index).unwrap().details[m],
            ),
{
    let bs = index.bindings;
    assert forall|i: int|
        0 <= i < index.bindings.len() && unreferenced_non_import(#[trigger] index.bindings[i])
            implies {
            &&& NoUnusedBindings.rule_check(index) is Some
            &&& NoUnusedBindings.rule_check(index).unwrap().details.contains(index.bindings[i].name)
        } by {
        let m = lemma_unused_name_position(bs, i);
    }
    if NoUnusedBindings.rule_check(index) is Some {
        lemma_unused_names_sources(index);
    }
}

proof fn lemma_unused_names_sources(index: FileIndexView)
    requires
        NoUnusedBindings.rule_check(index) is Some,
    ensures
        forall|m: int|
            #![trigger NoUnusedBindings.rule_check(index).unwrap().details[m]]
            0 <= m < NoUnusedBindings.rule_check(index).unwrap().details.len()
                ==> has_unreferenced_binding(
                index.bindings,
                NoUnusedBindings.rule_check(index).unwrap().details[m],
            ),
{
    let d = NoUnusedBindings.rule_check(index).unwrap().details;
    assert(d == unused_binding_names(index.bindings));
    assert forall|m: int|
        #![trigger NoUnusedBindings.rule_check(index).unwrap().details[m]]
        0 <= m < NoUnusedBindings.rule_check(index).unwrap().details.len() implies has_unreferenced_binding(
            index.bindings,
            NoUnusedBindings.rule_check(index).unwrap().details[m],
        ) by {
        let i = lemma_unused_name_source(index.bindings, m);
        assert(unreferenced_non_import(index.bindings[i]));
    }
}

} // verus!
