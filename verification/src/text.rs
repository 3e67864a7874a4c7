//! Character-level helpers on strings: ordering, prefixes, trimming and
//! ASCII case folding, each stated over the `Seq<char>` view of a string.
use vstd::prelude::*;
use vstd::string::StrSliceExecFns;
use vstd::string::StringExecFns;

verus! {

broadcast use vstd::string::group_string_axioms;

/// Result of comparing two strings.
#[derive(Debug, Clone, Copy, PartialEq, Eq, Structural)]
pub enum Order {
    Less,
    Equal,
    Greater,
}

/// Lexicographic order on character sequences: the order of `String`,
/// since UTF-8 byte order agrees with code point order.
pub open spec fn chars_lt(a: Seq<char>, b: Seq<char>) -> bool
    decreases a.len(),
{
    if a.len() == 0 {
        b.len() > 0
    } else if b.len() == 0 {
        false
    } else if a[0] < b[0] {
        true
    } else if a[0] > b[0] {
        false
    } else {
        chars_lt(a.drop_first(), b.drop_first())
    }
}

/// `a` comes before `b` or equals it.
pub open spec fn chars_le(a: Seq<char>, b: Seq<char>) -> bool {
    a == b || chars_lt(a, b)
}

/// A sequence of strings in strictly increasing order (sorted, no repeats).
pub open spec fn strictly_sorted(s: Seq<Seq<char>>) -> bool {
    forall|i: int, j: int| 0 <= i < j < s.len() ==> chars_lt(#[trigger] s[i], #[trigger] s[j])
}

/// The views of a sequence of strings.
pub open spec fn strs_view(v: Seq<String>) -> Seq<Seq<char>> {
    v.map_values(|s: String| s@)
}

/// The code point of `c` with an ASCII upper-case letter folded to lower case;
/// every other character keeps its own code point.
pub open spec fn ascii_lower(c: char) -> u32 {
    if 'A' <= c && c <= 'Z' {
        ((c as u32) + 32) as u32
    } else {
        c as u32
    }
}

/// Equality after folding ASCII letters to lower case.
pub open spec fn eq_ignore_ascii_case_spec(a: Seq<char>, b: Seq<char>) -> bool {
    a.len() == b.len() && forall|i: int| 0 <= i < a.len() ==> ascii_lower(#[trigger] a[i])
        == ascii_lower(b[i])
}

/// Number of copies of `c` at the start of `s`.
pub open spec fn leading_count(s: Seq<char>, c: char) -> nat
    decreases s.len(),
{
    if s.len() > 0 && s[0] == c {
        1 + leading_count(s.drop_first(), c)
    } else {
        0
    }
}

/// Number of copies of `c` at the end of `s`.
pub open spec fn trailing_count(s: Seq<char>, c: char) -> nat
    decreases s.len(),
{
    if s.len() > 0 && s.last() == c {
        1 + trailing_count(s.drop_last(), c)
    } else {
        0
    }
}

/// `s` with every leading and trailing copy of `c` removed.
pub open spec fn trim_char_spec(s: Seq<char>, c: char) -> Seq<char> {
    let lead = leading_count(s, c);
    if lead == s.len() {
        Seq::empty()
    } else {
        s.subrange(lead as int, s.len() - trailing_count(s, c))
    }
}

/// No string comes before itself.
pub proof fn lemma_chars_lt_irreflexive(a: Seq<char>)
    ensures
        !chars_lt(a, a),
    decreases a.len(),
{
    if a.len() > 0 {
        lemma_chars_lt_irreflexive(a.drop_first());
    }
}

/// Of two strings, at most one comes before the other.
pub proof fn lemma_chars_lt_asymmetric(a: Seq<char>, b: Seq<char>)
    ensures
        chars_lt(a, b) ==> !chars_lt(b, a),
    decreases a.len(),
{
    if a.len() > 0 && b.len() > 0 {
        lemma_chars_lt_asymmetric(a.drop_first(), b.drop_first());
    }
}

/// The order of strings is transitive.
pub proof fn lemma_chars_lt_transitive(a: Seq<char>, b: Seq<char>, c: Seq<char>)
    requires
        chars_lt(a, b),
        chars_lt(b, c),
    ensures
        chars_lt(a, c),
    decreases a.len(),
{
    if a.len() > 0 && b.len() > 0 && c.len() > 0 {
        if a[0] == b[0] && b[0] == c[0] {
            lemma_chars_lt_transitive(a.drop_first(), b.drop_first(), c.drop_first());
        }
    }
}

/// Of two different strings, one comes before the other.
pub proof fn lemma_chars_lt_total(a: Seq<char>, b: Seq<char>)
    ensures
        a == b || chars_lt(a, b) || chars_lt(b, a),
    decreases a.len(),
{
    if a.len() > 0 && b.len() > 0 {
        lemma_chars_lt_total(a.drop_first(), b.drop_first());
        if a[0] == b[0] && a.drop_first() == b.drop_first() {
            assert(a[0] == b[0]);
            assert(a =~= seq![a[0]] + a.drop_first());
            assert(b =~= seq![b[0]] + b.drop_first());
        }
    } else if a.len() == 0 && b.len() == 0 {
        assert(a =~= b);
    }
}

/// In a strictly sorted sequence the order of positions is the order of values.
pub proof fn lemma_strictly_sorted_distinct(s: Seq<Seq<char>>, i: int, j: int)
    requires
        strictly_sorted(s),
        0 <= i < s.len(),
        0 <= j < s.len(),
        i != j,
    ensures
        s[i] != s[j],
{
    if i < j {
        lemma_chars_lt_irreflexive(s[i]);
    } else {
        lemma_chars_lt_irreflexive(s[j]);
    }
}

/// Turns a string slice into the vector of its characters.
pub fn str_chars(s: &str) -> (v: Vec<char>)
    ensures
        v@ == s@,
{
    let mut v: Vec<char> = Vec::new();
    for c in it: s.chars()
        invariant
            v@ == it.seq().take(it.index() as int),
    {
        v.push(c);
    }
    v
}

/// Compares two character sequences lexicographically.
pub fn compare_chars(a: &Vec<char>, b: &Vec<char>) -> (o: Order)
    ensures
        (o == Order::Less) <==> chars_lt(a@, b@),
        (o == Order::Equal) <==> a@ == b@,
        (o == Order::Greater) <==> chars_lt(b@, a@),
{
    let mut i: usize = 0;
    assert(a@.skip(0) =~= a@);
    assert(b@.skip(0) =~= b@);
    while i < a.len() && i < b.len()
        invariant
            i <= a.len(),
            i <= b.len(),
            a@.subrange(0, i as int) == b@.subrange(0, i as int),
            chars_lt(a@, b@) == chars_lt(a@.skip(i as int), b@.skip(i as int)),
            chars_lt(b@, a@) == chars_lt(b@.skip(i as int), a@.skip(i as int)),
        decreases a.len() - i,
    {
        let ca = a[i];
        let cb = b[i];
        assert(a@.skip(i as int)[0] == ca);
        assert(b@.skip(i as int)[0] == cb);
        if ca < cb {
            proof {
                lemma_chars_lt_asymmetric(a@, b@);
                lemma_chars_lt_irreflexive(a@);
            }
            return Order::Less;
        }
        if ca > cb {
            proof {
                lemma_chars_lt_asymmetric(a@, b@);
                lemma_chars_lt_irreflexive(a@);
            }
            return Order::Greater;
        }
        assert(a@.skip(i as int).drop_first() =~= a@.skip(i + 1));
        assert(b@.skip(i as int).drop_first() =~= b@.skip(i + 1));
        assert(ca == cb);
        assert(a@.subrange(0, i + 1) =~= a@.subrange(0, i as int).push(ca));
        assert(b@.subrange(0, i + 1) =~= b@.subrange(0, i as int).push(cb));
        i = i + 1;
    }
    proof {
        lemma_chars_lt_irreflexive(a@);
        lemma_chars_lt_asymmetric(a@, b@);
    }
    if a.len() == b.len() {
        assert(a@ =~= a@.subrange(0, i as int));
        assert(b@ =~= b@.subrange(0, i as int));
        Order::Equal
    } else if a.len() < b.len() {
        assert(a@.skip(i as int).len() == 0);
        Order::Less
    } else {
        assert(b@.skip(i as int).len() == 0);
        Order::Greater
    }
}

/// Compares two strings in the order of `String`.
pub fn compare_str(a: &str, b: &str) -> (o: Order)
    ensures
        (o == Order::Less) <==> chars_lt(a@, b@),
        (o == Order::Equal) <==> a@ == b@,
        (o == Order::Greater) <==> chars_lt(b@, a@),
{
    let va = str_chars(a);
    let vb = str_chars(b);
    compare_chars(&va, &vb)
}

/// Whether two strings hold the same characters.
pub fn str_eq(a: &str, b: &str) -> (r: bool)
    ensures
        r == (a@ == b@),
{
    compare_str(a, b) == Order::Equal
}

/// Whether `s` begins with `prefix`.
pub fn starts_with_str(s: &str, prefix: &str) -> (r: bool)
    ensures
        r == prefix@.is_prefix_of(s@),
{
    let vs = str_chars(s);
    let vp = str_chars(prefix);
    if vp.len() > vs.len() {
        return false;
    }
    let mut i: usize = 0;
    while i < vp.len()
        invariant
            vp.len() <= vs.len(),
            i <= vp.len(),
            vp@ == prefix@,
            vs@ == s@,
            forall|k: int| 0 <= k < i ==> vp@[k] == vs@[k],
        decreases vp.len() - i,
    {
        if vp[i] != vs[i] {
            return false;
        }
        i = i + 1;
    }
    assert(prefix@ =~= s@.subrange(0, prefix@.len() as int));
    true
}

/// Whether `s` begins with the character `c`.
pub fn starts_with_char(s: &str, c: char) -> (r: bool)
    ensures
        r == (s@.len() > 0 && s@[0] == c),
{
    let vs = str_chars(s);
    vs.len() > 0 && vs[0] == c
}

/// The code point of `c` after ASCII lower-casing.
pub fn char_ascii_lower(c: char) -> (r: u32)
    ensures
        r == ascii_lower(c),
{
    if 'A' <= c && c <= 'Z' {
        (c as u32) + 32
    } else {
        c as u32
    }
}

/// Equality of two strings when ASCII letters are compared without case.
pub fn eq_ignore_ascii_case(a: &str, b: &str) -> (r: bool)
    ensures
        r == eq_ignore_ascii_case_spec(a@, b@),
{
    let va = str_chars(a);
    let vb = str_chars(b);
    if va.len() != vb.len() {
        return false;
    }
    let mut i: usize = 0;
    while i < va.len()
        invariant
            va.len() == vb.len(),
            i <= va.len(),
            va@ == a@,
            vb@ == b@,
            forall|k: int| 0 <= k < i ==> ascii_lower(#[trigger] va@[k]) == ascii_lower(vb@[k]),
        decreases va.len() - i,
    {
        if char_ascii_lower(va[i]) != char_ascii_lower(vb[i]) {
            return false;
        }
        i = i + 1;
    }
    true
}

proof fn lemma_leading_count_from(s: Seq<char>, c: char, i: int)
    requires
        0 <= i <= s.len(),
        forall|k: int| 0 <= k < i ==> s[k] == c,
        i == s.len() || s[i] != c,
    ensures
        leading_count(s, c) == i,
    decreases s.len(),
{
    if i > 0 {
        lemma_leading_count_from(s.drop_first(), c, i - 1);
    }
}

proof fn lemma_trailing_count_from(s: Seq<char>, c: char, n: int)
    requires
        0 <= n <= s.len(),
        forall|k: int| s.len() - n <= k < s.len() ==> s[k] == c,
        n == s.len() || s[s.len() - n - 1] != c,
    ensures
        trailing_count(s, c) == n,
    decreases s.len(),
{
    if n > 0 {
        lemma_trailing_count_from(s.drop_last(), c, n - 1);
    }
}


/// `s` with every leading and trailing copy of `c` removed (as `str::trim_matches`
/// with a character pattern).
pub fn trim_char(s: &str, c: char) -> (r: String)
    ensures
        r@ == trim_char_spec(s@, c),
{
    let v = str_chars(s);
    let mut lead: usize = 0;
    while lead < v.len() && v[lead] == c
        invariant
            lead <= v.len(),
            forall|k: int| 0 <= k < lead ==> v@[k] == c,
        decreases v.len() - lead,
    {
        lead = lead + 1;
    }
    proof {
        lemma_leading_count_from(v@, c, lead as int);
    }
    if lead == v.len() {
        return String::new();
    }
    let mut end: usize = v.len();
    while end > lead && v[end - 1] == c
        invariant
            lead < v.len(),
            lead <= end <= v.len(),
            forall|k: int| end <= k < v.len() ==> v@[k] == c,
            v@[lead as int] != c,
        decreases end,
    {
        end = end - 1;
    }
    proof {
        lemma_trailing_count_from(v@, c, v.len() - end);
    }
    String::from_str(s.substring_char(lead, end))
}

/// Position at which `key` belongs in the strictly sorted `keys`: every key before
/// it is smaller, and the key there, if any, is not smaller.
pub fn sorted_position(keys: &Vec<String>, key: &str) -> (r: (usize, bool))
    requires
        strictly_sorted(strs_view(keys@)),
    ensures
        r.0 <= keys@.len(),
        forall|k: int| 0 <= k < r.0 ==> chars_lt(#[trigger] keys@[k]@, key@),
        forall|k: int| r.0 <= k < keys@.len() ==> chars_le(key@, #[trigger] keys@[k]@),
        r.1 <==> (r.0 < keys@.len() && keys@[r.0 as int]@ == key@),
        r.1 <==> strs_view(keys@).contains(key@),
{
    let mut i: usize = 0;
    while i < keys.len() && compare_str(keys[i].as_str(), key) == Order::Less
        invariant
            i <= keys@.len(),
            strictly_sorted(strs_view(keys@)),
            forall|k: int| 0 <= k < i ==> chars_lt(#[trigger] keys@[k]@, key@),
        decreases keys.len() - i,
    {
        i = i + 1;
    }
    let found = i < keys.len() && str_eq(keys[i].as_str(), key);
    proof {
        let sv = strs_view(keys@);
        if i < keys.len() {
            assert(!chars_lt(keys@[i as int]@, key@));
            lemma_chars_lt_total(keys@[i as int]@, key@);
            assert forall|k: int| i <= k < keys@.len() implies chars_le(key@, #[trigger] keys@[k]@) by {
                if k > i {
                    assert(chars_lt(sv[i as int], sv[k]));
                    if keys@[i as int]@ != key@ {
                        lemma_chars_lt_transitive(key@, keys@[i as int]@, keys@[k]@);
                    }
                }
            }
        }
        if sv.contains(key@) {
            let k = choose|k: int| 0 <= k < sv.len() && sv[k] == key@;
            if k < i {
                lemma_chars_lt_irreflexive(key@);
            } else if k > i {
                assert(chars_lt(sv[i as int], sv[k]));
                lemma_chars_lt_asymmetric(key@, sv[i as int]);
                lemma_chars_lt_irreflexive(key@);
            }
        }
        if found {
            assert(sv[i as int] == key@);
        }
    }
    (i, found)
}

/// Adds `s` to the strictly sorted `v` unless it is already there.
pub fn insert_sorted_unique(v: &mut Vec<String>, s: String)
    requires
        strictly_sorted(strs_view(old(v)@)),
    ensures
        strictly_sorted(strs_view(final(v)@)),
        strs_view(final(v)@).to_set() == strs_view(old(v)@).to_set().insert(s@),
{
    let (pos, found) = sorted_position(v, s.as_str());
    if found {
        proof {
            assert(strs_view(v@).to_set().contains(s@));
            assert(strs_view(v@).to_set().insert(s@) =~= strs_view(v@).to_set());
        }
        return;
    }
    let ghost old_v = strs_view(v@);
    let ghost sv = s@;
    v.insert(pos, s);
    proof {
        let nv = strs_view(v@);
        assert(nv =~= old_v.insert(pos as int, sv));
        assert forall|i: int, j: int| 0 <= i < j < nv.len() implies chars_lt(
            #[trigger] nv[i],
            #[trigger] nv[j],
        ) by {
            if j < pos {
            } else if j == pos {
                assert(nv[i] == old_v[i]);
            } else if i == pos {
                assert(nv[j] == old_v[j - 1]);
                assert(old_v[j - 1] != sv);
            } else if i < pos {
                assert(nv[i] == old_v[i]);
                assert(nv[j] == old_v[j - 1]);
                assert(chars_lt(old_v[i], old_v[j - 1]));
            } else {
                assert(nv[i] == old_v[i - 1]);
                assert(nv[j] == old_v[j - 1]);
            }
        }
        assert forall|x: Seq<char>| nv.to_set().contains(x) <==> old_v.to_set().insert(
            sv,
        ).contains(x) by {
            if nv.contains(x) {
                let k = choose|k: int| 0 <= k < nv.len() && nv[k] == x;
                if k < pos {
                    assert(old_v[k] == x);
                } else if k > pos {
                    assert(old_v[k - 1] == x);
                }
            }
            if old_v.contains(x) {
                let k = choose|k: int| 0 <= k < old_v.len() && old_v[k] == x;
                if k < pos {
                    assert(nv[k] == x);
                } else {
                    assert(nv[k + 1] == x);
                }
            }
            if x == sv {
                assert(nv[pos as int] == x);
            }
        }
        assert(nv.to_set() =~= old_v.to_set().insert(sv));
    }
}

} // verus!
