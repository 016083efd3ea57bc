//! Version-constraint engine.
//!
//! A constraint is an optional one- or two-character modifier followed by a
//! dotted numeric version `major[.minor[.patch]]`. Absent components default
//! to 0 and non-numeric components compare as 0. The modifiers are `^`
//! (same major), `~` (same major and minor), and the ordinal comparisons
//! `>`, `<`, `>=`, `<=` over the numeric triple; without a modifier the two
//! raw strings must be exactly equal.

use vstd::prelude::*;
use vstd::string::StrSliceExecFns;
use vstd::string::StringExecFns;

verus! {

/// The characters that may carry a constraint modifier; they are stripped
/// from a version string before its numeric components are read.
pub open spec fn is_modifier_char(c: char) -> bool {
    c == '<' || c == '>' || c == '=' || c == '^' || c == '~'
}

/// A version string with every modifier character removed.
pub open spec fn clean_chars(s: Seq<char>) -> Seq<char>
    decreases s.len(),
{
    if s.len() == 0 {
        Seq::<char>::empty()
    } else {
        let rest = clean_chars(s.drop_last());
        if is_modifier_char(s.last()) {
            rest
        } else {
            rest.push(s.last())
        }
    }
}

pub open spec fn is_digit_char(c: char) -> bool {
    '0' <= c && c <= '9'
}

pub open spec fn digit_val(c: char) -> int {
    c as u32 - '0' as u32
}

pub open spec fn all_digits(s: Seq<char>) -> bool {
    forall|i: int| 0 <= i < s.len() ==> is_digit_char(s[i])
}

/// The number written by a digit string, most significant digit first.
pub open spec fn digits_val(s: Seq<char>) -> int
    decreases s.len(),
{
    if s.len() == 0 {
        0
    } else {
        digits_val(s.drop_last()) * 10 + digit_val(s.last())
    }
}

/// A dotted component reads as its number when it is a non-empty digit
/// string whose value fits a `u32`; anything else reads as 0.
pub open spec fn component_val(s: Seq<char>) -> int {
    if s.len() > 0 && all_digits(s) && digits_val(s) <= u32::MAX {
        digits_val(s)
    } else {
        0
    }
}

/// Index of the first `.` of `s`, or `s.len()` when there is none.
pub open spec fn first_dot(s: Seq<char>) -> int
    decreases s.len(),
{
    if s.len() == 0 {
        0
    } else if s[0] == '.' {
        0
    } else {
        1 + first_dot(s.drop_first())
    }
}

/// The leading component of `s`, up to its first dot.
pub open spec fn head_component(s: Seq<char>) -> Seq<char> {
    s.take(first_dot(s))
}

/// What follows the first dot of `s`; empty when `s` has no dot, so that a
/// missing component reads as 0.
pub open spec fn tail_after_dot(s: Seq<char>) -> Seq<char> {
    if first_dot(s) < s.len() {
        s.skip(first_dot(s) + 1)
    } else {
        Seq::<char>::empty()
    }
}

pub open spec fn version_major(s: Seq<char>) -> int {
    component_val(head_component(s))
}

pub open spec fn version_minor(s: Seq<char>) -> int {
    component_val(head_component(tail_after_dot(s)))
}

pub open spec fn version_patch(s: Seq<char>) -> int {
    component_val(head_component(tail_after_dot(tail_after_dot(s))))
}

/// Lexicographic order on the numeric triples of two cleaned version strings.
pub open spec fn version_lt(a: Seq<char>, b: Seq<char>) -> bool {
    ||| version_major(a) < version_major(b)
    ||| (version_major(a) == version_major(b) && version_minor(a) < version_minor(b))
    ||| (version_major(a) == version_major(b) && version_minor(a) == version_minor(b)
        && version_patch(a) < version_patch(b))
}

/// Whether the version `provided` satisfies the constraint `required`.
/// An empty constraint satisfies nothing; `^` asks for the same major,
/// `~` for the same major and minor, the ordinal modifiers compare the
/// numeric triples, and any other shape asks for exact string equality.
pub open spec fn evaluate(required: Seq<char>, provided: Seq<char>) -> bool {
    if required.len() == 0 {
        false
    } else {
        let creq = clean_chars(required);
        let cprov = clean_chars(provided);
        if required[0] == '^' {
            version_major(cprov) == version_major(creq)
        } else if required[0] == '~' {
            version_major(cprov) == version_major(creq) && version_minor(cprov) == version_minor(
                creq,
            )
        } else if required[0] == '>' {
            if required.len() >= 2 && required[1] == '=' {
                !version_lt(cprov, creq)
            } else {
                version_lt(creq, cprov)
            }
        } else if required[0] == '<' {
            if required.len() >= 2 && required[1] == '=' {
                !version_lt(creq, cprov)
            } else {
                version_lt(cprov, creq)
            }
        } else {
            required == provided
        }
    }
}

/// Every prefix of a digit string reads as at most the whole string.
proof fn lemma_digits_val_bounds(s: Seq<char>)
    requires
        all_digits(s),
    ensures
        digits_val(s) >= 0,
        forall|k: int| 0 <= k <= s.len() ==> digits_val(#[trigger] s.take(k)) <= digits_val(s),
    decreases s.len(),
{
    if s.len() == 0 {
        assert(forall|k: int| 0 <= k <= s.len() ==> s.take(k) =~= s);
    } else {
        assert(all_digits(s.drop_last()));
        lemma_digits_val_bounds(s.drop_last());
        assert(is_digit_char(s.last()));
        assert(digit_val(s.last()) >= 0);
        assert(digits_val(s) >= digits_val(s.drop_last())) by {
            assert(digits_val(s.drop_last()) * 10 >= digits_val(s.drop_last())) by (nonlinear_arith)
                requires
                    digits_val(s.drop_last()) >= 0,
            ;
        }
        assert forall|k: int| 0 <= k <= s.len() implies digits_val(#[trigger] s.take(k))
            <= digits_val(s) by {
            if k == s.len() {
                assert(s.take(k) =~= s);
            } else {
                assert(s.take(k) =~= s.drop_last().take(k));
            }
        }
    }
}

/// `first_dot` is the index of the first dot: nothing before it is a dot,
/// and it points at a dot unless there is none.
proof fn lemma_first_dot_at(s: Seq<char>, k: int)
    requires
        0 <= k <= s.len(),
        forall|i: int| 0 <= i < k ==> s[i] != '.',
        k < s.len() ==> s[k] == '.',
    ensures
        k < s.len() ==> first_dot(s) == k,
        k == s.len() ==> first_dot(s) == s.len(),
    decreases k,
{
    if s.len() == 0 {
    } else if k == 0 {
    } else {
        assert(s[0] != '.');
        let t = s.drop_first();
        assert(forall|i: int| 0 <= i < k - 1 ==> t[i] == s[i + 1] && t[i] != '.');
        lemma_first_dot_at(t, k - 1);
    }
}

/// Removes the modifier characters from a version string.
fn clean_version(s: &str) -> (r: Vec<char>)
    ensures
        r@ == clean_chars(s@),
{
    let n: usize = s.unicode_len();
    let mut r: Vec<char> = Vec::new();
    let mut i: usize = 0;
    while i < n
        invariant
            i <= n,
            n == s@.len(),
            r@ == clean_chars(s@.take(i as int)),
        decreases n - i,
    {
        let c = s.get_char(i);
        proof {
            assert(s@.take(i + 1).drop_last() =~= s@.take(i as int));
            assert(s@.take(i + 1).last() == s@[i as int]);
        }
        if !(c == '<' || c == '>' || c == '=' || c == '^' || c == '~') {
            r.push(c);
        }
        i = i + 1;
    }
    proof {
        assert(s@.take(n as int) =~= s@);
    }
    r
}

/// Index of the first dot of `v` at or after `from`, or `v.len()`.
fn find_dot(v: &Vec<char>, from: usize) -> (e: usize)
    requires
        from <= v@.len(),
    ensures
        from <= e <= v@.len(),
        e - from == first_dot(v@.skip(from as int)),
        e < v@.len() ==> v@[e as int] == '.',
{
    let n: usize = v.len();
    let mut i: usize = from;
    while i < n
        invariant
            from <= i <= n,
            n == v@.len(),
            forall|k: int| from <= k < i ==> v@[k] != '.',
        decreases n - i,
    {
        if v[i] == '.' {
            proof {
                let t = v@.skip(from as int);
                assert(forall|k: int| 0 <= k < i - from ==> t[k] == v@[k + from] && t[k] != '.');
                assert(t[i - from] == '.');
                lemma_first_dot_at(t, i - from);
            }
            return i;
        }
        i = i + 1;
    }
    proof {
        let t = v@.skip(from as int);
        assert(forall|k: int| 0 <= k < t.len() ==> t[k] == v@[k + from] && t[k] != '.');
        lemma_first_dot_at(t, t.len() as int);
    }
    n
}

/// Reads the component `v[start..end]` as a number: 0 unless it is a
/// non-empty digit string whose value fits a `u32`.
fn parse_component(v: &Vec<char>, start: usize, end: usize) -> (r: u32)
    requires
        start <= end <= v@.len(),
    ensures
        r == component_val(v@.subrange(start as int, end as int)),
{
    let ghost whole = v@.subrange(start as int, end as int);
    let mut acc: u32 = 0;
    let mut ok: bool = end > start;
    let mut i: usize = start;
    while i < end
        invariant
            start <= i <= end <= v@.len(),
            whole == v@.subrange(start as int, end as int),
            ok ==> start < end,
            ok ==> all_digits(whole.take(i - start)) && acc == digits_val(whole.take(i - start)),
            !ok ==> component_val(whole) == 0,
        decreases end - i,
    {
        let c = v[i];
        proof {
            assert(whole.take(i + 1 - start).drop_last() =~= whole.take(i - start));
            assert(whole.take(i + 1 - start).last() == whole[i - start]);
            assert(whole[i - start] == v@[i as int]);
        }
        if ok {
            if c < '0' || c > '9' {
                proof {
                    assert(!is_digit_char(whole[i - start]));
                }
                ok = false;
            } else {
                let d: u32 = (c as u32) - 48;
                proof {
                    assert(is_digit_char(c));
                    assert(digit_val(c) == d);
                }
                if acc > (u32::MAX - d) / 10 {
                    proof {
                        let pre = whole.take(i + 1 - start);
                        assert(all_digits(pre));
                        assert(digits_val(pre) == acc * 10 + d);
                        assert(acc * 10 + d > u32::MAX) by (nonlinear_arith)
                            requires
                                acc > (u32::MAX - d) / 10,
                                0 <= d <= 9,
                                acc <= u32::MAX,
                        ;
                        if all_digits(whole) {
                            lemma_digits_val_bounds(whole);
                            assert(digits_val(whole) >= digits_val(pre));
                        }
                        assert(component_val(whole) == 0);
                    }
                    ok = false;
                } else {
                    proof {
                        assert(acc * 10 + d <= u32::MAX) by (nonlinear_arith)
                            requires
                                acc <= (u32::MAX - d) / 10,
                                0 <= d <= 9,
                                acc >= 0,
                        ;
                    }
                    acc = acc * 10 + d;
                }
            }
        }
        i = i + 1;
    }
    if ok {
        proof {
            assert(whole.take(end - start) =~= whole);
            assert(whole.len() > 0);
        }
        acc
    } else {
        0
    }
}

/// The numeric `(major, minor, patch)` triple of a cleaned version string.
#[verifier::rlimit(60)]
fn version_triple(v: &Vec<char>) -> (t: (u32, u32, u32))
    ensures
        t.0 == version_major(v@),
        t.1 == version_minor(v@),
        t.2 == version_patch(v@),
{
    let n: usize = v.len();
    proof {
        assert(v@.skip(0) =~= v@);
    }
    let e0 = find_dot(v, 0);
    let major = parse_component(v, 0, e0);
    proof {
        assert(head_component(v@) =~= v@.subrange(0, e0 as int));
    }
    if e0 == n {
        proof {
            assert(tail_after_dot(v@) =~= Seq::<char>::empty());
            assert(head_component(Seq::<char>::empty()) =~= Seq::<char>::empty());
            assert(tail_after_dot(Seq::<char>::empty()) =~= Seq::<char>::empty());
        }
        (major, 0, 0)
    } else {
        let s1 = e0 + 1;
        let ghost t1 = tail_after_dot(v@);
        proof {
            assert(t1 =~= v@.skip(s1 as int));
        }
        let e1 = find_dot(v, s1);
        let minor = parse_component(v, s1, e1);
        proof {
            assert(first_dot(t1) == e1 - s1);
            assert(head_component(t1) =~= v@.subrange(s1 as int, e1 as int));
        }
        if e1 == n {
            proof {
                assert(tail_after_dot(t1) =~= Seq::<char>::empty());
                assert(head_component(Seq::<char>::empty()) =~= Seq::<char>::empty());
            }
            (major, minor, 0)
        } else {
            let s2 = e1 + 1;
            let ghost t2 = tail_after_dot(t1);
            proof {
                assert(first_dot(t1) < t1.len());
                assert(t2 =~= v@.skip(s2 as int));
            }
            let e2 = find_dot(v, s2);
            let patch = parse_component(v, s2, e2);
            proof {
                assert(first_dot(t2) == e2 - s2);
                assert(head_component(t2) =~= v@.subrange(s2 as int, e2 as int));
            }
            (major, minor, patch)
        }
    }
}

/// Whether the two cleaned version strings have the same major component.
fn major_eq(version_a: &Vec<char>, version_b: &Vec<char>) -> (r: bool)
    ensures
        r == (version_major(version_a@) == version_major(version_b@)),
{
    let ta = version_triple(version_a);
    let tb = version_triple(version_b);
    ta.0 == tb.0
}

/// Whether the two cleaned version strings have the same minor component.
fn minor_eq(version_a: &Vec<char>, version_b: &Vec<char>) -> (r: bool)
    ensures
        r == (version_minor(version_a@) == version_minor(version_b@)),
{
    let ta = version_triple(version_a);
    let tb = version_triple(version_b);
    ta.1 == tb.1
}

/// Whether `version_a` is strictly greater than `version_b` in the
/// lexicographic order on numeric triples.
fn greater_than(version_a: &Vec<char>, version_b: &Vec<char>) -> (r: bool)
    ensures
        r == version_lt(version_b@, version_a@),
{
    let a = version_triple(version_a);
    let b = version_triple(version_b);
    a.0 > b.0 || (a.0 == b.0 && (a.1 > b.1 || (a.1 == b.1 && a.2 > b.2)))
}

/// Whether `provided_version` satisfies the constraint `required_version`.
pub fn version_check(required_version: &str, provided_version: &str) -> (r: bool)
    ensures
        r == evaluate(required_version@, provided_version@),
{
    let n: usize = required_version.unicode_len();
    if n == 0 {
        return false;
    }
    let c0 = required_version.get_char(0);
    if c0 == '^' {
        let creq = clean_version(required_version);
        let cprov = clean_version(provided_version);
        major_eq(&cprov, &creq)
    } else if c0 == '~' {
        let creq = clean_version(required_version);
        let cprov = clean_version(provided_version);
        major_eq(&cprov, &creq) && minor_eq(&cprov, &creq)
    } else if c0 == '>' {
        let or_equal = n >= 2 && required_version.get_char(1) == '=';
        let creq = clean_version(required_version);
        let cprov = clean_version(provided_version);
        if or_equal {
            !greater_than(&creq, &cprov)
        } else {
            greater_than(&cprov, &creq)
        }
    } else if c0 == '<' {
        let or_equal = n >= 2 && required_version.get_char(1) == '=';
        let creq = clean_version(required_version);
        let cprov = clean_version(provided_version);
        if or_equal {
            !greater_than(&cprov, &creq)
        } else {
            greater_than(&creq, &cprov)
        }
    } else {
        let a = String::from_str(required_version);
        let b = String::from_str(provided_version);
        a == b
    }
}

} // verus!
