//! Verified utilities over character sequences: copying a `&str` into a
//! vector of characters, splitting text into lines, trimming whitespace,
//! and exact or case-insensitive matching.

use vstd::prelude::*;

verus! {

/// Copy of the characters of `s`, giving random access to what `s@` holds.
pub fn str_chars(s: &str) -> (r: Vec<char>)
    ensures
        r@ == s@,
{
    let n: usize = s.unicode_len();
    let mut r: Vec<char> = Vec::new();
    let mut i: usize = 0;
    while i < n
        invariant
            i <= n,
            n == s@.len(),
            r@ == s@.subrange(0, i as int),
        decreases n - i,
    {
        r.push(s.get_char(i));
        i = i + 1;
        proof {
            assert(r@ =~= s@.subrange(0, i as int));
        }
    }
    proof {
        assert(r@ =~= s@);
    }
    r
}

/// Whitespace that is trimmed away around a reported module name.
pub open spec fn is_space(c: char) -> bool {
    c == ' ' || c == '\t' || c == '\r'
}

/// Index of the first newline in `t`, or -1 if there is none.
pub open spec fn find_newline(t: Seq<char>) -> int
    decreases t.len(),
{
    if t.len() == 0 {
        -1
    } else if t[0] == '\n' {
        0
    } else {
        let r = find_newline(t.drop_first());
        if r < 0 {
            -1
        } else {
            r + 1
        }
    }
}

pub proof fn lemma_find_newline(t: Seq<char>)
    ensures
        find_newline(t) == -1 ==> forall|i: int| 0 <= i < t.len() ==> t[i] != '\n',
        find_newline(t) >= 0 ==> find_newline(t) < t.len() && t[find_newline(t)] == '\n',
        find_newline(t) >= 0 ==> forall|i: int| 0 <= i < find_newline(t) ==> t[i] != '\n',
    decreases t.len(),
{
    if t.len() == 0 {
    } else if t[0] == '\n' {
    } else {
        lemma_find_newline(t.drop_first());
        let r = find_newline(t.drop_first());
        if r < 0 {
            assert forall|i: int| 0 <= i < t.len() implies t[i] != '\n' by {
                if i > 0 {
                    assert(t.drop_first()[i - 1] == t[i]);
                }
            }
        } else {
            assert(t.drop_first()[r] == t[r + 1]);
            assert forall|i: int| 0 <= i < find_newline(t) implies t[i] != '\n' by {
                if i > 0 {
                    assert(t.drop_first()[i - 1] == t[i]);
                }
            }
        }
    }
}

/// The lines of `t`: maximal runs of characters separated by newlines.
pub open spec fn split_lines(t: Seq<char>) -> Seq<Seq<char>>
    decreases t.len(),
    via split_lines_decreases
{
    if t.len() == 0 {
        Seq::empty()
    } else {
        let r = find_newline(t);
        if r < 0 {
            seq![t]
        } else {
            seq![t.subrange(0, r)] + split_lines(t.subrange(r + 1, t.len() as int))
        }
    }
}

#[via_fn]
proof fn split_lines_decreases(t: Seq<char>) {
    lemma_find_newline(t);
}

/// The text each span `(a, b)` selects out of `t`.
pub open spec fn spans_content(t: Seq<char>, spans: Seq<(usize, usize)>) -> Seq<Seq<char>> {
    Seq::new(spans.len(), |k: int| t.subrange(spans[k].0 as int, spans[k].1 as int))
}

/// Line spans of `cs` from position `from` on: each entry is the half-open
/// character range of one line.
pub fn line_spans_from(cs: &Vec<char>, from: usize) -> (r: Vec<(usize, usize)>)
    requires
        from <= cs@.len(),
    ensures
        forall|k: int| 0 <= k < r@.len() ==> from <= #[trigger] r@[k].0 && r@[k].0 <= r@[k].1
            && r@[k].1 <= cs@.len(),
        spans_content(cs@, r@) == split_lines(cs@.skip(from as int)),
    decreases cs@.len() - from,
{
    let n: usize = cs.len();
    if from == n {
        let r: Vec<(usize, usize)> = Vec::new();
        proof {
            assert(spans_content(cs@, r@) =~= split_lines(cs@.skip(from as int)));
        }
        r
    } else {
        let ghost t = cs@.skip(from as int);
        let mut i: usize = from;
        while i < n
            invariant
                from <= i <= n,
                n == cs@.len(),
                forall|j: int| from <= j < i ==> cs@[j] != '\n',
            ensures
                from <= i <= n,
                forall|j: int| from <= j < i ==> cs@[j] != '\n',
                i < n ==> cs@[i as int] == '\n',
            decreases n - i,
        {
            if cs[i] == '\n' {
                break ;
            }
            i = i + 1;
        }
        proof {
            lemma_find_newline(t);
            assert forall|j: int| 0 <= j < i - from implies t[j] != '\n' by {
                assert(t[j] == cs@[j + from]);
            }
            if i < n {
                assert(t[i - from] == cs@[i as int]);
                assert(find_newline(t) == i - from);
            } else {
                assert forall|j: int| 0 <= j < t.len() implies t[j] != '\n' by {
                    assert(t[j] == cs@[j + from]);
                }
                assert(find_newline(t) == -1);
            }
        }
        if i == n {
            let mut r: Vec<(usize, usize)> = Vec::new();
            r.push((from, n));
            proof {
                assert(cs@.subrange(from as int, n as int) =~= t);
                assert(spans_content(cs@, r@) =~= split_lines(t));
            }
            r
        } else {
            let mut rest = line_spans_from(cs, i + 1);
            let ghost pre = rest@;
            rest.insert(0, (from, i));
            proof {
                assert forall|k: int|
                    0 <= k < rest@.len() implies from <= #[trigger] rest@[k].0 && rest@[k].0
                    <= rest@[k].1 && rest@[k].1 <= cs@.len() by {
                    if k > 0 {
                        assert(rest@[k] == pre[k - 1]);
                    }
                }
                let r = i - from;
                assert(t.subrange(0, r) =~= cs@.subrange(from as int, i as int));
                assert(t.subrange(r + 1, t.len() as int) =~= cs@.skip(i + 1));
                assert(spans_content(cs@, rest@) =~= seq![t.subrange(0, r)] + split_lines(
                    cs@.skip(i + 1),
                ));
            }
            rest
        }
    }
}

/// `l` with leading whitespace removed.
pub open spec fn trim_front(l: Seq<char>) -> Seq<char>
    decreases l.len(),
{
    if l.len() > 0 && is_space(l[0]) {
        trim_front(l.drop_first())
    } else {
        l
    }
}

/// `l` with trailing whitespace removed.
pub open spec fn trim_back(l: Seq<char>) -> Seq<char>
    decreases l.len(),
{
    if l.len() > 0 && is_space(l.last()) {
        trim_back(l.drop_last())
    } else {
        l
    }
}

/// `l` with leading and trailing whitespace removed.
pub open spec fn trim(l: Seq<char>) -> Seq<char> {
    trim_back(trim_front(l))
}

/// Narrow the span `(a, b)` of `cs` to its trimmed content.
pub fn trim_span(cs: &Vec<char>, a: usize, b: usize) -> (r: (usize, usize))
    requires
        a <= b <= cs@.len(),
    ensures
        a <= r.0 <= r.1 <= b,
        cs@.subrange(r.0 as int, r.1 as int) == trim(cs@.subrange(a as int, b as int)),
{
    let mut x: usize = a;
    while x < b
        invariant
            a <= x <= b <= cs@.len(),
            trim_front(cs@.subrange(a as int, b as int)) == trim_front(
                cs@.subrange(x as int, b as int),
            ),
        ensures
            a <= x <= b <= cs@.len(),
            trim_front(cs@.subrange(a as int, b as int)) == cs@.subrange(x as int, b as int),
        decreases b - x,
    {
        let c = cs[x];
        if !(c == ' ' || c == '\t' || c == '\r') {
            break ;
        }
        proof {
            assert(cs@.subrange(x as int, b as int).drop_first() =~= cs@.subrange(
                x + 1,
                b as int,
            ));
        }
        x = x + 1;
    }
    let mut y: usize = b;
    while y > x
        invariant
            a <= x <= y <= b <= cs@.len(),
            trim_back(cs@.subrange(x as int, b as int)) == trim_back(
                cs@.subrange(x as int, y as int),
            ),
        ensures
            x <= y <= b,
            trim_back(cs@.subrange(x as int, b as int)) == cs@.subrange(x as int, y as int),
        decreases y,
    {
        let c = cs[y - 1];
        if !(c == ' ' || c == '\t' || c == '\r') {
            break ;
        }
        proof {
            assert(cs@.subrange(x as int, y as int).drop_last() =~= cs@.subrange(
                x as int,
                y - 1,
            ));
        }
        y = y - 1;
    }
    (x, y)
}

/// Whether the span `(a, b)` of `cs` holds exactly the characters of `lit`.
pub fn span_eq(cs: &Vec<char>, a: usize, b: usize, lit: &Vec<char>) -> (r: bool)
    requires
        a <= b <= cs@.len(),
    ensures
        r == (cs@.subrange(a as int, b as int) == lit@),
{
    if b - a != lit.len() {
        proof {
            assert(cs@.subrange(a as int, b as int).len() == b - a);
        }
        return false;
    }
    let m: usize = lit.len();
    let mut j: usize = 0;
    while j < m
        invariant
            j <= m,
            m == lit@.len(),
            a + m <= b <= cs@.len(),
            b - a == m,
            forall|k: int| 0 <= k < j ==> cs@[a + k] == lit@[k],
        decreases m - j,
    {
        if cs[a + j] != lit[j] {
            proof {
                assert(cs@.subrange(a as int, b as int)[j as int] == cs@[a + j]);
            }
            return false;
        }
        j = j + 1;
    }
    proof {
        assert(cs@.subrange(a as int, b as int) =~= lit@);
    }
    true
}

/// The case-folded code of `c`: ASCII capital letters map onto their
/// lower-case counterparts, every other character stands for itself.
pub open spec fn lower_code(c: char) -> int {
    if 'A' <= c && c <= 'Z' {
        c as int + 32
    } else {
        c as int
    }
}

/// Case-insensitive character equality (ASCII letters only).
pub open spec fn eq_ci(a: char, b: char) -> bool {
    lower_code(a) == lower_code(b)
}

fn eq_ci_x(a: char, b: char) -> (r: bool)
    ensures
        r == eq_ci(a, b),
{
    let la: u32 = if 'A' <= a && a <= 'Z' {
        a as u32 + 32
    } else {
        a as u32
    };
    let lb: u32 = if 'A' <= b && b <= 'Z' {
        b as u32 + 32
    } else {
        b as u32
    };
    la == lb
}

/// Whether `needle` occurs in `hay` at position `at`, ignoring ASCII case.
pub open spec fn matches_at_ci(hay: Seq<char>, needle: Seq<char>, at: int) -> bool {
    &&& 0 <= at
    &&& at + needle.len() <= hay.len()
    &&& forall|j: int| 0 <= j < needle.len() ==> eq_ci(hay[at + j], needle[j])
}

/// Whether `needle` occurs anywhere in `hay`, ignoring ASCII case.
pub open spec fn contains_ci(hay: Seq<char>, needle: Seq<char>) -> bool {
    exists|at: int| matches_at_ci(hay, needle, at)
}

/// Whether `s` begins with `prefix`, ignoring ASCII case.
pub open spec fn starts_with_ci(s: Seq<char>, prefix: Seq<char>) -> bool {
    matches_at_ci(s, prefix, 0)
}

fn matches_at_ci_x(hay: &Vec<char>, needle: &Vec<char>, at: usize) -> (r: bool)
    requires
        at + needle@.len() <= hay@.len(),
    ensures
        r == matches_at_ci(hay@, needle@, at as int),
{
    let hn: usize = hay.len();
    let m: usize = needle.len();
    let mut j: usize = 0;
    while j < m
        invariant
            j <= m,
            m == needle@.len(),
            hn == hay@.len(),
            at + m <= hn,
            forall|k: int| 0 <= k < j ==> eq_ci(hay@[at + k], needle@[k]),
        decreases m - j,
    {
        if !eq_ci_x(hay[at + j], needle[j]) {
            return false;
        }
        j = j + 1;
    }
    true
}

/// Case-insensitive substring search.
pub fn contains_ci_x(hay: &Vec<char>, needle: &Vec<char>) -> (r: bool)
    ensures
        r == contains_ci(hay@, needle@),
{
    let n: usize = hay.len();
    let m: usize = needle.len();
    if m > n {
        return false;
    }
    let mut i: usize = 0;
    while i <= n - m
        invariant
            m <= n,
            n == hay@.len(),
            m == needle@.len(),
            i <= n - m + 1,
            forall|k: int| 0 <= k < i ==> !matches_at_ci(hay@, needle@, k),
        decreases n - m - i + 1,
    {
        if matches_at_ci_x(hay, needle, i) {
            return true;
        }
        i = i + 1;
    }
    false
}

/// Index just past the last path separator of `p`, or 0 when `p` has none.
pub open spec fn after_last_sep(p: Seq<char>) -> int
    decreases p.len(),
{
    if p.len() == 0 {
        0
    } else if p.last() == '/' || p.last() == '\\' {
        p.len() as int
    } else {
        after_last_sep(p.drop_last())
    }
}

/// The bare filename of a path: everything after the last separator.
pub open spec fn base_name_of(p: Seq<char>) -> Seq<char> {
    p.skip(after_last_sep(p))
}

/// The directory of a path: everything before the last separator, or the
/// empty string when the path is a bare name.
pub open spec fn dir_name_of(p: Seq<char>) -> Seq<char> {
    if after_last_sep(p) == 0 {
        Seq::empty()
    } else {
        p.subrange(0, after_last_sep(p) - 1)
    }
}

/// Index just past the last path separator of `cs`.
fn cut_point(cs: &Vec<char>) -> (cut: usize)
    ensures
        cut == after_last_sep(cs@),
        cut <= cs@.len(),
{
    let n: usize = cs.len();
    let mut cut: usize = 0;
    let mut i: usize = 0;
    while i < n
        invariant
            i <= n,
            n == cs@.len(),
            cut == after_last_sep(cs@.subrange(0, i as int)),
            cut <= i,
        decreases n - i,
    {
        let c = cs[i];
        proof {
            assert(cs@.subrange(0, i + 1).drop_last() =~= cs@.subrange(0, i as int));
            assert(cs@.subrange(0, i + 1).last() == cs@[i as int]);
        }
        if c == '/' || c == '\\' {
            cut = i + 1;
        }
        i = i + 1;
    }
    proof {
        assert(cs@.subrange(0, n as int) =~= cs@);
    }
    cut
}

/// The bare filename of `p`: everything after the last `/` or `\`.
pub fn base_name(p: &str) -> (r: String)
    ensures
        r@ == base_name_of(p@),
{
    let cs: Vec<char> = str_chars(p);
    let cut: usize = cut_point(&cs);
    let n: usize = cs.len();
    let r: String = p.substring_char(cut, n).to_owned();
    proof {
        assert(p@.subrange(cut as int, n as int) =~= base_name_of(p@));
    }
    r
}

/// The directory of `p`: everything before the last `/` or `\`, or the
/// empty string when `p` is a bare name.
pub fn dir_name(p: &str) -> (r: String)
    ensures
        r@ == dir_name_of(p@),
{
    let cs: Vec<char> = str_chars(p);
    let cut: usize = cut_point(&cs);
    if cut == 0 {
        let r: String = String::new();
        proof {
            assert(r@ =~= dir_name_of(p@));
        }
        r
    } else {
        p.substring_char(0, cut - 1).to_owned()
    }
}

/// Case-insensitive prefix test.
pub fn starts_with_ci_x(s: &Vec<char>, prefix: &Vec<char>) -> (r: bool)
    ensures
        r == starts_with_ci(s@, prefix@),
{
    if prefix.len() > s.len() {
        return false;
    }
    matches_at_ci_x(s, prefix, 0)
}

} // verus!
