//! Character-level building blocks shared by the URL and response parsers:
//! first-occurrence search, whitespace trimming and newline normalisation,
//! each stated over `Seq<char>` and carried out on a `Vec<char>`.
use vstd::prelude::*;

verus! {

/// The Unicode `White_Space` set, which `char::is_whitespace` and `str::trim` use.
pub open spec fn is_ws(c: char) -> bool {
    let v = c as u32;
    (9 <= v && v <= 13) || v == 32 || v == 0x85 || v == 0xa0 || v == 0x1680 || (0x2000 <= v
        && v <= 0x200a) || v == 0x2028 || v == 0x2029 || v == 0x202f || v == 0x205f || v == 0x3000
}

/// The test for one given character.
pub open spec fn is_char(c: char) -> spec_fn(char) -> bool {
    |x: char| x == c
}

/// The test for a character that is not whitespace.
pub open spec fn not_ws() -> spec_fn(char) -> bool {
    |x: char| !is_ws(x)
}

/// Index of the first character of `s` that satisfies `p`, or `s.len()` if none does.
pub open spec fn first_index(s: Seq<char>, p: spec_fn(char) -> bool) -> nat
    decreases s.len(),
{
    if s.len() == 0 || p(s[0]) {
        0
    } else {
        1 + first_index(s.drop_first(), p)
    }
}

/// Index of the first `c` in `s`, or `s.len()` if `c` does not occur.
pub open spec fn first_pos(s: Seq<char>, c: char) -> nat {
    first_index(s, is_char(c))
}

/// Whether `c` occurs in `s`.
pub open spec fn has(s: Seq<char>, c: char) -> bool {
    first_pos(s, c) < s.len()
}

/// The text before the first `c`; all of `s` when there is none.
pub open spec fn before(s: Seq<char>, c: char) -> Seq<char> {
    s.take(first_pos(s, c) as int)
}

/// The text after the first `c`; empty when there is none.
pub open spec fn after(s: Seq<char>, c: char) -> Seq<char> {
    if has(s, c) {
        s.skip(first_pos(s, c) + 1int)
    } else {
        Seq::empty()
    }
}

/// Index of the first `a` that is directly followed by `b`, or `s.len()` if there is none.
pub open spec fn first_pair(s: Seq<char>, a: char, b: char) -> nat
    decreases s.len(),
{
    if s.len() < 2 {
        s.len()
    } else if s[0] == a && s[1] == b {
        0
    } else {
        1 + first_pair(s.drop_first(), a, b)
    }
}

/// Number of whitespace characters at the end of `s`.
pub open spec fn trailing_ws(s: Seq<char>) -> nat
    decreases s.len(),
{
    if s.len() == 0 || !is_ws(s.last()) {
        0
    } else {
        1 + trailing_ws(s.drop_last())
    }
}

/// `s` without its leading whitespace.
pub open spec fn trim_start(s: Seq<char>) -> Seq<char> {
    s.skip(first_index(s, not_ws()) as int)
}

/// `s` without its leading and trailing whitespace.
pub open spec fn trim(s: Seq<char>) -> Seq<char> {
    let t = trim_start(s);
    t.take(t.len() - trailing_ws(t))
}

/// Every `"\n\r"` of `s`, taken left to right without overlap, replaced by `"\n"`.
pub open spec fn normalize(s: Seq<char>) -> Seq<char>
    decreases s.len(),
{
    if s.len() == 0 {
        Seq::empty()
    } else if s.len() >= 2 && s[0] == '\n' && s[1] == '\r' {
        seq!['\n'] + normalize(s.skip(2))
    } else {
        seq![s[0]] + normalize(s.skip(1))
    }
}

pub proof fn lemma_first_index(s: Seq<char>, p: spec_fn(char) -> bool, i: int)
    requires
        0 <= i <= s.len(),
        forall|j: int| 0 <= j < i ==> !p(#[trigger] s[j]),
        i == s.len() || p(s[i]),
    ensures
        first_index(s, p) == i,
    decreases i,
{
    if i > 0 {
        assert(!p(s[0]));
        assert forall|j: int| 0 <= j < i - 1 implies !p(#[trigger] s.drop_first()[j]) by {
            assert(s.drop_first()[j] == s[j + 1]);
        }
        lemma_first_index(s.drop_first(), p, i - 1);
    }
}

pub proof fn lemma_first_pair(s: Seq<char>, a: char, b: char, i: int)
    requires
        0 <= i <= s.len(),
        forall|j: int| 0 <= j < i && j + 1 < s.len() ==> !(#[trigger] s[j] == a && s[j + 1] == b),
        i == s.len() || (i + 1 < s.len() && s[i] == a && s[i + 1] == b),
    ensures
        first_pair(s, a, b) == i,
    decreases i,
{
    if s.len() >= 2 && !(s[0] == a && s[1] == b) {
        assert(i > 0);
        assert forall|j: int| 0 <= j < i - 1 && j + 1 < s.len() - 1 implies !(
        #[trigger] s.drop_first()[j] == a && s.drop_first()[j + 1] == b) by {
            assert(s.drop_first()[j] == s[j + 1]);
            assert(s.drop_first()[j + 1] == s[j + 2]);
        }
        lemma_first_pair(s.drop_first(), a, b, i - 1);
    } else if s.len() >= 2 {
        if i > 0 {
            assert(!(s[0] == a && s[1] == b));
        }
    }
}

pub proof fn lemma_trailing_ws(s: Seq<char>, k: int)
    requires
        0 <= k <= s.len(),
        forall|j: int| s.len() - k <= j < s.len() ==> is_ws(#[trigger] s[j]),
        k == s.len() || !is_ws(s[s.len() - k - 1]),
    ensures
        trailing_ws(s) == k,
    decreases k,
{
    if k > 0 {
        assert(is_ws(s[s.len() - 1]));
        assert forall|j: int| s.len() - 1 - (k - 1) <= j < s.len() - 1 implies is_ws(
            #[trigger] s.drop_last()[j],
        ) by {
            assert(s.drop_last()[j] == s[j]);
        }
        lemma_trailing_ws(s.drop_last(), k - 1);
    }
}

/// Searching past a stretch without `c` just moves the position along.
pub proof fn lemma_first_pos_concat(a: Seq<char>, b: Seq<char>, c: char)
    requires
        forall|i: int| 0 <= i < a.len() ==> a[i] != c,
    ensures
        first_pos(a + b, c) == a.len() + first_pos(b, c),
    decreases a.len(),
{
    if a.len() == 0 {
        assert(a + b =~= b);
    } else {
        assert((a + b).drop_first() =~= a.drop_first() + b);
        assert((a + b)[0] == a[0]);
        lemma_first_pos_concat(a.drop_first(), b, c);
    }
}

/// What `before` and `after` give on a range of `s`, once the first `c` in it is known.
pub proof fn lemma_split_range(s: Seq<char>, from: int, to: int, c: char, k: int)
    requires
        0 <= from <= k <= to <= s.len(),
        k - from == first_pos(s.subrange(from, to), c),
    ensures
        before(s.subrange(from, to), c) == s.subrange(from, k),
        k < to ==> after(s.subrange(from, to), c) == s.subrange(k + 1, to),
        k == to ==> after(s.subrange(from, to), c) == s.subrange(to, to),
        has(s.subrange(from, to), c) <==> k < to,
{
    let t = s.subrange(from, to);
    assert(before(t, c) =~= s.subrange(from, k));
    if k < to {
        assert(after(t, c) =~= s.subrange(k + 1, to));
    } else {
        assert(after(t, c) =~= s.subrange(to, to));
    }
}

pub fn is_whitespace(c: char) -> (r: bool)
    ensures
        r == is_ws(c),
{
    let v = c as u32;
    (9 <= v && v <= 13) || v == 32 || v == 0x85 || v == 0xa0 || v == 0x1680 || (0x2000 <= v
        && v <= 0x200a) || v == 0x2028 || v == 0x2029 || v == 0x202f || v == 0x205f || v == 0x3000
}

/// The characters of `s`, in order.
pub fn chars_of(s: &str) -> (r: Vec<char>)
    ensures
        r@ == s@,
{
    let mut r: Vec<char> = Vec::new();
    for c in it: s.chars()
        invariant
            r@ == it.seq().take(it.index() as int),
    {
        r.push(c);
    }
    r
}

/// Relies on `String::from_iter` over chars: the string holds exactly those characters, in order.
#[verifier::external_body]
fn collect_string(cs: &[char]) -> (r: String)
    ensures
        r@ == cs@,
{
    String::from_iter(cs.iter())
}

/// The characters of `s` in `from..to`, as a `String`.
pub fn string_of_range(s: &Vec<char>, from: usize, to: usize) -> (r: String)
    requires
        from <= to <= s.len(),
    ensures
        r@ == s@.subrange(from as int, to as int),
{
    let part = vstd::slice::slice_subrange(s.as_slice(), from, to);
    collect_string(part)
}

/// Position of the first `c` in `s[from..to]`, or `to` when there is none.
pub fn find_char(s: &Vec<char>, from: usize, to: usize, c: char) -> (r: usize)
    requires
        from <= to <= s.len(),
    ensures
        from <= r <= to,
        r - from == first_pos(s@.subrange(from as int, to as int), c),
{
    let mut i: usize = from;
    while i < to && s[i] != c
        invariant
            from <= i <= to,
            to <= s.len(),
            forall|j: int| from <= j < i ==> s@[j] != c,
        decreases to - i,
    {
        i += 1;
    }
    proof {
        let t = s@.subrange(from as int, to as int);
        assert forall|j: int| 0 <= j < i - from implies !is_char(c)(#[trigger] t[j]) by {
            assert(t[j] == s@[from + j]);
        }
        lemma_first_index(t, is_char(c), i - from);
    }
    i
}

/// Position of the first `a` followed by `b` in `s[from..to]`, or `to` when there is none.
pub fn find_pair(s: &Vec<char>, from: usize, to: usize, a: char, b: char) -> (r: usize)
    requires
        from <= to <= s.len(),
    ensures
        from <= r <= to,
        r < to ==> r + 1 < to,
        r - from == first_pair(s@.subrange(from as int, to as int), a, b),
{
    let mut i: usize = from;
    while to - i > 1 && !(s[i] == a && s[i + 1] == b)
        invariant
            from <= i <= to,
            to <= s.len(),
            forall|j: int| from <= j < i && j + 1 < to ==> !(#[trigger] s@[j] == a && s@[j + 1] == b),
        decreases to - i,
    {
        i += 1;
    }
    let r = if to - i > 1 {
        i
    } else {
        to
    };
    proof {
        let t = s@.subrange(from as int, to as int);
        assert forall|j: int| 0 <= j < r - from && j + 1 < t.len() implies !(#[trigger] t[j] == a
            && t[j + 1] == b) by {
            assert(t[j] == s@[from + j]);
            assert(t[j + 1] == s@[from + j + 1]);
        }
        lemma_first_pair(t, a, b, r - from);
    }
    r
}

/// Start of `s[from..to]` once its leading whitespace is skipped.
pub fn skip_ws(s: &Vec<char>, from: usize, to: usize) -> (r: usize)
    requires
        from <= to <= s.len(),
    ensures
        from <= r <= to,
        r - from == first_index(s@.subrange(from as int, to as int), not_ws()),
{
    let mut i: usize = from;
    while i < to && is_whitespace(s[i])
        invariant
            from <= i <= to,
            to <= s.len(),
            forall|j: int| from <= j < i ==> is_ws(s@[j]),
        decreases to - i,
    {
        i += 1;
    }
    proof {
        let t = s@.subrange(from as int, to as int);
        assert forall|j: int| 0 <= j < i - from implies !not_ws()(#[trigger] t[j]) by {
            assert(t[j] == s@[from + j]);
        }
        lemma_first_index(t, not_ws(), i - from);
    }
    i
}

/// The bounds of `s[from..to]` with whitespace trimmed from both ends.
pub fn trim_range(s: &Vec<char>, from: usize, to: usize) -> (r: (usize, usize))
    requires
        from <= to <= s.len(),
    ensures
        from <= r.0 <= r.1 <= to,
        s@.subrange(r.0 as int, r.1 as int) == trim(s@.subrange(from as int, to as int)),
{
    let start = skip_ws(s, from, to);
    let mut end: usize = to;
    while end > start && is_whitespace(s[end - 1])
        invariant
            from <= start <= end <= to,
            to <= s.len(),
            forall|j: int| end <= j < to ==> is_ws(s@[j]),
        decreases end,
    {
        end -= 1;
    }
    proof {
        let t = s@.subrange(from as int, to as int);
        let u = trim_start(t);
        assert(u =~= s@.subrange(start as int, to as int));
        assert forall|j: int| u.len() - (to - end) <= j < u.len() implies is_ws(#[trigger] u[j]) by {
            assert(u[j] == s@[start + j]);
        }
        lemma_trailing_ws(u, to - end);
        assert(trim(t) =~= s@.subrange(start as int, end as int));
    }
    (start, end)
}

/// `s` split at its first `c`, as `str::split_once` does; `None` when `c` does not occur.
pub fn split_once_char(s: &str, c: char) -> (r: Option<(String, String)>)
    ensures
        r is Some <==> has(s@, c),
        r matches Some(p) ==> p.0@ == before(s@, c) && p.1@ == after(s@, c),
        r is None ==> before(s@, c) == s@,
{
    let cs = chars_of(s);
    let n = cs.len();
    let k = find_char(&cs, 0, n, c);
    proof {
        assert(cs@.subrange(0, n as int) =~= cs@);
        lemma_split_range(cs@, 0, n as int, c, k as int);
    }
    if k < n {
        Some((string_of_range(&cs, 0, k), string_of_range(&cs, k + 1, n)))
    } else {
        None
    }
}

/// `s[from..]` with every `"\n\r"` replaced by `"\n"`.
pub fn normalize_newlines(s: &Vec<char>, from: usize) -> (r: Vec<char>)
    requires
        from <= s.len(),
    ensures
        r@ == normalize(s@.skip(from as int)),
{
    let mut out: Vec<char> = Vec::new();
    let mut i: usize = from;
    while i < s.len()
        invariant
            from <= i <= s.len(),
            out@ + normalize(s@.skip(i as int)) == normalize(s@.skip(from as int)),
        decreases s.len() - i,
    {
        let ghost rest = s@.skip(i as int);
        if i + 1 < s.len() && s[i] == '\n' && s[i + 1] == '\r' {
            proof {
                assert(rest.skip(2) =~= s@.skip(i + 2));
                assert(out@.push('\n') + normalize(s@.skip(i + 2)) =~= out@ + normalize(rest));
            }
            out.push('\n');
            i += 2;
        } else {
            let c = s[i];
            proof {
                assert(rest.skip(1) =~= s@.skip(i + 1));
                assert(out@.push(c) + normalize(s@.skip(i + 1)) =~= out@ + normalize(rest));
            }
            out.push(c);
            i += 1;
        }
    }
    proof {
        assert(s@.skip(i as int) =~= Seq::<char>::empty());
        assert(out@ + Seq::<char>::empty() =~= out@);
    }
    out
}

} // verus!
