//! Parsing of the raw text of an HTTP/1.1 response into status, headers and body.
use vstd::prelude::*;
use crate::error::Error;
use crate::text::{
    before, after, has, first_pair, normalize, trim, trim_start, chars_of, find_char, find_pair,
    skip_ws, trim_range, normalize_newlines, string_of_range, lemma_split_range,
};

verus! {

/// A response as text: status line fields, headers in source order, and body.
pub struct ResponseView {
    pub version: Seq<char>,
    pub status_code: u32,
    pub reason: Seq<char>,
    pub headers: Seq<(Seq<char>, Seq<char>)>,
    pub body: Seq<char>,
}

pub open spec fn is_digit(c: char) -> bool {
    48 <= c as u32 && c as u32 <= 57
}

pub open spec fn digit_val(c: char) -> nat {
    if is_digit(c) {
        (c as u32 - 48) as nat
    } else {
        0
    }
}

/// The decimal value of a string of digits.
pub open spec fn digits_value(s: Seq<char>) -> nat
    decreases s.len(),
{
    if s.len() == 0 {
        0
    } else {
        digits_value(s.drop_last()) * 10 + digit_val(s.last())
    }
}

pub open spec fn all_digits(s: Seq<char>) -> bool {
    forall|i: int| 0 <= i < s.len() ==> is_digit(#[trigger] s[i])
}

/// `s` without one leading `+`.
pub open spec fn unsigned_part(s: Seq<char>) -> Seq<char> {
    if s.len() > 0 && s[0] == '+' {
        s.drop_first()
    } else {
        s
    }
}

/// What `u32::from_str` accepts: an optional `+`, then one or more decimal
/// digits whose value fits in a `u32`.
pub open spec fn parse_u32(s: Seq<char>) -> Option<u32> {
    let d = unsigned_part(s);
    if d.len() > 0 && all_digits(d) && digits_value(d) <= u32::MAX {
        Some(digits_value(d) as u32)
    } else {
        None
    }
}

/// The status code a token stands for; 404 when it is not a number.
pub open spec fn status_code_of(token: Seq<char>) -> u32 {
    match parse_u32(token) {
        Some(v) => v,
        None => 404,
    }
}

/// A header line split at its first `:`, both sides trimmed. A line without
/// a colon is all name, with an empty value.
pub open spec fn header_of(line: Seq<char>) -> (Seq<char>, Seq<char>) {
    (trim(before(line, ':')), trim(after(line, ':')))
}

/// The headers of a header block, one per `\n`-separated line.
pub open spec fn header_lines(s: Seq<char>) -> Seq<(Seq<char>, Seq<char>)>
    decreases s.len(),
{
    if has(s, '\n') {
        seq![header_of(before(s, '\n'))] + header_lines(after(s, '\n'))
    } else {
        seq![header_of(s)]
    }
}

/// The raw text once leading whitespace is dropped and `"\n\r"` is read as `"\n"`.
pub open spec fn prepared(raw: Seq<char>) -> Seq<char> {
    normalize(trim_start(raw))
}

/// The first three space-separated tokens of a status line; a missing token is empty.
pub open spec fn version_of(status: Seq<char>) -> Seq<char> {
    before(status, ' ')
}

pub open spec fn code_token_of(status: Seq<char>) -> Seq<char> {
    before(after(status, ' '), ' ')
}

pub open spec fn reason_of(status: Seq<char>) -> Seq<char> {
    before(after(after(status, ' '), ' '), ' ')
}

/// The response that `raw` holds: the status line ends at the first `\n`; the
/// header block runs to the first `"\n\n"` after it, and the body follows. A
/// blank line right after the status line (its own `\n` and one more) ends an
/// empty header block. With no `"\n\n"` there are no headers and the body is
/// all that follows the status line. Without any `\n` there is no response.
pub open spec fn parse_response(raw: Seq<char>) -> Option<ResponseView> {
    let p = prepared(raw);
    if has(p, '\n') {
        let status = before(p, '\n');
        let rest = after(p, '\n');
        let blank = rest.len() > 0 && rest[0] == '\n';
        let k = first_pair(rest, '\n', '\n');
        let block = if !blank && k < rest.len() {
            rest.take(k as int)
        } else {
            Seq::empty()
        };
        let body = if blank {
            rest.skip(1)
        } else if k < rest.len() {
            rest.skip(k + 2int)
        } else {
            rest
        };
        Some(
            ResponseView {
                version: version_of(status),
                status_code: status_code_of(code_token_of(status)),
                reason: reason_of(status),
                headers: if block.len() == 0 {
                    Seq::empty()
                } else {
                    header_lines(block)
                },
                body,
            },
        )
    } else {
        None
    }
}

/// The error text for raw text that holds no status line.
pub open spec fn invalid_response_message(raw: Seq<char>) -> Seq<char> {
    "Invalid HTTP response: "@ + prepared(raw)
}

/// The error text for a header that is not there.
pub open spec fn not_found_message(name: Seq<char>) -> Seq<char> {
    "Header "@ + name + " not found"@
}

/// The value of the first header named exactly `name`.
pub open spec fn lookup(hs: Seq<(Seq<char>, Seq<char>)>, name: Seq<char>) -> Option<Seq<char>>
    decreases hs.len(),
{
    if hs.len() == 0 {
        None
    } else if hs[0].0 == name {
        Some(hs[0].1)
    } else {
        lookup(hs.drop_first(), name)
    }
}

/// A token that is empty, or holds a character that is neither a digit nor `+`.
pub open spec fn non_numeric(t: Seq<char>) -> bool {
    t.len() == 0 || exists|i: int| 0 <= i < t.len() && !is_digit(#[trigger] t[i]) && t[i] != '+'
}

/// A response whose status line has a non-numeric code token still parses,
/// with status code 404.
pub proof fn lemma_non_numeric_code(raw: Seq<char>)
    requires
        has(prepared(raw), '\n'),
        non_numeric(code_token_of(before(prepared(raw), '\n'))),
    ensures
        parse_response(raw) is Some,
        parse_response(raw)->0.status_code == 404,
{
    let t = code_token_of(before(prepared(raw), '\n'));
    let d = unsigned_part(t);
    if t.len() > 0 {
        let i = choose|i: int| 0 <= i < t.len() && !is_digit(#[trigger] t[i]) && t[i] != '+';
        if t[0] == '+' {
            assert(d[i - 1] == t[i]);
            assert(!all_digits(d));
        } else {
            assert(!all_digits(d));
        }
    }
    assert(parse_u32(t) is None);
}

#[derive(Debug, Clone)]
pub struct Header {
    name: String,
    value: String,
}

impl View for Header {
    type V = (Seq<char>, Seq<char>);

    closed spec fn view(&self) -> (Seq<char>, Seq<char>) {
        (self.name@, self.value@)
    }
}

fn trimmed(s: &String) -> (r: String)
    ensures
        r@ == trim(s@),
{
    let cs = chars_of(s.as_str());
    let n = cs.len();
    let (a, b) = trim_range(&cs, 0, n);
    proof {
        assert(cs@.subrange(0, n as int) =~= cs@);
    }
    string_of_range(&cs, a, b)
}

impl Header {
    /// A header with surrounding whitespace trimmed from its name and value.
    pub fn new(name: String, value: String) -> (r: Self)
        ensures
            r@ == (trim(name@), trim(value@)),
    {
        Header { name: trimmed(&name), value: trimmed(&value) }
    }
}

pub open spec fn header_views(hs: Seq<Header>) -> Seq<(Seq<char>, Seq<char>)> {
    hs.map_values(|h: Header| h@)
}

#[derive(Debug, Clone)]
pub struct HttpResponse {
    version: String,
    status_code: u32,
    response: String,
    headers: Vec<Header>,
    body: String,
}

impl View for HttpResponse {
    type V = ResponseView;

    closed spec fn view(&self) -> ResponseView {
        ResponseView {
            version: self.version@,
            status_code: self.status_code,
            reason: self.response@,
            headers: header_views(self.headers@),
            body: self.body@,
        }
    }
}

proof fn lemma_digits_prefix(s: Seq<char>, k: int)
    requires
        0 <= k <= s.len(),
    ensures
        digits_value(s.take(k)) <= digits_value(s),
    decreases s.len() - k,
{
    if k < s.len() {
        lemma_digits_prefix(s, k + 1);
        assert(s.take(k + 1).drop_last() =~= s.take(k));
    } else {
        assert(s.take(k) =~= s);
    }
}

/// `u32::from_str` on `s[from..to]`.
fn parse_u32_range(s: &Vec<char>, from: usize, to: usize) -> (r: Option<u32>)
    requires
        from <= to <= s.len(),
    ensures
        r == parse_u32(s@.subrange(from as int, to as int)),
{
    let ghost t = s@.subrange(from as int, to as int);
    let mut start: usize = from;
    if from < to && s[from] == '+' {
        start = from + 1;
    }
    let ghost d = s@.subrange(start as int, to as int);
    proof {
        if from < to && s@[from as int] == '+' {
            assert(t.drop_first() =~= d);
        } else {
            assert(t =~= d);
        }
        assert(d == unsigned_part(t));
    }
    if start == to {
        return None;
    }
    let mut i: usize = start;
    while i < to && 48 <= s[i] as u32 && s[i] as u32 <= 57
        invariant
            start <= i <= to,
            to <= s.len(),
            forall|j: int| start <= j < i ==> is_digit(#[trigger] s@[j]),
            d == s@.subrange(start as int, to as int),
            d == unsigned_part(t),
            t == s@.subrange(from as int, to as int),
        decreases to - i,
    {
        i += 1;
    }
    if i < to {
        proof {
            assert(!is_digit(d[i - start]));
        }
        return None;
    }
    assert(all_digits(d)) by {
        assert forall|j: int| 0 <= j < d.len() implies is_digit(#[trigger] d[j]) by {
            assert(d[j] == s@[start + j]);
        }
    }
    let mut acc: u64 = 0;
    let mut i: usize = start;
    while i < to
        invariant
            start <= i <= to,
            to <= s.len(),
            d == s@.subrange(start as int, to as int),
            d == unsigned_part(t),
            t == s@.subrange(from as int, to as int),
            all_digits(d),
            acc == digits_value(s@.subrange(start as int, i as int)),
            acc <= u32::MAX,
        decreases to - i,
    {
        let c = s[i];
        proof {
            assert(is_digit(d[i - start]));
            assert(s@.subrange(start as int, i + 1).drop_last() =~= s@.subrange(
                start as int,
                i as int,
            ));
        }
        acc = acc * 10 + (c as u32 - 48) as u64;
        if acc > 0xffff_ffff {
            proof {
                assert(digits_value(s@.subrange(start as int, i + 1)) == acc);
                assert(d.take(i + 1 - start) =~= s@.subrange(start as int, i + 1));
                lemma_digits_prefix(d, i + 1 - start);
            }
            return None;
        }
        i += 1;
    }
    proof {
        assert(s@.subrange(start as int, i as int) =~= d);
    }
    Some(acc as u32)
}

fn status_fields(s: &Vec<char>, from: usize, to: usize) -> (r: (String, u32, String))
    requires
        from <= to <= s.len(),
    ensures
        r.0@ == version_of(s@.subrange(from as int, to as int)),
        r.1 == status_code_of(code_token_of(s@.subrange(from as int, to as int))),
        r.2@ == reason_of(s@.subrange(from as int, to as int)),
{
    let sp1 = find_char(s, from, to, ' ');
    proof {
        lemma_split_range(s@, from as int, to as int, ' ', sp1 as int);
    }
    let a = if sp1 < to {
        sp1 + 1
    } else {
        to
    };
    let sp2 = find_char(s, a, to, ' ');
    proof {
        lemma_split_range(s@, a as int, to as int, ' ', sp2 as int);
    }
    let b = if sp2 < to {
        sp2 + 1
    } else {
        to
    };
    let sp3 = find_char(s, b, to, ' ');
    proof {
        lemma_split_range(s@, b as int, to as int, ' ', sp3 as int);
    }
    let version = string_of_range(s, from, sp1);
    let code = match parse_u32_range(s, a, sp2) {
        Some(v) => v,
        None => 404,
    };
    let reason = string_of_range(s, b, sp3);
    (version, code, reason)
}

fn parse_header_line(s: &Vec<char>, from: usize, to: usize) -> (r: Header)
    requires
        from <= to <= s.len(),
    ensures
        r@ == header_of(s@.subrange(from as int, to as int)),
{
    let colon = find_char(s, from, to, ':');
    proof {
        lemma_split_range(s@, from as int, to as int, ':', colon as int);
    }
    let vstart = if colon < to {
        colon + 1
    } else {
        to
    };
    Header::new(string_of_range(s, from, colon), string_of_range(s, vstart, to))
}

fn parse_header_block(s: &Vec<char>, from: usize, to: usize) -> (r: Vec<Header>)
    requires
        from <= to <= s.len(),
    ensures
        header_views(r@) == header_lines(s@.subrange(from as int, to as int)),
{
    let mut out: Vec<Header> = Vec::new();
    let mut start: usize = from;
    loop
        invariant
            from <= start <= to,
            to <= s.len(),
            header_views(out@) + header_lines(s@.subrange(start as int, to as int))
                == header_lines(s@.subrange(from as int, to as int)),
        decreases to - start,
    {
        let nl = find_char(s, start, to, '\n');
        proof {
            lemma_split_range(s@, start as int, to as int, '\n', nl as int);
        }
        let h = parse_header_line(s, start, nl);
        let ghost before_push = out@;
        out.push(h);
        proof {
            assert(header_views(out@) =~= header_views(before_push).push(h@));
        }
        if nl == to {
            proof {
                assert(s@.subrange(start as int, to as int) =~= s@.subrange(start as int, nl as int));
                assert(header_views(out@) =~= header_views(before_push) + header_lines(
                    s@.subrange(start as int, to as int),
                ));
            }
            return out;
        }
        proof {
            let rest = header_lines(s@.subrange(nl + 1, to as int));
            assert(header_views(out@) + rest =~= header_views(before_push) + (seq![h@] + rest));
        }
        start = nl + 1;
    }
}

impl HttpResponse {
    /// Parses raw response text. Fails when, once leading whitespace is
    /// dropped, the text holds no newline to end a status line.
    pub fn new(raw_response: String) -> (r: Result<Self, Error>)
        ensures
            r is Err <==> parse_response(raw_response@) is None,
            r is Ok ==> r->Ok_0@ == parse_response(raw_response@)->0,
            r matches Err(e) ==> e matches Error::Network(m) && m@ == invalid_response_message(
                raw_response@,
            ),
    {
        let cs = chars_of(raw_response.as_str());
        let n0 = cs.len();
        let lead = skip_ws(&cs, 0, n0);
        let p = normalize_newlines(&cs, lead);
        let n = p.len();
        let nl = find_char(&p, 0, n, '\n');
        proof {
            assert(cs@.subrange(0, n0 as int) =~= cs@);
            assert(trim_start(raw_response@) == cs@.skip(lead as int));
            assert(p@.subrange(0, n as int) =~= p@);
            lemma_split_range(p@, 0, n as int, '\n', nl as int);
        }
        if nl == n {
            let mut msg = String::new();
            msg.append("Invalid HTTP response: ");
            let text = string_of_range(&p, 0, n);
            msg.append(text.as_str());
            proof {
                assert(p@.subrange(0, n as int) =~= p@);
            }
            return Err(Error::Network(msg));
        }
        let blank = nl + 1 < n && p[nl + 1] == '\n';
        let (be, bs) = if blank {
            proof {
                let rest = p@.subrange(nl + 1, n as int);
                assert(rest.skip(1) =~= p@.subrange(nl + 2, n as int));
            }
            (nl + 1, nl + 2)
        } else {
            let k = find_pair(&p, nl + 1, n, '\n', '\n');
            proof {
                let rest = p@.subrange(nl + 1, n as int);
                if k < n {
                    assert(rest.take(k - nl - 1) =~= p@.subrange(nl + 1, k as int));
                    assert(rest.skip(k - nl - 1 + 2) =~= p@.subrange(k + 2, n as int));
                }
            }
            if k < n {
                (k, k + 2)
            } else {
                (nl + 1, nl + 1)
            }
        };
        let headers = if be > nl + 1 {
            parse_header_block(&p, nl + 1, be)
        } else {
            Vec::new()
        };
        let (version, status_code, response) = status_fields(&p, 0, nl);
        let body = string_of_range(&p, bs, n);
        let r = HttpResponse { version, status_code, response, headers, body };
        proof {
            assert(header_views(r.headers@) =~= parse_response(raw_response@)->0.headers);
        }
        Ok(r)
    }

    pub fn version(&self) -> (r: String)
        ensures
            r@ == self@.version,
    {
        String::from_str(self.version.as_str())
    }

    pub fn status_code(&self) -> (r: u32)
        ensures
            r == self@.status_code,
    {
        self.status_code
    }

    pub fn reason(&self) -> (r: String)
        ensures
            r@ == self@.reason,
    {
        String::from_str(self.response.as_str())
    }

    pub fn body(&self) -> (r: String)
        ensures
            r@ == self@.body,
    {
        String::from_str(self.body.as_str())
    }

    /// The value of the first header whose name is exactly `name`; an error
    /// naming the header when there is none.
    pub fn header_value(&self, name: &str) -> (r: Result<String, String>)
        ensures
            r is Ok <==> lookup(self@.headers, name@) is Some,
            r is Ok ==> r->Ok_0@ == lookup(self@.headers, name@)->0,
            r matches Err(m) ==> m@ == not_found_message(name@),
    {
        let target = String::from_str(name);
        let ghost hv = header_views(self.headers@);
        let mut i: usize = 0;
        proof {
            assert(hv.skip(0) =~= hv);
        }
        while i < self.headers.len()
            invariant
                i <= self.headers.len(),
                hv == header_views(self.headers@),
                target@ == name@,
                lookup(hv, name@) == lookup(hv.skip(i as int), name@),
            decreases self.headers.len() - i,
        {
            proof {
                assert(hv.skip(i as int).drop_first() =~= hv.skip(i + 1));
                assert(hv.skip(i as int)[0] == self.headers@[i as int]@);
            }
            let same = self.headers[i].name.eq(&target);
            proof {
                assert(hv[i as int] == self.headers@[i as int]@);
                assert(self.headers@[i as int]@.0 == self.headers@[i as int].name@);
                assert(same == (self.headers@[i as int].name@ == name@));
            }
            if same {
                return Ok(String::from_str(self.headers[i].value.as_str()));
            }
            i += 1;
        }
        let mut msg = String::new();
        msg.append("Header ");
        msg.append(name);
        msg.append(" not found");
        Err(msg)
    }
}

} // verus!
