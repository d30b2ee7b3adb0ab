//! Decomposition of an absolute `http://` URL into host, port, path and search part.
use vstd::prelude::*;
use crate::text::{
    before, after, has, first_pos, chars_of, string_of_range, split_once_char,
    lemma_first_pos_concat,
};

verus! {

/// The only scheme this client speaks.
pub open spec fn http_scheme() -> Seq<char> {
    seq!['h', 't', 't', 'p', ':', '/', '/']
}

/// The port used when the authority names none.
pub open spec fn default_port() -> Seq<char> {
    seq!['8', '0']
}

pub open spec fn is_http(raw: Seq<char>) -> bool {
    raw.len() >= 7 && raw.take(7) == http_scheme()
}

/// A URL as text: the raw string and the four parts a parse derives from it.
pub struct UrlView {
    pub url: Seq<char>,
    pub host: Seq<char>,
    pub port: Seq<char>,
    pub path: Seq<char>,
    pub searchpart: Seq<char>,
}

/// The parts of `raw`, read with first-occurrence splits after the scheme:
/// authority and tail at the first `/`, host and port at the first `:` of the
/// authority, path and search part at the first `?` of the tail.
pub open spec fn parse_url(raw: Seq<char>) -> UrlView {
    let rest = raw.skip(7);
    let authority = before(rest, '/');
    let tail = after(rest, '/');
    UrlView {
        url: raw,
        host: before(authority, ':'),
        port: if has(authority, ':') {
            after(authority, ':')
        } else {
            default_port()
        },
        path: if has(rest, '/') {
            before(tail, '?')
        } else {
            Seq::empty()
        },
        searchpart: after(tail, '?'),
    }
}

/// `http://host[:port]/path[?search]`
pub open spec fn url_text(
    host: Seq<char>,
    port: Option<Seq<char>>,
    path: Seq<char>,
    search: Option<Seq<char>>,
) -> Seq<char> {
    http_scheme() + host + marked(':', port) + seq!['/'] + path + marked('?', search)
}

/// `c` followed by `s` when there is an `s`; nothing otherwise.
pub open spec fn marked(c: char, s: Option<Seq<char>>) -> Seq<char> {
    match s {
        Some(t) => seq![c] + t,
        None => Seq::empty(),
    }
}

pub open spec fn lacks(s: Seq<char>, c: char) -> bool {
    forall|i: int| 0 <= i < s.len() ==> s[i] != c
}

proof fn lemma_marked(c: char, s: Option<Seq<char>>, d: char)
    ensures
        c == d ==> first_pos(marked(c, s), d) == 0,
        c == d ==> (has(marked(c, s), d) <==> s is Some),
        c == d && s is Some ==> before(marked(c, s), d) == Seq::<char>::empty(),
        c == d && s is Some ==> after(marked(c, s), d) == s->0,
        s is None ==> first_pos(marked(c, s), d) == 0 && after(marked(c, s), d) == Seq::<char>::empty(),
{
    if s is Some {
        let m = marked(c, s);
        assert(m[0] == c);
        if c == d {
            assert(m.take(0) =~= Seq::<char>::empty());
            assert(m.skip(1) =~= s->0);
        }
    }
}

/// A URL written as `http://host[:port]/path[?search]`, with no `/` or `:` in
/// the host, no `/` in the port and no `?` in the path, parses back into
/// exactly those parts; the port is `80` when it is left out and the search
/// part empty when there is none.
pub proof fn lemma_parse_url_parts(
    host: Seq<char>,
    port: Option<Seq<char>>,
    path: Seq<char>,
    search: Option<Seq<char>>,
)
    requires
        lacks(host, '/'),
        lacks(host, ':'),
        port is Some ==> lacks(port->0, '/'),
        lacks(path, '?'),
    ensures
        is_http(url_text(host, port, path, search)),
        parse_url(url_text(host, port, path, search)) == (UrlView {
            url: url_text(host, port, path, search),
            host,
            port: match port {
                Some(p) => p,
                None => default_port(),
            },
            path,
            searchpart: match search {
                Some(q) => q,
                None => Seq::empty(),
            },
        }),
{
    let raw = url_text(host, port, path, search);
    let pm = marked(':', port);
    let sm = marked('?', search);
    let authority = host + pm;
    let tail = path + sm;
    let rest = raw.skip(7);
    assert(raw.take(7) =~= http_scheme());
    assert(rest =~= authority + (seq!['/'] + tail));
    assert(lacks(authority, '/')) by {
        assert forall|i: int| 0 <= i < authority.len() implies authority[i] != '/' by {
            if i >= host.len() {
                if i > host.len() {
                    assert(authority[i] == port->0[i - host.len() - 1]);
                }
            }
        }
    }
    lemma_first_pos_concat(authority, seq!['/'] + tail, '/');
    assert(first_pos(seq!['/'] + tail, '/') == 0) by {
        assert((seq!['/'] + tail)[0] == '/');
    }
    assert(before(rest, '/') =~= authority);
    assert(after(rest, '/') =~= tail);
    lemma_first_pos_concat(host, pm, ':');
    lemma_marked(':', port, ':');
    assert(before(authority, ':') =~= host);
    if port is Some {
        assert(authority.skip(host.len() + 1int) =~= port->0);
    }
    lemma_first_pos_concat(path, sm, '?');
    lemma_marked('?', search, '?');
    assert(before(tail, '?') =~= path);
    if search is Some {
        assert(tail.skip(path.len() + 1int) =~= search->0);
    }
}

/// What parsing `raw` gives: its parts, or the error text for a scheme other
/// than `http://`. It depends on the raw text alone.
pub open spec fn parse_outcome(raw: Seq<char>) -> Result<UrlView, Seq<char>> {
    if is_http(raw) {
        Ok(parse_url(raw))
    } else {
        Err("Unsupported URL scheme"@)
    }
}

/// Parsing keeps the raw text and depends on nothing else, so parsing the
/// same text again, or the text of a parsed URL, gives the same outcome.
pub proof fn lemma_parse_url_again(raw: Seq<char>)
    ensures
        parse_outcome(raw) matches Ok(v) ==> v.url == raw && parse_outcome(v.url) == parse_outcome(
            raw,
        ),
        parse_outcome(raw) is Err ==> parse_outcome(raw) == Err::<UrlView, Seq<char>>(
            "Unsupported URL scheme"@,
        ),
{
}

#[derive(Debug, Clone, PartialEq)]
pub struct Url {
    pub url: String,
    pub host: String,
    pub port: String,
    pub path: String,
    pub searchpart: String,
}

impl View for Url {
    type V = UrlView;

    open spec fn view(&self) -> UrlView {
        UrlView {
            url: self.url@,
            host: self.host@,
            port: self.port@,
            path: self.path@,
            searchpart: self.searchpart@,
        }
    }
}

fn empty_string() -> (r: String)
    ensures
        r@ == Seq::<char>::empty(),
{
    String::new()
}

fn copy_string(s: &String) -> (r: String)
    ensures
        r@ == s@,
{
    String::from_str(s.as_str())
}

impl Url {
    /// A URL holding `url` as its raw text, with all derived parts empty until `parse`.
    pub fn new(url: String) -> (r: Self)
        ensures
            r@ == (UrlView {
                url: url@,
                host: Seq::empty(),
                port: Seq::empty(),
                path: Seq::empty(),
                searchpart: Seq::empty(),
            }),
    {
        Url {
            url,
            host: empty_string(),
            port: empty_string(),
            path: empty_string(),
            searchpart: empty_string(),
        }
    }

    pub fn get_url(&self) -> (r: String)
        ensures
            r@ == self.url@,
    {
        copy_string(&self.url)
    }

    pub fn get_host(&self) -> (r: String)
        ensures
            r@ == self.host@,
    {
        copy_string(&self.host)
    }

    pub fn get_port(&self) -> (r: String)
        ensures
            r@ == self.port@,
    {
        copy_string(&self.port)
    }

    pub fn get_path(&self) -> (r: String)
        ensures
            r@ == self.path@,
    {
        copy_string(&self.path)
    }

    pub fn get_searchpart(&self) -> (r: String)
        ensures
            r@ == self.searchpart@,
    {
        copy_string(&self.searchpart)
    }

    /// Fills in host, port, path and search part from the raw text and returns
    /// a copy of the result. A URL that does not start with `http://` is
    /// refused and left as it was.
    pub fn parse(&mut self) -> (r: Result<Self, String>)
        ensures
            is_http(old(self).url@) ==> r is Ok && final(self)@ == parse_url(old(self).url@)
                && r->Ok_0@ == final(self)@,
            !is_http(old(self).url@) ==> r is Err && final(self)@ == old(self)@,
            r matches Err(m) ==> m@ == "Unsupported URL scheme"@,
            r matches Ok(u) ==> parse_outcome(old(self).url@) == Ok::<UrlView, Seq<char>>(u@),
            r matches Err(m) ==> parse_outcome(old(self).url@) == Err::<UrlView, Seq<char>>(m@),
    {
        if !self.is_supported_scheme() {
            let mut msg = String::new();
            msg.append("Unsupported URL scheme");
            return Err(msg);
        }
        self.host = self.extract_host();
        self.port = self.extract_port();
        self.path = self.extract_path();
        self.searchpart = self.extract_searchpart();
        Ok(self.duplicate())
    }

    /// The authority, and the tail after the first `/` when there is one.
    fn get_domain_and_path(&self) -> (r: Vec<String>)
        requires
            is_http(self.url@),
        ensures
            r.len() == 1 || r.len() == 2,
            r.len() == 2 <==> has(self.url@.skip(7), '/'),
            r[0]@ == before(self.url@.skip(7), '/'),
            r.len() == 2 ==> r[1]@ == after(self.url@.skip(7), '/'),
    {
        let cs = chars_of(self.url.as_str());
        let rest = string_of_range(&cs, 7, cs.len());
        proof {
            assert(rest@ =~= self.url@.skip(7));
        }
        match split_once_char(rest.as_str(), '/') {
            Some((authority, tail)) => vec![authority, tail],
            None => vec![rest],
        }
    }

    fn extract_host(&self) -> (r: String)
        requires
            is_http(self.url@),
        ensures
            r@ == parse_url(self.url@).host,
    {
        let parts = self.get_domain_and_path();
        match split_once_char(parts[0].as_str(), ':') {
            Some((host, _)) => host,
            None => copy_string(&parts[0]),
        }
    }

    fn extract_port(&self) -> (r: String)
        requires
            is_http(self.url@),
        ensures
            r@ == parse_url(self.url@).port,
    {
        let parts = self.get_domain_and_path();
        match split_once_char(parts[0].as_str(), ':') {
            Some((_, port)) => port,
            None => {
                let mut port = String::new();
                port.append("80");
                proof {
                    reveal_strlit("80");
                    assert(port@ =~= default_port());
                }
                port
            },
        }
    }

    fn extract_path(&self) -> (r: String)
        requires
            is_http(self.url@),
        ensures
            r@ == parse_url(self.url@).path,
    {
        let parts = self.get_domain_and_path();
        if parts.len() < 2 {
            return empty_string();
        }
        match split_once_char(parts[1].as_str(), '?') {
            Some((path, _)) => path,
            None => copy_string(&parts[1]),
        }
    }

    fn extract_searchpart(&self) -> (r: String)
        requires
            is_http(self.url@),
        ensures
            r@ == parse_url(self.url@).searchpart,
    {
        let parts = self.get_domain_and_path();
        if parts.len() < 2 {
            proof {
                assert(after(Seq::<char>::empty(), '?') =~= Seq::<char>::empty());
            }
            return empty_string();
        }
        match split_once_char(parts[1].as_str(), '?') {
            Some((_, searchpart)) => searchpart,
            None => empty_string(),
        }
    }

    fn duplicate(&self) -> (r: Self)
        ensures
            r@ == self@,
    {
        Url {
            url: copy_string(&self.url),
            host: copy_string(&self.host),
            port: copy_string(&self.port),
            path: copy_string(&self.path),
            searchpart: copy_string(&self.searchpart),
        }
    }

    /// Whether the raw text starts with `http://`.
    fn is_supported_scheme(&self) -> (r: bool)
        ensures
            r == is_http(self.url@),
    {
        let cs = chars_of(self.url.as_str());
        if cs.len() < 7 {
            return false;
        }
        let r = cs[0] == 'h' && cs[1] == 't' && cs[2] == 't' && cs[3] == 'p' && cs[4] == ':'
            && cs[5] == '/' && cs[6] == '/';
        proof {
            if r {
                assert(cs@.take(7) =~= http_scheme());
            } else {
                assert(cs@.take(7) != http_scheme()) by {
                    if cs@.take(7) == http_scheme() {
                        assert(cs@.take(7)[0] == 'h');
                        assert(cs@.take(7)[6] == '/');
                    }
                }
            }
        }
        r
    }
}

} // verus!
