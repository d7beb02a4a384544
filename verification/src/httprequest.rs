//! Request parsing: raw CRLF-delimited request text to a structured
//! [`HttpRequest`].
//!
//! The grammar follows the wire format loosely, line by line: a line containing
//! the literal `HTTP` is the request line (split into method, path and version
//! tokens), a line containing `:` is a header line (split at the first colon,
//! both sides trimmed, a later duplicate name winning), any other non-blank
//! line overwrites the running body, and blank lines are ignored. The request
//! line is recognized by that substring alone, not by position.
use vstd::prelude::*;

use crate::headers::Headers;
use crate::strutil::{
    find_ch, find_char_in, spec_tokens, spec_trim, split_ch, str_eq, tokens_of, trim_str, views_of,
};

verus! {

/// The request method. Anything but `GET` or `POST` parses as
/// `Uninitialized`.
#[derive(Debug, PartialEq, Eq, Structural, Clone, Copy)]
pub enum Method {
    Get,
    Post,
    Uninitialized,
}

/// The protocol version. Anything but `HTTP/1.1` parses as `Uninitialized`.
#[derive(Debug, PartialEq, Eq, Structural, Clone, Copy)]
pub enum Version {
    V1_1,
    V2_0,
    Uninitialized,
}

/// The requested resource: a path.
#[derive(Debug)]
pub enum Resource {
    Path(String),
}

pub open spec fn spec_method_of(s: Seq<char>) -> Method {
    if s == "GET"@ {
        Method::Get
    } else if s == "POST"@ {
        Method::Post
    } else {
        Method::Uninitialized
    }
}

pub open spec fn spec_version_of(s: Seq<char>) -> Version {
    if s == "HTTP/1.1"@ {
        Version::V1_1
    } else {
        Version::Uninitialized
    }
}

impl From<&str> for Method {
    fn from(s: &str) -> (r: Method) {
        if str_eq(s, "GET") {
            Method::Get
        } else if str_eq(s, "POST") {
            Method::Post
        } else {
            Method::Uninitialized
        }
    }
}

impl vstd::std_specs::convert::FromSpecImpl<&str> for Method {
    open spec fn obeys_from_spec() -> bool {
        true
    }

    open spec fn from_spec(v: &str) -> Method {
        spec_method_of(v@)
    }
}

impl From<&str> for Version {
    fn from(s: &str) -> (r: Version) {
        if str_eq(s, "HTTP/1.1") {
            Version::V1_1
        } else {
            Version::Uninitialized
        }
    }
}

impl vstd::std_specs::convert::FromSpecImpl<&str> for Version {
    open spec fn obeys_from_spec() -> bool {
        true
    }

    open spec fn from_spec(v: &str) -> Version {
        spec_version_of(v@)
    }
}

impl Resource {
    /// The path characters.
    pub open spec fn path_view(&self) -> Seq<char> {
        match self {
            Resource::Path(p) => p@,
        }
    }
}

impl PartialEq for Resource {
    fn eq(&self, other: &Resource) -> (r: bool) {
        match (self, other) {
            (Resource::Path(a), Resource::Path(b)) => str_eq(a.as_str(), b.as_str()),
        }
    }
}

impl vstd::std_specs::cmp::PartialEqSpecImpl for Resource {
    open spec fn obeys_eq_spec() -> bool {
        true
    }

    open spec fn eq_spec(&self, other: &Resource) -> bool {
        self.path_view() == other.path_view()
    }
}

/// The abstract value of a parsed request.
pub ghost struct RequestModel {
    pub method: Method,
    pub version: Version,
    pub path: Seq<char>,
    pub headers: Map<Seq<char>, Seq<char>>,
    pub body: Seq<char>,
}

/// A structured request: the request line's three tokens, the header mapping,
/// and the body.
#[derive(Debug)]
pub struct HttpRequest {
    pub method: Method,
    pub version: Version,
    pub resource: Resource,
    pub headers: Headers,
    pub body: String,
}

impl View for HttpRequest {
    type V = RequestModel;

    open spec fn view(&self) -> RequestModel {
        RequestModel {
            method: self.method,
            version: self.version,
            path: self.resource.path_view(),
            headers: self.headers@,
            body: self.body@,
        }
    }
}

/// Why a request text was rejected.
#[derive(Debug, PartialEq, Eq, Structural, Clone, Copy)]
pub enum ParseError {
    /// No line of the text contained the request-line marker `HTTP`.
    MissingRequestLine,
    /// A request line had fewer than three whitespace-separated tokens.
    MalformedRequestLine,
}

/// Drops one trailing carriage return, as `str::lines` does per line.
pub open spec fn strip_cr(l: Seq<char>) -> Seq<char> {
    if l.len() > 0 && l.last() == '\r' {
        l.drop_last()
    } else {
        l
    }
}

/// The lines of `s`: split at `\n`, one trailing newline producing no final
/// empty line, and one trailing `\r` dropped per line, as `str::lines` does.
pub open spec fn spec_lines(s: Seq<char>) -> Seq<Seq<char>> {
    if s.len() == 0 {
        seq![]
    } else {
        let t = if s.last() == '\n' {
            s.drop_last()
        } else {
            s
        };
        split_ch(t, '\n').map_values(|l: Seq<char>| strip_cr(l))
    }
}

/// Splits `s` into lines.
pub fn lines_of(s: &str) -> (r: Vec<String>)
    ensures
        views_of(r@) == spec_lines(s@),
{
    let n = s.unicode_len();
    if n == 0 {
        let r: Vec<String> = Vec::new();
        proof {
            assert(views_of(r@) =~= spec_lines(s@));
        }
        return r;
    }
    let t = if s.get_char(n - 1) == '\n' {
        s.substring_char(0, n - 1)
    } else {
        s.substring_char(0, n)
    };
    proof {
        if s@.last() == '\n' {
            assert(t@ =~= s@.drop_last());
        } else {
            assert(t@ =~= s@);
        }
    }
    let parts = crate::strutil::split_str(t, '\n');
    let mut out: Vec<String> = Vec::new();
    let mut i: usize = 0;
    while i < parts.len()
        invariant
            i <= parts.len(),
            out@.len() == i,
            forall|j: int| 0 <= j < i ==> (#[trigger] out@[j])@ == strip_cr(views_of(parts@)[j]),
        decreases parts.len() - i,
    {
        let p = parts[i].as_str();
        let m = p.unicode_len();
        if m > 0 && p.get_char(m - 1) == '\r' {
            let stripped = p.substring_char(0, m - 1).to_owned();
            proof {
                assert(stripped@ =~= strip_cr(views_of(parts@)[i as int]));
            }
            out.push(stripped);
        } else {
            out.push(parts[i].clone());
        }
        i = i + 1;
    }
    proof {
        assert(views_of(out@) =~= split_ch(t@, '\n').map_values(|l: Seq<char>| strip_cr(l)));
    }
    out
}

/// The request-line marker.
pub open spec fn http_lit() -> Seq<char> {
    seq!['H', 'T', 'T', 'P']
}

/// True when `l` contains the substring `HTTP`.
pub open spec fn contains_http(l: Seq<char>) -> bool {
    exists|i: int| 0 <= i && i + 4 <= l.len() && #[trigger] l.subrange(i, i + 4) == http_lit()
}

/// True when `l` contains a colon.
pub open spec fn has_colon(l: Seq<char>) -> bool {
    find_ch(l, ':') < l.len()
}

/// The header name of a line: everything before the first colon, trimmed.
pub open spec fn spec_header_key(l: Seq<char>) -> Seq<char> {
    spec_trim(l.subrange(0, find_ch(l, ':') as int))
}

/// The header value of a line: everything after the first colon, trimmed.
pub open spec fn spec_header_val(l: Seq<char>) -> Seq<char> {
    spec_trim(l.subrange(find_ch(l, ':') as int + 1, l.len() as int))
}

/// Scans `s` for the substring `HTTP`.
pub fn find_http(s: &str) -> (r: bool)
    ensures
        r == contains_http(s@),
{
    let n = s.unicode_len();
    if n < 4 {
        return false;
    }
    let mut i: usize = 0;
    while i <= n - 4
        invariant
            s@.len() == n,
            4 <= n,
            0 <= i,
            forall|j: int| 0 <= j < i ==> #[trigger] s@.subrange(j, j + 4) != http_lit(),
        decreases n - i,
    {
        let c0 = s.get_char(i);
        let c1 = s.get_char(i + 1);
        let c2 = s.get_char(i + 2);
        let c3 = s.get_char(i + 3);
        if c0 == 'H' && c1 == 'T' && c2 == 'T' && c3 == 'P' {
            proof {
                assert(s@.subrange(i as int, i as int + 4) =~= http_lit());
            }
            return true;
        }
        proof {
            let sub = s@.subrange(i as int, i as int + 4);
            if sub == http_lit() {
                assert(sub[0] == 'H' && sub[1] == 'T' && sub[2] == 'T' && sub[3] == 'P');
                assert(c0 == 'H' && c1 == 'T' && c2 == 'T' && c3 == 'P');
            }
        }
        i = i + 1;
    }
    proof {
        assert forall|j: int| 0 <= j && j + 4 <= s@.len() implies #[trigger] s@.subrange(j, j + 4)
            != http_lit() by {
            assert(j < i);
        }
    }
    false
}

/// Splits a request line into its method, path and version tokens. A line
/// with fewer than three tokens is rejected; extra tokens are ignored.
pub fn process_req_line(s: &str) -> (r: Result<(Method, Resource, Version), ParseError>)
    ensures
        match r {
            Ok(t) => spec_tokens(s@).len() >= 3 && t.0 == spec_method_of(spec_tokens(s@)[0])
                && t.1.path_view() == spec_tokens(s@)[1] && t.2 == spec_version_of(
                spec_tokens(s@)[2],
            ),
            Err(e) => spec_tokens(s@).len() < 3 && e == ParseError::MalformedRequestLine,
        },
{
    let toks = tokens_of(s);
    if toks.len() < 3 {
        return Err(ParseError::MalformedRequestLine);
    }
    let m = Method::from(toks[0].as_str());
    let res = Resource::Path(toks[1].clone());
    let v = Version::from(toks[2].as_str());
    Ok((m, res, v))
}

/// Splits a header line at its first colon and trims both sides; a line
/// without a colon yields two empty strings.
pub fn process_header_line(s: &str) -> (r: (String, String))
    ensures
        has_colon(s@) ==> r.0@ == spec_header_key(s@) && r.1@ == spec_header_val(s@),
        !has_colon(s@) ==> r.0@ == Seq::<char>::empty() && r.1@ == Seq::<char>::empty(),
{
    let n = s.unicode_len();
    let i = find_char_in(s, ':');
    if i < n {
        let k = trim_str(s.substring_char(0, i));
        let v = trim_str(s.substring_char(i + 1, n));
        (k, v)
    } else {
        (String::new(), String::new())
    }
}

/// The parse state before any line has been read.
pub open spec fn init_model() -> RequestModel {
    RequestModel {
        method: Method::Uninitialized,
        version: Version::Uninitialized,
        path: Seq::empty(),
        headers: Map::empty(),
        body: Seq::empty(),
    }
}

/// How one line changes the parse state; `None` is a malformed request line.
pub open spec fn step_line(m: RequestModel, l: Seq<char>) -> Option<RequestModel> {
    if contains_http(l) {
        let toks = spec_tokens(l);
        if toks.len() < 3 {
            None
        } else {
            Some(
                RequestModel {
                    method: spec_method_of(toks[0]),
                    path: toks[1],
                    version: spec_version_of(toks[2]),
                    ..m
                },
            )
        }
    } else if has_colon(l) {
        Some(RequestModel { headers: m.headers.insert(spec_header_key(l), spec_header_val(l)), ..m })
    } else if l.len() > 0 {
        Some(RequestModel { body: l, ..m })
    } else {
        Some(m)
    }
}

/// Folds `step_line` over the lines, in order.
pub open spec fn fold_lines(m: RequestModel, ls: Seq<Seq<char>>) -> Option<RequestModel>
    decreases ls.len(),
{
    if ls.len() == 0 {
        Some(m)
    } else {
        match step_line(m, ls[0]) {
            Some(m2) => fold_lines(m2, ls.drop_first()),
            None => None,
        }
    }
}

/// What parsing a whole request text yields: the folded state, or an error
/// when no line holds a request line or some request line is malformed.
pub open spec fn spec_parse(s: Seq<char>) -> Result<RequestModel, ParseError> {
    let ls = spec_lines(s);
    if !(exists|j: int| 0 <= j < ls.len() && contains_http(#[trigger] ls[j])) {
        Err(ParseError::MissingRequestLine)
    } else {
        match fold_lines(init_model(), ls) {
            Some(m) => Ok(m),
            None => Err(ParseError::MalformedRequestLine),
        }
    }
}

/// Folding one more line is stepping the fold of the lines before it.
pub proof fn lemma_fold_snoc(m: RequestModel, ls: Seq<Seq<char>>, i: int)
    requires
        0 <= i < ls.len(),
    ensures
        fold_lines(m, ls.take(i + 1)) == (match fold_lines(m, ls.take(i)) {
            Some(m2) => step_line(m2, ls[i]),
            None => None,
        }),
    decreases i,
{
    reveal_with_fuel(fold_lines, 3);
    if i == 0 {
        assert(ls.take(1)[0] == ls[0]);
        assert(ls.take(1).drop_first() =~= Seq::<Seq<char>>::empty());
        assert(ls.take(0) =~= Seq::<Seq<char>>::empty());
    } else {
        let rest = ls.drop_first();
        lemma_fold_snoc_helper(m, ls, rest, i);
    }
}

proof fn lemma_fold_snoc_helper(m: RequestModel, ls: Seq<Seq<char>>, rest: Seq<Seq<char>>, i: int)
    requires
        1 <= i < ls.len(),
        rest == ls.drop_first(),
    ensures
        fold_lines(m, ls.take(i + 1)) == (match fold_lines(m, ls.take(i)) {
            Some(m2) => step_line(m2, ls[i]),
            None => None,
        }),
    decreases i,
{
    reveal_with_fuel(fold_lines, 3);
    assert(ls.take(i + 1)[0] == ls[0]);
    assert(ls.take(i)[0] == ls[0]);
    assert(ls.take(i + 1).drop_first() =~= rest.take(i));
    assert(ls.take(i).drop_first() =~= rest.take(i - 1));
    assert(rest[i - 1] == ls[i]);
    match step_line(m, ls[0]) {
        Some(m1) => {
            if i == 1 {
                assert(rest.take(1)[0] == rest[0]);
                assert(rest.take(1).drop_first() =~= Seq::<Seq<char>>::empty());
                assert(rest.take(0) =~= Seq::<Seq<char>>::empty());
            } else {
                lemma_fold_snoc_helper(m1, rest, rest.drop_first(), i - 1);
            }
        },
        None => {},
    }
}

/// A fold that has already failed stays failed.
pub proof fn lemma_fold_none(m: RequestModel, ls: Seq<Seq<char>>, i: int)
    requires
        0 <= i <= ls.len(),
        fold_lines(m, ls.take(i)) is None,
    ensures
        fold_lines(m, ls) is None,
    decreases ls.len() - i,
{
    if i == ls.len() {
        assert(ls.take(i) =~= ls);
    } else {
        lemma_fold_snoc(m, ls, i);
        lemma_fold_none(m, ls, i + 1);
    }
}

proof fn lemma_fold_keeps_req_fields(m: RequestModel, ls: Seq<Seq<char>>, k: int)
    requires
        0 <= k <= ls.len(),
        fold_lines(m, ls.take(k)) is Some,
        forall|j: int| k <= j < ls.len() ==> !contains_http(#[trigger] ls[j]),
    ensures
        fold_lines(m, ls) is Some,
        fold_lines(m, ls).unwrap().method == fold_lines(m, ls.take(k)).unwrap().method,
        fold_lines(m, ls).unwrap().version == fold_lines(m, ls.take(k)).unwrap().version,
        fold_lines(m, ls).unwrap().path == fold_lines(m, ls.take(k)).unwrap().path,
    decreases ls.len() - k,
{
    if k == ls.len() {
        assert(ls.take(k) =~= ls);
    } else {
        lemma_fold_snoc(m, ls, k);
        lemma_fold_keeps_req_fields(m, ls, k + 1);
    }
}

/// For a well-formed request text whose one line containing `HTTP` has at
/// least three tokens, parsing succeeds and takes the method, the path and
/// the version exactly from that line's first three whitespace-separated
/// tokens.
pub proof fn lemma_parse_extracts_request_line(s: Seq<char>, i: int)
    requires
        0 <= i < spec_lines(s).len(),
        contains_http(spec_lines(s)[i]),
        forall|j: int|
            0 <= j < spec_lines(s).len() && j != i ==> !contains_http(#[trigger] spec_lines(s)[j]),
        spec_tokens(spec_lines(s)[i]).len() >= 3,
    ensures
        spec_parse(s) is Ok,
        spec_parse(s).unwrap().method == spec_method_of(spec_tokens(spec_lines(s)[i])[0]),
        spec_parse(s).unwrap().path == spec_tokens(spec_lines(s)[i])[1],
        spec_parse(s).unwrap().version == spec_version_of(spec_tokens(spec_lines(s)[i])[2]),
{
    let ls = spec_lines(s);
    let pre = ls.take(i);
    assert forall|j: int| 0 <= j < pre.len() implies !contains_http(#[trigger] pre[j]) by {
        assert(pre[j] == ls[j]);
    }
    assert(pre.take(0) =~= Seq::<Seq<char>>::empty());
    lemma_fold_keeps_req_fields(init_model(), pre, 0);
    assert(ls.take(i).take(i) =~= ls.take(i));
    lemma_fold_snoc(init_model(), ls, i);
    lemma_fold_keeps_req_fields(init_model(), ls, i + 1);
}

proof fn lemma_fold_preserves_key(m: RequestModel, ls: Seq<Seq<char>>, k: int, key: Seq<char>)
    requires
        0 <= k <= ls.len(),
        fold_lines(m, ls.take(k)) is Some,
        fold_lines(m, ls) is Some,
        fold_lines(m, ls.take(k)).unwrap().headers.contains_key(key),
        forall|j: int|
            k <= j < ls.len() && !contains_http(#[trigger] ls[j]) && has_colon(ls[j])
                ==> spec_header_key(ls[j]) != key,
    ensures
        fold_lines(m, ls).unwrap().headers.contains_key(key),
        fold_lines(m, ls).unwrap().headers[key] == fold_lines(m, ls.take(k)).unwrap().headers[key],
    decreases ls.len() - k,
{
    if k == ls.len() {
        assert(ls.take(k) =~= ls);
    } else {
        lemma_fold_snoc(m, ls, k);
        if fold_lines(m, ls.take(k + 1)) is None {
            lemma_fold_none(m, ls, k + 1);
            assert(false);
        }
        lemma_fold_preserves_key(m, ls, k + 1, key);
    }
}

/// For a header line, parsing maps the line's trimmed name to its trimmed
/// value, provided no later header line carries the same name: among
/// duplicate names only the last line's value survives.
pub proof fn lemma_parse_header_line(s: Seq<char>, i: int)
    requires
        spec_parse(s) is Ok,
        0 <= i < spec_lines(s).len(),
        !contains_http(spec_lines(s)[i]),
        has_colon(spec_lines(s)[i]),
        forall|j: int|
            i < j < spec_lines(s).len() && !contains_http(#[trigger] spec_lines(s)[j]) && has_colon(
                spec_lines(s)[j],
            ) ==> spec_header_key(spec_lines(s)[j]) != spec_header_key(spec_lines(s)[i]),
    ensures
        spec_parse(s).unwrap().headers.contains_key(spec_header_key(spec_lines(s)[i])),
        spec_parse(s).unwrap().headers[spec_header_key(spec_lines(s)[i])] == spec_header_val(
            spec_lines(s)[i],
        ),
{
    let ls = spec_lines(s);
    let key = spec_header_key(ls[i]);
    if fold_lines(init_model(), ls.take(i)) is None {
        lemma_fold_none(init_model(), ls, i);
        assert(false);
    }
    lemma_fold_snoc(init_model(), ls, i);
    if fold_lines(init_model(), ls.take(i + 1)) is None {
        lemma_fold_none(init_model(), ls, i + 1);
        assert(false);
    }
    lemma_fold_preserves_key(init_model(), ls, i + 1, key);
}

impl HttpRequest {
    /// Parses a whole request text. Rejects a text in which no line contains
    /// `HTTP`, and one whose request line has fewer than three tokens;
    /// everything else parses.
    pub fn parse(raw: &str) -> (r: Result<HttpRequest, ParseError>)
        ensures
            match r {
                Ok(req) => spec_parse(raw@) == Ok::<RequestModel, ParseError>(req@),
                Err(e) => spec_parse(raw@) == Err::<RequestModel, ParseError>(e),
            },
    {
        let lines = lines_of(raw);
        let ghost ls = spec_lines(raw@);
        let mut method = Method::Uninitialized;
        let mut version = Version::Uninitialized;
        let mut resource = Resource::Path(String::new());
        let mut headers = Headers::new();
        let mut body = String::new();
        let mut seen = false;
        let mut idx: usize = 0;
        proof {
            assert(ls.take(0) =~= Seq::<Seq<char>>::empty());
        }
        while idx < lines.len()
            invariant
                ls == spec_lines(raw@),
                views_of(lines@) == ls,
                idx <= lines.len(),
                fold_lines(init_model(), ls.take(idx as int)) == Some(
                    RequestModel {
                        method: method,
                        version: version,
                        path: resource.path_view(),
                        headers: headers@,
                        body: body@,
                    },
                ),
                seen ==> exists|j: int| 0 <= j < idx && contains_http(#[trigger] ls[j]),
                !seen ==> forall|j: int| 0 <= j < idx ==> !contains_http(#[trigger] ls[j]),
            decreases lines.len() - idx,
        {
            let l = lines[idx].as_str();
            proof {
                assert(l@ == ls[idx as int]);
            }
            let n_l = l.unicode_len();
            if find_http(l) {
                match process_req_line(l) {
                    Err(e) => {
                        proof {
                            lemma_fold_snoc(init_model(), ls, idx as int);
                            lemma_fold_none(init_model(), ls, idx as int + 1);
                            assert(contains_http(ls[idx as int]));
                        }
                        return Err(e);
                    },
                    Ok(t) => {
                        method = t.0;
                        resource = t.1;
                        version = t.2;
                        seen = true;
                    },
                }
            } else if find_char_in(l, ':') < n_l {
                let kv = process_header_line(l);
                headers.insert(kv.0, kv.1);
            } else if n_l > 0 {
                body = lines[idx].clone();
            }
            proof {
                lemma_fold_snoc(init_model(), ls, idx as int);
            }
            idx = idx + 1;
        }
        proof {
            assert(ls.take(lines@.len() as int) =~= ls);
        }
        if !seen {
            return Err(ParseError::MissingRequestLine);
        }
        let req = HttpRequest { method, version, resource, headers, body };
        Ok(req)
    }
}

} // verus!
