//! HTTP requests: the request parser and the extraction of query and form
//! parameters.
use vstd::prelude::*;
use crate::strmap::StrMap;
use crate::text::{
    chars_of, decode_lossy, find, find_char, lemma_split_crlf_nonempty, lossy_text, lower_of,
    lowercase, rfind_before, rfind_char, split_char, split_crlf, split_lines, split_on,
    split_words, string_of, sub_vec, trim, trim_chars, views, words,
};

verus! {

/// The request methods the server recognizes.
#[derive(Debug, Clone, Copy, PartialEq, Eq, Structural)]
pub enum HttpRequestMethod {
    GET,
    POST,
    DELETE,
}

/// Why a header block could not be parsed.
#[derive(Debug, Clone, Copy, PartialEq, Eq, Structural)]
pub enum ParseError {
    /// The start line does not hold exactly three words.
    MalformedStartLine,
    /// The first word of the start line is not a recognized method.
    UnknownMethod,
    /// A header line holds no `:`.
    MalformedHeaderLine,
}

/// A parsed request. Header names are stored lower-cased.
#[derive(Debug)]
pub struct HttpRequest {
    pub method: HttpRequestMethod,
    pub uri: String,
    pub version: String,
    pub headers: StrMap,
    pub content: Vec<u8>,
}

/// The method that a start-line word names, if any.
pub open spec fn method_of(w: Seq<char>) -> Option<HttpRequestMethod> {
    if w == seq!['G', 'E', 'T'] {
        Some(HttpRequestMethod::GET)
    } else if w == seq!['P', 'O', 'S', 'T'] {
        Some(HttpRequestMethod::POST)
    } else if w == seq!['D', 'E', 'L', 'E', 'T', 'E'] {
        Some(HttpRequestMethod::DELETE)
    } else {
        None
    }
}

/// The lines of a request text, separated by `"\r\n"` only.
pub open spec fn request_lines(t: Seq<char>) -> Seq<Seq<char>> {
    split_crlf(t)
}

/// The position of the first empty line at or after `i`, or the number of lines.
pub open spec fn first_empty_from(ls: Seq<Seq<char>>, i: int) -> int
    decreases ls.len() - i,
{
    if i < 0 || i >= ls.len() {
        ls.len() as int
    } else if ls[i].len() == 0 {
        i
    } else {
        first_empty_from(ls, i + 1)
    }
}

/// The words of the start line, the request's first line.
pub open spec fn start_words(t: Seq<char>) -> Seq<Seq<char>> {
    words(request_lines(t)[0])
}

/// The header lines: the lines after the start line, up to the first empty line.
pub open spec fn header_lines(t: Seq<char>) -> Seq<Seq<char>> {
    let ls = request_lines(t);
    ls.subrange(1, first_empty_from(ls, 1))
}

/// Position of the `:` that ends a header name, or -1.
pub open spec fn colon_at(l: Seq<char>) -> int {
    find(l, seq![':'])
}

/// The stored name of a header line: the text before its first `:`, lower-cased.
pub open spec fn header_key(l: Seq<char>) -> Seq<char> {
    lower_of(l.subrange(0, colon_at(l)))
}

/// The stored value of a header line: the text after its first `:`, trimmed.
pub open spec fn header_value(l: Seq<char>) -> Seq<char> {
    trim(l.subrange(colon_at(l) + 1, l.len() as int))
}

/// The header mapping of a list of header lines; a later line wins.
pub open spec fn headers_map(ls: Seq<Seq<char>>) -> Map<Seq<char>, Seq<char>>
    decreases ls.len(),
{
    if ls.len() == 0 {
        Map::empty()
    } else {
        headers_map(ls.drop_last()).insert(header_key(ls.last()), header_value(ls.last()))
    }
}

/// The failure, if any, of parsing a request text.
pub open spec fn parse_failure(t: Seq<char>) -> Option<ParseError> {
    if start_words(t).len() != 3 {
        Some(ParseError::MalformedStartLine)
    } else if method_of(start_words(t)[0]) is None {
        Some(ParseError::UnknownMethod)
    } else if exists|i: int|
        0 <= i < header_lines(t).len() && colon_at(#[trigger] header_lines(t)[i]) < 0 {
        Some(ParseError::MalformedHeaderLine)
    } else {
        None
    }
}

/// Whether method, target, version and headers of `q` are what parsing the
/// request text `t` yields.
pub open spec fn head_parsed_as(t: Seq<char>, q: HttpRequest) -> bool {
    &&& parse_failure(t) is None
    &&& method_of(start_words(t)[0]) == Some(q.method)
    &&& q.uri@ == start_words(t)[1]
    &&& q.version@ == start_words(t)[2]
    &&& q.headers@ == headers_map(header_lines(t))
}

/// Whether `q` is what parsing the request text `t` yields: the body is left
/// empty, for the framing of the connection to attach.
pub open spec fn parsed_as(t: Seq<char>, q: HttpRequest) -> bool {
    &&& head_parsed_as(t, q)
    &&& q.content@.len() == 0
}

/// The pairs of a `key=value&key=value` list as a map; a later key wins and
/// a piece without `=` is skipped.
pub open spec fn pairs_map(ps: Seq<Seq<char>>) -> Map<Seq<char>, Seq<char>>
    decreases ps.len(),
{
    if ps.len() == 0 {
        Map::empty()
    } else {
        let m = pairs_map(ps.drop_last());
        let p = ps.last();
        let k = find(p, seq!['=']);
        if k < 0 {
            m
        } else {
            m.insert(p.subrange(0, k), p.subrange(k + 1, p.len() as int))
        }
    }
}

/// The parameters of a `key=value&key=value` list.
pub open spec fn kv_map(s: Seq<char>) -> Map<Seq<char>, Seq<char>> {
    pairs_map(split_on(s, '&'))
}

/// The query parameters of a request target: those after its last `?`.
pub open spec fn query_map(uri: Seq<char>) -> Map<Seq<char>, Seq<char>> {
    let i = rfind_before(uri, '?', uri.len() as int);
    if i < 0 {
        Map::empty()
    } else {
        kv_map(uri.skip(i + 1))
    }
}

/// Whether a request carries a form-encoded body.
pub open spec fn is_form_post(q: &HttpRequest) -> bool {
    &&& q.method == HttpRequestMethod::POST
    &&& q.headers@.contains_key("content-type"@)
    &&& q.headers@["content-type"@] == "application/x-www-form-urlencoded"@
}

/// The form parameters of a request.
pub open spec fn form_map(q: &HttpRequest) -> Map<Seq<char>, Seq<char>> {
    if is_form_post(q) {
        kv_map(lossy_text(q.content@))
    } else {
        Map::empty()
    }
}

fn method_from(w: &Vec<char>) -> (r: Option<HttpRequestMethod>)
    ensures
        r == method_of(w@),
{
    if w.len() == 3 && w[0] == 'G' && w[1] == 'E' && w[2] == 'T' {
        assert(w@ =~= seq!['G', 'E', 'T']);
        Some(HttpRequestMethod::GET)
    } else if w.len() == 4 && w[0] == 'P' && w[1] == 'O' && w[2] == 'S' && w[3] == 'T' {
        assert(w@ =~= seq!['P', 'O', 'S', 'T']);
        Some(HttpRequestMethod::POST)
    } else if w.len() == 6 && w[0] == 'D' && w[1] == 'E' && w[2] == 'L' && w[3] == 'E' && w[4]
        == 'T' && w[5] == 'E' {
        assert(w@ =~= seq!['D', 'E', 'L', 'E', 'T', 'E']);
        Some(HttpRequestMethod::DELETE)
    } else {
        None
    }
}

fn kv_from_chars(s: &Vec<char>) -> (r: StrMap)
    ensures
        r@ == kv_map(s@),
{
    let pieces = split_char(s, '&');
    let mut out = StrMap::new();
    let mut i: usize = 0;
    while i < pieces.len()
        invariant
            i <= pieces@.len(),
            views(pieces@) == split_on(s@, '&'),
            out@ == pairs_map(views(pieces@).take(i as int)),
        decreases pieces@.len() - i,
    {
        let p = &pieces[i];
        let n = p.len();
        assert(views(pieces@).take(i + 1).drop_last() =~= views(pieces@).take(i as int));
        assert(views(pieces@)[i as int] == p@);
        match find_char(p, '=') {
            Some(k) => {
                let key = sub_vec(p, 0, k);
                let value = sub_vec(p, k + 1, n);
                out.insert(string_of(key.as_slice()), string_of(value.as_slice()));
            },
            None => {},
        }
        i += 1;
    }
    assert(views(pieces@).take(pieces@.len() as int) =~= views(pieces@));
    out
}

/// Parses a `key=value&key=value` list. Pieces without `=` are skipped; keys and
/// values are kept as written; a later key overwrites an earlier one.
pub fn parse_key_value_list(list: &str) -> (r: StrMap)
    ensures
        r@ == kv_map(list@),
{
    let text = chars_of(list);
    kv_from_chars(&text)
}

/// Parses the query parameters of a request target: the list after its last `?`,
/// or none where it has no `?`.
pub fn parse_query_params(uri: &str) -> (r: StrMap)
    ensures
        r@ == query_map(uri@),
{
    let text = chars_of(uri);
    let n = text.len();
    match rfind_char(&text, '?') {
        Some(i) => {
            let rest = sub_vec(&text, i + 1, n);
            assert(rest@ == uri@.skip(i + 1));
            kv_from_chars(&rest)
        },
        None => StrMap::new(),
    }
}

/// Parses the form parameters of a request: the body's list where the request is a
/// POST whose `content-type` is exactly `application/x-www-form-urlencoded`, and
/// none otherwise.
pub fn parse_form_params(post_request: &HttpRequest) -> (r: StrMap)
    ensures
        r@ == form_map(post_request),
        !is_form_post(post_request) ==> r@ == Map::<Seq<char>, Seq<char>>::empty(),
{
    if post_request.method != HttpRequestMethod::POST {
        return StrMap::new();
    }
    let key = "content-type".to_owned();
    match post_request.headers.get(&key) {
        Some(t) => {
            let form = "application/x-www-form-urlencoded".to_owned();
            if *t != form {
                return StrMap::new();
            }
        },
        None => {
            return StrMap::new();
        },
    }
    let body = decode_lossy(post_request.content.as_slice());
    parse_key_value_list(body.as_str())
}

fn parse_header_line(line: &Vec<char>) -> (r: Option<(String, String)>)
    ensures
        match r {
            Some(kv) => colon_at(line@) >= 0 && kv.0@ == header_key(line@) && kv.1@
                == header_value(line@),
            None => colon_at(line@) < 0,
        },
{
    let n = line.len();
    match find_char(line, ':') {
        Some(k) => {
            let name = string_of(sub_vec(line, 0, k).as_slice());
            let value = trim_chars(&sub_vec(line, k + 1, n));
            Some((lowercase(name.as_str()), string_of(value.as_slice())))
        },
        None => None,
    }
}

/// Parses a request text: a start line of exactly three words (method, target,
/// version), then header lines of the form `name: value` up to the first empty line
/// or the end; lines are separated by `"\r\n"` only. Header names are lower-cased
/// and values trimmed, and a later header overwrites an earlier one. Nothing after
/// the first empty line is read, and the body is left empty.
pub fn parse_http_request(request: &str) -> (r: Result<HttpRequest, ParseError>)
    ensures
        match r {
            Ok(q) => parsed_as(request@, q),
            Err(e) => parse_failure(request@) == Some(e),
        },
        r is Ok <==> parse_failure(request@) is None,
        r matches Ok(q) ==> q.method == HttpRequestMethod::GET || q.method
            == HttpRequestMethod::POST || q.method == HttpRequestMethod::DELETE,
{
    let text = chars_of(request);
    let ghost t = request@;
    let lines = split_lines(&text);
    let ghost ls = request_lines(t);
    proof {
        lemma_split_crlf_nonempty(text@);
    }
    assert(views(lines@)[0] == lines@[0]@);
    let start = split_words(&lines[0]);
    if start.len() != 3 {
        return Err(ParseError::MalformedStartLine);
    }
    assert(views(start@)[0] == start@[0]@);
    assert(views(start@)[1] == start@[1]@);
    assert(views(start@)[2] == start@[2]@);
    let method = match method_from(&start[0]) {
        Some(m) => m,
        None => {
            return Err(ParseError::UnknownMethod);
        },
    };
    let mut headers = StrMap::new();
    let mut idx: usize = 1;
    assert(ls.subrange(1, 1) =~= Seq::<Seq<char>>::empty());
    while idx < lines.len() && lines[idx].len() > 0
        invariant
            1 <= idx <= lines@.len(),
            t == request@,
            ls == request_lines(t),
            ls == views(lines@),
            first_empty_from(ls, 1) == first_empty_from(ls, idx as int),
            views(start@) == start_words(t),
            start@.len() == 3,
            method_of(start_words(t)[0]) == Some(method),
            headers@ == headers_map(ls.subrange(1, idx as int)),
            forall|j: int| 1 <= j < idx ==> colon_at(#[trigger] ls[j]) >= 0,
        decreases lines@.len() - idx,
    {
        assert(ls[idx as int] == lines@[idx as int]@);
        match parse_header_line(&lines[idx]) {
            Some(kv) => {
                let (key, value) = kv;
                headers.insert(key, value);
                assert(ls.subrange(1, idx + 1).drop_last() =~= ls.subrange(1, idx as int));
            },
            None => {
                proof {
                    assert(ls[idx as int].len() > 0);
                    lemma_first_empty_bound(ls, idx as int + 1);
                    assert(first_empty_from(ls, idx as int) == first_empty_from(ls, idx + 1));
                }
                let ghost e = first_empty_from(ls, 1);
                assert(idx + 1 <= e <= ls.len());
                assert(header_lines(t) == ls.subrange(1, e));
                assert(header_lines(t)[idx - 1] == ls[idx as int]);
                assert(colon_at(header_lines(t)[idx - 1]) < 0);
                return Err(ParseError::MalformedHeaderLine);
            },
        }
        idx += 1;
    }
    assert(first_empty_from(ls, idx as int) == idx);
    assert(header_lines(t) =~= ls.subrange(1, idx as int));
    assert forall|j: int| 0 <= j < header_lines(t).len() implies colon_at(
        #[trigger] header_lines(t)[j],
    ) >= 0 by {
        assert(header_lines(t)[j] == ls[j + 1]);
    }
    Ok(
        HttpRequest {
            method,
            uri: string_of(start[1].as_slice()),
            version: string_of(start[2].as_slice()),
            headers,
            content: Vec::new(),
        },
    )
}

impl TryFrom<String> for HttpRequest {
    type Error = ParseError;

    /// Parses a request text, as [`parse_http_request`] does.
    fn try_from(request: String) -> (r: Result<HttpRequest, ParseError>)
        ensures
            match r {
                Ok(q) => parsed_as(request@, q),
                Err(e) => parse_failure(request@) == Some(e),
            },
    {
        parse_http_request(request.as_str())
    }
}

/// Parsing yields fresh strings and maps, which no spec-level value can name, so
/// the conversion's result is stated by the `ensures` of `try_from` alone.
impl vstd::std_specs::convert::TryFromSpecImpl<String> for HttpRequest {
    open spec fn obeys_try_from_spec() -> bool {
        false
    }

    open spec fn try_from_spec(v: String) -> Result<HttpRequest, ParseError> {
        Err(ParseError::MalformedStartLine)
    }
}

/// Whether piece `p` of a `key=value` list holds an `=` and names key `k`.
pub open spec fn names_key(p: Seq<char>, k: Seq<char>) -> bool {
    find(p, seq!['=']) >= 0 && p.subrange(0, find(p, seq!['='])) == k
}

/// In a `key=value` list, a key's value is the one of the last piece that names it:
/// a later duplicate overwrites an earlier one.
pub proof fn lemma_later_duplicate_wins(s: Seq<char>, i: int, k: Seq<char>)
    requires
        0 <= i < split_on(s, '&').len(),
        names_key(split_on(s, '&')[i], k),
        forall|j: int|
            i < j < split_on(s, '&').len() ==> !names_key(#[trigger] split_on(s, '&')[j], k),
    ensures
        kv_map(s).contains_key(k),
        kv_map(s)[k] == ({
            let p = split_on(s, '&')[i];
            p.subrange(find(p, seq!['=']) + 1, p.len() as int)
        }),
{
    lemma_pairs_last_wins(split_on(s, '&'), i, k);
}

proof fn lemma_pairs_last_wins(ps: Seq<Seq<char>>, i: int, k: Seq<char>)
    requires
        0 <= i < ps.len(),
        names_key(ps[i], k),
        forall|j: int| i < j < ps.len() ==> !names_key(#[trigger] ps[j], k),
    ensures
        pairs_map(ps).contains_key(k),
        pairs_map(ps)[k] == ps[i].subrange(find(ps[i], seq!['=']) + 1, ps[i].len() as int),
    decreases ps.len(),
{
    if i < ps.len() - 1 {
        let q = ps.drop_last();
        assert forall|j: int| i < j < q.len() implies !names_key(#[trigger] q[j], k) by {
            assert(q[j] == ps[j]);
        }
        assert(q[i] == ps[i]);
        lemma_pairs_last_wins(q, i, k);
        assert(!names_key(ps[ps.len() - 1], k));
    }
}

proof fn lemma_first_empty_bound(ls: Seq<Seq<char>>, i: int)
    requires
        0 <= i,
    ensures
        first_empty_from(ls, i) >= i || (i > ls.len() && first_empty_from(ls, i) == ls.len()),
        first_empty_from(ls, i) <= ls.len(),
    decreases ls.len() - i,
{
    if i < ls.len() && ls[i].len() > 0 {
        lemma_first_empty_bound(ls, i + 1);
    }
}

/// A request text whose start line is well formed but one of whose header lines
/// holds no `:` fails to parse, and always with the same error.
pub proof fn lemma_header_without_colon_fails(t: Seq<char>, i: int)
    requires
        start_words(t).len() == 3,
        method_of(start_words(t)[0]) is Some,
        0 <= i < header_lines(t).len(),
        colon_at(header_lines(t)[i]) < 0,
    ensures
        parse_failure(t) == Some(ParseError::MalformedHeaderLine),
{
}

/// A request text whose start line holds three words, the first of which is no
/// recognized method, fails to parse with `UnknownMethod`.
pub proof fn lemma_unknown_method_fails(t: Seq<char>)
    requires
        start_words(t).len() == 3,
        method_of(start_words(t)[0]) is None,
    ensures
        parse_failure(t) == Some(ParseError::UnknownMethod),
{
}

} // verus!
