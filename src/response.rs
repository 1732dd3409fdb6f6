//! HTTP responses and their wire form.
use vstd::prelude::*;
use vstd::utf8::{decode_utf8, encode_utf8};
use crate::framing::{digits_value, is_digit};
use crate::request::first_empty_from;
use crate::text::{append, chars_of, find, find_from, split_crlf, string_of};

verus! {

/// A response: start line, ordered header pairs and body.
#[derive(Debug)]
pub struct HttpResponse {
    pub version: String,
    pub status: u32,
    pub reason: String,
    pub headers: Vec<(String, String)>,
    pub content: Vec<u8>,
}

/// The character of a decimal digit.
pub open spec fn digit_char(d: nat) -> char {
    if d == 0 {
        '0'
    } else if d == 1 {
        '1'
    } else if d == 2 {
        '2'
    } else if d == 3 {
        '3'
    } else if d == 4 {
        '4'
    } else if d == 5 {
        '5'
    } else if d == 6 {
        '6'
    } else if d == 7 {
        '7'
    } else if d == 8 {
        '8'
    } else {
        '9'
    }
}

/// The decimal notation of `n`.
pub open spec fn decimal(n: nat) -> Seq<char>
    decreases n,
{
    if n < 10 {
        seq![digit_char(n)]
    } else {
        decimal(n / 10).push(digit_char(n % 10))
    }
}

/// `"\r\n"`.
pub open spec fn crlf() -> Seq<char> {
    seq!['\r', '\n']
}

/// The header lines of a response, each ended by `"\r\n"`.
pub open spec fn header_text(hs: Seq<(String, String)>) -> Seq<char>
    decreases hs.len(),
{
    if hs.len() == 0 {
        Seq::empty()
    } else {
        header_text(hs.drop_last()) + hs.last().0@ + seq![':', ' '] + hs.last().1@ + crlf()
    }
}

/// The start line of a response, without its line end.
pub open spec fn start_line(version: Seq<char>, status: u32, reason: Seq<char>) -> Seq<char> {
    version + seq![' '] + decimal(status as nat) + seq![' '] + reason
}

/// The text of a response before its body: start line, header lines, blank line.
pub open spec fn head_text(r: &HttpResponse) -> Seq<char> {
    start_line(r.version@, r.status, r.reason@) + crlf() + header_text(r.headers@) + crlf()
}

/// The bytes of a response on the wire.
pub open spec fn wire_bytes(r: &HttpResponse) -> Seq<u8> {
    encode_utf8(head_text(r)) + r.content@ + seq![13u8, 10u8]
}

fn digit(d: u64) -> (r: char)
    requires
        d < 10,
    ensures
        r == digit_char(d as nat),
{
    if d == 0 {
        '0'
    } else if d == 1 {
        '1'
    } else if d == 2 {
        '2'
    } else if d == 3 {
        '3'
    } else if d == 4 {
        '4'
    } else if d == 5 {
        '5'
    } else if d == 6 {
        '6'
    } else if d == 7 {
        '7'
    } else if d == 8 {
        '8'
    } else {
        '9'
    }
}

/// The decimal notation of `n`.
pub fn decimal_chars(n: u64) -> (r: Vec<char>)
    ensures
        r@ == decimal(n as nat),
    decreases n,
{
    if n < 10 {
        let mut v: Vec<char> = Vec::new();
        v.push(digit(n));
        assert(v@ =~= seq![digit_char(n as nat)]);
        v
    } else {
        let mut v = decimal_chars(n / 10);
        v.push(digit(n % 10));
        v
    }
}

fn append_str(out: &mut Vec<char>, s: &str)
    ensures
        final(out)@ == old(out)@ + s@,
{
    let cs = chars_of(s);
    append(out, cs.as_slice());
}

impl HttpResponse {
    /// `HTTP/1.1 400 Bad Request`, with no headers and no body.
    pub fn bad_request() -> (r: HttpResponse)
        ensures
            r.version@ == "HTTP/1.1"@,
            r.status == 400,
            r.reason@ == "Bad Request"@,
            r.headers@.len() == 0,
            r.content@.len() == 0,
    {
        HttpResponse {
            version: "HTTP/1.1".to_owned(),
            status: 400,
            reason: "Bad Request".to_owned(),
            headers: Vec::new(),
            content: Vec::new(),
        }
    }

    /// `HTTP/1.1 404 Not Found`, with no headers and no body.
    pub fn not_found() -> (r: HttpResponse)
        ensures
            r.version@ == "HTTP/1.1"@,
            r.status == 404,
            r.reason@ == "Not Found"@,
            r.headers@.len() == 0,
            r.content@.len() == 0,
    {
        HttpResponse {
            version: "HTTP/1.1".to_owned(),
            status: 404,
            reason: "Not Found".to_owned(),
            headers: Vec::new(),
            content: Vec::new(),
        }
    }

    /// The response on the wire: `"<version> <status> <reason>\r\n"`, each header as
    /// `"<key>: <value>\r\n"` in order, `"\r\n"`, the body, and a final `"\r\n"`.
    pub fn to_bytes(&self) -> (r: Vec<u8>)
        ensures
            r@ == wire_bytes(self),
    {
        let mut head: Vec<char> = Vec::new();
        append_str(&mut head, self.version.as_str());
        head.push(' ');
        append(&mut head, decimal_chars(self.status as u64).as_slice());
        head.push(' ');
        append_str(&mut head, self.reason.as_str());
        head.push('\r');
        head.push('\n');
        assert(head@ =~= start_line(self.version@, self.status, self.reason@) + crlf());
        let mut i: usize = 0;
        while i < self.headers.len()
            invariant
                i <= self.headers@.len(),
                head@ == start_line(self.version@, self.status, self.reason@) + crlf()
                    + header_text(self.headers@.take(i as int)),
            decreases self.headers@.len() - i,
        {
            let ghost h0 = head@;
            append_str(&mut head, self.headers[i].0.as_str());
            head.push(':');
            head.push(' ');
            append_str(&mut head, self.headers[i].1.as_str());
            head.push('\r');
            head.push('\n');
            assert(self.headers@.take(i + 1).drop_last() =~= self.headers@.take(i as int));
            assert(head@ =~= start_line(self.version@, self.status, self.reason@) + crlf()
                + header_text(self.headers@.take(i + 1)));
            i += 1;
        }
        assert(self.headers@.take(self.headers@.len() as int) =~= self.headers@);
        head.push('\r');
        head.push('\n');
        assert(head@ =~= head_text(self));
        let text = string_of(head.as_slice());
        let mut out: Vec<u8> = Vec::new();
        append(&mut out, text.as_str().as_bytes());
        append(&mut out, self.content.as_slice());
        out.push(13u8);
        out.push(10u8);
        assert(out@ =~= wire_bytes(self));
        out
    }
}

/// Whether `c` stands nowhere in `s`.
pub open spec fn lacks(s: Seq<char>, c: char) -> bool {
    forall|i: int| 0 <= i < s.len() ==> #[trigger] s[i] != c
}

/// Whether a response can be written out and read back unchanged: no field holds a
/// line feed, the version holds no space, and no header name holds a `:`.
pub open spec fn wire_safe(r: &HttpResponse) -> bool {
    &&& lacks(r.version@, '\n')
    &&& lacks(r.version@, ' ')
    &&& lacks(r.reason@, '\n')
    &&& forall|i: int|
        0 <= i < r.headers@.len() ==> lacks(#[trigger] r.headers@[i].0@, '\n') && lacks(
            r.headers@[i].0@,
            ':',
        ) && lacks(r.headers@[i].1@, '\n')
}

/// The header pairs of a response, as character sequences.
pub open spec fn pair_views(hs: Seq<(String, String)>) -> Seq<(Seq<char>, Seq<char>)> {
    hs.map_values(|p: (String, String)| (p.0@, p.1@))
}

/// The line that stands for one header.
pub open spec fn header_line(p: (String, String)) -> Seq<char> {
    p.0@ + seq![':', ' '] + p.1@
}

/// A header line read back: the name before its first `:`, the value after `": "`.
pub open spec fn split_pair(l: Seq<char>) -> (Seq<char>, Seq<char>) {
    let k = find(l, seq![':']);
    (l.take(k), l.skip(k + 2))
}

/// A start line read back: version up to the first space, status up to the next,
/// and the rest as the reason.
pub open spec fn reparse_start(l: Seq<char>) -> (Seq<char>, nat, Seq<char>) {
    let a = find(l, seq![' ']);
    let rest = l.skip(a + 1);
    let b = find(rest, seq![' ']);
    (l.take(a), digits_value(rest.take(b)), rest.skip(b + 1))
}

/// A response head read back: of its `"\r\n"`-separated lines, the first is the
/// start line and those after it up to the first empty line are the header lines.
pub open spec fn reparse_head(h: Seq<char>) -> (
    Seq<char>,
    nat,
    Seq<char>,
    Seq<(Seq<char>, Seq<char>)>,
) {
    let ls = split_crlf(h);
    let st = reparse_start(ls[0]);
    let e = first_empty_from(ls, 1);
    (st.0, st.1, st.2, ls.subrange(1, e).map_values(|l: Seq<char>| split_pair(l)))
}

proof fn lemma_first_empty_at(ls: Seq<Seq<char>>, i: int, e: int)
    requires
        1 <= i <= e < ls.len(),
        ls[e].len() == 0,
        forall|j: int| i <= j < e ==> #[trigger] ls[j].len() > 0,
    ensures
        first_empty_from(ls, i) == e,
    decreases e - i,
{
    if i < e {
        lemma_first_empty_at(ls, i + 1, e);
    }
}

proof fn lemma_find_char(s: Seq<char>, c: char, i: int, k: int)
    requires
        0 <= i <= k < s.len(),
        s[k] == c,
        forall|j: int| 0 <= j < k ==> #[trigger] s[j] != c,
    ensures
        find_from(s, seq![c], i) == k,
    decreases k - i,
{
    if i < k {
        assert(s.subrange(i, i + 1)[0] == s[i]);
        lemma_find_char(s, c, i + 1, k);
    } else {
        assert(s.subrange(i, i + 1) =~= seq![c]);
    }
}

proof fn lemma_split_plain(p: Seq<char>, y: Seq<char>)
    requires
        lacks(y, '\n'),
    ensures
        split_crlf(p + y) == split_crlf(p).update(
            split_crlf(p).len() - 1,
            split_crlf(p).last() + y,
        ),
    decreases y.len(),
{
    crate::text::lemma_split_crlf_nonempty(p);
    if y.len() == 0 {
        assert(p + y =~= p);
        assert(split_crlf(p).last() + y =~= split_crlf(p).last());
        assert(split_crlf(p).update(split_crlf(p).len() - 1, split_crlf(p).last() + y)
            =~= split_crlf(p));
    } else {
        let y0 = y.drop_last();
        lemma_split_plain(p, y0);
        crate::text::lemma_split_crlf_nonempty(p + y0);
        assert((p + y).drop_last() =~= p + y0);
        assert(y[y.len() - 1] != '\n');
        assert((p + y).last() == y.last());
        let q0 = split_crlf(p + y0);
        assert(q0.last() == split_crlf(p).last() + y0);
        assert(split_crlf(p + y) == q0.update(q0.len() - 1, q0.last().push(y.last())));
        assert(q0.last().push(y.last()) =~= split_crlf(p).last() + y);
        assert(split_crlf(p + y) =~= split_crlf(p).update(
            split_crlf(p).len() - 1,
            split_crlf(p).last() + y,
        ));
    }
}

proof fn lemma_split_break(p: Seq<char>)
    ensures
        split_crlf(p + crlf()) == split_crlf(p).push(Seq::empty()),
{
    crate::text::lemma_split_crlf_nonempty(p);
    lemma_split_plain(p, seq!['\r']);
    assert((p + crlf()).drop_last() =~= p + seq!['\r']);
    assert((split_crlf(p).last() + seq!['\r']).drop_last() =~= split_crlf(p).last());
    assert(split_crlf(p + crlf()) =~= split_crlf(p).push(Seq::empty()));
}

proof fn lemma_split_line(p: Seq<char>, y: Seq<char>)
    requires
        lacks(y, '\n'),
        split_crlf(p).last() == Seq::<char>::empty(),
    ensures
        split_crlf(p + y + crlf()) == split_crlf(p).update(split_crlf(p).len() - 1, y).push(
            Seq::empty(),
        ),
{
    lemma_split_plain(p, y);
    lemma_split_break(p + y);
    assert(Seq::<char>::empty() + y =~= y);
}

proof fn lemma_split_headers(start: Seq<char>, hs: Seq<(String, String)>)
    requires
        lacks(start, '\n'),
        forall|i: int| 0 <= i < hs.len() ==> lacks(#[trigger] header_line(hs[i]), '\n'),
    ensures
        split_crlf(start + crlf() + header_text(hs)) == seq![start] + hs.map_values(
            |p: (String, String)| header_line(p),
        ) + seq![Seq::<char>::empty()],
    decreases hs.len(),
{
    if hs.len() == 0 {
        lemma_split_line(Seq::empty(), start);
        assert(Seq::<char>::empty() + start + crlf() =~= start + crlf() + header_text(hs));
        assert(split_crlf(Seq::<char>::empty()) =~= seq![Seq::<char>::empty()]);
        assert(seq![start] + hs.map_values(|p: (String, String)| header_line(p)) + seq![
            Seq::<char>::empty(),
        ] =~= seq![start, Seq::<char>::empty()]);
    } else {
        let h0 = hs.drop_last();
        lemma_split_headers(start, h0);
        let p = start + crlf() + header_text(h0);
        let l = header_line(hs.last());
        assert(lacks(l, '\n'));
        lemma_split_line(p, l);
        assert(p + l + crlf() =~= start + crlf() + header_text(hs));
        assert(split_crlf(p).update(split_crlf(p).len() - 1, l).push(Seq::empty()) =~= seq![
            start,
        ] + hs.map_values(|p: (String, String)| header_line(p)) + seq![Seq::<char>::empty()]);
    }
}

proof fn lemma_decimal_digits(n: nat)
    ensures
        forall|i: int| 0 <= i < decimal(n).len() ==> is_digit(#[trigger] decimal(n)[i]),
        digits_value(decimal(n)) == n,
        decimal(n).len() > 0,
    decreases n,
{
    lemma_digit_char(n % 10);
    if n >= 10 {
        lemma_decimal_digits(n / 10);
        assert(decimal(n).drop_last() =~= decimal(n / 10));
        assert(decimal(n).last() == digit_char(n % 10));
        assert(digits_value(decimal(n)) == digits_value(decimal(n / 10)) * 10 + n % 10);
        assert(n == (n / 10) * 10 + n % 10);
    } else {
        assert(decimal(n).drop_last() =~= Seq::<char>::empty());
        assert(n % 10 == n);
        assert(decimal(n).last() == digit_char(n));
        assert(digits_value(decimal(n)) == digits_value(Seq::<char>::empty()) * 10 + n);
    }
}

proof fn lemma_digit_char(d: nat)
    requires
        d < 10,
    ensures
        is_digit(digit_char(d)),
        ((digit_char(d) as u32) - ('0' as u32)) as nat == d,
{
    if d == 0 {
    } else if d == 1 {
    } else if d == 2 {
    } else if d == 3 {
    } else if d == 4 {
    } else if d == 5 {
    } else if d == 6 {
    } else if d == 7 {
    } else if d == 8 {
    } else {
    }
}

/// Writing a response out and reading its head back gives the same version, status,
/// reason and header pairs, in the same order, wherever its fields are wire-safe.
pub proof fn lemma_round_trip(r: &HttpResponse)
    requires
        wire_safe(r),
    ensures
        wire_bytes(r).take(encode_utf8(head_text(r)).len() as int) == encode_utf8(head_text(r)),
        decode_utf8(encode_utf8(head_text(r))) == head_text(r),
        reparse_head(head_text(r)) == (r.version@, r.status as nat, r.reason@, pair_views(
            r.headers@,
        )),
{
    let h = head_text(r);
    assert(wire_bytes(r).take(encode_utf8(h).len() as int) =~= encode_utf8(h));
    vstd::utf8::encode_utf8_decode_utf8(h);
    let d = decimal(r.status as nat);
    lemma_decimal_digits(r.status as nat);
    let st = start_line(r.version@, r.status, r.reason@);
    let hs = r.headers@;
    assert forall|i: int| 0 <= i < hs.len() implies lacks(#[trigger] header_line(hs[i]), '\n') by {
        let l = header_line(hs[i]);
        assert forall|j: int| 0 <= j < l.len() implies l[j] != '\n' by {
            if j < hs[i].0@.len() {
                assert(l[j] == hs[i].0@[j]);
            } else if j >= hs[i].0@.len() + 2 {
                assert(l[j] == hs[i].1@[j - hs[i].0@.len() - 2]);
            }
        }
    }
    assert(lacks(st, '\n')) by {
        assert forall|j: int| 0 <= j < st.len() implies st[j] != '\n' by {
            let v = r.version@;
            if j < v.len() {
                assert(st[j] == v[j]);
            } else if v.len() < j < v.len() + 1 + d.len() {
                assert(st[j] == d[j - v.len() - 1]);
                assert(is_digit(d[j - v.len() - 1]));
            } else if j > v.len() + d.len() + 1 {
                assert(st[j] == r.reason@[j - v.len() - d.len() - 2]);
            }
        }
    }
    lemma_split_headers(st, hs);
    lemma_split_break(st + crlf() + header_text(hs));
    let ls = split_crlf(h);
    let lines = hs.map_values(|p: (String, String)| header_line(p));
    assert(ls =~= seq![st] + lines + seq![Seq::<char>::empty(), Seq::<char>::empty()]);
    assert(ls[0] == st);
    // the start line
    let v = r.version@;
    assert(st[v.len() as int] == ' ');
    lemma_find_char(st, ' ', 0, v.len() as int);
    let rest = st.skip(v.len() + 1 as int);
    assert(rest =~= d + seq![' '] + r.reason@);
    assert(rest[d.len() as int] == ' ');
    assert forall|j: int| 0 <= j < d.len() implies #[trigger] rest[j] != ' ' by {
        assert(rest[j] == d[j]);
        assert(is_digit(d[j]));
    }
    lemma_find_char(rest, ' ', 0, d.len() as int);
    assert(st.take(v.len() as int) =~= v);
    assert(rest.take(d.len() as int) =~= d);
    assert(rest.skip(d.len() + 1 as int) =~= r.reason@);
    // the header lines
    assert forall|j: int| 1 <= j < 1 + hs.len() implies #[trigger] ls[j].len() > 0 by {
        assert(ls[j] == header_line(hs[j - 1]));
    }
    lemma_first_empty_at(ls, 1, 1 + hs.len() as int);
    let got = ls.subrange(1, 1 + hs.len() as int).map_values(|l: Seq<char>| split_pair(l));
    assert(ls.subrange(1, 1 + hs.len() as int) =~= lines);
    assert forall|i: int| 0 <= i < hs.len() implies #[trigger] got[i] == pair_views(hs)[i] by {
        let k = hs[i].0@;
        let l = header_line(hs[i]);
        assert(lines[i] == l);
        assert(l[k.len() as int] == ':');
        assert forall|j: int| 0 <= j < k.len() implies #[trigger] l[j] != ':' by {
            assert(l[j] == k[j]);
        }
        lemma_find_char(l, ':', 0, k.len() as int);
        assert(l.take(k.len() as int) =~= k);
        assert(l.skip(k.len() + 2 as int) =~= hs[i].1@);
    }
    assert(got =~= pair_views(hs));
}

} // verus!
