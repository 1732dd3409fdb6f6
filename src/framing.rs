//! Framing of a request read off a connection: locating the end of the header
//! block and collecting a body of the declared length.
use vstd::prelude::*;
use crate::request::{
    head_parsed_as, header_lines, headers_map, parse_failure, parse_http_request, HttpRequest,
};
use crate::text::{blank_line, chars_of, decode_lossy, find, find_blank_line, lossy_text, sub_vec};

verus! {

/// What a connection's bytes so far amount to.
pub enum Frame {
    /// More bytes are needed.
    Incomplete,
    /// The connection is given up without a response.
    Abandoned,
    /// A whole request has arrived.
    Complete(HttpRequest),
}

/// Whether `c` is a decimal digit.
pub open spec fn is_digit(c: char) -> bool {
    '0' <= c && c <= '9'
}

/// The value of a string of decimal digits.
pub open spec fn digits_value(s: Seq<char>) -> nat
    decreases s.len(),
{
    if s.len() == 0 {
        0
    } else {
        digits_value(s.drop_last()) * 10 + ((s.last() as u32) - ('0' as u32)) as nat
    }
}

/// The number a `content-length` value states, as `usize`'s parser reads it: an
/// optional `+` and one or more decimal digits, within `usize`'s range.
pub open spec fn length_value(s: Seq<char>) -> Option<nat> {
    let d = strip_plus(s);
    if d.len() > 0 && (forall|i: int| 0 <= i < d.len() ==> is_digit(#[trigger] d[i]))
        && digits_value(d) <= usize::MAX {
        Some(digits_value(d))
    } else {
        None
    }
}

/// `s` without a leading `+`.
pub open spec fn strip_plus(s: Seq<char>) -> Seq<char> {
    if s.len() > 0 && s[0] == '+' {
        s.drop_first()
    } else {
        s
    }
}

proof fn lemma_length_invalid(s: Seq<char>, j: int)
    requires
        0 <= j < strip_plus(s).len(),
        !is_digit(strip_plus(s)[j]),
    ensures
        length_value(s) is None,
{
}

/// The length that a header block declares: `None` where it has no
/// `content-length` header, `Some(None)` where the value is no number.
pub open spec fn declared_length(t: Seq<char>) -> Option<Option<nat>> {
    let hs = headers_map(header_lines(t));
    if hs.contains_key("content-length"@) {
        Some(length_value(hs["content-length"@]))
    } else {
        None
    }
}

/// Reads a `content-length` value.
pub fn parse_length(s: &Vec<char>) -> (r: Option<usize>)
    ensures
        match r {
            Some(n) => length_value(s@) == Some(n as nat),
            None => length_value(s@) is None,
        },
{
    let ghost d = strip_plus(s@);
    let start: usize = if s.len() > 0 && s[0] == '+' {
        1
    } else {
        0
    };
    assert(d =~= s@.skip(start as int));
    if start >= s.len() {
        return None;
    }
    let mut v: usize = 0;
    let mut i: usize = start;
    while i < s.len()
        invariant
            start <= i <= s@.len(),
            d == s@.skip(start as int),
            d == strip_plus(s@),
            forall|j: int| 0 <= j < i - start ==> is_digit(#[trigger] d[j]),
            v as nat == digits_value(d.take(i - start)),
        decreases s@.len() - i,
    {
        let c = s[i];
        assert(d[i - start] == c);
        if !('0' <= c && c <= '9') {
            proof {
                lemma_length_invalid(s@, i - start);
            }
            return None;
        }
        let dv = (c as u32 - '0' as u32) as usize;
        assert(d.take(i + 1 - start).drop_last() =~= d.take(i - start));
        if v > (usize::MAX - dv) / 10 {
            assert(digits_value(d.take(i + 1 - start)) > usize::MAX) by (nonlinear_arith)
                requires
                    v > (usize::MAX - dv) / 10,
                    digits_value(d.take(i + 1 - start)) == v * 10 + dv,
            ;
            proof {
                lemma_digits_value_prefix(d, i + 1 - start);
            }
            assert(digits_value(d) > usize::MAX);
            return None;
        }
        v = v * 10 + dv;
        i += 1;
    }
    assert(d.take(d.len() as int) =~= d);
    Some(v)
}

/// A longer prefix of digits never has a smaller value.
proof fn lemma_digits_value_prefix(d: Seq<char>, k: int)
    requires
        0 <= k <= d.len(),
    ensures
        digits_value(d.take(k)) <= digits_value(d),
    decreases d.len() - k,
{
    if k < d.len() {
        lemma_digits_value_prefix(d, k + 1);
        assert(d.take(k + 1).drop_last() =~= d.take(k));
    } else {
        assert(d.take(k) =~= d);
    }
}

/// Whether `r` is what the bytes `buf` amount to, `closed` saying whether the peer
/// has closed the connection.
pub open spec fn framed_as(buf: Seq<u8>, closed: bool, r: Frame) -> bool {
    let k = find(buf, blank_line());
    let t = lossy_text(buf.take(k));
    let rest = buf.skip(k + 4);
    if k < 0 {
        if closed {
            r is Abandoned
        } else {
            r is Incomplete
        }
    } else if parse_failure(t) is Some {
        r is Abandoned
    } else {
        match declared_length(t) {
            None => r matches Frame::Complete(q) && head_parsed_as(t, q) && q.content@
                == rest,
            Some(None) => r is Abandoned,
            Some(Some(n)) => if rest.len() < n {
                if closed {
                    r is Abandoned
                } else {
                    r is Incomplete
                }
            } else {
                r matches Frame::Complete(q) && head_parsed_as(t, q) && q.content@
                    == rest.take(n as int)
            },
        }
    }
}

/// Decides what the bytes read so far from a connection amount to; `closed` says
/// that the peer has closed it. The header block ends at the first `"\r\n\r\n"`.
/// Where it declares a `content-length`, the body is that many bytes, and bytes
/// beyond them are dropped; where it declares none, the body is all that was read
/// after the blank line. A connection that closes before the header block or the
/// declared body is complete, or whose header block does not parse or states no
/// valid length, is abandoned.
pub fn frame_request(buf: &Vec<u8>, closed: bool) -> (r: Frame)
    ensures
        framed_as(buf@, closed, r),
{
    let n = buf.len();
    let k = match find_blank_line(buf) {
        Some(k) => k,
        None => {
            return if closed {
                Frame::Abandoned
            } else {
                Frame::Incomplete
            };
        },
    };
    let head = sub_vec(buf, 0, k);
    assert(head@ =~= buf@.take(k as int));
    let text = decode_lossy(head.as_slice());
    let mut q = match parse_http_request(text.as_str()) {
        Ok(q) => q,
        Err(_) => {
            return Frame::Abandoned;
        },
    };
    let key = "content-length".to_owned();
    let declared = match q.headers.get(&key) {
        Some(v) => {
            let cs = chars_of(v.as_str());
            match parse_length(&cs) {
                Some(len) => Some(len),
                None => {
                    return Frame::Abandoned;
                },
            }
        },
        None => None,
    };
    match declared {
        Some(len) => {
            if n - (k + 4) < len {
                return if closed {
                    Frame::Abandoned
                } else {
                    Frame::Incomplete
                };
            }
            q.content = sub_vec(buf, k + 4, k + 4 + len);
            assert(q.content@ =~= buf@.skip(k + 4).take(len as int));
        },
        None => {
            q.content = sub_vec(buf, k + 4, n);
            assert(q.content@ =~= buf@.skip(k + 4));
        },
    }
    Frame::Complete(q)
}

} // verus!
