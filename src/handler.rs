//! The hostname registry and the routing of requests to it.
use vstd::prelude::*;
use vstd::utf8::encode_utf8;
use crate::request::{
    form_map, parse_form_params, parse_query_params, query_map, HttpRequest, HttpRequestMethod,
};
use crate::response::{decimal, decimal_chars, HttpResponse};
use crate::strmap::StrMap;
use crate::text::{append, string_of};

verus! {

/// Whether `r` is an `HTTP/1.1` response with the given status and reason, and no
/// headers or body.
pub open spec fn is_plain_response(r: &HttpResponse, status: u32, reason: Seq<char>) -> bool {
    &&& r.version@ == "HTTP/1.1"@
    &&& r.status == status
    &&& r.reason@ == reason
    &&& r.headers@.len() == 0
    &&& r.content@.len() == 0
}

/// Whether `r` is the `200 OK` response that hands out `value` as plain text.
pub open spec fn is_value_response(r: &HttpResponse, value: Seq<char>) -> bool {
    &&& r.version@ == "HTTP/1.1"@
    &&& r.status == 200
    &&& r.reason@ == "OK"@
    &&& r.headers@.len() == 2
    &&& r.headers@[0].0@ == "content-type"@
    &&& r.headers@[0].1@ == "text/plain"@
    &&& r.headers@[1].0@ == "content-length"@
    &&& r.headers@[1].1@ == decimal(encode_utf8(value).len())
    &&& r.content@ == encode_utf8(value)
}

/// Whether `r` is the answer to a lookup of `hostname` in `hosts`.
pub open spec fn is_lookup_response(
    r: &HttpResponse,
    hosts: Map<Seq<char>, Seq<char>>,
    hostname: Seq<char>,
) -> bool {
    if hosts.contains_key(hostname) {
        is_value_response(r, hosts[hostname])
    } else {
        is_plain_response(r, 404, "Not Found"@)
    }
}

/// Whether serving `parsed_request` takes the registry from `before` to `after` and
/// answers `r`.
pub open spec fn handled(
    before: Map<Seq<char>, Seq<char>>,
    after: Map<Seq<char>, Seq<char>>,
    parsed_request: &HttpRequest,
    r: &HttpResponse,
) -> bool {
    let qm = query_map(parsed_request.uri@);
    let fm = form_map(parsed_request);
    let h = "hostname"@;
    let v = "host_value"@;
    match parsed_request.method {
        HttpRequestMethod::GET => after == before && if qm.contains_key(h) {
            is_lookup_response(r, before, qm[h])
        } else {
            is_plain_response(r, 400, "Bad Request"@)
        },
        HttpRequestMethod::POST => if fm.contains_key(h) && fm.contains_key(v) {
            after == before.insert(fm[h], fm[v]) && is_plain_response(
                r,
                200,
                "OK"@,
            )
        } else {
            after == before && is_plain_response(r, 400, "Bad Request"@)
        },
        HttpRequestMethod::DELETE => after == before && if qm.contains_key(
            h,
        ) {
            is_plain_response(r, 501, "Not Implemented"@)
        } else {
            is_plain_response(r, 400, "Bad Request"@)
        },
    }
}

/// The registry: a mapping from hostnames to values.
pub struct HostnameHandler {
    hosts_to_hashes: StrMap,
}

impl View for HostnameHandler {
    type V = Map<Seq<char>, Seq<char>>;

    closed spec fn view(&self) -> Map<Seq<char>, Seq<char>> {
        self.hosts_to_hashes@
    }
}

impl HostnameHandler {
    /// An empty registry.
    pub fn new() -> (r: HostnameHandler)
        ensures
            r@ == Map::<Seq<char>, Seq<char>>::empty(),
    {
        HostnameHandler { hosts_to_hashes: StrMap::new() }
    }

    /// Serves a request. GET looks up the `hostname` query parameter; POST stores the
    /// `host_value` form parameter under the `hostname` form parameter; DELETE is not
    /// implemented. A missing parameter gives `400 Bad Request`.
    pub fn handle_request(&mut self, parsed_request: &HttpRequest) -> (r: HttpResponse)
        ensures
            handled(old(self)@, final(self)@, parsed_request, &r),
    {
        let query_params = parse_query_params(parsed_request.uri.as_str());
        let form_params = parse_form_params(parsed_request);
        let hostname_key = "hostname".to_owned();
        match parsed_request.method {
            HttpRequestMethod::GET => {
                let hostname = match query_params.get(&hostname_key) {
                    Some(name) => name,
                    None => {
                        return HttpResponse::bad_request();
                    },
                };
                self.handle_get(hostname)
            },
            HttpRequestMethod::POST => {
                let hostname = match form_params.get(&hostname_key) {
                    Some(name) => name,
                    None => {
                        return HttpResponse::bad_request();
                    },
                };
                let value_key = "host_value".to_owned();
                let host_value = match form_params.get(&value_key) {
                    Some(value) => value,
                    None => {
                        return HttpResponse::bad_request();
                    },
                };
                self.handle_post(hostname.clone(), host_value.clone())
            },
            HttpRequestMethod::DELETE => {
                let hostname = match query_params.get(&hostname_key) {
                    Some(name) => name,
                    None => {
                        return HttpResponse::bad_request();
                    },
                };
                self.handle_delete(hostname.as_str())
            },
        }
    }

    /// Looks `hostname` up: `200 OK` with the value as a plain-text body, or
    /// `404 Not Found`.
    pub fn handle_get(&self, hostname: &String) -> (r: HttpResponse)
        ensures
            is_lookup_response(&r, self@, hostname@),
    {
        match self.hosts_to_hashes.get(hostname) {
            Some(value) => {
                let bytes = value.as_str().as_bytes();
                let len_text = string_of(decimal_chars(bytes.len() as u64).as_slice());
                let mut headers: Vec<(String, String)> = Vec::new();
                headers.push(("content-type".to_owned(), "text/plain".to_owned()));
                headers.push(("content-length".to_owned(), len_text));
                let mut content: Vec<u8> = Vec::new();
                append(&mut content, bytes);
                assert(content@ =~= encode_utf8(value@));
                HttpResponse {
                    version: "HTTP/1.1".to_owned(),
                    status: 200,
                    reason: "OK".to_owned(),
                    headers,
                    content,
                }
            },
            None => HttpResponse::not_found(),
        }
    }

    /// Stores `host_value` under `hostname`, replacing any earlier value, and answers
    /// `200 OK` with no body.
    pub fn handle_post(&mut self, hostname: String, host_value: String) -> (r: HttpResponse)
        ensures
            final(self)@ == old(self)@.insert(hostname@, host_value@),
            is_plain_response(&r, 200, "OK"@),
    {
        self.hosts_to_hashes.insert(hostname, host_value);
        HttpResponse {
            version: "HTTP/1.1".to_owned(),
            status: 200,
            reason: "OK".to_owned(),
            headers: Vec::new(),
            content: Vec::new(),
        }
    }

    /// Removal is not implemented: no request can show that it owns the entry. The
    /// registry is left as it is and the answer is `501 Not Implemented`.
    pub fn handle_delete(&mut self, _hostname: &str) -> (r: HttpResponse)
        ensures
            final(self)@ == old(self)@,
            is_plain_response(&r, 501, "Not Implemented"@),
    {
        HttpResponse {
            version: "HTTP/1.1".to_owned(),
            status: 501,
            reason: "Not Implemented".to_owned(),
            headers: Vec::new(),
            content: Vec::new(),
        }
    }
}

impl Default for HostnameHandler {
    fn default() -> (r: HostnameHandler)
        ensures
            r@ == Map::<Seq<char>, Seq<char>>::empty(),
    {
        HostnameHandler::new()
    }
}

} // verus!
