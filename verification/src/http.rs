use crate::strutil::str_eq;
use vstd::prelude::*;
use vstd::string::StringExecFns;

verus! {

pub const X_FORWARDED_FOR: &'static str = "x-forwarded-for";

pub const X_FORWARDED_HOST: &'static str = "x-forwarded-host";

pub const X_FORWARDED_PROTO: &'static str = "x-forwarded-proto";

pub const X_REAL_IP: &'static str = "x-real-ip";

/// The attributes of an incoming request that routing, predicates and
/// plugins read. Header names are held lowercase, as the HTTP runtime
/// normalizes them.
#[derive(Debug, Clone)]
pub struct RequestData {
    pub method: String,
    pub path: String,
    pub query: Option<String>,
    pub headers: Vec<(String, String)>,
}

/// Mathematical image of a request.
pub struct RequestView {
    pub method: Seq<char>,
    pub path: Seq<char>,
    pub query: Option<Seq<char>>,
    pub headers: Seq<(Seq<char>, Seq<char>)>,
}

impl View for RequestData {
    type V = RequestView;

    open spec fn view(&self) -> RequestView {
        RequestView {
            method: self.method@,
            path: self.path@,
            query: match self.query {
                Some(q) => Some(q@),
                None => None,
            },
            headers: self.headers.deep_view(),
        }
    }
}

/// The value of the first header named `name`, if any.
pub open spec fn spec_header_lookup(
    headers: Seq<(Seq<char>, Seq<char>)>,
    name: Seq<char>,
) -> Option<Seq<char>>
    decreases headers.len(),
{
    if headers.len() == 0 {
        None
    } else if headers[0].0 == name {
        Some(headers[0].1)
    } else {
        spec_header_lookup(headers.drop_first(), name)
    }
}

/// After skipping `i` unmatched entries the lookup result is unchanged.
proof fn lemma_header_lookup_skip(headers: Seq<(Seq<char>, Seq<char>)>, name: Seq<char>, i: int)
    requires
        0 <= i < headers.len(),
        headers[i].0 != name,
    ensures
        spec_header_lookup(headers.skip(i), name) == spec_header_lookup(headers.skip(i + 1), name),
{
    assert(headers.skip(i).len() > 0);
    assert(headers.skip(i)[0] == headers[i]);
    assert(headers.skip(i).drop_first() =~= headers.skip(i + 1));
}

impl RequestData {
    /// The value of the first header named `name`, if any.
    pub fn get_header(&self, name: &str) -> (r: Option<&String>)
        ensures
            match r {
                Some(v) => spec_header_lookup(self@.headers, name@) == Some(v@),
                None => spec_header_lookup(self@.headers, name@) is None,
            },
    {
        let n = self.headers.len();
        let mut i: usize = 0;
        proof {
            assert(self@.headers.skip(0) =~= self@.headers);
        }
        while i < n
            invariant
                i <= n,
                n == self.headers@.len(),
                spec_header_lookup(self@.headers, name@) == spec_header_lookup(
                    self@.headers.skip(i as int),
                    name@,
                ),
        decreases n - i,
        {
            assert(self@.headers.skip(i as int)[0] == self@.headers[i as int]);
            if str_eq(self.headers[i].0.as_str(), name) {
                return Some(&self.headers[i].1);
            }
            proof {
                lemma_header_lookup_skip(self@.headers, name@, i as int);
            }
            i = i + 1;
        }
        proof {
            assert(self@.headers.skip(n as int) =~= Seq::<(Seq<char>, Seq<char>)>::empty());
        }
        None
    }
}

/// A response as the gateway describes it: a status, headers, and a body.
#[derive(Debug, Clone)]
pub struct ResponseData {
    pub status: u16,
    pub headers: Vec<(String, String)>,
    pub body: String,
}

/// The response for a request that no route matches.
pub fn not_found() -> (r: ResponseData)
    ensures
        r.status == 404,
        r.body@ == "Not Found"@,
        r.headers@.len() == 0,
{
    ResponseData { status: 404, headers: Vec::new(), body: String::from_str("Not Found") }
}

/// The response when the route's upstream is missing or has no endpoint
/// left after weight and health filtering.
pub fn upstream_unavailable() -> (r: ResponseData)
    ensures
        r.status == 503,
        r.body@ == "Upstream Unavailable"@,
        r.headers@.len() == 0,
{
    ResponseData {
        status: 503,
        headers: Vec::new(),
        body: String::from_str("Upstream Unavailable"),
    }
}

/// The response when forwarding to the chosen endpoint failed in transport.
pub fn bad_gateway() -> (r: ResponseData)
    ensures
        r.status == 502,
        r.body@ == "Bad Gateway"@,
        r.headers@.len() == 0,
{
    ResponseData { status: 502, headers: Vec::new(), body: String::from_str("Bad Gateway") }
}


/// The headers after `name` is set to `value`: every pair under that
/// name is dropped and the new pair appended.
pub open spec fn spec_set_header(
    headers: Seq<(Seq<char>, Seq<char>)>,
    name: Seq<char>,
    value: Seq<char>,
) -> Seq<(Seq<char>, Seq<char>)> {
    headers.filter(|p: (Seq<char>, Seq<char>)| p.0 != name).push((name, value))
}

impl RequestData {
    /// Set a header, dropping any previous value under the name.
    pub fn set_header(&mut self, name: &str, value: String)
        ensures
            final(self)@.headers == spec_set_header(old(self)@.headers, name@, value@),
            final(self).method == old(self).method,
            final(self).path == old(self).path,
            final(self).query == old(self).query,
    {
        let ghost pred = |p: (Seq<char>, Seq<char>)| p.0 != name@;
        let mut out: Vec<(String, String)> = Vec::new();
        let n = self.headers.len();
        let mut i: usize = 0;
        proof {
            reveal(Seq::filter);
            assert(self.headers.deep_view().take(0) =~= Seq::<(Seq<char>, Seq<char>)>::empty());
            assert(out.deep_view() =~= self.headers.deep_view().take(0).filter(pred));
        }
        while i < n
            invariant
                i <= n,
                n == self.headers@.len(),
                self.headers.deep_view().len() == n,
                forall|j: int|
                    0 <= j < n ==> #[trigger] self.headers.deep_view()[j] == (
                        self.headers@[j].0@,
                        self.headers@[j].1@,
                    ),
                out.deep_view() == self.headers.deep_view().take(i as int).filter(
                    |p: (Seq<char>, Seq<char>)| p.0 != name@,
                ),
            decreases n - i,
        {
            proof {
                reveal(Seq::filter);
                assert(self.headers.deep_view().take(i + 1).drop_last() =~= self.headers
                    .deep_view().take(i as int));
                assert(self.headers.deep_view().take(i + 1).last() == self.headers.deep_view()[
                    i as int]);
            }
            if !crate::strutil::str_eq(self.headers[i].0.as_str(), name) {
                let ghost prev = out.deep_view();
                let pair = (self.headers[i].0.clone(), self.headers[i].1.clone());
                out.push(pair);
                proof {
                    assert(out.deep_view() =~= prev.push(self.headers.deep_view()[i as int]));
                    assert(out.deep_view() =~= self.headers.deep_view().take(i + 1).filter(
                        |p: (Seq<char>, Seq<char>)| p.0 != name@,
                    ));
                }
            } else {
                proof {
                    assert(out.deep_view() =~= self.headers.deep_view().take(i + 1).filter(
                        |p: (Seq<char>, Seq<char>)| p.0 != name@,
                    ));
                }
            }
            i = i + 1;
        }
        proof {
            assert(self.headers.deep_view().take(n as int) =~= self.headers.deep_view());
        }
        out.push((String::from_str(name), value));
        self.headers = out;
    }
}

} // verus!
