use crate::error::MatcherParseError;
use crate::http::{spec_header_lookup, RequestData, RequestView};
use crate::strutil::str_eq;
use headers::Header;
use vstd::prelude::*;

verus! {

#[verifier::external_type_specification]
#[verifier::external_body]
pub struct ExRegex(regex::Regex);

/// Whether `regex::Regex::new` accepts `pattern`.
pub uninterp spec fn regex_ok(pattern: Seq<char>) -> bool;

/// Whether the regex compiled from `pattern` matches somewhere in `text`.
pub uninterp spec fn regex_match(pattern: Seq<char>, text: Seq<char>) -> bool;

/// `text` with the leftmost match of `pattern` replaced by `rep`
/// (capture groups expanded), as `regex::Regex::replace` computes it.
pub uninterp spec fn regex_replace(pattern: Seq<char>, text: Seq<char>, rep: Seq<char>) -> Seq<
    char,
>;

/// A compiled regex that remembers its pattern, so that two of them
/// compare equal exactly when their patterns do.
#[derive(Debug)]
pub struct ComparableRegex {
    pattern: String,
    re: regex::Regex,
}

impl ComparableRegex {
    /// Every value of this type was compiled successfully.
    #[verifier::type_invariant]
    pub closed spec fn compiled(&self) -> bool {
        regex_ok(self.pattern@)
    }

    /// The pattern this regex was compiled from.
    pub closed spec fn pattern(&self) -> Seq<char> {
        self.pattern@
    }

    /// Relies on `regex::Regex::new`: it accepts a pattern or fails, and
    /// acceptance depends on the pattern alone.
    #[verifier::external_body]
    pub fn new(re: &str) -> (r: Result<ComparableRegex, MatcherParseError>)
        ensures
            match r {
                Ok(c) => regex_ok(re@) && c.pattern() == re@,
                Err(_) => !regex_ok(re@),
            },
    {
        match regex::Regex::new(re) {
            Ok(compiled) => Ok(ComparableRegex { pattern: re.to_string(), re: compiled }),
            Err(e) => Err(MatcherParseError::new(e.to_string())),
        }
    }

    /// Relies on `regex::Regex::is_match`: an unanchored search whose
    /// outcome is a function of the pattern and the text alone.
    #[verifier::external_body]
    pub fn is_match(&self, text: &str) -> (r: bool)
        ensures
            r == regex_match(self.pattern(), text@),
    {
        self.re.is_match(text)
    }

    /// Relies on `regex::Regex::replace`: the leftmost match replaced by
    /// the replacement string, a function of pattern, text and
    /// replacement alone.
    #[verifier::external_body]
    pub fn replace(&self, text: &str, rep: &str) -> (r: String)
        ensures
            r@ == regex_replace(self.pattern(), text@, rep@),
    {
        self.re.replace(text, rep).into_owned()
    }

    /// Witnesses that this value's pattern compiles.
    pub fn pattern_compiles(&self)
        ensures
            regex_ok(self.pattern()),
    {
        proof {
            use_type_invariant(self);
        }
    }

    /// The pattern, for display and for serialization.
    pub fn pattern_str(&self) -> (r: &String)
        ensures
            r@ == self.pattern(),
    {
        &self.pattern
    }
}

impl PartialEq for ComparableRegex {
    fn eq(&self, other: &Self) -> (r: bool) {
        self.pattern == other.pattern
    }
}

impl vstd::std_specs::cmp::PartialEqSpecImpl for ComparableRegex {
    open spec fn obeys_eq_spec() -> bool {
        true
    }

    open spec fn eq_spec(&self, other: &Self) -> bool {
        self.pattern() == other.pattern()
    }
}

/// The pairs that the query string `q` decodes to, in order,
/// percent-decoding applied.
pub uninterp spec fn query_pairs_of(q: Seq<char>) -> Seq<(Seq<char>, Seq<char>)>;

/// Relies on `url::form_urlencoded::parse`: it decodes a query string into
/// its key-value pairs, a function of the input alone.
#[verifier::external_body]
pub fn parse_query_pairs(q: &str) -> (r: Vec<(String, String)>)
    ensures
        r.deep_view() == query_pairs_of(q@),
{
    url::form_urlencoded::parse(q.as_bytes()).into_owned().collect()
}

/// The value of the cookie named `name` within the `Cookie` header value
/// `header`, if that header parses and holds the name.
pub uninterp spec fn cookie_value_of(header: Seq<char>, name: Seq<char>) -> Option<Seq<char>>;

/// Relies on `headers::Cookie::get`: the cookie value extracted from one
/// `Cookie` header value, a function of the header text and the name alone.
#[verifier::external_body]
pub fn cookie_lookup(header: &str, name: &str) -> (r: Option<String>)
    ensures
        match r {
            Some(v) => cookie_value_of(header@, name@) == Some(v@),
            None => cookie_value_of(header@, name@) is None,
        },
{
    let hv = match headers::HeaderValue::from_str(header) {
        Ok(v) => v,
        Err(_) => return None,
    };
    let mut values = std::iter::once(&hv);
    let cookie = match headers::Cookie::decode(&mut values) {
        Ok(c) => c,
        Err(_) => return None,
    };
    cookie.get(name).map(|s| s.to_string())
}

/// A predicate over a request: the parsed form of a route's matcher
/// expression.
#[derive(Debug)]
pub enum RouteMatcher {
    Method(String),
    Host(String),
    HostRegexp(ComparableRegex),
    Path(String),
    PathRegexp(ComparableRegex),
    Query(String, String),
    Cookie(String, String),
    And(Box<RouteMatcher>, Box<RouteMatcher>),
    Or(Box<RouteMatcher>, Box<RouteMatcher>),
    Empty,
}

/// Mathematical image of a matcher tree; regexes appear as their patterns.
pub enum MatcherView {
    Method(Seq<char>),
    Host(Seq<char>),
    HostRegexp(Seq<char>),
    Path(Seq<char>),
    PathRegexp(Seq<char>),
    Query(Seq<char>, Seq<char>),
    Cookie(Seq<char>, Seq<char>),
    And(Box<MatcherView>, Box<MatcherView>),
    Or(Box<MatcherView>, Box<MatcherView>),
    Empty,
}

/// The view of a matcher tree, regexes replaced by their patterns.
pub open spec fn matcher_view(m: RouteMatcher) -> MatcherView
    decreases m,
{
    match m {
        RouteMatcher::Method(s) => MatcherView::Method(s@),
        RouteMatcher::Host(h) => MatcherView::Host(h@),
        RouteMatcher::HostRegexp(re) => MatcherView::HostRegexp(re.pattern()),
        RouteMatcher::Path(p) => MatcherView::Path(p@),
        RouteMatcher::PathRegexp(re) => MatcherView::PathRegexp(re.pattern()),
        RouteMatcher::Query(k, v) => MatcherView::Query(k@, v@),
        RouteMatcher::Cookie(k, v) => MatcherView::Cookie(k@, v@),
        RouteMatcher::And(l, r) => MatcherView::And(Box::new(matcher_view(*l)), Box::new(matcher_view(*r))),
        RouteMatcher::Or(l, r) => MatcherView::Or(Box::new(matcher_view(*l)), Box::new(matcher_view(*r))),
        RouteMatcher::Empty => MatcherView::Empty,
    }
}

impl View for RouteMatcher {
    type V = MatcherView;

    open spec fn view(&self) -> MatcherView {
        matcher_view(*self)
    }
}

/// The value bound to `key` when the pairs are read in order and a later
/// pair with the same key wins.
pub open spec fn spec_query_lookup(pairs: Seq<(Seq<char>, Seq<char>)>, key: Seq<char>) -> Option<
    Seq<char>,
>
    decreases pairs.len(),
{
    if pairs.len() == 0 {
        None
    } else if pairs.last().0 == key {
        Some(pairs.last().1)
    } else {
        spec_query_lookup(pairs.drop_last(), key)
    }
}

/// Whether the matcher `m` accepts the request `req`.
pub open spec fn spec_matches(m: MatcherView, req: RequestView) -> bool
    decreases m,
{
    match m {
        MatcherView::Method(s) => req.method == s,
        MatcherView::Host(h) => spec_header_lookup(req.headers, "host"@) == Some(h),
        MatcherView::HostRegexp(pat) => match spec_header_lookup(req.headers, "host"@) {
            Some(h) => regex_match(pat, h),
            None => false,
        },
        MatcherView::Path(p) => req.path == p,
        MatcherView::PathRegexp(pat) => regex_match(pat, req.path),
        MatcherView::Query(k, v) => match req.query {
            Some(q) => spec_query_lookup(query_pairs_of(q), k) == Some(v),
            None => false,
        },
        MatcherView::Cookie(k, v) => match spec_header_lookup(req.headers, "cookie"@) {
            Some(h) => cookie_value_of(h, k) == Some(v),
            None => false,
        },
        MatcherView::And(l, r) => spec_matches(*l, req) && spec_matches(*r, req),
        MatcherView::Or(l, r) => spec_matches(*l, req) || spec_matches(*r, req),
        MatcherView::Empty => true,
    }
}

/// The last pair with the given key decides, as when the pairs are folded
/// into a map in order.
fn query_lookup(pairs: &Vec<(String, String)>, key: &str) -> (r: Option<String>)
    ensures
        match r {
            Some(v) => spec_query_lookup(pairs.deep_view(), key@) == Some(v@),
            None => spec_query_lookup(pairs.deep_view(), key@) is None,
        },
{
    let mut i: usize = pairs.len();
    proof {
        assert(pairs.deep_view().subrange(0, i as int) =~= pairs.deep_view());
    }
    while i > 0
        invariant
            i <= pairs@.len(),
            pairs.deep_view().len() == pairs@.len(),
            spec_query_lookup(pairs.deep_view(), key@) == spec_query_lookup(
                pairs.deep_view().subrange(0, i as int),
                key@,
            ),
        decreases i,
    {
        i = i - 1;
        proof {
            assert(pairs.deep_view().subrange(0, i + 1).last() == pairs.deep_view()[i as int]);
            assert(pairs.deep_view()[i as int] == (pairs@[i as int].0@, pairs@[i as int].1@));
        }
        if str_eq(pairs[i].0.as_str(), key) {
            return Some(pairs[i].1.clone());
        }
        proof {
            assert(pairs.deep_view().subrange(0, i + 1).drop_last() =~= pairs.deep_view().subrange(
                0,
                i as int,
            ));
        }
    }
    proof {
        assert(pairs.deep_view().subrange(0, 0) =~= Seq::<(Seq<char>, Seq<char>)>::empty());
    }
    None
}

impl RouteMatcher {
    /// The matcher that accepts every request.
    pub fn empty() -> (r: RouteMatcher)
        ensures
            r@ == MatcherView::Empty,
    {
        RouteMatcher::Empty
    }

    /// Evaluate this matcher against a request. Evaluation is total.
    pub fn matchs(&self, req: &RequestData) -> (r: bool)
        ensures
            r == spec_matches(self@, req@),
        decreases self,
    {
        match self {
            RouteMatcher::Method(m) => str_eq(req.method.as_str(), m.as_str()),
            RouteMatcher::Host(h) => match req.get_header("host") {
                Some(v) => str_eq(v.as_str(), h.as_str()),
                None => false,
            },
            RouteMatcher::HostRegexp(re) => match req.get_header("host") {
                Some(v) => re.is_match(v.as_str()),
                None => false,
            },
            RouteMatcher::Path(p) => str_eq(req.path.as_str(), p.as_str()),
            RouteMatcher::PathRegexp(re) => re.is_match(req.path.as_str()),
            RouteMatcher::Query(k, v) => match &req.query {
                Some(q) => {
                    let pairs = parse_query_pairs(q.as_str());
                    match query_lookup(&pairs, k.as_str()) {
                        Some(sent) => str_eq(sent.as_str(), v.as_str()),
                        None => false,
                    }
                },
                None => false,
            },
            RouteMatcher::Cookie(k, v) => match req.get_header("cookie") {
                Some(h) => match cookie_lookup(h.as_str(), k.as_str()) {
                    Some(sent) => str_eq(sent.as_str(), v.as_str()),
                    None => false,
                },
                None => false,
            },
            RouteMatcher::And(lhs, rhs) => lhs.matchs(req) && rhs.matchs(req),
            RouteMatcher::Or(lhs, rhs) => lhs.matchs(req) || rhs.matchs(req),
            RouteMatcher::Empty => true,
        }
    }
}

/// The empty matcher accepts every request.
pub proof fn lemma_empty_matches_all(req: RequestView)
    ensures
        spec_matches(MatcherView::Empty, req),
{
}


/// Structural equality of matcher trees, regexes compared by pattern.
pub fn matcher_eq(a: &RouteMatcher, b: &RouteMatcher) -> (r: bool)
    ensures
        r == (a@ == b@),
    decreases a,
{
    match (a, b) {
        (RouteMatcher::Method(x), RouteMatcher::Method(y)) => str_eq(x.as_str(), y.as_str()),
        (RouteMatcher::Host(x), RouteMatcher::Host(y)) => str_eq(x.as_str(), y.as_str()),
        (RouteMatcher::HostRegexp(x), RouteMatcher::HostRegexp(y)) => str_eq(
            x.pattern_str().as_str(),
            y.pattern_str().as_str(),
        ),
        (RouteMatcher::Path(x), RouteMatcher::Path(y)) => str_eq(x.as_str(), y.as_str()),
        (RouteMatcher::PathRegexp(x), RouteMatcher::PathRegexp(y)) => str_eq(
            x.pattern_str().as_str(),
            y.pattern_str().as_str(),
        ),
        (RouteMatcher::Query(k1, v1), RouteMatcher::Query(k2, v2)) => str_eq(
            k1.as_str(),
            k2.as_str(),
        ) && str_eq(v1.as_str(), v2.as_str()),
        (RouteMatcher::Cookie(k1, v1), RouteMatcher::Cookie(k2, v2)) => str_eq(
            k1.as_str(),
            k2.as_str(),
        ) && str_eq(v1.as_str(), v2.as_str()),
        (RouteMatcher::And(l1, r1), RouteMatcher::And(l2, r2)) => matcher_eq(l1, l2) && matcher_eq(
            r1,
            r2,
        ),
        (RouteMatcher::Or(l1, r1), RouteMatcher::Or(l2, r2)) => matcher_eq(l1, l2) && matcher_eq(
            r1,
            r2,
        ),
        (RouteMatcher::Empty, RouteMatcher::Empty) => true,
        _ => false,
    }
}

impl PartialEq for RouteMatcher {
    fn eq(&self, other: &Self) -> (r: bool) {
        matcher_eq(self, other)
    }
}

impl vstd::std_specs::cmp::PartialEqSpecImpl for RouteMatcher {
    open spec fn obeys_eq_spec() -> bool {
        true
    }

    open spec fn eq_spec(&self, other: &Self) -> bool {
        self@ == other@
    }
}

} // verus!
