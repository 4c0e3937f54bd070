use crate::error::MatcherParseError;
use crate::matcher::{regex_ok, ComparableRegex, MatcherView, RouteMatcher};
use crate::strutil::{chars_to_string, str_to_chars};
use vstd::prelude::*;
use vstd::string::StringExecFns;

verus! {

// The matcher expression grammar: single-quoted strings with backslash
// escapes, variant names with parenthesized arguments, the two-character
// operators `&&` and `||`, and parentheses for grouping. Whitespace is
// insignificant around values and quoted strings. The spec functions
// below define the grammar; the executable parser is proved to return
// exactly what they describe.
/// The characters that are insignificant between tokens.
pub open spec fn is_space(c: char) -> bool {
    c == ' ' || c == '\t' || c == '\r' || c == '\n'
}

/// The characters a backslash may escape inside a quoted string.
pub open spec fn is_escapable(c: char) -> bool {
    c == '\\' || c == '\'' || c == '"' || c == '(' || c == ')'
}

/// The characters allowed in an HTTP method token.
pub open spec fn is_method_char(c: char) -> bool {
    ('a' <= c && c <= 'z') || ('A' <= c && c <= 'Z') || ('0' <= c && c <= '9') || c == '!' || c
        == '#' || c == '$' || c == '%' || c == '&' || c == '\'' || c == '*' || c == '+' || c == '-'
        || c == '.' || c == '^' || c == '_' || c == '`' || c == '|' || c == '~'
}

/// A non-empty string of method token characters.
pub open spec fn method_valid(s: Seq<char>) -> bool {
    s.len() > 0 && (forall|i: int| 0 <= i < s.len() ==> is_method_char(s[i]))
}

/// A string of insignificant characters only.
pub open spec fn all_space(s: Seq<char>) -> bool {
    forall|i: int| 0 <= i < s.len() ==> is_space(s[i])
}

/// The first position at or after `i` holding a significant character.
pub open spec fn spec_skip_sp(s: Seq<char>, i: int) -> int
    decreases s.len() - i,
{
    if 0 <= i < s.len() && is_space(s[i]) {
        spec_skip_sp(s, i + 1)
    } else {
        i
    }
}

/// Whether `tag` occurs in `s` starting at `i`.
pub open spec fn spec_match_tag(s: Seq<char>, i: int, tag: Seq<char>) -> bool {
    &&& 0 <= i
    &&& i + tag.len() <= s.len()
    &&& s.subrange(i, i + tag.len()) == tag
}

/// The body of a quoted string read from `i` up to its closing quote:
/// the unescaped content and the position of the closing quote. A
/// backslash keeps an escapable character, is dropped before any other,
/// and fails at the end of the input; an unterminated string fails.
pub open spec fn spec_in_quotes(s: Seq<char>, i: int) -> Option<(Seq<char>, int)>
    decreases s.len() - i,
{
    if i < 0 || i >= s.len() {
        None
    } else if s[i] == '\'' {
        Some((Seq::<char>::empty(), i))
    } else if s[i] == '\\' {
        if i + 1 >= s.len() {
            None
        } else if is_escapable(s[i + 1]) {
            match spec_in_quotes(s, i + 2) {
                Some((c, j)) => Some((seq![s[i + 1]] + c, j)),
                None => None,
            }
        } else {
            spec_in_quotes(s, i + 1)
        }
    } else {
        match spec_in_quotes(s, i + 1) {
            Some((c, j)) => Some((seq![s[i]] + c, j)),
            None => None,
        }
    }
}

/// A quoted string with surrounding whitespace: the content and the
/// position after the closing quote and any trailing whitespace.
pub open spec fn spec_parse_str(s: Seq<char>, i: int) -> Option<(Seq<char>, int)> {
    let i1 = spec_skip_sp(s, i);
    if 0 <= i1 < s.len() && s[i1] == '\'' {
        match spec_in_quotes(s, i1 + 1) {
            Some((c, j)) => {
                if j < s.len() && s[j] == '\'' {
                    Some((c, spec_skip_sp(s, j + 1)))
                } else {
                    None
                }
            },
            None => None,
        }
    } else {
        None
    }
}

/// Two quoted strings separated by a comma.
pub open spec fn spec_key_value(s: Seq<char>, i: int) -> Option<((Seq<char>, Seq<char>), int)> {
    match spec_parse_str(s, i) {
        Some((k, j)) => {
            if 0 <= j < s.len() && s[j] == ',' {
                match spec_parse_str(s, j + 1) {
                    Some((v, l)) => Some(((k, v), l)),
                    None => None,
                }
            } else {
                None
            }
        },
        None => None,
    }
}

/// One matcher variant: a named argument list, or a parenthesized
/// subexpression. Regex variants fail unless the pattern compiles;
/// `Method` fails unless its argument is a valid method token.
pub open spec fn spec_parse_variant(s: Seq<char>, i: int) -> Option<(MatcherView, int)>
    decreases s.len() - i, 0int,
{
    if spec_match_tag(s, i, "Host("@) {
        match spec_parse_str(s, i + "Host("@.len()) {
            Some((c, j)) => if j < s.len() && s[j] == ')' {
                Some((MatcherView::Host(c), j + 1))
            } else {
                None
            },
            None => None,
        }
    } else if spec_match_tag(s, i, "HostRegexp("@) {
        match spec_parse_str(s, i + "HostRegexp("@.len()) {
            Some((c, j)) => if j < s.len() && s[j] == ')' && regex_ok(c) {
                Some((MatcherView::HostRegexp(c), j + 1))
            } else {
                None
            },
            None => None,
        }
    } else if spec_match_tag(s, i, "Path("@) {
        match spec_parse_str(s, i + "Path("@.len()) {
            Some((c, j)) => if j < s.len() && s[j] == ')' {
                Some((MatcherView::Path(c), j + 1))
            } else {
                None
            },
            None => None,
        }
    } else if spec_match_tag(s, i, "PathRegexp("@) {
        match spec_parse_str(s, i + "PathRegexp("@.len()) {
            Some((c, j)) => if j < s.len() && s[j] == ')' && regex_ok(c) {
                Some((MatcherView::PathRegexp(c), j + 1))
            } else {
                None
            },
            None => None,
        }
    } else if spec_match_tag(s, i, "Method("@) {
        match spec_parse_str(s, i + "Method("@.len()) {
            Some((c, j)) => if j < s.len() && s[j] == ')' && method_valid(c) {
                Some((MatcherView::Method(c), j + 1))
            } else {
                None
            },
            None => None,
        }
    } else if spec_match_tag(s, i, "Query("@) {
        match spec_key_value(s, i + "Query("@.len()) {
            Some(((k, v), j)) => if j < s.len() && s[j] == ')' {
                Some((MatcherView::Query(k, v), j + 1))
            } else {
                None
            },
            None => None,
        }
    } else if spec_match_tag(s, i, "Cookie("@) {
        match spec_key_value(s, i + "Cookie("@.len()) {
            Some(((k, v), j)) => if j < s.len() && s[j] == ')' {
                Some((MatcherView::Cookie(k, v), j + 1))
            } else {
                None
            },
            None => None,
        }
    } else if 0 <= i < s.len() && s[i] == '(' {
        let inner = match spec_parse_chained(s, i + 1) {
            Some(p) => Some(p),
            None => spec_parse_value(s, i + 1),
        };
        match inner {
            Some((m, j)) => if j < s.len() && s[j] == ')' {
                Some((m, j + 1))
            } else {
                None
            },
            None => None,
        }
    } else {
        None
    }
}

/// A variant with its surrounding whitespace.
pub open spec fn spec_parse_value(s: Seq<char>, i: int) -> Option<(MatcherView, int)>
    decreases s.len() - i, 1int,
{
    let i1 = spec_skip_sp(s, i);
    if i <= i1 <= s.len() {
        match spec_parse_variant(s, i1) {
            Some((m, j)) => Some((m, spec_skip_sp(s, j))),
            None => None,
        }
    } else {
        None
    }
}

/// A binary expression: two values joined by `&&` or `||`.
pub open spec fn spec_parse_chained(s: Seq<char>, i: int) -> Option<(MatcherView, int)>
    decreases s.len() - i, 2int,
{
    match spec_parse_value(s, i) {
        Some((l, j)) => {
            if i <= j && j + 2 <= s.len() && s[j] == '&' && s[j + 1] == '&' {
                match spec_parse_value(s, j + 2) {
                    Some((r, k)) => Some((MatcherView::And(Box::new(l), Box::new(r)), k)),
                    None => None,
                }
            } else if i <= j && j + 2 <= s.len() && s[j] == '|' && s[j + 1] == '|' {
                match spec_parse_value(s, j + 2) {
                    Some((r, k)) => Some((MatcherView::Or(Box::new(l), Box::new(r)), k)),
                    None => None,
                }
            } else {
                None
            }
        },
        None => None,
    }
}

/// A whole expression: a binary expression or a single value, consuming
/// all of the input.
pub open spec fn spec_parse_top(s: Seq<char>) -> Option<MatcherView> {
    match spec_parse_chained(s, 0) {
        Some((m, j)) => if j == s.len() {
            Some(m)
        } else {
            None
        },
        None => match spec_parse_value(s, 0) {
            Some((m, j)) => if j == s.len() {
                Some(m)
            } else {
                None
            },
            None => None,
        },
    }
}

/// What parsing a matcher expression yields: blank input is the empty
/// matcher, anything else must be a full expression.
pub open spec fn spec_parse_matcher(s: Seq<char>) -> Option<MatcherView> {
    if all_space(s) {
        Some(MatcherView::Empty)
    } else {
        spec_parse_top(s)
    }
}

fn is_space_exec(c: char) -> (r: bool)
    ensures
        r == is_space(c),
{
    c == ' ' || c == '\t' || c == '\r' || c == '\n'
}

fn is_escapable_exec(c: char) -> (r: bool)
    ensures
        r == is_escapable(c),
{
    c == '\\' || c == '\'' || c == '"' || c == '(' || c == ')'
}

fn is_method_char_exec(c: char) -> (r: bool)
    ensures
        r == is_method_char(c),
{
    ('a' <= c && c <= 'z') || ('A' <= c && c <= 'Z') || ('0' <= c && c <= '9') || c == '!' || c
        == '#' || c == '$' || c == '%' || c == '&' || c == '\'' || c == '*' || c == '+' || c == '-'
        || c == '.' || c == '^' || c == '_' || c == '`' || c == '|' || c == '~'
}

fn skip_sp(s: &Vec<char>, i: usize) -> (r: usize)
    requires
        i <= s@.len(),
    ensures
        r == spec_skip_sp(s@, i as int),
        i <= r <= s@.len(),
{
    let mut cur = i;
    while cur < s.len() && is_space_exec(s[cur])
        invariant
            i <= cur <= s@.len(),
            spec_skip_sp(s@, i as int) == spec_skip_sp(s@, cur as int),
        decreases s@.len() - cur,
    {
        cur = cur + 1;
    }
    cur
}

fn tag_at(s: &Vec<char>, i: usize, tag: &str) -> (r: bool)
    requires
        i <= s@.len(),
    ensures
        r == spec_match_tag(s@, i as int, tag@),
{
    let t = str_to_chars(tag);
    let n = s.len();
    if t.len() > n - i {
        return false;
    }
    let mut k: usize = 0;
    while k < t.len()
        invariant
            k <= t@.len(),
            i + t@.len() <= s@.len(),
            s@.len() <= usize::MAX,
            t@ == tag@,
            forall|m: int| 0 <= m < k ==> s@[i + m] == t@[m],
        decreases t@.len() - k,
    {
        assert(i + k < s@.len());
        if s[i + k] != t[k] {
            assert(s@.subrange(i as int, i + t@.len()) != tag@) by {
                assert(s@.subrange(i as int, i + t@.len())[k as int] == s@[i + k]);
            }
            return false;
        }
        k = k + 1;
    }
    proof {
        assert(s@.subrange(i as int, i + t@.len()) =~= tag@);
    }
    true
}

fn in_quotes(s: &Vec<char>, start: usize) -> (r: Option<(Vec<char>, usize)>)
    requires
        start <= s@.len(),
    ensures
        match r {
            Some(p) => start <= p.1 <= s@.len() && spec_in_quotes(s@, start as int) == Some(
                (p.0@, p.1 as int),
            ),
            None => spec_in_quotes(s@, start as int) is None,
        },
{
    let mut acc: Vec<char> = Vec::new();
    let mut cur = start;
    loop
        invariant
            start <= cur <= s@.len(),
            match spec_in_quotes(s@, cur as int) {
                Some(p) => spec_in_quotes(s@, start as int) == Some((acc@ + p.0, p.1)),
                None => spec_in_quotes(s@, start as int) is None,
            },
        decreases s@.len() - cur,
    {
        if cur >= s.len() {
            return None;
        }
        let c = s[cur];
        if c == '\'' {
            proof {
                assert(acc@ + Seq::<char>::empty() =~= acc@);
            }
            return Some((acc, cur));
        } else if c == '\\' {
            if cur + 1 >= s.len() {
                return None;
            }
            let d = s[cur + 1];
            if is_escapable_exec(d) {
                proof {
                    if spec_in_quotes(s@, cur + 2) is Some {
                        let (c2, j2) = spec_in_quotes(s@, cur + 2)->Some_0;
                        assert(acc@ + (seq![s@[cur + 1]] + c2) =~= acc@.push(s@[cur + 1]) + c2);
                    }
                }
                acc.push(d);
                cur = cur + 2;
            } else {
                cur = cur + 1;
            }
        } else {
            proof {
                if spec_in_quotes(s@, cur + 1) is Some {
                    let (c2, j2) = spec_in_quotes(s@, cur + 1)->Some_0;
                    assert(acc@ + (seq![s@[cur as int]] + c2) =~= acc@.push(s@[cur as int]) + c2);
                }
            }
            acc.push(c);
            cur = cur + 1;
        }
    }
}

fn parse_str(s: &Vec<char>, i: usize) -> (r: Option<(Vec<char>, usize)>)
    requires
        i <= s@.len(),
    ensures
        match r {
            Some(p) => i <= p.1 <= s@.len() && spec_parse_str(s@, i as int) == Some(
                (p.0@, p.1 as int),
            ),
            None => spec_parse_str(s@, i as int) is None,
        },
{
    let i1 = skip_sp(s, i);
    if i1 < s.len() && s[i1] == '\'' {
        match in_quotes(s, i1 + 1) {
            Some((content, j)) => {
                if j < s.len() && s[j] == '\'' {
                    let end = skip_sp(s, j + 1);
                    Some((content, end))
                } else {
                    None
                }
            },
            None => None,
        }
    } else {
        None
    }
}

fn key_value(s: &Vec<char>, i: usize) -> (r: Option<((Vec<char>, Vec<char>), usize)>)
    requires
        i <= s@.len(),
    ensures
        match r {
            Some(p) => i <= p.1 <= s@.len() && spec_key_value(s@, i as int) == Some(
                (((p.0).0@, (p.0).1@), p.1 as int),
            ),
            None => spec_key_value(s@, i as int) is None,
        },
{
    match parse_str(s, i) {
        Some((k, j)) => {
            if j < s.len() && s[j] == ',' {
                match parse_str(s, j + 1) {
                    Some((v, l)) => Some(((k, v), l)),
                    None => None,
                }
            } else {
                None
            }
        },
        None => None,
    }
}

fn method_token(v: &Vec<char>) -> (r: bool)
    ensures
        r == method_valid(v@),
{
    if v.len() == 0 {
        return false;
    }
    let mut k: usize = 0;
    while k < v.len()
        invariant
            k <= v@.len(),
            forall|m: int| 0 <= m < k ==> is_method_char(v@[m]),
        decreases v@.len() - k,
    {
        if !is_method_char_exec(v[k]) {
            return false;
        }
        k = k + 1;
    }
    true
}

/// One parenthesized variant, or a grouped subexpression.
fn parse_variant(s: &Vec<char>, i: usize) -> (r: Option<(RouteMatcher, usize)>)
    requires
        i <= s@.len(),
    ensures
        match r {
            Some(p) => i <= p.1 <= s@.len() && spec_parse_variant(s@, i as int) == Some(
                (p.0@, p.1 as int),
            ),
            None => spec_parse_variant(s@, i as int) is None,
        },
    decreases s@.len() - i, 0int,
{
    let n = s.len();
    if tag_at(s, i, "Host(") {
        let t = str_to_chars("Host(");
        match parse_str(s, i + t.len()) {
            Some((c, j)) => {
                if j < s.len() && s[j] == ')' {
                    Some((RouteMatcher::Host(chars_to_string(&c)), j + 1))
                } else {
                    None
                }
            },
            None => None,
        }
    } else if tag_at(s, i, "HostRegexp(") {
        let t = str_to_chars("HostRegexp(");
        match parse_str(s, i + t.len()) {
            Some((c, j)) => {
                if j < s.len() && s[j] == ')' {
                    match ComparableRegex::new(chars_to_string(&c).as_str()) {
                        Ok(re) => Some((RouteMatcher::HostRegexp(re), j + 1)),
                        Err(_) => None,
                    }
                } else {
                    None
                }
            },
            None => None,
        }
    } else if tag_at(s, i, "Path(") {
        let t = str_to_chars("Path(");
        match parse_str(s, i + t.len()) {
            Some((c, j)) => {
                if j < s.len() && s[j] == ')' {
                    Some((RouteMatcher::Path(chars_to_string(&c)), j + 1))
                } else {
                    None
                }
            },
            None => None,
        }
    } else if tag_at(s, i, "PathRegexp(") {
        let t = str_to_chars("PathRegexp(");
        match parse_str(s, i + t.len()) {
            Some((c, j)) => {
                if j < s.len() && s[j] == ')' {
                    match ComparableRegex::new(chars_to_string(&c).as_str()) {
                        Ok(re) => Some((RouteMatcher::PathRegexp(re), j + 1)),
                        Err(_) => None,
                    }
                } else {
                    None
                }
            },
            None => None,
        }
    } else if tag_at(s, i, "Method(") {
        let t = str_to_chars("Method(");
        match parse_str(s, i + t.len()) {
            Some((c, j)) => {
                if j < s.len() && s[j] == ')' && method_token(&c) {
                    Some((RouteMatcher::Method(chars_to_string(&c)), j + 1))
                } else {
                    None
                }
            },
            None => None,
        }
    } else if tag_at(s, i, "Query(") {
        let t = str_to_chars("Query(");
        match key_value(s, i + t.len()) {
            Some(((k, v), j)) => {
                if j < s.len() && s[j] == ')' {
                    Some(
                        (
                            RouteMatcher::Query(chars_to_string(&k), chars_to_string(&v)),
                            j + 1,
                        ),
                    )
                } else {
                    None
                }
            },
            None => None,
        }
    } else if tag_at(s, i, "Cookie(") {
        let t = str_to_chars("Cookie(");
        match key_value(s, i + t.len()) {
            Some(((k, v), j)) => {
                if j < s.len() && s[j] == ')' {
                    Some(
                        (
                            RouteMatcher::Cookie(chars_to_string(&k), chars_to_string(&v)),
                            j + 1,
                        ),
                    )
                } else {
                    None
                }
            },
            None => None,
        }
    } else if i < s.len() && s[i] == '(' {
        let inner = match parse_chained(s, i + 1) {
            Some(p) => Some(p),
            None => parse_value(s, i + 1),
        };
        match inner {
            Some((m, j)) => {
                if j < s.len() && s[j] == ')' {
                    Some((m, j + 1))
                } else {
                    None
                }
            },
            None => None,
        }
    } else {
        None
    }
}

/// A variant with its surrounding whitespace.
fn parse_value(s: &Vec<char>, i: usize) -> (r: Option<(RouteMatcher, usize)>)
    requires
        i <= s@.len(),
    ensures
        match r {
            Some(p) => i <= p.1 <= s@.len() && spec_parse_value(s@, i as int) == Some(
                (p.0@, p.1 as int),
            ),
            None => spec_parse_value(s@, i as int) is None,
        },
    decreases s@.len() - i, 1int,
{
    let i1 = skip_sp(s, i);
    match parse_variant(s, i1) {
        Some((m, j)) => {
            let end = skip_sp(s, j);
            Some((m, end))
        },
        None => None,
    }
}

/// Two values joined by `&&` or `||`.
fn parse_chained(s: &Vec<char>, i: usize) -> (r: Option<(RouteMatcher, usize)>)
    requires
        i <= s@.len(),
    ensures
        match r {
            Some(p) => i <= p.1 <= s@.len() && spec_parse_chained(s@, i as int) == Some(
                (p.0@, p.1 as int),
            ),
            None => spec_parse_chained(s@, i as int) is None,
        },
    decreases s@.len() - i, 2int,
{
    let n = s.len();
    match parse_value(s, i) {
        Some((l, j)) => {
            if n >= 2 && j <= n - 2 && s[j] == '&' && s[j + 1] == '&' {
                match parse_value(s, j + 2) {
                    Some((r2, k)) => Some(
                        (RouteMatcher::And(Box::new(l), Box::new(r2)), k),
                    ),
                    None => None,
                }
            } else if n >= 2 && j <= n - 2 && s[j] == '|' && s[j + 1] == '|' {
                match parse_value(s, j + 2) {
                    Some((r2, k)) => Some(
                        (RouteMatcher::Or(Box::new(l), Box::new(r2)), k),
                    ),
                    None => None,
                }
            } else {
                None
            }
        },
        None => None,
    }
}

fn blank_input(s: &Vec<char>) -> (r: bool)
    ensures
        r == all_space(s@),
{
    let mut k: usize = 0;
    while k < s.len()
        invariant
            k <= s@.len(),
            forall|m: int| 0 <= m < k ==> is_space(s@[m]),
        decreases s@.len() - k,
    {
        if !is_space_exec(s[k]) {
            return false;
        }
        k = k + 1;
    }
    true
}

impl RouteMatcher {
    /// Parse a matcher expression. Blank input is the matcher that
    /// accepts everything; anything else must be one expression of the
    /// grammar, consumed in full.
    pub fn parse(i: &str) -> (r: Result<RouteMatcher, MatcherParseError>)
        ensures
            match r {
                Ok(m) => spec_parse_matcher(i@) == Some(m@),
                Err(_) => spec_parse_matcher(i@) is None,
            },
    {
        let chars = str_to_chars(i);
        if blank_input(&chars) {
            return Ok(RouteMatcher::Empty);
        }
        match parse_chained(&chars, 0) {
            Some((m, j)) => {
                if j == chars.len() {
                    Ok(m)
                } else {
                    Err(MatcherParseError::new(String::from_str("matcher parse error")))
                }
            },
            None => match parse_value(&chars, 0) {
                Some((m, j)) => {
                    if j == chars.len() {
                        Ok(m)
                    } else {
                        Err(MatcherParseError::new(String::from_str("matcher parse error")))
                    }
                },
                None => Err(MatcherParseError::new(String::from_str("matcher parse error"))),
            },
        }
    }
}

} // verus!
