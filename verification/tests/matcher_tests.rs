use apireception::http::RequestData;
use apireception::matcher::{ComparableRegex, RouteMatcher};

fn get_request(path: &str, query: Option<&str>, headers: Vec<(&str, &str)>) -> RequestData {
    RequestData {
        method: "GET".to_string(),
        path: path.to_string(),
        query: query.map(|q| q.to_string()),
        headers: headers
            .into_iter()
            .map(|(k, v)| (k.to_string(), v.to_string()))
            .collect(),
    }
}

#[test]
fn test_matcher() {
    let input = "Cookie('env','dev')";
    let matcher = RouteMatcher::parse(input).unwrap();

    let req = get_request("/", None, vec![("cookie", "env=dev")]);

    assert_eq!(matcher.matchs(&req), true);
}

#[test]
fn parse_host() {
    let input = "Host('www.google.com')";

    assert_eq!(
        RouteMatcher::parse(input),
        Ok(RouteMatcher::Host("www.google.com".to_string()))
    );
}

#[test]
fn parse_escaped_host() {
    let input = "Host('www.\\'google.com')";

    assert_eq!(
        RouteMatcher::parse(input),
        Ok(RouteMatcher::Host("www.'google.com".to_string()))
    );

    let input = r#"Host('www.\'go\"ogle.\\com')"#;

    assert_eq!(
        RouteMatcher::parse(input),
        Ok(RouteMatcher::Host(r#"www.'go"ogle.\com"#.to_string()))
    );
}

#[test]
fn parse_empty_host() {
    let input = "Host('')";

    assert_eq!(
        RouteMatcher::parse(input),
        Ok(RouteMatcher::Host("".to_string()))
    );
}

#[test]
fn parse_host_regexp() {
    let input = "HostRegexp('[0-9]+')";

    assert_eq!(
        RouteMatcher::parse(input),
        Ok(RouteMatcher::HostRegexp(
            ComparableRegex::new("[0-9]+").unwrap()
        ))
    );
}

#[test]
fn parse_path_regexp() {
    let input = r#"PathRegexp('/hello/\(.*\)')"#;

    assert_eq!(
        RouteMatcher::parse(input),
        Ok(RouteMatcher::PathRegexp(
            ComparableRegex::new("/hello/(.*)").unwrap()
        ))
    );
}

#[test]
fn parse_query() {
    let input = "Query( 'key' , 'value' )";

    assert_eq!(
        RouteMatcher::parse(input),
        Ok(RouteMatcher::Query("key".into(), "value".into()))
    );
}

#[test]
fn parse_cookie() {
    let input = "Cookie( 'key' , 'value' )";

    assert_eq!(
        RouteMatcher::parse(input),
        Ok(RouteMatcher::Cookie("key".into(), "value".into()))
    );
}

#[test]
fn parse_and() {
    let input = "Host('www.google.com') && Path('/api/user')";

    let lhs = Box::new(RouteMatcher::Host("www.google.com".to_string()));
    let rhs = Box::new(RouteMatcher::Path("/api/user".to_string()));

    assert_eq!(RouteMatcher::parse(input), Ok(RouteMatcher::And(lhs, rhs)));
}

#[test]
fn parse_or() {
    let input = "Host('www.google.com')||Path('/api/admin/')";

    let lhs = Box::new(RouteMatcher::Host("www.google.com".to_string()));
    let rhs = Box::new(RouteMatcher::Path("/api/admin/".to_string()));

    assert_eq!(RouteMatcher::parse(input), Ok(RouteMatcher::Or(lhs, rhs)));
}

#[test]
fn parse_chained() {
    let input = "(Path('/api/admin/')||Path('/api/manage/'))";

    let admin_path = Box::new(RouteMatcher::Path("/api/admin/".to_string()));
    let manage_path = Box::new(RouteMatcher::Path("/api/manage/".to_string()));

    assert_eq!(
        RouteMatcher::parse(input),
        Ok(RouteMatcher::Or(admin_path, manage_path))
    );

    let input = "Host( 'www.google.com')&&( Path('/api/admin/') || Path('/api/manage/') )";

    let host = Box::new(RouteMatcher::Host("www.google.com".to_string()));
    let admin_path = Box::new(RouteMatcher::Path("/api/admin/".to_string()));
    let manage_path = Box::new(RouteMatcher::Path("/api/manage/".to_string()));
    let path = Box::new(RouteMatcher::Or(admin_path, manage_path));

    assert_eq!(
        RouteMatcher::parse(input),
        Ok(RouteMatcher::And(host, path))
    );
}

#[test]
fn parse_method_and_empty() {
    let matcher = RouteMatcher::parse("Method('GET')").unwrap();
    let req = get_request("/x", None, vec![]);
    assert!(matcher.matchs(&req));

    let post = RouteMatcher::parse("Method('POST')").unwrap();
    assert!(!post.matchs(&req));

    // blank input is the matcher that accepts everything
    let empty = RouteMatcher::parse("   ").unwrap();
    assert_eq!(empty, RouteMatcher::Empty);
    assert!(empty.matchs(&req));
    let other = get_request("/totally/else", Some("a=b"), vec![("host", "h")]);
    assert!(empty.matchs(&other));
}

#[test]
fn parse_failures() {
    assert!(RouteMatcher::parse("Host('unterminated").is_err());
    assert!(RouteMatcher::parse("Nonsense('x')").is_err());
    assert!(RouteMatcher::parse("Host('a') && ").is_err());
    assert!(RouteMatcher::parse("HostRegexp('[')").is_err());
    assert!(RouteMatcher::parse("Method('no spaces allowed')").is_err());
    assert!(RouteMatcher::parse("Host('a') Host('b')").is_err());
}

#[test]
fn query_matching_decodes() {
    let m = RouteMatcher::parse("Query('name','tom')").unwrap();
    let yes = get_request("/hello", Some("name=tom"), vec![]);
    assert!(m.matchs(&yes));
    // percent-encoded key decodes to the same mapping
    let encoded = get_request("/hello", Some("na%6De=tom"), vec![]);
    assert!(m.matchs(&encoded));
    // the last value under a repeated key wins
    let last_wins = get_request("/hello", Some("name=bob&name=tom"), vec![]);
    assert!(m.matchs(&last_wins));
    let no = get_request("/hello", Some("name=bob"), vec![]);
    assert!(!no.query.is_none());
    assert!(!m.matchs(&no));
    let none = get_request("/hello", None, vec![]);
    assert!(!m.matchs(&none));
}

#[test]
fn host_and_path_regexp_matching() {
    let m = RouteMatcher::parse("HostRegexp('[0-9]+')").unwrap();
    let digits = get_request("/", None, vec![("host", "h42x")]);
    assert!(m.matchs(&digits));
    let no_digits = get_request("/", None, vec![("host", "plain")]);
    assert!(!m.matchs(&no_digits));
    let missing = get_request("/", None, vec![]);
    assert!(!m.matchs(&missing));

    let p = RouteMatcher::parse(r#"PathRegexp('/hello/\(.*\)')"#).unwrap();
    let hit = get_request("/hello/world", None, vec![]);
    assert!(p.matchs(&hit));
    let miss = get_request("/goodbye", None, vec![]);
    assert!(!p.matchs(&miss));
}

#[test]
fn cookie_matching_parses_header() {
    let m = RouteMatcher::parse("Cookie('exp','b')").unwrap();
    let hit = get_request("/", None, vec![("cookie", "sid=1; exp=b")]);
    assert!(m.matchs(&hit));
    let miss = get_request("/", None, vec![("cookie", "sid=1; exp=a")]);
    assert!(!m.matchs(&miss));
    let absent = get_request("/", None, vec![]);
    assert!(!m.matchs(&absent));
}
