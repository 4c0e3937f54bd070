use apireception::adminapi::{to_hex, AuthMiddleware, SessionApi, SessionStore, Status};
use apireception::forwarder::ip_of;
use apireception::health::{
    classify_probe, probe_url, status_digits, HealthConfig, Healthiness, StatusRing,
};
use apireception::http::RequestData;
use apireception::load_balance::{LeastRequest, Random, WeightedRandom};
use apireception::matcher::ComparableRegex;
use apireception::plugins::{PathRewriteConfig, PathRewritePlugin};
use apireception::registry::Endpoint;
use apireception::adminapi::LoginReq;
use std::collections::HashMap;

fn endpoints(list: Vec<(&str, usize)>) -> Vec<Endpoint> {
    list.into_iter()
        .map(|(t, w)| Endpoint::new(t.to_string(), w))
        .collect()
}

#[test]
fn test_weighted_random() {
    let endpoints = vec![
        Endpoint {
            target: "http://aaa.com/".to_string(),
            weight: 10,
        },
        Endpoint {
            target: "http://bbb.com/".to_string(),
            weight: 10,
        },
        Endpoint {
            target: "http://ccc.com/".to_string(),
            weight: 80,
        },
    ];

    let weighted = WeightedRandom::new();

    let mut result: HashMap<String, u32> = HashMap::new();
    for _ in 0..100000 {
        let got = weighted.select_endpoint(&endpoints);

        result
            .entry(endpoints[got].target.clone())
            .and_modify(|sum| *sum += 1)
            .or_default();
    }

    println!("weighted ret= {:?}", result);

    let random = Random::new();

    let mut result: HashMap<String, u32> = HashMap::new();
    for _ in 0..1000 {
        let got = random.select_endpoint(&endpoints);

        result
            .entry(endpoints[got].target.clone())
            .and_modify(|sum| *sum += 1)
            .or_default();
    }

    println!("random ret= {:?}", result);
}

#[test]
fn weighted_distribution_tracks_weights() {
    let eps = endpoints(vec![("a", 10), ("b", 10), ("c", 80)]);
    let weighted = WeightedRandom::new();
    let mut counts = [0u32; 3];
    let draws = 100000;
    for _ in 0..draws {
        counts[weighted.select_endpoint(&eps)] += 1;
    }
    // weight 10 of 100 should land near 10%; allow a very wide margin
    assert!(counts[0] > draws / 20 && counts[0] < draws / 5);
    assert!(counts[1] > draws / 20 && counts[1] < draws / 5);
    assert!(counts[2] > draws / 2);
}

#[test]
fn weighted_pick_is_deterministic() {
    let eps = endpoints(vec![("a", 2), ("b", 0), ("c", 3)]);
    assert_eq!(WeightedRandom::pick(&eps, 0), 0);
    assert_eq!(WeightedRandom::pick(&eps, 1), 0);
    assert_eq!(WeightedRandom::pick(&eps, 2), 2);
    assert_eq!(WeightedRandom::pick(&eps, 4), 2);
}

#[test]
fn least_request_prefers_unused_then_min() {
    let eps = endpoints(vec![("a", 1), ("b", 1)]);
    let mut lb = LeastRequest::new();
    lb.on_send_request("a");
    // only `b` has no counter entry, so it must be chosen
    assert_eq!(lb.select_endpoint(&eps), 1);
    lb.on_send_request("b");
    lb.on_send_request("b");
    // both counted now: a=1 < b=2
    assert_eq!(lb.select_endpoint(&eps), 0);
    // a balanced send/done pair nets out, restoring the earlier choice
    lb.on_send_request("a");
    lb.on_request_done("a");
    assert_eq!(lb.select_endpoint(&eps), 0);
    // draining b twice leaves b=0 < a=1
    lb.on_request_done("b");
    lb.on_request_done("b");
    assert_eq!(lb.select_endpoint(&eps), 1);
}

#[test]
fn status_ring_hysteresis() {
    let cfg = HealthConfig {
        timeout: 1000,
        interval: 1,
        path: "/health".to_string(),
        status_regex: String::new(),
        rise: 2,
        fall: 3,
        default_down: false,
    };
    let mut ring = StatusRing::new(&cfg);
    assert_eq!(ring.status(), Healthiness::Up);

    // two failures are not yet enough to fall
    assert_eq!(ring.append(Healthiness::Down), Healthiness::Up);
    assert_eq!(ring.append(Healthiness::Down), Healthiness::Up);
    // the third consecutive failure flips the state
    assert_eq!(ring.append(Healthiness::Down), Healthiness::Down);
    // one success is not yet enough to rise
    assert_eq!(ring.append(Healthiness::Up), Healthiness::Down);
    // the second consecutive success restores the endpoint
    assert_eq!(ring.append(Healthiness::Up), Healthiness::Up);
}

#[test]
fn status_ring_starts_down_when_configured() {
    let cfg = HealthConfig {
        default_down: true,
        rise: 1,
        fall: 1,
        ..HealthConfig::default()
    };
    let mut ring = StatusRing::new(&cfg);
    assert_eq!(ring.status(), Healthiness::Down);
    assert_eq!(ring.append(Healthiness::Up), Healthiness::Up);
}

#[test]
fn probe_classification() {
    assert_eq!(classify_probe(Some(200), &None), Healthiness::Up);
    assert_eq!(classify_probe(Some(299), &None), Healthiness::Up);
    assert_eq!(classify_probe(Some(301), &None), Healthiness::Down);
    assert_eq!(classify_probe(Some(500), &None), Healthiness::Down);
    assert_eq!(classify_probe(None, &None), Healthiness::Down);

    let re = Some(ComparableRegex::new("2..|404").unwrap());
    assert_eq!(classify_probe(Some(404), &re), Healthiness::Up);
    assert_eq!(classify_probe(Some(204), &re), Healthiness::Up);
    assert_eq!(classify_probe(Some(500), &re), Healthiness::Down);
}

#[test]
fn status_digit_rendering() {
    assert_eq!(status_digits(404), "404");
    assert_eq!(status_digits(200), "200");
    assert_eq!(status_digits(999), "999");
}

#[test]
fn probe_url_assembly() {
    let url = probe_url(
        &"http".to_string(),
        &"127.0.0.1:5000".to_string(),
        &"/health".to_string(),
    );
    assert_eq!(url, "http://127.0.0.1:5000/health");
}

#[test]
fn path_rewrite_shapes() {
    let keep = PathRewritePlugin::new(&PathRewriteConfig::Keep).unwrap();
    let req = RequestData {
        method: "GET".to_string(),
        path: "/a/b".to_string(),
        query: Some("c=1".to_string()),
        headers: vec![],
    };
    let kept = keep.on_access(req);
    assert_eq!(kept.path, "/a/b");
    assert_eq!(kept.query.as_deref(), Some("c=1"));

    let stat = PathRewritePlugin::new(&PathRewriteConfig::Static("/x".to_string())).unwrap();
    let moved = stat.on_access(kept);
    assert_eq!(moved.path, "/x");
    assert_eq!(moved.query.as_deref(), Some("c=1"));

    let re = PathRewritePlugin::new(&PathRewriteConfig::RegexReplace(
        "^/a/(.*)$".to_string(),
        "/$1".to_string(),
    ))
    .unwrap();
    let req = RequestData {
        method: "GET".to_string(),
        path: "/a/b".to_string(),
        query: Some("c=1".to_string()),
        headers: vec![],
    };
    let rewritten = re.on_access(req);
    assert_eq!(rewritten.path, "/b");
    assert_eq!(rewritten.query.as_deref(), Some("c=1"));

    assert!(PathRewritePlugin::new(&PathRewriteConfig::RegexReplace(
        "[".to_string(),
        "/$1".to_string()
    ))
    .is_err());
}

#[test]
fn ip_extraction() {
    assert_eq!(ip_of("127.0.0.1:5000"), "127.0.0.1");
    assert_eq!(ip_of("[::1]:80"), "::1");
    assert_eq!(ip_of("plainhost"), "plainhost");
}

#[test]
fn hex_rendering() {
    assert_eq!(to_hex(&vec![0x0f, 0xa0]), "0fa0");
    assert_eq!(to_hex(&vec![]), "");
    assert_eq!(to_hex(&vec![0xff, 0x00, 0x7b]), "ff007b");
}

#[test]
fn sessions_login_logout() {
    let mut store: SessionStore<String> = SessionStore::new();
    let ok = LoginReq {
        username: "admin".to_string(),
        password: "admin".to_string(),
    };
    let (sid, resp) = SessionApi::login(&mut store, &ok).unwrap();
    assert_eq!(resp.login_name, "admin");
    assert_eq!(sid.len(), 16);
    assert_eq!(store.load(&sid), Some(&"admin".to_string()));

    let auth = AuthMiddleware::new("/api/session/login".to_string());
    assert!(auth.authorize("/api/routes", Some(&sid), &store));
    assert!(!auth.authorize("/api/routes", None, &store));
    assert!(!auth.authorize("/api/routes", Some(&"bogus".to_string()), &store));
    assert!(auth.authorize("/api/session/login", None, &store));

    SessionApi::logout(&mut store, Some(&sid));
    assert!(store.load(&sid).is_none());

    let bad = LoginReq {
        username: "admin".to_string(),
        password: "hunter2".to_string(),
    };
    let err = SessionApi::login(&mut store, &bad).unwrap_err();
    assert_eq!(err.status, 401);
    assert_eq!(err.code, 10401);
}

#[test]
fn status_constructors() {
    assert_eq!(Status::bad_request("m".to_string()).code, 10400);
    assert_eq!(Status::unauthorized("m".to_string()).code, 10401);
    assert_eq!(Status::not_found("m".to_string()).code, 10404);
    assert_eq!(Status::internal_error("m".to_string()).code, 10500);
    let s = Status::new(0, "ok".to_string(), 200);
    assert_eq!(s.status, 200);
}
