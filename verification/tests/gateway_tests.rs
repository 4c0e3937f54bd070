use apireception::adminapi::{RouteApi, UpstreamApi};
use apireception::config::{EndpointConfig, RouteConfig, UpstreamConfig};
use apireception::context::GatewayContext;
use apireception::forwarder::append_proxy_headers;
use apireception::health::HealthConfig;
use apireception::http::RequestData;
use apireception::plugins::{PluginConfig, PluginSetting, TrafficSplitConfig, TrafficSplitRule};
use apireception::registry::{Registry, RegistryConfig};
use apireception::services::{
    begin_forward, find_route, run_access_plugins, AccessOutcome,
};

fn route_cfg(id: &str, uris: Vec<&str>, upstream: &str, matcher: &str, priority: u32) -> RouteConfig {
    RouteConfig {
        id: id.to_string(),
        name: id.to_string(),
        desc: String::new(),
        uris: uris.into_iter().map(|u| u.to_string()).collect(),
        upstream_id: upstream.to_string(),
        overwrite_host: false,
        matcher: matcher.to_string(),
        priority,
        plugins: Vec::new(),
    }
}

fn upstream_cfg(id: &str, endpoints: Vec<(&str, u32)>, strategy: &str) -> UpstreamConfig {
    UpstreamConfig {
        id: id.to_string(),
        name: id.to_string(),
        desc: String::new(),
        endpoints: endpoints
            .into_iter()
            .map(|(addr, weight)| EndpointConfig {
                addr: addr.to_string(),
                weight,
            })
            .collect(),
        strategy: strategy.to_string(),
        health_check: HealthConfig::default(),
    }
}

fn get_request(path: &str, query: Option<&str>, headers: Vec<(&str, &str)>) -> RequestData {
    RequestData {
        method: "GET".to_string(),
        path: path.to_string(),
        query: query.map(|q| q.to_string()),
        headers: headers
            .into_iter()
            .map(|(k, v)| (k.to_string(), v.to_string()))
            .collect(),
    }
}

#[test]
fn hello_route_forwards_with_proxy_headers() {
    let cfg = RegistryConfig {
        routes: vec![route_cfg("hello", vec!["/hello"], "u1", "", 0)],
        upstreams: vec![upstream_cfg("u1", vec![("127.0.0.1:5000", 1)], "random")],
    };
    let mut reg = Registry::new(cfg).unwrap();

    let mut req = get_request("/hello", None, vec![("host", "gw")]);
    let idx = find_route(&reg, &req).expect("route should match");
    assert_eq!(reg.routes[idx].id, "hello");
    assert_eq!(reg.routes[idx].upstream_id, "u1");

    let ctx = GatewayContext::new(
        Some("9.9.9.9:1234".to_string()),
        "http".to_string(),
        &req,
    );
    let plan = begin_forward(&mut reg.upstreams, "u1").expect("one endpoint available");
    assert_eq!(plan.endpoint.target, "127.0.0.1:5000");
    assert_eq!(plan.authority, "127.0.0.1:5000");
    assert_eq!(plan.host, "127.0.0.1");
    assert_eq!(plan.scheme, "http");

    append_proxy_headers(&ctx, &mut req);
    assert_eq!(req.get_header("x-forwarded-for").unwrap().as_str(), "9.9.9.9:1234");
    assert_eq!(req.get_header("x-real-ip").unwrap().as_str(), "9.9.9.9");
    assert_eq!(req.get_header("x-forwarded-proto").unwrap().as_str(), "http");
    assert_eq!(req.get_header("x-forwarded-host").unwrap().as_str(), "gw");
    // path and query are untouched by header stamping
    assert_eq!(req.path, "/hello");
}

#[test]
fn higher_priority_predicate_route_wins() {
    let cfg = RegistryConfig {
        routes: vec![
            route_cfg("hello", vec!["/hello"], "u1", "", 0),
            route_cfg("hello-tom", vec!["/hello"], "u2", "Query('name','tom')", 100),
        ],
        upstreams: vec![
            upstream_cfg("u1", vec![("127.0.0.1:5000", 1)], "random"),
            upstream_cfg("u2", vec![("127.0.0.1:6000", 1)], "random"),
        ],
    };
    let reg = Registry::new(cfg).unwrap();

    let tom = get_request("/hello", Some("name=tom"), vec![]);
    let idx = find_route(&reg, &tom).unwrap();
    assert_eq!(reg.routes[idx].upstream_id, "u2");

    let bob = get_request("/hello", Some("name=bob"), vec![]);
    let idx = find_route(&reg, &bob).unwrap();
    assert_eq!(reg.routes[idx].upstream_id, "u1");

    let other = get_request("/nothing", None, vec![]);
    assert!(find_route(&reg, &other).is_none());
}

#[test]
fn weighted_skips_drained_endpoint() {
    let cfg = RegistryConfig {
        routes: vec![route_cfg("r", vec!["/r"], "u1", "", 0)],
        upstreams: vec![upstream_cfg(
            "u1",
            vec![("127.0.0.1:5000", 1), ("127.0.0.1:6000", 0)],
            "weighted",
        )],
    };
    let mut reg = Registry::new(cfg).unwrap();
    for _ in 0..100 {
        let plan = begin_forward(&mut reg.upstreams, "u1").unwrap();
        assert_eq!(plan.endpoint.target, "127.0.0.1:5000");
    }
}

#[test]
fn all_endpoints_down_still_attempts() {
    let cfg = RegistryConfig {
        routes: vec![route_cfg("r", vec!["/r"], "u1", "", 0)],
        upstreams: vec![upstream_cfg("u1", vec![("127.0.0.1:5000", 1)], "random")],
    };
    let mut reg = Registry::new(cfg).unwrap();
    // the health checker marks the only endpoint down
    reg.set_endpoint_health(0, 0, apireception::health::Healthiness::Down);
    assert!(reg.upstreams.items[0].healthy_endpoints().is_empty());
    let plan = begin_forward(&mut reg.upstreams, "u1").expect("falls back to all endpoints");
    assert_eq!(plan.endpoint.target, "127.0.0.1:5000");
}

#[test]
fn upstream_without_endpoints_is_unavailable() {
    let cfg = RegistryConfig {
        routes: vec![route_cfg("r", vec!["/r"], "u1", "", 0)],
        upstreams: vec![upstream_cfg("u1", vec![], "random")],
    };
    let mut reg = Registry::new(cfg).unwrap();
    let resp = begin_forward(&mut reg.upstreams, "u1").unwrap_err();
    assert_eq!(resp.status, 503);
    // a missing upstream id is the same 503
    let resp = begin_forward(&mut reg.upstreams, "missing").unwrap_err();
    assert_eq!(resp.status, 503);
}

#[test]
fn admin_add_route_unknown_upstream_rejected() {
    let cfg = RegistryConfig {
        routes: vec![route_cfg("r", vec!["/r"], "u1", "", 0)],
        upstreams: vec![upstream_cfg("u1", vec![("127.0.0.1:5000", 1)], "random")],
    };
    let mut reg = Registry::new(cfg).unwrap();

    let bad = route_cfg("r2", vec!["/r2"], "nope", "", 0);
    let err = RouteApi::add(&mut reg, bad).unwrap_err();
    assert_eq!(err.status, 400);
    assert_eq!(err.code, 10400);
    assert_eq!(err.message, "upstream<nope> not found");
    // the registry is structurally unchanged
    assert_eq!(RouteApi::get_list(&reg).len(), 1);
    assert!(find_route(&reg, &get_request("/r2", None, vec![])).is_none());

    // a duplicate id is refused outright
    let dup = route_cfg("r", vec!["/other"], "u1", "", 0);
    let err = RouteApi::add(&mut reg, dup).unwrap_err();
    assert_eq!(err.status, 400);
    assert_eq!(err.message, "Route Id exist");
}

#[test]
fn admin_put_same_body_leaves_registry_unchanged() {
    let cfg = RegistryConfig {
        routes: vec![route_cfg("r", vec!["/r"], "u1", "Query('a','b')", 7)],
        upstreams: vec![upstream_cfg("u1", vec![("127.0.0.1:5000", 1)], "random")],
    };
    let mut reg = Registry::new(cfg).unwrap();

    let body = RouteApi::get_detail(&reg, "r").unwrap();
    RouteApi::update(&mut reg, "r", body).unwrap();

    let after = RouteApi::get_list(&reg);
    assert_eq!(after.len(), 1);
    assert_eq!(after[0].id, "r");
    assert_eq!(after[0].matcher, "Query('a','b')");
    assert_eq!(after[0].priority, 7);
    assert_eq!(after[0].uris, vec!["/r".to_string()]);
    // and routing still behaves the same
    let hit = get_request("/r", Some("a=b"), vec![]);
    assert!(find_route(&reg, &hit).is_some());
    let miss = get_request("/r", Some("a=c"), vec![]);
    assert!(find_route(&reg, &miss).is_none());
}

#[test]
fn reload_with_current_config_keeps_behavior() {
    let cfg = RegistryConfig {
        routes: vec![route_cfg("r", vec!["/r"], "u1", "", 3)],
        upstreams: vec![upstream_cfg("u1", vec![("127.0.0.1:5000", 1)], "random")],
    };
    let mut reg = Registry::new(cfg).unwrap();
    let before = find_route(&reg, &get_request("/r", None, vec![])).unwrap();

    let same = reg.config.clone();
    reg.reload(same).unwrap();

    let after = find_route(&reg, &get_request("/r", None, vec![])).unwrap();
    assert_eq!(before, after);
    assert_eq!(reg.routes[after].id, "r");
    assert_eq!(RouteApi::get_list(&reg).len(), 1);
}

#[test]
fn traffic_split_diverts_on_cookie() {
    let split = PluginConfig {
        enable: true,
        setting: PluginSetting::TrafficSplit(TrafficSplitConfig {
            rules: vec![TrafficSplitRule {
                matcher: "Cookie('exp','b')".to_string(),
                upstream_id: "u_exp".to_string(),
            }],
        }),
    };
    let mut route = route_cfg("r", vec!["/r"], "u_main", "", 0);
    route.plugins = vec![split];
    let cfg = RegistryConfig {
        routes: vec![route],
        upstreams: vec![
            upstream_cfg("u_main", vec![("127.0.0.1:5000", 1)], "random"),
            upstream_cfg("u_exp", vec![("127.0.0.1:6000", 1)], "random"),
        ],
    };
    let reg = Registry::new(cfg).unwrap();

    let with_cookie = get_request("/r", None, vec![("cookie", "exp=b")]);
    let idx = find_route(&reg, &with_cookie).unwrap();
    let mut ctx = GatewayContext::new(None, "http".to_string(), &with_cookie);
    apireception::services::apply_route_to_context(&mut ctx, &reg.routes[idx]);
    match run_access_plugins(&reg.routes[idx], 0, &mut ctx, with_cookie) {
        AccessOutcome::Continue(_) => {}
        AccessOutcome::Script(_, _) => panic!("no script configured"),
    }
    assert_eq!(ctx.upstream_id.as_deref(), Some("u_exp"));

    let without = get_request("/r", None, vec![]);
    let mut ctx = GatewayContext::new(None, "http".to_string(), &without);
    apireception::services::apply_route_to_context(&mut ctx, &reg.routes[idx]);
    match run_access_plugins(&reg.routes[idx], 0, &mut ctx, without) {
        AccessOutcome::Continue(_) => {}
        AccessOutcome::Script(_, _) => panic!("no script configured"),
    }
    assert_eq!(ctx.upstream_id.as_deref(), Some("u_main"));
}

#[test]
fn config_errors_are_reported() {
    // unknown strategy
    let cfg = RegistryConfig {
        routes: vec![],
        upstreams: vec![upstream_cfg("u1", vec![("127.0.0.1:5000", 1)], "fancy")],
    };
    let e = Registry::new(cfg).unwrap_err();
    assert_eq!(e.message(), "unknown strategy<fancy>");

    // unparsable endpoint address
    let cfg = RegistryConfig {
        routes: vec![],
        upstreams: vec![upstream_cfg("u1", vec![("http://", 1)], "random")],
    };
    assert!(Registry::new(cfg).is_err());

    // weighted strategy with nothing but drained endpoints
    let cfg = RegistryConfig {
        routes: vec![],
        upstreams: vec![upstream_cfg("u1", vec![("127.0.0.1:5000", 0)], "weighted")],
    };
    assert!(Registry::new(cfg).is_err());

    // route pointing nowhere
    let cfg = RegistryConfig {
        routes: vec![route_cfg("r", vec!["/r"], "ghost", "", 0)],
        upstreams: vec![],
    };
    let e = Registry::new(cfg).unwrap_err();
    assert_eq!(e.message(), "upstream<ghost> not found");

    // route with a broken predicate
    let cfg = RegistryConfig {
        routes: vec![route_cfg("r", vec!["/r"], "u1", "Host(", 0)],
        upstreams: vec![upstream_cfg("u1", vec![("127.0.0.1:5000", 1)], "random")],
    };
    assert!(Registry::new(cfg).is_err());
}

#[test]
fn wildcard_pattern_routes_prefixes() {
    let cfg = RegistryConfig {
        routes: vec![route_cfg("deep", vec!["/hello/*rest"], "u1", "", 0)],
        upstreams: vec![upstream_cfg("u1", vec![("127.0.0.1:5000", 1)], "random")],
    };
    let reg = Registry::new(cfg).unwrap();
    assert!(find_route(&reg, &get_request("/hello/a/b", None, vec![])).is_some());
    assert!(find_route(&reg, &get_request("/bye", None, vec![])).is_none());
}

#[test]
fn registry_delete_route_and_upstream() {
    let cfg = RegistryConfig {
        routes: vec![
            route_cfg("a", vec!["/a"], "u1", "", 0),
            route_cfg("b", vec!["/b"], "u2", "", 0),
        ],
        upstreams: vec![
            upstream_cfg("u1", vec![("127.0.0.1:5000", 1)], "random"),
            upstream_cfg("u2", vec![("127.0.0.1:6000", 1)], "random"),
        ],
    };
    let mut reg = Registry::new(cfg).unwrap();

    let gone = route_cfg("b", vec!["/b"], "u2", "", 0);
    reg.delete_route(&gone).unwrap();
    assert!(find_route(&reg, &get_request("/b", None, vec![])).is_none());
    assert!(find_route(&reg, &get_request("/a", None, vec![])).is_some());

    // dropping an upstream a route still points at fails and changes nothing
    let keep = upstream_cfg("u1", vec![("127.0.0.1:5000", 1)], "random");
    assert!(reg.delete_upstream(&keep).is_err());
    assert!(find_route(&reg, &get_request("/a", None, vec![])).is_some());

    // an unreferenced upstream can go
    let unused = upstream_cfg("u2", vec![("127.0.0.1:6000", 1)], "random");
    reg.delete_upstream(&unused).unwrap();
    assert_eq!(reg.config.upstreams.len(), 1);
}

#[test]
fn admin_upstream_crud() {
    let cfg = RegistryConfig {
        routes: vec![],
        upstreams: vec![upstream_cfg("u1", vec![("127.0.0.1:5000", 1)], "random")],
    };
    let mut reg = Registry::new(cfg).unwrap();

    // a duplicate id is refused
    let dup = upstream_cfg("u1", vec![("127.0.0.1:7000", 1)], "random");
    let err = UpstreamApi::add(&mut reg, dup).unwrap_err();
    assert_eq!(err.status, 400);
    assert_eq!(err.message, "Upstream Id exist");

    // a fresh id lands
    let fresh = upstream_cfg("u2", vec![("127.0.0.1:7000", 1)], "random");
    UpstreamApi::add(&mut reg, fresh).unwrap();
    assert_eq!(UpstreamApi::get_list(&reg).len(), 2);
    assert!(UpstreamApi::get_detail(&reg, "u2").is_some());
    assert!(UpstreamApi::get_detail(&reg, "ghost").is_none());

    // an update under an unknown id is a 404
    let nobody = upstream_cfg("ghost", vec![("127.0.0.1:7000", 1)], "random");
    let err = UpstreamApi::update(&mut reg, "ghost", nobody).unwrap_err();
    assert_eq!(err.status, 404);

    // an update that does not build is a 400 and changes nothing
    let broken = upstream_cfg("u2", vec![("127.0.0.1:7000", 1)], "fancy");
    let err = UpstreamApi::update(&mut reg, "u2", broken).unwrap_err();
    assert_eq!(err.status, 400);
    assert_eq!(UpstreamApi::get_detail(&reg, "u2").unwrap().strategy, "random");

    // a sound update replaces the entry
    let better = upstream_cfg("u2", vec![("127.0.0.1:8000", 2)], "weighted");
    UpstreamApi::update(&mut reg, "u2", better).unwrap();
    let got = UpstreamApi::get_detail(&reg, "u2").unwrap();
    assert_eq!(got.strategy, "weighted");
    assert_eq!(got.endpoints[0].addr, "127.0.0.1:8000");
}

#[test]
fn default_down_endpoints_start_down() {
    let mut hc = HealthConfig::default();
    hc.default_down = true;
    hc.rise = 2;
    hc.fall = 3;
    let mut up = upstream_cfg("u1", vec![("127.0.0.1:5000", 1)], "random");
    up.health_check = hc;
    let cfg = RegistryConfig {
        routes: vec![route_cfg("r", vec!["/r"], "u1", "", 0)],
        upstreams: vec![up],
    };
    let mut reg = Registry::new(cfg).unwrap();
    // the endpoint starts down, before any probe ran
    assert!(reg.upstreams.items[0].healthy_endpoints().is_empty());
    assert_eq!(reg.upstreams.items[0].all_endpoints().len(), 1);
    // dispatch still attempts, through the all-endpoints fallback
    let plan = begin_forward(&mut reg.upstreams, "u1").unwrap();
    assert_eq!(plan.endpoint.target, "127.0.0.1:5000");
    // a pool left to the default starts up
    let cfg = RegistryConfig {
        routes: vec![],
        upstreams: vec![upstream_cfg("u2", vec![("127.0.0.1:6000", 1)], "random")],
    };
    let reg = Registry::new(cfg).unwrap();
    assert_eq!(reg.upstreams.items[0].healthy_endpoints().len(), 1);
}

#[test]
fn aliasing_patterns_share_one_node() {
    // `/p/:a` and `/p/:b` resolve to one trie node: their route lists
    // merge, and priority decides — in either insertion order
    let mk = |first_high: bool| {
        let (p1, p2) = if first_high { (100, 0) } else { (0, 100) };
        RegistryConfig {
            routes: vec![
                route_cfg("one", vec!["/p/:a"], "u1", "", p1),
                route_cfg("two", vec!["/p/:b"], "u2", "", p2),
            ],
            upstreams: vec![
                upstream_cfg("u1", vec![("127.0.0.1:5000", 1)], "random"),
                upstream_cfg("u2", vec![("127.0.0.1:6000", 1)], "random"),
            ],
        }
    };
    let reg = Registry::new(mk(true)).unwrap();
    let idx = find_route(&reg, &get_request("/p/z", None, vec![])).unwrap();
    assert_eq!(reg.routes[idx].id, "one");

    let reg = Registry::new(mk(false)).unwrap();
    let idx = find_route(&reg, &get_request("/p/z", None, vec![])).unwrap();
    assert_eq!(reg.routes[idx].id, "two");
}

#[test]
fn static_prefix_of_pattern_is_no_match() {
    // a path that stops at an intermediate node of a longer pattern is
    // simply unmatched, for any request the client chooses
    let cfg = RegistryConfig {
        routes: vec![route_cfg("deep", vec!["/hello/world"], "u1", "", 0)],
        upstreams: vec![upstream_cfg("u1", vec![("127.0.0.1:5000", 1)], "random")],
    };
    let reg = Registry::new(cfg).unwrap();
    assert!(find_route(&reg, &get_request("/hello", None, vec![])).is_none());
    assert!(find_route(&reg, &get_request("/hello/world", None, vec![])).is_some());
    assert!(find_route(&reg, &get_request("/hello/world/more", None, vec![])).is_none());
    assert!(find_route(&reg, &get_request("/", None, vec![])).is_none());
}

#[test]
fn outbound_request_assembly() {
    let cfg = RegistryConfig {
        routes: vec![route_cfg("r", vec!["/r"], "u1", "", 0)],
        upstreams: vec![upstream_cfg("u1", vec![("127.0.0.1:5000", 1)], "random")],
    };
    let mut reg = Registry::new(cfg).unwrap();
    let mut req = get_request("/r", Some("a=1"), vec![("host", "gw")]);
    let mut ctx = GatewayContext::new(Some("9.9.9.9:7".to_string()), "http".to_string(), &req);
    ctx.overwrite_host = true;
    let plan = begin_forward(&mut reg.upstreams, "u1").unwrap();
    let uri = apireception::services::finish_outbound(&ctx, &plan, &mut req);
    assert_eq!(uri, "http://127.0.0.1:5000/r?a=1");
    // the Host header now names the endpoint's host
    assert_eq!(req.get_header("host").unwrap().as_str(), "127.0.0.1");
    assert_eq!(req.get_header("x-forwarded-host").unwrap().as_str(), "gw");
    assert_eq!(req.get_header("x-real-ip").unwrap().as_str(), "9.9.9.9");
}
