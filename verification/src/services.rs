use crate::context::GatewayContext;
use crate::forwarder::{append_proxy_headers, opt_view, spec_proxy_headers};
use crate::health::Healthiness;
use crate::http::{upstream_unavailable, RequestData, RequestView, ResponseData};
use crate::matcher::spec_matches;
use crate::plugins::{spec_path_rewrite, spec_select_upstream, Plugin, PluginView};
use crate::registry::{upstream_views, Registry, RegistryView};
use crate::router::{spec_pattern_slots, trie_route, Route, RouteEntry};
use crate::upstream::{
    endpoints_total, lemma_filtered_endpoints, lemma_total_weight_positive, parse_target,
    spec_all_endpoints, spec_available_endpoints, spec_find_upstream, spec_healthy_endpoints,
    uri_parts_of, LoadBalanceStrategy, Upstream, UpstreamMap,
};
use crate::load_balance::{
    spec_apply_event, spec_get0, total_weight, CounterEvent,
};
use crate::registry::Endpoint;
use vstd::pervasive::VecAdditionalExecFns;
use vstd::prelude::*;
use vstd::string::StringExecFns;
use vstd::string::StrSliceExecFns;

verus! {

// ---------------------------------------------------------------------
// Route lookup: trie hit, then the first route whose predicate matches.
// ---------------------------------------------------------------------
/// The position, within a pattern's route list, of the first route
/// whose predicate accepts the request.
pub open spec fn spec_first_matching(
    list: Seq<RouteEntry>,
    routes: Seq<crate::router::RouteView>,
    req: RequestView,
) -> Option<int>
    decreases list.len(),
{
    if list.len() == 0 {
        None
    } else if spec_matches(routes[list[0].0 as int].matcher, req) {
        Some(0int)
    } else {
        match spec_first_matching(list.drop_first(), routes, req) {
            Some(j) => Some(j + 1),
            None => None,
        }
    }
}

/// The route the dispatcher selects: the path's pattern list, walked in
/// priority order, first matching predicate wins.
pub open spec fn spec_find_route(reg: RegistryView, req: RequestView) -> Option<int> {
    match trie_route(spec_pattern_slots(reg.table), req.path) {
        None => None,
        Some(k) => if k < reg.table.len() {
            match spec_first_matching(reg.table[k as int].1, reg.routes, req) {
                Some(j) => Some(reg.table[k as int].1[j].0 as int),
                None => None,
            }
        } else {
            None
        },
    }
}

/// Find the route for a request: a trie lookup by path, then the first
/// route in the pattern's priority-ordered list whose predicate
/// matches.
pub fn find_route(reg: &Registry, req: &RequestData) -> (r: Option<usize>)
    requires
        reg.wf(),
    ensures
        match r {
            Some(i) => spec_find_route(reg@, req@) == Some(i as int) && i < reg.routes@.len(),
            None => spec_find_route(reg@, req@) is None,
        },
{
    match reg.router.lookup(req.path.as_str()) {
        Some(list) => {
            let ghost k = trie_route(spec_pattern_slots(reg@.table), req@.path)->Some_0;
            let n = list.len();
            let mut j: usize = 0;
            proof {
                assert(list@.skip(0) =~= list@);
                assert(crate::registry::table_entries_valid(
                    reg@.table,
                    crate::registry::routes_views(reg.routes@),
                ));
                assert forall|m: int| 0 <= m < n implies (#[trigger] list@[m]).0
                    < reg.routes@.len() by {
                    assert(reg@.table[k as int].1[m].0 < crate::registry::routes_views(
                        reg.routes@,
                    ).len());
                }
            }
            while j < n
                invariant
                    j <= n,
                    n == list@.len(),
                    reg.wf(),
                    trie_route(spec_pattern_slots(reg@.table), req@.path) == Some(k),
                    list@ == reg@.table[k as int].1,
                    0 <= k < reg@.table.len(),
                    forall|m: int|
                        0 <= m < n ==> (#[trigger] list@[m]).0 < reg.routes@.len(),
                    match spec_first_matching(list@.skip(j as int), reg@.routes, req@) {
                        Some(m) => spec_first_matching(list@, reg@.routes, req@) == Some(m + j),
                        None => spec_first_matching(list@, reg@.routes, req@) is None,
                    },
                decreases n - j,
            {
                proof {
                    assert(list@.skip(j as int)[0] == list@[j as int]);
                    assert(reg@.routes[list@[j as int].0 as int] == reg.routes@[list@[j as int].0 as int]@);
                }
                let idx = list[j].0;
                if reg.routes[idx].matcher.matchs(req) {
                    proof {
                        assert(spec_first_matching(list@.skip(j as int), reg@.routes, req@)
                            == Some(0int));
                        assert(spec_first_matching(list@, reg@.routes, req@) == Some(j as int));
                        assert(spec_find_route(reg@, req@) == Some(idx as int));
                    }
                    return Some(idx);
                }
                proof {
                    assert(list@.skip(j as int).drop_first() =~= list@.skip(j + 1));
                }
                j = j + 1;
            }
            proof {
                assert(list@.skip(n as int) =~= Seq::<RouteEntry>::empty());
            }
            None
        },
        None => None,
    }
}

/// Record the selected route's decisions in the request context.
pub fn apply_route_to_context(ctx: &mut GatewayContext, route: &Route)
    ensures
        final(ctx).route_id matches Some(id) && id@ == route.id@,
        final(ctx).upstream_id matches Some(uid) && uid@ == route.upstream_id@,
        final(ctx).overwrite_host == route.overwrite_host,
        final(ctx).remote_addr == old(ctx).remote_addr,
        final(ctx).orig_scheme == old(ctx).orig_scheme,
        final(ctx).orig_host == old(ctx).orig_host,
        final(ctx).orig_path == old(ctx).orig_path,
        final(ctx).available_endpoints == old(ctx).available_endpoints,
{
    ctx.route_id = Some(route.id.clone());
    ctx.upstream_id = Some(route.upstream_id.clone());
    ctx.overwrite_host = route.overwrite_host;
}

// ---------------------------------------------------------------------
// The access chain: plugins run in priority order; a script yields to
// the embedding runtime.
// ---------------------------------------------------------------------
/// What running the chain from one position yields.
pub enum AccessResultView {
    Continue(Option<Seq<char>>, RequestView),
    Script(int, Option<Seq<char>>, RequestView),
}

/// Running the chain from position `from`: a path rewrite edits the
/// request, a traffic split may redirect the context's upstream, and a
/// script suspends the chain.
pub open spec fn spec_run_access(
    plugins: Seq<PluginView>,
    from: int,
    upstream: Option<Seq<char>>,
    req: RequestView,
) -> AccessResultView
    decreases plugins.len() - from,
{
    if !(0 <= from < plugins.len()) {
        AccessResultView::Continue(upstream, req)
    } else {
        match plugins[from] {
            PluginView::PathRewrite(p) => spec_run_access(
                plugins,
                from + 1,
                upstream,
                RequestView { path: spec_path_rewrite(p, req.path), ..req },
            ),
            PluginView::TrafficSplit(rules) => spec_run_access(
                plugins,
                from + 1,
                match spec_select_upstream(rules, req) {
                    Some(u) => Some(u),
                    None => upstream,
                },
                req,
            ),
            PluginView::Script(_) => AccessResultView::Script(from, upstream, req),
        }
    }
}

/// What the executable chain hands back.
pub enum AccessOutcome {
    Continue(RequestData),
    Script(usize, RequestData),
}

/// Run the access chain from position `from`, mutating the context and
/// the request as the plugins direct; a script plugin suspends the
/// chain at its index so the embedding runtime can run it.
pub fn run_access_plugins(
    route: &Route,
    from: usize,
    ctx: &mut GatewayContext,
    req: RequestData,
) -> (r: AccessOutcome)
    ensures
        match r {
            AccessOutcome::Continue(req2) => spec_run_access(
                route@.plugins,
                from as int,
                opt_view(old(ctx).upstream_id),
                req@,
            ) == AccessResultView::Continue(opt_view(final(ctx).upstream_id), req2@),
            AccessOutcome::Script(idx, req2) => from as int <= idx < route.plugins@.len()
                && route@.plugins[idx as int] is Script && spec_run_access(
                route@.plugins,
                from as int,
                opt_view(old(ctx).upstream_id),
                req@,
            ) == AccessResultView::Script(idx as int, opt_view(final(ctx).upstream_id), req2@),
        },
        final(ctx).route_id == old(ctx).route_id,
        final(ctx).overwrite_host == old(ctx).overwrite_host,
        final(ctx).remote_addr == old(ctx).remote_addr,
        final(ctx).orig_scheme == old(ctx).orig_scheme,
        final(ctx).orig_host == old(ctx).orig_host,
        final(ctx).orig_path == old(ctx).orig_path,
        final(ctx).available_endpoints == old(ctx).available_endpoints,
{
    let n = route.plugins.len();
    let mut i = from;
    let mut cur_req = req;
    let ghost u0 = opt_view(ctx.upstream_id);
    let ghost r0 = cur_req@;
    while i < n
        invariant
            from <= i,
            n == route.plugins@.len(),
            route@.plugins.len() == n,
            forall|m: int| 0 <= m < n ==> route@.plugins[m] == route.plugins@[m]@,
            u0 == opt_view(old(ctx).upstream_id),
            r0 == req@,
            spec_run_access(route@.plugins, from as int, u0, r0) == spec_run_access(
                route@.plugins,
                i as int,
                opt_view(ctx.upstream_id),
                cur_req@,
            ),
            ctx.route_id == old(ctx).route_id,
            ctx.overwrite_host == old(ctx).overwrite_host,
            ctx.remote_addr == old(ctx).remote_addr,
            ctx.orig_scheme == old(ctx).orig_scheme,
            ctx.orig_host == old(ctx).orig_host,
            ctx.orig_path == old(ctx).orig_path,
            ctx.available_endpoints == old(ctx).available_endpoints,
        decreases n - i,
    {
        let ghost pre_u = opt_view(ctx.upstream_id);
        let ghost pre_r = cur_req@;
        match &route.plugins[i] {
            Plugin::PathRewrite(p) => {
                let ghost pv = p@;
                cur_req = p.on_access(cur_req);
                proof {
                    assert(cur_req@ == (RequestView {
                        path: spec_path_rewrite(pv, pre_r.path),
                        ..pre_r
                    }));
                    assert(spec_run_access(route@.plugins, i as int, pre_u, pre_r)
                        == spec_run_access(route@.plugins, i + 1, pre_u, cur_req@));
                }
            },
            Plugin::TrafficSplit(t) => {
                let ghost rules = t@;
                cur_req = t.on_access(ctx, cur_req);
                proof {
                    assert(opt_view(ctx.upstream_id) == (match spec_select_upstream(rules, pre_r) {
                        Some(u) => Some(u),
                        None => pre_u,
                    }));
                    assert(spec_run_access(route@.plugins, i as int, pre_u, pre_r)
                        == spec_run_access(
                        route@.plugins,
                        i + 1,
                        opt_view(ctx.upstream_id),
                        cur_req@,
                    ));
                }
            },
            Plugin::Script(_) => {
                proof {
                    assert(route@.plugins[i as int] is Script);
                    assert(spec_run_access(route@.plugins, i as int, pre_u, pre_r)
                        == AccessResultView::Script(i as int, pre_u, pre_r));
                }
                return AccessOutcome::Script(i, cur_req);
            },
        }
        i = i + 1;
    }
    AccessOutcome::Continue(cur_req)
}

/// Run the response chain: every current plugin hands the response on
/// unchanged, in plugin order.
pub fn run_after_forward(route: &Route, ctx: &mut GatewayContext, resp: ResponseData) -> (r:
    ResponseData)
    ensures
        r == resp,
        *final(ctx) == *old(ctx),
{
    let n = route.plugins.len();
    let mut i: usize = 0;
    while i < n
        invariant
            n == route.plugins@.len(),
        decreases n - i,
    {
        match &route.plugins[i] {
            Plugin::PathRewrite(_) => {},
            Plugin::TrafficSplit(_) => {},
            Plugin::Script(_) => {},
        }
        i = i + 1;
    }
    resp
}

// ---------------------------------------------------------------------
// Endpoint selection and the send/done hooks around a forward.
// ---------------------------------------------------------------------
/// Everything the embedding runtime needs to issue the forward: the
/// chosen endpoint, its parsed parts, and the selection set.
#[derive(Debug)]
pub struct ForwardPlan {
    pub endpoint: Endpoint,
    pub scheme: String,
    pub authority: String,
    pub host: String,
    pub available: Vec<Endpoint>,
}

/// What a successful selection guarantees: the upstream was found, the
/// selection set is its available set and non-empty, the chosen
/// endpoint is one of it with positive weight, and the plan carries the
/// endpoint's parsed scheme (defaulted to `http`), authority and host.
pub open spec fn begin_forward_ok(
    items: Seq<Upstream>,
    upstream_id: Seq<char>,
    plan: ForwardPlan,
) -> bool {
    &&& spec_find_upstream(items, upstream_id) is Some
    &&& plan.available@ == spec_available_endpoints(
        items[spec_find_upstream(items, upstream_id)->Some_0].endpoints@,
    )
    &&& plan.available@.len() > 0
    &&& exists|i: int| 0 <= i < plan.available@.len() && plan.endpoint == plan.available@[i]
    &&& plan.endpoint.weight > 0
    &&& match uri_parts_of(plan.endpoint.target@) {
        Some(p) => plan.authority@ == p.1 && plan.host@ == p.2 && plan.scheme@ == (if p.0.len()
            == 0 {
            "http"@
        } else {
            p.0
        }),
        None => false,
    }
}

/// What the send hook leaves of an upstream: everything but the
/// strategy's counters unchanged, and — for the least-request strategy —
/// the chosen endpoint's in-flight counter incremented (a counter at the
/// machine maximum stays put).
pub open spec fn spec_send_applied(u0: Upstream, u1: Upstream, endpoint: Seq<char>) -> bool {
    &&& u1.id == u0.id
    &&& u1.name == u0.name
    &&& u1.endpoints == u0.endpoints
    &&& u1.health_config == u0.health_config
    &&& match (u0.strategy, u1.strategy) {
        (LoadBalanceStrategy::LeastRequest(l0), LoadBalanceStrategy::LeastRequest(l1)) => l1
            .spec_counts() == (if spec_get0(l0.spec_counts(), endpoint) < usize::MAX {
            spec_apply_event(l0.spec_counts(), CounterEvent::Send(endpoint))
        } else {
            l0.spec_counts()
        }),
        _ => u1.strategy == u0.strategy,
    }
}

/// What the done hook leaves of an upstream: everything but the
/// strategy's counters unchanged, and — for the least-request strategy —
/// the endpoint's in-flight counter decremented, never below zero.
pub open spec fn spec_done_applied(u0: Upstream, u1: Upstream, endpoint: Seq<char>) -> bool {
    &&& u1.id == u0.id
    &&& u1.name == u0.name
    &&& u1.endpoints == u0.endpoints
    &&& u1.health_config == u0.health_config
    &&& match (u0.strategy, u1.strategy) {
        (LoadBalanceStrategy::LeastRequest(l0), LoadBalanceStrategy::LeastRequest(l1)) => l1
            .spec_counts() == spec_apply_event(l0.spec_counts(), CounterEvent::Done(endpoint)),
        _ => u1.strategy == u0.strategy,
    }
}

/// The pool after one counter event lands on the named upstream: that
/// upstream's strategy absorbs the event, everything else is untouched;
/// a pool without the id is untouched entirely.
pub open spec fn spec_counters_after(
    items0: Seq<Upstream>,
    items1: Seq<Upstream>,
    upstream_id: Seq<char>,
    endpoint: Seq<char>,
    send: bool,
) -> bool {
    match spec_find_upstream(items0, upstream_id) {
        Some(j) => items1.len() == items0.len() && (forall|a: int|
            0 <= a < items0.len() && a != j ==> items1[a] == items0[a]) && (if send {
            spec_send_applied(items0[j], items1[j], endpoint)
        } else {
            spec_done_applied(items0[j], items1[j], endpoint)
        }),
        None => items1 == items0,
    }
}

/// An inert upstream used to momentarily swap a pool entry out.
pub(crate) fn placeholder_upstream() -> Upstream {
    Upstream {
        id: String::new(),
        name: String::new(),
        strategy: LoadBalanceStrategy::Random(crate::load_balance::Random::new()),
        endpoints: Vec::new(),
        health_config: crate::health::HealthConfig::default(),
    }
}

/// Resolve the upstream, compute the selection set, select an endpoint
/// and count the request as sent. A missing upstream or an empty
/// selection set yields the 503 response and changes nothing.
#[verifier::rlimit(100)]
#[verifier::spinoff_prover]
pub fn begin_forward(upstreams: &mut UpstreamMap, upstream_id: &str) -> (r: Result<
    ForwardPlan,
    ResponseData,
>)
    requires
        old(upstreams).wf(),
    ensures
        final(upstreams).wf(),
        upstream_views(final(upstreams).items@) == upstream_views(old(upstreams).items@),
        match r {
            Ok(plan) => begin_forward_ok(old(upstreams).items@, upstream_id@, plan)
                && spec_counters_after(
                old(upstreams).items@,
                final(upstreams).items@,
                upstream_id@,
                plan.endpoint.target@,
                true,
            ),
            Err(resp) => resp.status == 503 && *final(upstreams) == *old(upstreams) && (
            match spec_find_upstream(old(upstreams).items@, upstream_id@) {
                None => true,
                Some(j) => spec_available_endpoints(
                    old(upstreams).items@[j].endpoints@,
                ).len() == 0,
            }),
        },
{
    let idx = match upstreams.find(upstream_id) {
        Some(i) => i,
        None => {
            return Err(upstream_unavailable());
        },
    };
    proof {
        crate::upstream::lemma_find_upstream_valid(upstreams.items@, upstream_id@);
    }
    let available = upstreams.items[idx].available_endpoints();
    if available.len() == 0 {
        return Err(upstream_unavailable());
    }
    let ghost items0 = upstreams.items@;
    let mut up = placeholder_upstream();
    upstreams.items.set_and_swap(idx, &mut up);
    proof {
        lemma_filtered_endpoints(up.endpoints@);
        if spec_healthy_endpoints(up.endpoints@).len() > 0 {
            lemma_total_weight_positive(spec_healthy_endpoints(up.endpoints@));
        } else {
            lemma_total_weight_positive(spec_all_endpoints(up.endpoints@));
        }
    }
    proof {
        assert(up == items0[idx as int]);
        assert(items0[idx as int].wf());
        assert(available@ == spec_available_endpoints(up.endpoints@));
        assert forall|m: int| 0 <= m < available@.len() implies (#[trigger] available@[m]).weight
            > 0 by {
            if spec_healthy_endpoints(up.endpoints@).len() > 0 {
                assert(available@ == spec_healthy_endpoints(up.endpoints@));
            } else {
                assert(available@ == spec_all_endpoints(up.endpoints@));
            }
        }
        if up.strategy is WeightedRandom {
            assert(total_weight(available@) > 0);
            assert(total_weight(available@) <= endpoints_total(up.endpoints@));
        }
    }
    let sel = up.strategy.select_endpoint(&available);
    let chosen = available[sel].clone();
    up.strategy.on_send_request(chosen.target.as_str());
    proof {
        assert(chosen == available@[sel as int]);
        assert(chosen.weight > 0);
    }
    proof {
        lemma_available_membership(up.endpoints@);
        let j = choose|j: int|
            0 <= j < up.endpoints@.len() && spec_available_endpoints(up.endpoints@)[sel as int] == (
            #[trigger] up.endpoints@[j]).0;
        assert(uri_parts_of(chosen.target@) is Some);
    }
    let parts = match parse_target(chosen.target.as_str()) {
        Some(p) => p,
        None => {
            return vstd::pervasive::unreached();
        },
    };
    let scheme = if parts.0.as_str().unicode_len() == 0 {
        String::from_str("http")
    } else {
        parts.0
    };
    upstreams.items.set_and_swap(idx, &mut up);
    proof {
        assert(upstreams.items@ =~= items0.update(idx as int, upstreams.items@[idx as int]));
        assert(upstreams.items@[idx as int]@ == items0[idx as int]@);
        assert(upstream_views(upstreams.items@) =~= upstream_views(items0));
        assert(forall|a: int|
            0 <= a < upstreams.items@.len() ==> (#[trigger] upstreams.items@[a]).id@
                == items0[a].id@);
        assert(forall|a: int|
            0 <= a < upstreams.items@.len() ==> (#[trigger] upstreams.items@[a]).wf());
        assert(spec_find_upstream(items0, upstream_id@) == Some(idx as int));
        assert(available@ == spec_available_endpoints(items0[idx as int].endpoints@));
        assert(exists|i: int| 0 <= i < available@.len() && chosen == available@[i]) by {
            assert(chosen == available@[sel as int]);
        }
    }
    let plan = ForwardPlan {
        endpoint: chosen,
        scheme,
        authority: parts.1,
        host: parts.2,
        available,
    };
    proof {
        assert(begin_forward_ok(items0, upstream_id@, plan)) by {
            assert(plan.endpoint == plan.available@[sel as int]);
        }
    }
    Ok(plan)
}

/// Finish the outbound request from the selection plan: stamp the
/// forwarding headers, overwrite the Host header with the endpoint's
/// host when the route directs it, and assemble the outbound URI from
/// the plan's scheme and authority with the request's path and query.
pub fn finish_outbound(ctx: &GatewayContext, plan: &ForwardPlan, req: &mut RequestData) -> (uri:
    String)
    ensures
        final(req)@.headers == (if ctx.overwrite_host {
            crate::http::spec_set_header(
                spec_proxy_headers(
                    opt_view(ctx.remote_addr),
                    ctx.orig_scheme@,
                    opt_view(ctx.orig_host),
                    old(req)@.headers,
                ),
                "host"@,
                plan.host@,
            )
        } else {
            spec_proxy_headers(
                opt_view(ctx.remote_addr),
                ctx.orig_scheme@,
                opt_view(ctx.orig_host),
                old(req)@.headers,
            )
        }),
        final(req).method == old(req).method,
        final(req).path == old(req).path,
        final(req).query == old(req).query,
        uri@ == plan.scheme@ + "://"@ + plan.authority@ + old(req).path@ + (match old(req).query {
            Some(q) => "?"@ + q@,
            None => Seq::<char>::empty(),
        }),
{
    append_proxy_headers(ctx, req);
    if ctx.overwrite_host {
        let host = plan.host.clone();
        req.set_header("host", host);
    }
    let mut uri = plan.scheme.clone();
    uri.append("://");
    uri.append(plan.authority.as_str());
    uri.append(req.path.as_str());
    match &req.query {
        Some(q) => {
            uri.append("?");
            uri.append(q.as_str());
        },
        None => {},
    }
    proof {
        if old(req).query is None {
            assert(uri@ =~= plan.scheme@ + "://"@ + plan.authority@ + old(req).path@ + Seq::<
                char,
            >::empty());
        }
    }
    uri
}

/// Count a finished request against its endpoint; a vanished upstream
/// is a no-op.
pub fn finish_forward(upstreams: &mut UpstreamMap, upstream_id: &str, endpoint: &str)
    requires
        old(upstreams).wf(),
    ensures
        final(upstreams).wf(),
        upstream_views(final(upstreams).items@) == upstream_views(old(upstreams).items@),
        spec_counters_after(
            old(upstreams).items@,
            final(upstreams).items@,
            upstream_id@,
            endpoint@,
            false,
        ),
{
    let idx = match upstreams.find(upstream_id) {
        Some(i) => i,
        None => {
            return ;
        },
    };
    proof {
        crate::upstream::lemma_find_upstream_valid(upstreams.items@, upstream_id@);
    }
    let ghost items0 = upstreams.items@;
    let mut up = placeholder_upstream();
    upstreams.items.set_and_swap(idx, &mut up);
    up.strategy.on_request_done(endpoint);
    upstreams.items.set_and_swap(idx, &mut up);
    proof {
        assert(upstreams.items@ =~= items0.update(idx as int, upstreams.items@[idx as int]));
        assert(upstreams.items@[idx as int]@ == items0[idx as int]@);
        assert(upstream_views(upstreams.items@) =~= upstream_views(items0));
        assert(forall|a: int|
            0 <= a < upstreams.items@.len() ==> (#[trigger] upstreams.items@[a]).id@
                == items0[a].id@);
        assert(forall|a: int|
            0 <= a < upstreams.items@.len() ==> (#[trigger] upstreams.items@[a]).wf());
    }
}

/// Every endpoint of the selection set is one of the pool's endpoints.
pub proof fn lemma_available_membership(eps: Seq<(Endpoint, Healthiness)>)
    ensures
        forall|i: int|
            0 <= i < spec_available_endpoints(eps).len() ==> exists|j: int|
                0 <= j < eps.len() && #[trigger] spec_available_endpoints(eps)[i] == (
                #[trigger] eps[j]).0,
{
    lemma_membership_filters(eps);
}

/// Every endpoint either filter keeps comes from the pool.
proof fn lemma_membership_filters(eps: Seq<(Endpoint, Healthiness)>)
    ensures
        forall|i: int|
            0 <= i < spec_healthy_endpoints(eps).len() ==> exists|j: int|
                0 <= j < eps.len() && #[trigger] spec_healthy_endpoints(eps)[i] == (
                #[trigger] eps[j]).0,
        forall|i: int|
            0 <= i < spec_all_endpoints(eps).len() ==> exists|j: int|
                0 <= j < eps.len() && #[trigger] spec_all_endpoints(eps)[i] == (
                #[trigger] eps[j]).0,
    decreases eps.len(),
{
    if eps.len() > 0 {
        lemma_membership_filters(eps.drop_first());
        let rest = eps.drop_first();
        assert(forall|j: int| 0 <= j < rest.len() ==> rest[j] == eps[j + 1]);
        let h = spec_healthy_endpoints(eps);
        let rh = spec_healthy_endpoints(rest);
        assert forall|i: int| 0 <= i < h.len() implies exists|j: int|
            0 <= j < eps.len() && #[trigger] h[i] == (#[trigger] eps[j]).0 by {
            if eps[0].0.weight != 0 && eps[0].1 == Healthiness::Up {
                assert(h == seq![eps[0].0] + rh);
                if i == 0 {
                    assert(h[0] == eps[0].0);
                } else {
                    assert(h[i] == rh[i - 1]);
                    let j0 = choose|j: int| 0 <= j < rest.len() && rh[i - 1] == (#[trigger] rest[j]).0;
                    assert(h[i] == eps[j0 + 1].0);
                }
            } else {
                assert(h == rh);
                let j0 = choose|j: int| 0 <= j < rest.len() && rh[i] == (#[trigger] rest[j]).0;
                assert(h[i] == eps[j0 + 1].0);
            }
        }
        let a = spec_all_endpoints(eps);
        let ra = spec_all_endpoints(rest);
        assert forall|i: int| 0 <= i < a.len() implies exists|j: int|
            0 <= j < eps.len() && #[trigger] a[i] == (#[trigger] eps[j]).0 by {
            if eps[0].0.weight != 0 {
                assert(a == seq![eps[0].0] + ra);
                if i == 0 {
                    assert(a[0] == eps[0].0);
                } else {
                    assert(a[i] == ra[i - 1]);
                    let j0 = choose|j: int| 0 <= j < rest.len() && ra[i - 1] == (#[trigger] rest[j]).0;
                    assert(a[i] == eps[j0 + 1].0);
                }
            } else {
                assert(a == ra);
                let j0 = choose|j: int| 0 <= j < rest.len() && ra[i] == (#[trigger] rest[j]).0;
                assert(a[i] == eps[j0 + 1].0);
            }
        }
    }
}

/// A pool whose endpoints are all `Down`, but which still has weighted
/// endpoints, still offers its full weighted set: the gateway attempts
/// rather than failing outright.
pub proof fn lemma_all_down_still_attempts(eps: Seq<(Endpoint, Healthiness)>)
    requires
        forall|i: int| 0 <= i < eps.len() ==> (#[trigger] eps[i]).1 == Healthiness::Down,
        spec_all_endpoints(eps).len() > 0,
    ensures
        spec_available_endpoints(eps) == spec_all_endpoints(eps),
        spec_available_endpoints(eps).len() > 0,
{
    lemma_all_down_no_healthy(eps);
}

proof fn lemma_all_down_no_healthy(eps: Seq<(Endpoint, Healthiness)>)
    requires
        forall|i: int| 0 <= i < eps.len() ==> (#[trigger] eps[i]).1 == Healthiness::Down,
    ensures
        spec_healthy_endpoints(eps).len() == 0,
    decreases eps.len(),
{
    if eps.len() > 0 {
        assert(forall|j: int| 0 <= j < eps.len() - 1 ==> #[trigger] eps.drop_first()[j] == eps[j
            + 1]);
        lemma_all_down_no_healthy(eps.drop_first());
    }
}

/// A pool with no endpoints offers nothing: such a dispatch answers
/// with the 503 response.
pub proof fn lemma_no_endpoints_unavailable(eps: Seq<(Endpoint, Healthiness)>)
    requires
        eps.len() == 0,
    ensures
        spec_available_endpoints(eps).len() == 0,
{
    assert(spec_healthy_endpoints(eps).len() == 0);
    assert(spec_all_endpoints(eps).len() == 0);
}


/// Plugin order is stable: the chain's behavior is a function of the
/// plugin list, the starting position, the context's upstream and the
/// request, so repeated requests through the same chain see the same
/// invocation order and the same outcome.
pub proof fn lemma_plugin_order_stable(
    plugins1: Seq<PluginView>,
    plugins2: Seq<PluginView>,
    from: int,
    upstream: Option<Seq<char>>,
    req: RequestView,
)
    requires
        plugins1 == plugins2,
    ensures
        spec_run_access(plugins1, from, upstream, req) == spec_run_access(
            plugins2,
            from,
            upstream,
            req,
        ),
{
}

} // verus!
