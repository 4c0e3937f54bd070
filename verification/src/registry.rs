use crate::config::{RouteConfig, RouteConfigView, UpstreamConfig, UpstreamConfigView};
use crate::error::ConfigError;
use crate::router::{
    lemma_spec_insert_all, spec_add_uris, spec_build_route, PathRouter, Route, RouteEntry,
    RouteView,
};
use crate::upstream::{
    lemma_find_upstream_valid, spec_build_upstream, spec_find_upstream, spec_upsert, Upstream,
    UpstreamMap, UpstreamView,
};
use vstd::pervasive::VecAdditionalExecFns;
use vstd::prelude::*;

verus! {

/// A concrete backend address with its selection weight. Weight zero
/// means drained: the endpoint is excluded from every selection set.
#[derive(Debug)]
pub struct Endpoint {
    pub target: String,
    pub weight: usize,
}

impl Endpoint {
    pub fn new(target: String, weight: usize) -> (r: Endpoint)
        ensures
            r.target@ == target@,
            r.weight == weight,
    {
        Endpoint { target, weight }
    }
}

impl Clone for Endpoint {
    fn clone(&self) -> (r: Self)
        ensures
            r == *self,
    {
        Endpoint { target: self.target.clone(), weight: self.weight }
    }
}


/// The serializable routing world: route and upstream configurations.
#[derive(Debug)]
pub struct RegistryConfig {
    pub routes: Vec<RouteConfig>,
    pub upstreams: Vec<UpstreamConfig>,
}

pub struct RegistryConfigView {
    pub routes: Seq<RouteConfigView>,
    pub upstreams: Seq<UpstreamConfigView>,
}

impl View for RegistryConfig {
    type V = RegistryConfigView;

    open spec fn view(&self) -> RegistryConfigView {
        RegistryConfigView { routes: self.routes.deep_view(), upstreams: self.upstreams.deep_view() }
    }
}

impl Clone for RegistryConfig {
    fn clone(&self) -> (r: Self)
        ensures
            r@ == self@,
    {
        let mut routes: Vec<RouteConfig> = Vec::new();
        let mut i: usize = 0;
        while i < self.routes.len()
            invariant
                i <= self.routes@.len(),
                routes.deep_view() =~= self.routes.deep_view().subrange(0, i as int),
            decreases self.routes@.len() - i,
        {
            let ghost prev = routes.deep_view();
            let c = self.routes[i].clone();
            routes.push(c);
            proof {
                assert(routes.deep_view() =~= prev.push(self.routes@[i as int]@));
                assert(self.routes.deep_view()[i as int] == self.routes@[i as int]@);
                assert(self.routes.deep_view().subrange(0, i + 1) =~= self.routes.deep_view()
                    .subrange(0, i as int).push(self.routes.deep_view()[i as int]));
                assert(routes.deep_view() =~= self.routes.deep_view().subrange(0, i + 1));
            }
            i = i + 1;
        }
        let mut upstreams: Vec<UpstreamConfig> = Vec::new();
        let mut i: usize = 0;
        while i < self.upstreams.len()
            invariant
                i <= self.upstreams@.len(),
                upstreams.deep_view() =~= self.upstreams.deep_view().subrange(0, i as int),
            decreases self.upstreams@.len() - i,
        {
            let ghost prev = upstreams.deep_view();
            let c = self.upstreams[i].clone();
            upstreams.push(c);
            proof {
                assert(upstreams.deep_view() =~= prev.push(self.upstreams@[i as int]@));
                assert(self.upstreams.deep_view()[i as int] == self.upstreams@[i as int]@);
                assert(self.upstreams.deep_view().subrange(0, i + 1) =~= self.upstreams.deep_view()
                    .subrange(0, i as int).push(self.upstreams.deep_view()[i as int]));
                assert(upstreams.deep_view() =~= self.upstreams.deep_view().subrange(0, i + 1));
            }
            i = i + 1;
        }
        proof {
            assert(routes.deep_view() =~= self.routes.deep_view());
            assert(upstreams.deep_view() =~= self.upstreams.deep_view());
        }
        RegistryConfig { routes, upstreams }
    }
}

/// Whether some upstream configuration carries the id.
pub open spec fn spec_id_known(ups: Seq<UpstreamConfigView>, id: Seq<char>) -> bool {
    exists|j: int| 0 <= j < ups.len() && (#[trigger] ups[j]).id == id
}

/// What building the routes yields: every route must name a configured
/// upstream and build.
pub open spec fn spec_build_routes(
    cfgs: Seq<RouteConfigView>,
    ups: Seq<UpstreamConfigView>,
) -> Option<Seq<RouteView>>
    decreases cfgs.len(),
{
    if cfgs.len() == 0 {
        Some(Seq::<RouteView>::empty())
    } else if !spec_id_known(ups, cfgs[0].upstream_id) {
        None
    } else {
        match spec_build_route(cfgs[0]) {
            Some(v) => match spec_build_routes(cfgs.drop_first(), ups) {
                Some(t) => Some(seq![v] + t),
                None => None,
            },
            None => None,
        }
    }
}

/// Whether one configured route passes the build checks against the
/// configured upstreams: it names a known upstream and builds.
pub open spec fn spec_route_ok(c: RouteConfigView, ups: Seq<UpstreamConfigView>) -> bool {
    spec_id_known(ups, c.upstream_id) && spec_build_route(c) is Some
}

/// What a failed route build pins down: some first route fails the
/// checks, every route before it passes them, and when that route's
/// failure is an unknown upstream id the error names it.
pub open spec fn spec_first_route_error(cfg: RegistryConfigView, e: ConfigError) -> bool {
    exists|i: int|
        0 <= i < cfg.routes.len() && (forall|j: int|
            0 <= j < i ==> spec_route_ok(#[trigger] cfg.routes[j], cfg.upstreams)) && !(
        #[trigger] spec_route_ok(cfg.routes[i], cfg.upstreams)) && (!spec_id_known(
            cfg.upstreams,
            cfg.routes[i].upstream_id,
        ) ==> e is UpstreamNotFound && e->UpstreamNotFound_0@ == cfg.routes[i].upstream_id) && (
        spec_id_known(cfg.upstreams, cfg.routes[i].upstream_id) ==> spec_build_route(
            cfg.routes[i],
        ) is None && (e is MatcherParse || (e is UpstreamNotFound && e->UpstreamNotFound_0@
            == "UpstreamId missing"@)))
}

/// A successful route build means every configured route passes the
/// checks.
pub proof fn lemma_build_routes_elements(cfgs: Seq<RouteConfigView>, ups: Seq<UpstreamConfigView>)
    requires
        spec_build_routes(cfgs, ups) is Some,
    ensures
        forall|i: int| 0 <= i < cfgs.len() ==> spec_route_ok(#[trigger] cfgs[i], ups),
    decreases cfgs.len(),
{
    if cfgs.len() > 0 {
        lemma_build_routes_elements(cfgs.drop_first(), ups);
        assert forall|i: int| 0 <= i < cfgs.len() implies spec_route_ok(
            #[trigger] cfgs[i],
            ups,
        ) by {
            if i > 0 {
                assert(cfgs.drop_first()[i - 1] == cfgs[i]);
            }
        }
    }
}

/// Routes that all pass the checks build.
pub proof fn lemma_all_ok_builds(cfgs: Seq<RouteConfigView>, ups: Seq<UpstreamConfigView>)
    requires
        forall|i: int| 0 <= i < cfgs.len() ==> spec_route_ok(#[trigger] cfgs[i], ups),
    ensures
        spec_build_routes(cfgs, ups) is Some,
    decreases cfgs.len(),
{
    if cfgs.len() > 0 {
        assert(spec_route_ok(cfgs[0], ups));
        assert(forall|i: int|
            0 <= i < cfgs.len() - 1 ==> #[trigger] cfgs.drop_first()[i] == cfgs[i + 1]);
        lemma_all_ok_builds(cfgs.drop_first(), ups);
    }
}

/// Every element a filter keeps comes from the filtered sequence.
proof fn lemma_filter_members(s: Seq<RouteConfigView>, pred: spec_fn(RouteConfigView) -> bool)
    ensures
        forall|j: int|
            0 <= j < s.filter(pred).len() ==> exists|i: int|
                0 <= i < s.len() && #[trigger] s.filter(pred)[j] == s[i],
    decreases s.len(),
{
    reveal(Seq::filter);
    if s.len() > 0 {
        lemma_filter_members(s.drop_last(), pred);
        let f = s.filter(pred);
        let fd = s.drop_last().filter(pred);
        assert forall|j: int| 0 <= j < f.len() implies exists|i: int|
            0 <= i < s.len() && #[trigger] f[j] == s[i] by {
            if pred(s.last()) && j == f.len() - 1 {
                assert(f[j] == s[s.len() - 1]);
            } else {
                assert(f[j] == fd[j]);
                let i0 = choose|i: int| 0 <= i < s.drop_last().len() && fd[j] == s.drop_last()[i];
                assert(f[j] == s[i0]);
            }
        }
    }
}

/// The pattern table the configured routes describe, in configuration
/// order.
pub open spec fn spec_build_table(cfgs: Seq<RouteConfigView>) -> Seq<(Seq<char>, Seq<RouteEntry>)>
    decreases cfgs.len(),
{
    if cfgs.len() == 0 {
        Seq::<(Seq<char>, Seq<RouteEntry>)>::empty()
    } else {
        spec_add_uris(
            spec_build_table(cfgs.drop_last()),
            cfgs.last().uris,
            (cfgs.len() - 1) as usize,
            cfgs.last().priority,
        )
    }
}

/// The first index holding an upstream view with the given id.
pub open spec fn spec_find_upstream_view(items: Seq<UpstreamView>, id: Seq<char>) -> Option<int>
    decreases items.len(),
{
    if items.len() == 0 {
        None
    } else if items[0].id == id {
        Some(0int)
    } else {
        match spec_find_upstream_view(items.drop_first(), id) {
            Some(j) => Some(j + 1),
            None => None,
        }
    }
}

/// Registration at the view level: replace the entry with the same id,
/// or append.
pub open spec fn spec_upsert_view(items: Seq<UpstreamView>, u: UpstreamView) -> Seq<UpstreamView> {
    match spec_find_upstream_view(items, u.id) {
        Some(j) => items.update(j, u),
        None => items.push(u),
    }
}

/// What building the upstream pool yields: every upstream must build;
/// a repeated id replaces the earlier entry.
pub open spec fn spec_build_upstream_map(cfgs: Seq<UpstreamConfigView>) -> Option<Seq<UpstreamView>>
    decreases cfgs.len(),
{
    if cfgs.len() == 0 {
        Some(Seq::<UpstreamView>::empty())
    } else {
        match spec_build_upstream_map(cfgs.drop_last()) {
            Some(items) => match spec_build_upstream(cfgs.last()) {
                Some(u) => Some(spec_upsert_view(items, u)),
                None => None,
            },
            None => None,
        }
    }
}

/// The views of the route table.
pub open spec fn routes_views(s: Seq<Route>) -> Seq<RouteView> {
    s.map_values(|r: Route| r@)
}

/// The views of the upstream pool.
pub open spec fn upstream_views(s: Seq<Upstream>) -> Seq<UpstreamView> {
    s.map_values(|u: Upstream| u@)
}

/// An upstream view with its endpoints' health erased: what rebuild
/// reproduces exactly, since rebuilt cells start a fresh probe cycle.
pub open spec fn upstream_view_mod_health(u: UpstreamView) -> UpstreamView {
    UpstreamView {
        endpoints: u.endpoints.map_values(
            |e: (Seq<char>, usize, crate::health::Healthiness)|
                (e.0, e.1, crate::health::Healthiness::Up),
        ),
        ..u
    }
}

/// A pool of upstream views, health erased.
pub open spec fn views_mod_health(s: Seq<UpstreamView>) -> Seq<UpstreamView> {
    s.map_values(|u: UpstreamView| upstream_view_mod_health(u))
}

/// The live routing world a registry realizes.
pub struct RegistryView {
    pub config: RegistryConfigView,
    pub routes: Seq<RouteView>,
    pub table: Seq<(Seq<char>, Seq<RouteEntry>)>,
    pub upstreams: Seq<UpstreamView>,
}

/// The world is what its configuration builds, up to endpoint health:
/// the health checker rewrites the cells after the build, everything
/// else only changes through a rebuild.
pub open spec fn matches_build_mod_health(v: RegistryView) -> bool {
    match spec_build_registry(v.config) {
        Some(b) => b.config == v.config && b.routes == v.routes && b.table == v.table
            && views_mod_health(b.upstreams) == views_mod_health(v.upstreams),
        None => false,
    }
}

/// What building a registry from a configuration yields.
pub open spec fn spec_build_registry(cfg: RegistryConfigView) -> Option<RegistryView> {
    match spec_build_routes(cfg.routes, cfg.upstreams) {
        None => None,
        Some(routes) => match spec_build_upstream_map(cfg.upstreams) {
            None => None,
            Some(ups) => Some(
                RegistryView {
                    config: cfg,
                    routes,
                    table: spec_build_table(cfg.routes),
                    upstreams: ups,
                },
            ),
        },
    }
}

/// The live routing world: the configuration it was built from, the
/// route table, the path trie, and the upstream pool.
#[derive(Debug)]
pub struct Registry {
    pub config: RegistryConfig,
    pub routes: Vec<Route>,
    pub router: PathRouter,
    pub upstreams: UpstreamMap,
}

impl View for Registry {
    type V = RegistryView;

    open spec fn view(&self) -> RegistryView {
        RegistryView {
            config: self.config@,
            routes: routes_views(self.routes@),
            table: self.router@,
            upstreams: upstream_views(self.upstreams.items@),
        }
    }
}

/// Every entry of the table points into the route list, carrying that
/// route's priority.
pub open spec fn table_entries_valid(
    table: Seq<(Seq<char>, Seq<RouteEntry>)>,
    routes: Seq<RouteView>,
) -> bool {
    forall|j: int, k: int|
        0 <= j < table.len() && 0 <= k < (#[trigger] table[j]).1.len() ==> (#[trigger] table[j].1[k]).0
            < routes.len() && table[j].1[k].1 == routes[table[j].1[k].0 as int].priority
}

impl Registry {
    /// Structural soundness: the trie and the pool are sound, every
    /// table entry resolves to a route, every route's upstream id
    /// resolves in the pool, and the whole is exactly what the held
    /// configuration builds.
    pub open spec fn wf(&self) -> bool {
        &&& self.router.wf()
        &&& self.upstreams.wf()
        &&& table_entries_valid(self.router@, routes_views(self.routes@))
        &&& forall|i: int|
            0 <= i < self.routes@.len() ==> exists|j: int|
                0 <= j < self.upstreams.items@.len() && (#[trigger] self.upstreams.items@[j]).id@
                    == (#[trigger] self.routes@[i]).upstream_id@
        &&& matches_build_mod_health(self@)
    }

    /// Whether some configured upstream carries the id.
    fn upstream_known(ups: &Vec<UpstreamConfig>, id: &str) -> (r: bool)
        ensures
            r == spec_id_known(ups.deep_view(), id@),
    {
        let n = ups.len();
        let mut i: usize = 0;
        while i < n
            invariant
                i <= n,
                n == ups@.len(),
                ups.deep_view().len() == n,
                forall|j: int| 0 <= j < i ==> (#[trigger] ups.deep_view()[j]).id != id@,
            decreases n - i,
        {
            assert(ups.deep_view()[i as int] == ups@[i as int]@);
            if crate::strutil::str_eq(ups[i].id.as_str(), id) {
                return true;
            }
            i = i + 1;
        }
        false
    }

    /// Build the route list and the path trie, checking that every
    /// route names a configured upstream.
    fn build_router(cfg: &RegistryConfig) -> (r: Result<(Vec<Route>, PathRouter), ConfigError>)
        ensures
            match r {
                Ok(p) => {
                    &&& spec_build_routes(cfg@.routes, cfg@.upstreams) == Some(routes_views(p.0@))
                    &&& p.1.wf()
                    &&& p.1@ == spec_build_table(cfg@.routes)
                    &&& table_entries_valid(p.1@, routes_views(p.0@))
                    &&& p.0@.len() == cfg@.routes.len()
                },
                Err(e) => spec_build_routes(cfg@.routes, cfg@.upstreams) is None
                    && spec_first_route_error(cfg@, e),
            },
    {
        let n = cfg.routes.len();
        let mut routes: Vec<Route> = Vec::new();
        let mut router = PathRouter::new();
        let mut i: usize = 0;
        let ghost rcfgs = cfg@.routes;
        let ghost p_valid = |en: RouteEntry|
            en.0 < rcfgs.len() && en.1 == rcfgs[en.0 as int].priority;
        proof {
            assert(rcfgs.skip(0) =~= rcfgs);
            assert(rcfgs.len() == cfg.routes@.len());
            assert(rcfgs.take(0) =~= Seq::<RouteConfigView>::empty());
        }
        while i < n
            invariant
                i <= n,
                n == cfg.routes@.len(),
                rcfgs == cfg@.routes,
                rcfgs.len() == n,
                forall|j: int| 0 <= j < n ==> rcfgs[j] == cfg.routes@[j]@,
                routes@.len() == i,
                p_valid == (|en: RouteEntry|
                    en.0 < rcfgs.len() && en.1 == rcfgs[en.0 as int].priority),
                router.wf(),
                router@ == spec_build_table(rcfgs.take(i as int)),
                forall|j: int, k: int|
                    0 <= j < router@.len() && 0 <= k < (#[trigger] router@[j]).1.len() ==> p_valid(
                        #[trigger] router@[j].1[k],
                    ),
                forall|j: int|
                    0 <= j < i ==> (#[trigger] routes@[j])@.priority == rcfgs[j].priority,
                forall|j: int| 0 <= j < i ==> spec_route_ok(#[trigger] rcfgs[j], cfg@.upstreams),
                match spec_build_routes(rcfgs.skip(i as int), cfg@.upstreams) {
                    Some(t) => spec_build_routes(rcfgs, cfg@.upstreams) == Some(
                        routes_views(routes@) + t,
                    ),
                    None => spec_build_routes(rcfgs, cfg@.upstreams) is None,
                },
            decreases n - i,
        {
            assert(rcfgs.skip(i as int)[0] == rcfgs[i as int]);
            if !Self::upstream_known(&cfg.upstreams, cfg.routes[i].upstream_id.as_str()) {
                let err = crate::error::upstream_not_found(cfg.routes[i].upstream_id.as_str());
                proof {
                    assert(!spec_route_ok(rcfgs[i as int], cfg@.upstreams));
                    assert(spec_first_route_error(cfg@, err)) by {
                        assert((forall|j: int|
                            0 <= j < i ==> spec_route_ok(
                                #[trigger] cfg@.routes[j],
                                cfg@.upstreams,
                            )) && !spec_route_ok(cfg@.routes[i as int], cfg@.upstreams) && (
                        !spec_id_known(cfg@.upstreams, cfg@.routes[i as int].upstream_id)
                            ==> err is UpstreamNotFound && err->UpstreamNotFound_0@
                            == cfg@.routes[i as int].upstream_id));
                    }
                }
                return Err(err);
            }
            let route = match Route::new(&cfg.routes[i]) {
                Ok(rt) => rt,
                Err(e) => {
                    proof {
                        assert(spec_id_known(cfg@.upstreams, rcfgs[i as int].upstream_id));
                        assert(!spec_route_ok(rcfgs[i as int], cfg@.upstreams));
                        assert(spec_first_route_error(cfg@, e)) by {
                            assert((forall|j: int|
                                0 <= j < i ==> spec_route_ok(
                                    #[trigger] cfg@.routes[j],
                                    cfg@.upstreams,
                                )) && !spec_route_ok(cfg@.routes[i as int], cfg@.upstreams) && (
                            !spec_id_known(cfg@.upstreams, cfg@.routes[i as int].upstream_id)
                                ==> e is UpstreamNotFound && e->UpstreamNotFound_0@
                                == cfg@.routes[i as int].upstream_id));
                        }
                    }
                    return Err(e);
                },
            };
            let priority = route.priority;
            let ghost prev_views = routes_views(routes@);
            let ghost rv = route@;
            routes.push(route);
            proof {
                assert(routes_views(routes@) =~= prev_views.push(rv));
                assert(rcfgs.skip(i as int).drop_first() =~= rcfgs.skip(i + 1));
                if spec_build_routes(rcfgs.skip(i + 1), cfg@.upstreams) is Some {
                    let t = spec_build_routes(rcfgs.skip(i + 1), cfg@.upstreams)->Some_0;
                    assert(prev_views + (seq![rv] + t) =~= prev_views.push(rv) + t);
                }
                assert(rv.priority == rcfgs[i as int].priority);
            }
            let nu = cfg.routes[i].uris.len();
            let mut u: usize = 0;
            let ghost t0 = router@;
            let ghost uris = rcfgs[i as int].uris;
            proof {
                assert(uris.len() == cfg.routes@[i as int].uris@.len());
                assert(uris.skip(0) =~= uris);
            }
            while u < nu
                invariant
                    u <= nu,
                    i < n,
                    n == cfg.routes@.len(),
                    rcfgs == cfg@.routes,
                    rcfgs.len() == n,
                    uris == rcfgs[i as int].uris,
                    nu == cfg.routes@[i as int].uris@.len(),
                    uris.len() == nu,
                    forall|j: int| 0 <= j < nu ==> uris[j] == cfg.routes@[i as int].uris@[j]@,
                    priority == rcfgs[i as int].priority,
                    p_valid == (|en: RouteEntry|
                        en.0 < rcfgs.len() && en.1 == rcfgs[en.0 as int].priority),
                    router.wf(),
                    spec_add_uris(t0, uris, i, priority) == spec_add_uris(
                        router@,
                        uris.skip(u as int),
                        i,
                        priority,
                    ),
                    forall|j: int, k: int|
                        0 <= j < router@.len() && 0 <= k < (#[trigger] router@[j]).1.len()
                            ==> p_valid(#[trigger] router@[j].1[k]),
                decreases nu - u,
            {
                assert(uris.skip(u as int)[0] == uris[u as int]);
                let ghost before = router@;
                router.insert_route(cfg.routes[i].uris[u].as_str(), i, priority);
                proof {
                    assert(router@ == PathRouter::spec_insert(before, uris[u as int], (i, priority)));
                    assert(uris.skip(u as int).drop_first() =~= uris.skip(u + 1));
                    assert(p_valid((i, priority)));
                    lemma_spec_insert_all(before, uris[u as int], (i, priority), p_valid);
                }
                u = u + 1;
            }
            proof {
                assert(uris.skip(nu as int) =~= Seq::<Seq<char>>::empty());
                assert(spec_add_uris(router@, uris.skip(nu as int), i, priority) == router@);
                assert(rcfgs.take(i + 1).drop_last() =~= rcfgs.take(i as int));
                assert(rcfgs.take(i + 1).last() == rcfgs[i as int]);
                assert(router@ == spec_build_table(rcfgs.take(i + 1)));
            }
            i = i + 1;
        }
        proof {
            assert(rcfgs.take(n as int) =~= rcfgs);
            assert(rcfgs.skip(n as int) =~= Seq::<RouteConfigView>::empty());
            assert(routes_views(routes@) + Seq::<RouteView>::empty() =~= routes_views(routes@));
            assert forall|j: int, k: int|
                0 <= j < router@.len() && 0 <= k < (#[trigger] router@[j]).1.len() implies (
            #[trigger] router@[j].1[k]).0 < routes_views(routes@).len() && router@[j].1[k].1
                == routes_views(routes@)[router@[j].1[k].0 as int].priority by {
                assert(p_valid(router@[j].1[k]));
                let en = router@[j].1[k];
                assert(routes_views(routes@)[en.0 as int] == routes@[en.0 as int]@);
            }
        }
        Ok((routes, router))
    }

    /// Build the upstream pool; a repeated id replaces the earlier
    /// entry.
    #[verifier::rlimit(60)]
    fn build_upstream_map(cfg: &RegistryConfig) -> (r: Result<UpstreamMap, ConfigError>)
        ensures
            match r {
                Ok(m) => {
                    &&& m.wf()
                    &&& spec_build_upstream_map(cfg@.upstreams) == Some(
                        upstream_views(m.items@),
                    )
                    &&& forall|j: int|
                        0 <= j < cfg@.upstreams.len() ==> exists|k: int|
                            0 <= k < m.items@.len() && (#[trigger] m.items@[k]).id@ == (
                            #[trigger] cfg@.upstreams[j]).id
                },
                Err(_) => spec_build_upstream_map(cfg@.upstreams) is None,
            },
    {
        let n = cfg.upstreams.len();
        let mut map = UpstreamMap::new();
        let mut i: usize = 0;
        let ghost ucfgs = cfg@.upstreams;
        proof {
            assert(ucfgs.take(0) =~= Seq::<UpstreamConfigView>::empty());
        }
        while i < n
            invariant
                i <= n,
                n == cfg.upstreams@.len(),
                ucfgs == cfg@.upstreams,
                ucfgs.len() == n,
                forall|j: int| 0 <= j < n ==> ucfgs[j] == cfg.upstreams@[j]@,
                map.wf(),
                spec_build_upstream_map(ucfgs.take(i as int)) == Some(upstream_views(map.items@)),
                forall|j: int|
                    0 <= j < i ==> exists|k: int|
                        0 <= k < map.items@.len() && (#[trigger] map.items@[k]).id@ == (
                        #[trigger] ucfgs[j]).id,
            decreases n - i,
        {
            let up = match Upstream::new(&cfg.upstreams[i]) {
                Ok(u) => u,
                Err(e) => {
                    proof {
                        lemma_build_upstream_map_extend_fail(ucfgs, i as int);
                    }
                    return Err(e);
                },
            };
            let ghost prev_items = map.items@;
            let ghost uv = up@;
            proof {
                lemma_find_agree(prev_items, uv.id);
            }
            map.insert(up);
            proof {
                assert(ucfgs.take(i + 1).drop_last() =~= ucfgs.take(i as int));
                assert(ucfgs.take(i + 1).last() == ucfgs[i as int]);
                lemma_upsert_views(prev_items, map.items@, uv);
                assert(spec_build_upstream_map(ucfgs.take(i + 1)) == Some(
                    upstream_views(map.items@),
                ));
                lemma_find_upstream_valid(prev_items, uv.id);
                assert(map.items@.len() >= prev_items.len());
                assert forall|k: int| 0 <= k < prev_items.len() implies map.items@[k].id@
                    == prev_items[k].id@ by {
                    match spec_find_upstream(prev_items, uv.id) {
                        Some(q) => {
                            if k == q {
                                assert(prev_items[q].id@ == uv.id);
                            }
                        },
                        None => {},
                    }
                }
                assert forall|j: int| 0 <= j < i + 1 implies exists|k: int|
                    0 <= k < map.items@.len() && (#[trigger] map.items@[k]).id@ == (
                #[trigger] ucfgs[j]).id by {
                    if j == i {
                        match spec_find_upstream(prev_items, uv.id) {
                            Some(q) => {
                                lemma_find_upstream_valid(prev_items, uv.id);
                                assert(map.items@[q].id@ == uv.id);
                            },
                            None => {
                                assert(map.items@[prev_items.len() as int].id@ == uv.id);
                            },
                        }
                    } else {
                        let k0 = choose|k: int|
                            0 <= k < prev_items.len() && (#[trigger] prev_items[k]).id@
                                == ucfgs[j].id;
                        assert(0 <= k0 < prev_items.len());
                        assert(map.items@[k0].id@ == prev_items[k0].id@);
                        assert(map.items@[k0].id@ == ucfgs[j].id);
                    }
                }
            }
            i = i + 1;
        }
        proof {
            assert(ucfgs.take(n as int) =~= ucfgs);
            assert(spec_build_upstream_map(cfg@.upstreams) == Some(upstream_views(map.items@)));
            assert forall|j: int| 0 <= j < cfg@.upstreams.len() implies exists|k: int|
                0 <= k < map.items@.len() && (#[trigger] map.items@[k]).id@ == (
            #[trigger] cfg@.upstreams[j]).id by {
                assert(0 <= j < ucfgs.len());
                assert(exists|k: int|
                    0 <= k < map.items@.len() && (#[trigger] map.items@[k]).id@ == ucfgs[j].id);
            }
        }
        Ok(map)
    }

    /// Build a registry from a configuration: route table, path trie
    /// and upstream pool, or the first configuration error.
    pub fn new(config: RegistryConfig) -> (r: Result<Registry, ConfigError>)
        ensures
            match r {
                Ok(reg) => reg.wf() && spec_build_registry(config@) == Some(reg@),
                Err(e) => spec_build_registry(config@) is None && (spec_build_routes(
                    config@.routes,
                    config@.upstreams,
                ) is None ==> spec_first_route_error(config@, e)),
            },
    {
        let (routes, router) = match Self::build_router(&config) {
            Ok(p) => p,
            Err(e) => {
                return Err(e);
            },
        };
        let upstreams = match Self::build_upstream_map(&config) {
            Ok(m) => m,
            Err(e) => {
                return Err(e);
            },
        };
        let reg = Registry { config, routes, router, upstreams };
        proof {
            lemma_routes_name_known_upstreams(reg.config@.routes, reg.config@.upstreams);
            assert forall|i: int| 0 <= i < reg.routes@.len() implies exists|j: int|
                0 <= j < reg.upstreams.items@.len() && (#[trigger] reg.upstreams.items@[j]).id@ == (
            #[trigger] reg.routes@[i]).upstream_id@ by {
                assert(routes_views(reg.routes@)[i] == reg.routes@[i]@);
                assert(spec_id_known(reg.config@.upstreams, reg.routes@[i]@.upstream_id));
                let j0 = choose|j: int|
                    0 <= j < reg.config@.upstreams.len() && (#[trigger] reg.config@.upstreams[j]).id
                        == reg.routes@[i]@.upstream_id;
                let k0 = choose|k: int|
                    0 <= k < reg.upstreams.items@.len() && (#[trigger] reg.upstreams.items@[k]).id@
                        == reg.config@.upstreams[j0].id;
                assert(reg.upstreams.items@[k0].id@ == reg.routes@[i].upstream_id@);
            }
        }
        Ok(reg)
    }

    /// Record one endpoint's health transition, as the health checker
    /// writes it: only that cell changes, and the world stays
    /// well-formed.
    pub fn set_endpoint_health(
        &mut self,
        upstream: usize,
        endpoint: usize,
        h: crate::health::Healthiness,
    )
        requires
            old(self).wf(),
            upstream < old(self).upstreams.items@.len(),
            endpoint < old(self).upstreams.items@[upstream as int].endpoints@.len(),
        ensures
            final(self).wf(),
            final(self).config == old(self).config,
            final(self).routes == old(self).routes,
            final(self).router == old(self).router,
            final(self).upstreams.items@.len() == old(self).upstreams.items@.len(),
            forall|a: int|
                0 <= a < old(self).upstreams.items@.len() && a != upstream as int
                    ==> final(self).upstreams.items@[a] == old(self).upstreams.items@[a],
            final(self).upstreams.items@[upstream as int].endpoints@
                == old(self).upstreams.items@[upstream as int].endpoints@.update(
                endpoint as int,
                (
                    old(self).upstreams.items@[upstream as int].endpoints@[endpoint as int].0,
                    h,
                ),
            ),
            final(self).upstreams.items@[upstream as int].id == old(self).upstreams.items@[
                upstream as int].id,
            final(self).upstreams.items@[upstream as int].strategy
                == old(self).upstreams.items@[upstream as int].strategy,
    {
        let ghost items0 = self.upstreams.items@;
        let mut up = crate::services::placeholder_upstream();
        self.upstreams.items.set_and_swap(upstream, &mut up);
        up.set_endpoint_health(endpoint, h);
        self.upstreams.items.set_and_swap(upstream, &mut up);
        proof {
            let j = upstream as int;
            let items1 = self.upstreams.items@;
            assert(items1 =~= items0.update(j, items1[j]));
            assert(forall|a: int| 0 <= a < items0.len() && a != j ==> items1[a] == items0[a]);
            // ids are untouched, so uniqueness and the route references
            // carry over
            assert(forall|a: int|
                0 <= a < items1.len() ==> (#[trigger] items1[a]).id@ == items0[a].id@);
            assert(forall|a: int| 0 <= a < items1.len() ==> (#[trigger] items1[a]).wf());
            assert forall|i: int| 0 <= i < self.routes@.len() implies exists|k: int|
                0 <= k < items1.len() && (#[trigger] items1[k]).id@ == (
            #[trigger] self.routes@[i]).upstream_id@ by {
                let k0 = choose|k: int|
                    0 <= k < items0.len() && (#[trigger] items0[k]).id@
                        == self.routes@[i].upstream_id@;
                assert(items1[k0].id@ == self.routes@[i].upstream_id@);
            }
            // the build matches up to health: the one rewritten cell is
            // erased by the health-agnostic view
            assert(upstream_view_mod_health(items1[j]@) == upstream_view_mod_health(
                items0[j]@,
            )) by {
                let e0 = items0[j].endpoints@;
                let e1 = items1[j].endpoints@;
                assert(e1 =~= e0.update(endpoint as int, (e0[endpoint as int].0, h)));
                assert(upstream_view_mod_health(items1[j]@).endpoints =~= upstream_view_mod_health(
                    items0[j]@,
                ).endpoints);
            }
            assert(views_mod_health(upstream_views(items1)) =~= views_mod_health(
                upstream_views(items0),
            ));
            assert(views_mod_health(spec_build_registry(self.config@)->Some_0.upstreams)
                == views_mod_health(upstream_views(items1)));
        }
    }

    /// Replace the whole world from a new configuration; on any build
    /// error the old world stays in effect.
    pub fn reload(&mut self, cfg: RegistryConfig) -> (r: Result<(), ConfigError>)
        requires
            old(self).wf(),
        ensures
            final(self).wf(),
            match r {
                Ok(_) => spec_build_registry(cfg@) == Some(final(self)@),
                Err(e) => spec_build_registry(cfg@) is None && (spec_build_routes(
                    cfg@.routes,
                    cfg@.upstreams,
                ) is None ==> spec_first_route_error(cfg@, e)) && final(self)@ == old(self)@
                    && *final(self) == *old(self),
            },
    {
        match Registry::new(cfg) {
            Ok(reg) => {
                *self = reg;
                Ok(())
            },
            Err(e) => Err(e),
        }
    }
}

/// A failing upstream build fails the whole map build.
proof fn lemma_build_upstream_map_extend_fail(ucfgs: Seq<UpstreamConfigView>, i: int)
    requires
        0 <= i < ucfgs.len(),
        spec_build_upstream(ucfgs[i]) is None,
    ensures
        spec_build_upstream_map(ucfgs) is None,
    decreases ucfgs.len(),
{
    if ucfgs.len() > 0 {
        if i == ucfgs.len() - 1 {
            assert(ucfgs.last() == ucfgs[i]);
        } else {
            assert(ucfgs.drop_last()[i] == ucfgs[i]);
            lemma_build_upstream_map_extend_fail(ucfgs.drop_last(), i);
        }
    }
}

/// Exec-level and view-level lookup agree.
proof fn lemma_find_agree(items: Seq<Upstream>, id: Seq<char>)
    ensures
        spec_find_upstream(items, id) == spec_find_upstream_view(upstream_views(items), id),
    decreases items.len(),
{
    if items.len() > 0 {
        assert(upstream_views(items)[0] == items[0]@);
        assert(upstream_views(items).drop_first() =~= upstream_views(items.drop_first()));
        lemma_find_agree(items.drop_first(), id);
    }
}

/// Exec-level and view-level registration agree.
proof fn lemma_upsert_views(prev: Seq<Upstream>, now: Seq<Upstream>, uv: UpstreamView)
    requires
        exists|u: Upstream| u@ == uv && now == spec_upsert(prev, u),
    ensures
        upstream_views(now) == spec_upsert_view(upstream_views(prev), uv),
{
    let u = choose|u: Upstream| u@ == uv && now == spec_upsert(prev, u);
    lemma_find_agree(prev, uv.id);
    lemma_find_upstream_valid(prev, uv.id);
    match spec_find_upstream(prev, uv.id) {
        Some(j) => {
            assert(upstream_views(prev.update(j, u)) =~= upstream_views(prev).update(j, uv));
        },
        None => {
            assert(upstream_views(prev.push(u)) =~= upstream_views(prev).push(uv));
        },
    }
}

/// Every successfully built route names an upstream the configuration
/// holds.
proof fn lemma_routes_name_known_upstreams(
    cfgs: Seq<RouteConfigView>,
    ups: Seq<UpstreamConfigView>,
)
    ensures
        match spec_build_routes(cfgs, ups) {
            Some(vs) => forall|i: int|
                0 <= i < vs.len() ==> spec_id_known(ups, (#[trigger] vs[i]).upstream_id),
            None => true,
        },
    decreases cfgs.len(),
{
    if cfgs.len() > 0 && spec_build_routes(cfgs, ups) is Some {
        lemma_routes_name_known_upstreams(cfgs.drop_first(), ups);
        let vs = spec_build_routes(cfgs, ups)->Some_0;
        let v0 = spec_build_route(cfgs[0])->Some_0;
        let t = spec_build_routes(cfgs.drop_first(), ups)->Some_0;
        assert(vs == seq![v0] + t);
        assert(v0.upstream_id == cfgs[0].upstream_id);
        assert forall|i: int| 0 <= i < vs.len() implies spec_id_known(
            ups,
            (#[trigger] vs[i]).upstream_id,
        ) by {
            if i == 0 {
                assert(vs[0] == v0);
            } else {
                assert(vs[i] == t[i - 1]);
            }
        }
    }
}


impl Registry {
    /// Add a route: validated against the current world, applied to the
    /// configuration, and the world rebuilt. On any error — an unknown
    /// upstream id among them — nothing changes.
    pub fn add_route(&mut self, cfg: &RouteConfig) -> (r: Result<(), ConfigError>)
        requires
            old(self).wf(),
        ensures
            final(self).wf(),
            match r {
                Ok(_) => final(self)@.config.routes == old(self)@.config.routes.push(cfg@)
                    && final(self)@.config.upstreams == old(self)@.config.upstreams
                    && spec_build_registry(final(self)@.config) == Some(final(self)@),
                Err(e) => *final(self) == *old(self) && spec_build_registry(
                    RegistryConfigView {
                        routes: old(self)@.config.routes.push(cfg@),
                        upstreams: old(self)@.config.upstreams,
                    },
                ) is None && (!spec_id_known(old(self)@.config.upstreams, cfg@.upstream_id)
                    ==> e is UpstreamNotFound && e->UpstreamNotFound_0@ == cfg@.upstream_id) && (
                spec_id_known(old(self)@.config.upstreams, cfg@.upstream_id) ==> (
                e is MatcherParse || (e is UpstreamNotFound && e->UpstreamNotFound_0@
                    == "UpstreamId missing"@))),
            },
    {
        let mut newcfg = self.config.clone();
        newcfg.routes.push(cfg.clone());
        proof {
            assert(newcfg@.routes =~= old(self)@.config.routes.push(cfg@));
            assert(newcfg@ == (RegistryConfigView {
                routes: old(self)@.config.routes.push(cfg@),
                upstreams: old(self)@.config.upstreams,
            }));
        }
        let r = self.reload(newcfg);
        proof {
            let oldv = old(self)@.config;
            let pushed = oldv.routes.push(cfg@);
            if r is Err {
                let e = r->Err_0;
                lemma_build_routes_elements(oldv.routes, oldv.upstreams);
                if spec_build_routes(pushed, oldv.upstreams) is Some {
                    lemma_build_routes_elements(pushed, oldv.upstreams);
                    if !spec_route_ok(pushed[pushed.len() - 1], oldv.upstreams) {
                        assert(false);
                    }
                }
                if spec_build_routes(pushed, oldv.upstreams) is None {
                    assert(spec_first_route_error(
                        RegistryConfigView { routes: pushed, upstreams: oldv.upstreams },
                        e,
                    ));
                    let i = choose|i: int|
                        0 <= i < pushed.len() && (forall|j: int|
                            0 <= j < i ==> spec_route_ok(#[trigger] pushed[j], oldv.upstreams))
                            && !(#[trigger] spec_route_ok(pushed[i], oldv.upstreams)) && (
                        !spec_id_known(oldv.upstreams, pushed[i].upstream_id)
                            ==> e is UpstreamNotFound && e->UpstreamNotFound_0@
                            == pushed[i].upstream_id) && (spec_id_known(
                            oldv.upstreams,
                            pushed[i].upstream_id,
                        ) ==> spec_build_route(pushed[i]) is None && (e is MatcherParse || (
                        e is UpstreamNotFound && e->UpstreamNotFound_0@
                            == "UpstreamId missing"@)));
                    if i < oldv.routes.len() {
                        assert(pushed[i] == oldv.routes[i]);
                        assert(spec_route_ok(pushed[i], oldv.upstreams));
                        assert(false);
                    }
                    assert(pushed[i] == cfg@);
                } else {
                    // with the routes building, only the untouched pool
                    // could fail — but it built before
                    assert(spec_build_upstream_map(oldv.upstreams) is Some);
                    assert(false);
                }
            }
        }
        r
    }

    /// Drop every route carrying the id, and rebuild. On any error
    /// nothing changes.
    pub fn delete_route(&mut self, cfg: &RouteConfig) -> (r: Result<(), ConfigError>)
        requires
            old(self).wf(),
        ensures
            final(self).wf(),
            r is Ok,
            match r {
                Ok(_) => final(self)@.config.routes == old(self)@.config.routes.filter(
                    |rc: RouteConfigView| rc.id != cfg@.id,
                ) && final(self)@.config.upstreams == old(self)@.config.upstreams,
                Err(_) => *final(self) == *old(self),
            },
    {
        let mut newcfg = self.config.clone();
        let kept = filter_routes_without_id(&newcfg.routes, cfg.id.as_str());
        newcfg.routes = kept;
        proof {
            // removing routes cannot break the build: what stays built
            // before, and the upstream pool is untouched
            let oldv = old(self)@.config;
            let pred = |rc: RouteConfigView| rc.id != cfg@.id;
            let filtered = oldv.routes.filter(pred);
            lemma_build_routes_elements(oldv.routes, oldv.upstreams);
            lemma_filter_members(oldv.routes, pred);
            assert forall|i: int| 0 <= i < filtered.len() implies spec_route_ok(
                #[trigger] filtered[i],
                oldv.upstreams,
            ) by {
                let i0 = choose|i0: int| 0 <= i0 < oldv.routes.len() && filtered[i] == oldv.routes[i0];
                assert(spec_route_ok(oldv.routes[i0], oldv.upstreams));
            }
            lemma_all_ok_builds(filtered, oldv.upstreams);
            assert(newcfg@.routes == filtered);
            assert(spec_build_registry(newcfg@) is Some);
        }
        self.reload(newcfg)
    }

    /// Register an upstream, replacing any configured entry with the
    /// same id, and rebuild. On any error nothing changes.
    pub fn add_upstream(&mut self, cfg: &UpstreamConfig) -> (r: Result<(), ConfigError>)
        requires
            old(self).wf(),
        ensures
            final(self).wf(),
            match r {
                Ok(_) => final(self)@.config.upstreams == old(self)@.config.upstreams.push(cfg@)
                    && final(self)@.config.routes == old(self)@.config.routes,
                Err(_) => *final(self) == *old(self) && spec_build_registry(
                    RegistryConfigView {
                        routes: old(self)@.config.routes,
                        upstreams: old(self)@.config.upstreams.push(cfg@),
                    },
                ) is None,
            },
    {
        let mut newcfg = self.config.clone();
        newcfg.upstreams.push(cfg.clone());
        proof {
            assert(newcfg@.upstreams =~= old(self)@.config.upstreams.push(cfg@));
            assert(newcfg@ == (RegistryConfigView {
                routes: old(self)@.config.routes,
                upstreams: old(self)@.config.upstreams.push(cfg@),
            }));
        }
        self.reload(newcfg)
    }

    /// Drop every upstream configuration carrying the id, and rebuild.
    /// On any error — a route still pointing at it among them —
    /// nothing changes.
    pub fn delete_upstream(&mut self, cfg: &UpstreamConfig) -> (r: Result<(), ConfigError>)
        requires
            old(self).wf(),
        ensures
            final(self).wf(),
            match r {
                Ok(_) => final(self)@.config.upstreams == old(self)@.config.upstreams.filter(
                    |uc: UpstreamConfigView| uc.id != cfg@.id,
                ) && final(self)@.config.routes == old(self)@.config.routes,
                Err(_) => *final(self) == *old(self) && spec_build_registry(
                    RegistryConfigView {
                        routes: old(self)@.config.routes,
                        upstreams: old(self)@.config.upstreams.filter(
                            |uc: UpstreamConfigView| uc.id != cfg@.id,
                        ),
                    },
                ) is None,
            },
    {
        let mut newcfg = self.config.clone();
        let kept = filter_upstreams_without_id(&newcfg.upstreams, cfg.id.as_str());
        newcfg.upstreams = kept;
        proof {
            assert(newcfg@ == (RegistryConfigView {
                routes: old(self)@.config.routes,
                upstreams: old(self)@.config.upstreams.filter(
                    |uc: UpstreamConfigView| uc.id != cfg@.id,
                ),
            }));
        }
        self.reload(newcfg)
    }
}

/// The routes whose id differs from `id`, in order.
fn filter_routes_without_id(v: &Vec<RouteConfig>, id: &str) -> (r: Vec<RouteConfig>)
    ensures
        r.deep_view() == v.deep_view().filter(|rc: RouteConfigView| rc.id != id@),
{
    let ghost pred = |rc: RouteConfigView| rc.id != id@;
    let mut out: Vec<RouteConfig> = Vec::new();
    let mut i: usize = 0;
    proof {
        assert(v.deep_view().take(0) =~= Seq::<RouteConfigView>::empty());
        reveal(Seq::filter);
        assert(out.deep_view() =~= v.deep_view().take(0).filter(pred));
    }
    while i < v.len()
        invariant
            i <= v@.len(),
            v.deep_view().len() == v@.len(),
            forall|j: int| 0 <= j < v@.len() ==> v.deep_view()[j] == v@[j]@,
            out.deep_view() == v.deep_view().take(i as int).filter(
                |rc: RouteConfigView| rc.id != id@,
            ),
        decreases v@.len() - i,
    {
        let ghost prefix = v.deep_view().take(i as int);
        proof {
            assert(v.deep_view().take(i + 1).drop_last() =~= prefix);
            assert(v.deep_view().take(i + 1).last() == v.deep_view()[i as int]);
            reveal(Seq::filter);
        }
        if !crate::strutil::str_eq(v[i].id.as_str(), id) {
            let ghost prev = out.deep_view();
            let c = v[i].clone();
            out.push(c);
            proof {
                assert(out.deep_view() =~= prev.push(v@[i as int]@));
                assert(out.deep_view() =~= v.deep_view().take(i + 1).filter(
                    |rc: RouteConfigView| rc.id != id@,
                ));
            }
        } else {
            proof {
                assert(out.deep_view() =~= v.deep_view().take(i + 1).filter(
                    |rc: RouteConfigView| rc.id != id@,
                ));
            }
        }
        i = i + 1;
    }
    proof {
        assert(v.deep_view().take(v@.len() as int) =~= v.deep_view());
    }
    out
}

/// The upstream configurations whose id differs from `id`, in order.
fn filter_upstreams_without_id(v: &Vec<UpstreamConfig>, id: &str) -> (r: Vec<UpstreamConfig>)
    ensures
        r.deep_view() == v.deep_view().filter(|uc: UpstreamConfigView| uc.id != id@),
{
    let ghost pred = |uc: UpstreamConfigView| uc.id != id@;
    let mut out: Vec<UpstreamConfig> = Vec::new();
    let mut i: usize = 0;
    proof {
        assert(v.deep_view().take(0) =~= Seq::<UpstreamConfigView>::empty());
        reveal(Seq::filter);
        assert(out.deep_view() =~= v.deep_view().take(0).filter(pred));
    }
    while i < v.len()
        invariant
            i <= v@.len(),
            v.deep_view().len() == v@.len(),
            forall|j: int| 0 <= j < v@.len() ==> v.deep_view()[j] == v@[j]@,
            out.deep_view() == v.deep_view().take(i as int).filter(
                |uc: UpstreamConfigView| uc.id != id@,
            ),
        decreases v@.len() - i,
    {
        let ghost prefix = v.deep_view().take(i as int);
        proof {
            assert(v.deep_view().take(i + 1).drop_last() =~= prefix);
            assert(v.deep_view().take(i + 1).last() == v.deep_view()[i as int]);
            reveal(Seq::filter);
        }
        if !crate::strutil::str_eq(v[i].id.as_str(), id) {
            let ghost prev = out.deep_view();
            let c = v[i].clone();
            out.push(c);
            proof {
                assert(out.deep_view() =~= prev.push(v@[i as int]@));
                assert(out.deep_view() =~= v.deep_view().take(i + 1).filter(
                    |uc: UpstreamConfigView| uc.id != id@,
                ));
            }
        } else {
            proof {
                assert(out.deep_view() =~= v.deep_view().take(i + 1).filter(
                    |uc: UpstreamConfigView| uc.id != id@,
                ));
            }
        }
        i = i + 1;
    }
    proof {
        assert(v.deep_view().take(v@.len() as int) =~= v.deep_view());
    }
    out
}

/// In every well-formed registry, every route's upstream id resolves in
/// the live upstream pool.
pub proof fn lemma_routes_resolve(r: &Registry)
    requires
        r.wf(),
    ensures
        forall|i: int|
            0 <= i < r@.routes.len() ==> exists|j: int|
                0 <= j < r@.upstreams.len() && (#[trigger] r@.upstreams[j]).id == (
                #[trigger] r@.routes[i]).upstream_id,
{
    assert forall|i: int| 0 <= i < r@.routes.len() implies exists|j: int|
        0 <= j < r@.upstreams.len() && (#[trigger] r@.upstreams[j]).id == (
    #[trigger] r@.routes[i]).upstream_id by {
        assert(r@.routes[i] == r.routes@[i]@);
        let j0 = choose|j: int|
            0 <= j < r.upstreams.items@.len() && (#[trigger] r.upstreams.items@[j]).id@
                == r.routes@[i].upstream_id@;
        assert(r@.upstreams[j0] == r.upstreams.items@[j0]@);
    }
}

/// In every well-formed registry, every URI pattern's route list is
/// ordered by the routes' priorities, descending.
pub proof fn lemma_router_sorted(r: &Registry)
    requires
        r.wf(),
    ensures
        forall|j: int|
            0 <= j < r@.table.len() ==> crate::router::route_list_sorted((#[trigger] r@.table[j]).1),
        forall|j: int, a: int, b: int|
            0 <= j < r@.table.len() && 0 <= a < b < r@.table[j].1.len() ==> r@.routes[(
            #[trigger] r@.table[j].1[a]).0 as int].priority >= r@.routes[(
            #[trigger] r@.table[j].1[b]).0 as int].priority,
{
    crate::router::lemma_router_lists_sorted(&r.router);
    assert forall|j: int, a: int, b: int|
        0 <= j < r@.table.len() && 0 <= a < b < r@.table[j].1.len() implies r@.routes[(
    #[trigger] r@.table[j].1[a]).0 as int].priority >= r@.routes[(
    #[trigger] r@.table[j].1[b]).0 as int].priority by {
        assert(crate::router::route_list_sorted(r@.table[j].1));
        assert(r@.table[j].1[a].1 >= r@.table[j].1[b].1);
        assert(r@.table[j].1[a].1 == routes_views(r.routes@)[r@.table[j].1[a].0 as int].priority);
        assert(r@.table[j].1[b].1 == routes_views(r.routes@)[r@.table[j].1[b].0 as int].priority);
    }
}

/// Rebuilding from the configuration a well-formed registry already
/// holds reproduces the registry's world — the configuration, the
/// route table and the trie exactly, the upstream pool up to endpoint
/// health, whose cells start a fresh probe cycle on rebuild.
pub proof fn lemma_reload_same_config_is_noop(r: &Registry, cfg: &RegistryConfig)
    requires
        r.wf(),
        cfg@ == r.config@,
    ensures
        spec_build_registry(cfg@) matches Some(b) && b.config == r@.config && b.routes
            == r@.routes && b.table == r@.table && views_mod_health(b.upstreams)
            == views_mod_health(r@.upstreams),
{
}

} // verus!
