use crate::config::{health_config_view, HealthConfigView, UpstreamConfig};
use crate::error::ConfigError;
use crate::health::{HealthConfig, Healthiness};
use crate::load_balance::{
    spec_apply_event, spec_get0, total_weight, CounterEvent, LeastRequest, Random, WeightedRandom,
};
use crate::registry::Endpoint;
use crate::strutil::str_eq;
use vstd::prelude::*;
use vstd::string::StringExecFns;

verus! {

/// The scheme (empty when absent), authority and host that the URI
/// parser reads out of an endpoint address, if it parses and has an
/// authority.
pub uninterp spec fn uri_parts_of(addr: Seq<char>) -> Option<(Seq<char>, Seq<char>, Seq<char>)>;

/// Relies on the `http` crate's URI parser (via `hyper::Uri`) and its
/// accessors: what an address parses to is a function of the address
/// alone; an address without an authority or host is rejected.
#[verifier::external_body]
pub fn parse_target(addr: &str) -> (r: Option<(String, String, String)>)
    ensures
        match r {
            Some(p) => uri_parts_of(addr@) == Some((p.0@, p.1@, p.2@)),
            None => uri_parts_of(addr@) is None,
        },
{
    let uri: hyper::Uri = addr.parse().ok()?;
    let scheme = uri.scheme_str().unwrap_or("").to_string();
    let authority = uri.authority()?.as_str().to_string();
    let host = uri.host()?.to_string();
    Some((scheme, authority, host))
}

/// The closed set of load-balancing strategies.
#[derive(Debug)]
pub enum LoadBalanceStrategy {
    Random(Random),
    WeightedRandom(WeightedRandom),
    LeastRequest(LeastRequest),
}

/// The strategy's kind, without its runtime state.
pub enum StrategyKind {
    Random,
    WeightedRandom,
    LeastRequest,
}

impl LoadBalanceStrategy {
    pub open spec fn kind(&self) -> StrategyKind {
        match self {
            LoadBalanceStrategy::Random(_) => StrategyKind::Random,
            LoadBalanceStrategy::WeightedRandom(_) => StrategyKind::WeightedRandom,
            LoadBalanceStrategy::LeastRequest(_) => StrategyKind::LeastRequest,
        }
    }

    pub open spec fn wf(&self) -> bool {
        match self {
            LoadBalanceStrategy::LeastRequest(l) => l.wf(),
            _ => true,
        }
    }

    /// Select an endpoint index from a non-empty list.
    pub fn select_endpoint(&self, eps: &Vec<Endpoint>) -> (r: usize)
        requires
            eps@.len() > 0,
            self.wf(),
            self is WeightedRandom ==> 0 < total_weight(eps@) <= usize::MAX,
        ensures
            r < eps@.len(),
            self is WeightedRandom ==> eps@[r as int].weight > 0,
    {
        match self {
            LoadBalanceStrategy::Random(s) => s.select_endpoint(eps),
            LoadBalanceStrategy::WeightedRandom(s) => s.select_endpoint(eps),
            LoadBalanceStrategy::LeastRequest(s) => s.select_endpoint(eps),
        }
    }

    /// Record a request handed to `endpoint`; only the least-request
    /// strategy keeps state, and a counter at the machine maximum stays
    /// put.
    pub fn on_send_request(&mut self, endpoint: &str)
        requires
            old(self).wf(),
        ensures
            final(self).wf(),
            final(self).kind() == old(self).kind(),
            match (*old(self), *final(self)) {
                (
                    LoadBalanceStrategy::LeastRequest(l0),
                    LoadBalanceStrategy::LeastRequest(l1),
                ) => l1.spec_counts() == (if spec_get0(l0.spec_counts(), endpoint@) < usize::MAX {
                    spec_apply_event(l0.spec_counts(), CounterEvent::Send(endpoint@))
                } else {
                    l0.spec_counts()
                }),
                _ => *final(self) == *old(self),
            },
    {
        match self {
            LoadBalanceStrategy::LeastRequest(l) => l.on_send_request(endpoint),
            _ => {},
        }
    }

    /// Record a request to `endpoint` finished.
    pub fn on_request_done(&mut self, endpoint: &str)
        requires
            old(self).wf(),
        ensures
            final(self).wf(),
            final(self).kind() == old(self).kind(),
            match (*old(self), *final(self)) {
                (
                    LoadBalanceStrategy::LeastRequest(l0),
                    LoadBalanceStrategy::LeastRequest(l1),
                ) => l1.spec_counts() == spec_apply_event(
                    l0.spec_counts(),
                    CounterEvent::Done(endpoint@),
                ),
                _ => *final(self) == *old(self),
            },
    {
        match self {
            LoadBalanceStrategy::LeastRequest(l) => l.on_request_done(endpoint),
            _ => {},
        }
    }
}

/// The endpoints whose weight is positive and whose health is `Up`.
pub open spec fn spec_healthy_endpoints(eps: Seq<(Endpoint, Healthiness)>) -> Seq<Endpoint>
    decreases eps.len(),
{
    if eps.len() == 0 {
        Seq::<Endpoint>::empty()
    } else {
        let rest = spec_healthy_endpoints(eps.drop_first());
        if eps[0].0.weight != 0 && eps[0].1 == Healthiness::Up {
            seq![eps[0].0] + rest
        } else {
            rest
        }
    }
}

/// The endpoints whose weight is positive, regardless of health.
pub open spec fn spec_all_endpoints(eps: Seq<(Endpoint, Healthiness)>) -> Seq<Endpoint>
    decreases eps.len(),
{
    if eps.len() == 0 {
        Seq::<Endpoint>::empty()
    } else {
        let rest = spec_all_endpoints(eps.drop_first());
        if eps[0].0.weight != 0 {
            seq![eps[0].0] + rest
        } else {
            rest
        }
    }
}

/// The selection set: healthy endpoints, or — when every endpoint is
/// down — all weighted endpoints, so the gateway still attempts.
pub open spec fn spec_available_endpoints(eps: Seq<(Endpoint, Healthiness)>) -> Seq<Endpoint> {
    if spec_healthy_endpoints(eps).len() > 0 {
        spec_healthy_endpoints(eps)
    } else {
        spec_all_endpoints(eps)
    }
}

/// The sum of the raw endpoint weights, drained ones included.
pub open spec fn endpoints_total(eps: Seq<(Endpoint, Healthiness)>) -> int
    decreases eps.len(),
{
    if eps.len() == 0 {
        0int
    } else {
        eps[0].0.weight + endpoints_total(eps.drop_first())
    }
}

/// Every endpoint a filter keeps has positive weight, and the filtered
/// weights sum to no more than the raw total.
pub proof fn lemma_filtered_endpoints(eps: Seq<(Endpoint, Healthiness)>)
    ensures
        forall|i: int|
            0 <= i < spec_healthy_endpoints(eps).len() ==> (#[trigger] spec_healthy_endpoints(
                eps,
            )[i]).weight > 0,
        forall|i: int|
            0 <= i < spec_all_endpoints(eps).len() ==> (#[trigger] spec_all_endpoints(
                eps,
            )[i]).weight > 0,
        total_weight(spec_healthy_endpoints(eps)) <= endpoints_total(eps),
        total_weight(spec_all_endpoints(eps)) <= endpoints_total(eps),
        endpoints_total(eps) >= 0,
    decreases eps.len(),
{
    if eps.len() > 0 {
        lemma_filtered_endpoints(eps.drop_first());
        let rest_h = spec_healthy_endpoints(eps.drop_first());
        let rest_a = spec_all_endpoints(eps.drop_first());
        if eps[0].0.weight != 0 && eps[0].1 == Healthiness::Up {
            assert((seq![eps[0].0] + rest_h).drop_first() =~= rest_h);
        }
        if eps[0].0.weight != 0 {
            assert((seq![eps[0].0] + rest_a).drop_first() =~= rest_a);
        }
    }
}

/// A non-empty list of positive weights has a positive sum.
pub proof fn lemma_total_weight_positive(eps: Seq<Endpoint>)
    requires
        forall|i: int| 0 <= i < eps.len() ==> (#[trigger] eps[i]).weight > 0,
        eps.len() > 0,
    ensures
        total_weight(eps) > 0,
    decreases eps.len(),
{
    assert(eps[0].weight > 0);
    if eps.len() > 1 {
        assert(forall|i: int|
            0 <= i < eps.drop_first().len() ==> #[trigger] eps.drop_first()[i] == eps[i + 1]);
        lemma_total_weight_positive(eps.drop_first());
    } else {
        assert(eps.drop_first() =~= Seq::<Endpoint>::empty());
        assert(total_weight(eps.drop_first()) == 0);
    }
}

/// What building an upstream from its configuration yields.
pub struct UpstreamView {
    pub id: Seq<char>,
    pub name: Seq<char>,
    pub strategy: StrategyKind,
    pub endpoints: Seq<(Seq<char>, usize, Healthiness)>,
    pub health_check: HealthConfigView,
}

/// The endpoints of a live upstream, abstracted to target, weight and
/// health.
pub open spec fn endpoints_view(eps: Seq<(Endpoint, Healthiness)>) -> Seq<
    (Seq<char>, usize, Healthiness),
> {
    eps.map_values(|p: (Endpoint, Healthiness)| (p.0.target@, p.0.weight, p.1))
}

/// A named pool of endpoints with a strategy and a health policy.
#[derive(Debug)]
pub struct Upstream {
    pub id: String,
    pub name: String,
    pub strategy: LoadBalanceStrategy,
    pub endpoints: Vec<(Endpoint, Healthiness)>,
    pub health_config: HealthConfig,
}

impl View for Upstream {
    type V = UpstreamView;

    open spec fn view(&self) -> UpstreamView {
        UpstreamView {
            id: self.id@,
            name: self.name@,
            strategy: self.strategy.kind(),
            endpoints: endpoints_view(self.endpoints@),
            health_check: health_config_view(self.health_config),
        }
    }
}

impl Upstream {
    /// Structural soundness: weights sum within machine range (and, for
    /// the weighted strategy, to something positive), every target
    /// parses, and the strategy's own state is sound.
    pub open spec fn wf(&self) -> bool {
        &&& self.strategy.wf()
        &&& endpoints_total(self.endpoints@) <= usize::MAX
        &&& self.strategy is WeightedRandom ==> endpoints_total(self.endpoints@) > 0
        &&& forall|i: int|
            0 <= i < self.endpoints@.len() ==> uri_parts_of(
                (#[trigger] self.endpoints@[i]).0.target@,
            ) is Some
    }
}


/// The strategy a configuration string names.
pub open spec fn spec_strategy_kind_of(s: Seq<char>) -> Option<StrategyKind> {
    if s == "random"@ {
        Some(StrategyKind::Random)
    } else if s == "weighted"@ {
        Some(StrategyKind::WeightedRandom)
    } else if s == "least_request"@ {
        Some(StrategyKind::LeastRequest)
    } else {
        None
    }
}

/// What building the endpoint list yields: every address must parse,
/// and each endpoint's health cell starts from the pool's
/// `default_down` setting.
pub open spec fn spec_build_endpoints(
    eps: Seq<crate::config::EndpointConfigView>,
    h0: Healthiness,
) -> Option<Seq<(Seq<char>, usize, Healthiness)>>
    decreases eps.len(),
{
    if eps.len() == 0 {
        Some(Seq::<(Seq<char>, usize, Healthiness)>::empty())
    } else if uri_parts_of(eps[0].addr) is Some {
        match spec_build_endpoints(eps.drop_first(), h0) {
            Some(t) => Some(seq![(eps[0].addr, eps[0].weight as usize, h0)] + t),
            None => None,
        }
    } else {
        None
    }
}

/// The health value an endpoint starts with.
pub open spec fn spec_initial_health(default_down: bool) -> Healthiness {
    if default_down {
        Healthiness::Down
    } else {
        Healthiness::Up
    }
}

/// The weight sum of abstracted endpoints.
pub open spec fn view_total(eps: Seq<(Seq<char>, usize, Healthiness)>) -> int
    decreases eps.len(),
{
    if eps.len() == 0 {
        0int
    } else {
        eps[0].1 + view_total(eps.drop_first())
    }
}

/// What building an upstream yields: a known strategy, parsable
/// endpoint addresses, a weight sum within machine range, and — for the
/// weighted strategy — a positive weight sum.
pub open spec fn spec_build_upstream(v: crate::config::UpstreamConfigView) -> Option<UpstreamView> {
    match spec_strategy_kind_of(v.strategy) {
        None => None,
        Some(k) => match spec_build_endpoints(
            v.endpoints,
            spec_initial_health(v.health_check.default_down),
        ) {
            None => None,
            Some(eps) => if view_total(eps) > usize::MAX {
                None
            } else if k is WeightedRandom && view_total(eps) <= 0 {
                None
            } else {
                Some(
                    UpstreamView {
                        id: v.id,
                        name: v.name,
                        strategy: k,
                        endpoints: eps,
                        health_check: v.health_check,
                    },
                )
            },
        },
    }
}

/// The shallow and the abstracted weight sums agree.
pub proof fn lemma_totals_agree(eps: Seq<(Endpoint, Healthiness)>)
    ensures
        endpoints_total(eps) == view_total(endpoints_view(eps)),
    decreases eps.len(),
{
    if eps.len() > 0 {
        lemma_totals_agree(eps.drop_first());
        assert(endpoints_view(eps).drop_first() =~= endpoints_view(eps.drop_first()));
        assert(endpoints_view(eps)[0].1 == eps[0].0.weight);
    }
}

/// Rewriting one endpoint's health leaves the weight sum alone.
proof fn lemma_endpoints_total_update(
    eps: Seq<(Endpoint, Healthiness)>,
    i: int,
    v: (Endpoint, Healthiness),
)
    requires
        0 <= i < eps.len(),
        v.0.weight == eps[i].0.weight,
    ensures
        endpoints_total(eps.update(i, v)) == endpoints_total(eps),
    decreases eps.len(),
{
    let u = eps.update(i, v);
    if i == 0 {
        assert(u[0] == v);
        assert(u.drop_first() =~= eps.drop_first());
    } else {
        assert(u[0] == eps[0]);
        assert(u.drop_first() =~= eps.drop_first().update(i - 1, v));
        lemma_endpoints_total_update(eps.drop_first(), i - 1, v);
    }
}

impl Upstream {
    /// Build an upstream from its configuration: parse every endpoint
    /// address, resolve the strategy, and reject a weighted pool whose
    /// weights sum to zero.
    pub fn new(cfg: &UpstreamConfig) -> (r: Result<Upstream, ConfigError>)
        ensures
            match r {
                Ok(u) => u.wf() && spec_build_upstream(cfg@) == Some(u@),
                Err(_) => spec_build_upstream(cfg@) is None,
            },
    {
        let strategy: LoadBalanceStrategy = if str_eq(cfg.strategy.as_str(), "random") {
            LoadBalanceStrategy::Random(Random::new())
        } else if str_eq(cfg.strategy.as_str(), "weighted") {
            LoadBalanceStrategy::WeightedRandom(WeightedRandom::new())
        } else if str_eq(cfg.strategy.as_str(), "least_request") {
            LoadBalanceStrategy::LeastRequest(LeastRequest::new())
        } else {
            return Err(ConfigError::UnknownLBStrategy(cfg.strategy.clone()));
        };
        let initial = if cfg.health_check.default_down {
            Healthiness::Down
        } else {
            Healthiness::Up
        };
        let mut endpoints: Vec<(Endpoint, Healthiness)> = Vec::new();
        let mut total: usize = 0;
        let n = cfg.endpoints.len();
        let mut i: usize = 0;
        proof {
            assert(cfg@.endpoints.skip(0) =~= cfg@.endpoints);
            assert(cfg@.endpoints.len() == cfg.endpoints@.len());
        }
        while i < n
            invariant
                i <= n,
                n == cfg.endpoints@.len(),
                cfg@.endpoints.len() == n,
                forall|j: int| 0 <= j < n ==> cfg@.endpoints[j] == cfg.endpoints@[j]@,
                total == view_total(endpoints_view(endpoints@)),
                total <= usize::MAX,
                endpoints@.len() == i,
                forall|j: int|
                    0 <= j < i ==> uri_parts_of(
                        (#[trigger] endpoints@[j]).0.target@,
                    ) is Some,
                initial == spec_initial_health(cfg@.health_check.default_down),
                match spec_build_endpoints(cfg@.endpoints.skip(i as int), initial) {
                    Some(t) => spec_build_endpoints(cfg@.endpoints, initial) == Some(
                        endpoints_view(endpoints@) + t,
                    ),
                    None => spec_build_endpoints(cfg@.endpoints, initial) is None,
                },
            decreases n - i,
        {
            assert(cfg@.endpoints.skip(i as int)[0] == cfg@.endpoints[i as int]);
            let ep = &cfg.endpoints[i];
            match parse_target(ep.addr.as_str()) {
                Some(_) => {},
                None => {
                    return Err(ConfigError::UriParse(ep.addr.clone()));
                },
            }
            let w = ep.weight as usize;
            if w > usize::MAX - total {
                proof {
                    lemma_build_total_bound(
                        cfg@.endpoints,
                        initial,
                        i as int,
                        endpoints_view(endpoints@),
                    );
                }
                return Err(ConfigError::Message(String::from_str("upstream weight overflow")));
            }
            let ghost prev = endpoints@;
            let entry = (Endpoint { target: ep.addr.clone(), weight: w }, initial);
            let ghost gentry = entry;
            endpoints.push(entry);
            total = total + w;
            proof {
                assert(endpoints@ =~= prev.push(gentry));
                assert(gentry.0.target@ == cfg@.endpoints[i as int].addr);
                assert(endpoints_view(endpoints@) =~= endpoints_view(prev).push(
                    (cfg@.endpoints[i as int].addr, w, initial),
                ));
                assert(cfg@.endpoints.skip(i as int).drop_first() =~= cfg@.endpoints.skip(i + 1));
                if spec_build_endpoints(cfg@.endpoints.skip(i + 1), initial) is Some {
                    let t = spec_build_endpoints(cfg@.endpoints.skip(i + 1), initial)->Some_0;
                    assert(endpoints_view(prev) + (seq![
                        (cfg@.endpoints[i as int].addr, w, initial),
                    ] + t) =~= endpoints_view(endpoints@) + t);
                }
                lemma_view_total_push(
                    endpoints_view(prev),
                    (cfg@.endpoints[i as int].addr, w, initial),
                );
            }
            i = i + 1;
        }
        proof {
            assert(cfg@.endpoints.skip(n as int) =~= Seq::<
                crate::config::EndpointConfigView,
            >::empty());
            assert(endpoints_view(endpoints@) + Seq::<
                (Seq<char>, usize, Healthiness),
            >::empty() =~= endpoints_view(endpoints@));
        }
        let weighted = match &strategy {
            LoadBalanceStrategy::WeightedRandom(_) => true,
            _ => false,
        };
        if weighted && total == 0 {
            return Err(
                ConfigError::Message(
                    String::from_str("weighted upstream requires a positive weight sum"),
                ),
            );
        }
        let u = Upstream {
            id: cfg.id.clone(),
            name: cfg.name.clone(),
            strategy,
            endpoints,
            health_config: crate::config::clone_health_config(&cfg.health_check),
        };
        proof {
            lemma_totals_agree(u.endpoints@);
        }
        Ok(u)
    }

    /// The endpoints that are weighted and `Up`.
    pub fn healthy_endpoints(&self) -> (r: Vec<Endpoint>)
        ensures
            r@ == spec_healthy_endpoints(self.endpoints@),
    {
        let n = self.endpoints.len();
        let mut out: Vec<Endpoint> = Vec::new();
        let mut i: usize = 0;
        proof {
            assert(self.endpoints@.skip(0) =~= self.endpoints@);
        }
        while i < n
            invariant
                i <= n,
                n == self.endpoints@.len(),
                spec_healthy_endpoints(self.endpoints@) =~= out@ + spec_healthy_endpoints(
                    self.endpoints@.skip(i as int),
                ),
            decreases n - i,
        {
            proof {
                assert(self.endpoints@.skip(i as int)[0] == self.endpoints@[i as int]);
                assert(self.endpoints@.skip(i as int).drop_first() =~= self.endpoints@.skip(i + 1));
            }
            let keep = self.endpoints[i].0.weight != 0 && match self.endpoints[i].1 {
                Healthiness::Up => true,
                Healthiness::Down => false,
            };
            if keep {
                let ghost prev = out@;
                out.push(self.endpoints[i].0.clone());
                proof {
                    assert(prev + (seq![self.endpoints@[i as int].0] + spec_healthy_endpoints(
                        self.endpoints@.skip(i + 1),
                    )) =~= out@ + spec_healthy_endpoints(self.endpoints@.skip(i + 1)));
                }
            }
            i = i + 1;
        }
        proof {
            assert(self.endpoints@.skip(n as int) =~= Seq::<(Endpoint, Healthiness)>::empty());
            assert(out@ + Seq::<Endpoint>::empty() =~= out@);
        }
        out
    }

    /// The endpoints that are weighted, healthy or not.
    pub fn all_endpoints(&self) -> (r: Vec<Endpoint>)
        ensures
            r@ == spec_all_endpoints(self.endpoints@),
    {
        let n = self.endpoints.len();
        let mut out: Vec<Endpoint> = Vec::new();
        let mut i: usize = 0;
        proof {
            assert(self.endpoints@.skip(0) =~= self.endpoints@);
        }
        while i < n
            invariant
                i <= n,
                n == self.endpoints@.len(),
                spec_all_endpoints(self.endpoints@) =~= out@ + spec_all_endpoints(
                    self.endpoints@.skip(i as int),
                ),
            decreases n - i,
        {
            proof {
                assert(self.endpoints@.skip(i as int)[0] == self.endpoints@[i as int]);
                assert(self.endpoints@.skip(i as int).drop_first() =~= self.endpoints@.skip(i + 1));
            }
            if self.endpoints[i].0.weight != 0 {
                let ghost prev = out@;
                out.push(self.endpoints[i].0.clone());
                proof {
                    assert(prev + (seq![self.endpoints@[i as int].0] + spec_all_endpoints(
                        self.endpoints@.skip(i + 1),
                    )) =~= out@ + spec_all_endpoints(self.endpoints@.skip(i + 1)));
                }
            }
            i = i + 1;
        }
        proof {
            assert(self.endpoints@.skip(n as int) =~= Seq::<(Endpoint, Healthiness)>::empty());
            assert(out@ + Seq::<Endpoint>::empty() =~= out@);
        }
        out
    }

    /// The selection set: healthy endpoints if any, else every weighted
    /// endpoint as a last resort.
    pub fn available_endpoints(&self) -> (r: Vec<Endpoint>)
        ensures
            r@ == spec_available_endpoints(self.endpoints@),
    {
        let healthy = self.healthy_endpoints();
        if healthy.len() > 0 {
            healthy
        } else {
            self.all_endpoints()
        }
    }

    /// Write one endpoint's shared health value.
    pub fn set_endpoint_health(&mut self, i: usize, h: Healthiness)
        requires
            i < old(self).endpoints@.len(),
            old(self).wf(),
        ensures
            final(self).wf(),
            final(self).endpoints@ == old(self).endpoints@.update(
                i as int,
                (old(self).endpoints@[i as int].0, h),
            ),
            final(self).id == old(self).id,
            final(self).name == old(self).name,
            final(self).strategy == old(self).strategy,
            final(self).health_config == old(self).health_config,
    {
        let ep = self.endpoints[i].0.clone();
        let ghost prev = self.endpoints@;
        self.endpoints.set(i, (ep, h));
        proof {
            assert(self.endpoints@ =~= prev.update(i as int, (prev[i as int].0, h)));
            lemma_endpoints_total_update(prev, i as int, (prev[i as int].0, h));
            assert(forall|j: int|
                0 <= j < self.endpoints@.len() ==> (#[trigger] self.endpoints@[j]).0 == prev[j].0);
        }
    }
}

/// A failed prefix stays failed: used when endpoint building stops early.
proof fn lemma_build_total_bound(
    eps: Seq<crate::config::EndpointConfigView>,
    h0: Healthiness,
    i: int,
    built: Seq<(Seq<char>, usize, Healthiness)>,
)
    requires
        0 <= i < eps.len(),
        match spec_build_endpoints(eps.skip(i), h0) {
            Some(t) => spec_build_endpoints(eps, h0) == Some(built + t),
            None => spec_build_endpoints(eps, h0) is None,
        },
        view_total(built) + eps[i].weight > usize::MAX,
        view_total(built) >= 0,
    ensures
        match spec_build_endpoints(eps, h0) {
            Some(all) => view_total(all) > usize::MAX,
            None => true,
        },
{
    if spec_build_endpoints(eps.skip(i), h0) is Some {
        let t = spec_build_endpoints(eps.skip(i), h0)->Some_0;
        let all = built + t;
        assert(eps.skip(i)[0] == eps[i]);
        if uri_parts_of(eps[i].addr) is Some {
            lemma_view_total_concat(built, t);
            assert(t[0].1 == eps[i].weight as usize);
            lemma_view_total_tail_bound(t);
        }
    }
}

/// The weight sum of a concatenation splits.
proof fn lemma_view_total_concat(a: Seq<(Seq<char>, usize, Healthiness)>, b: Seq<(Seq<char>, usize, Healthiness)>)
    ensures
        view_total(a + b) == view_total(a) + view_total(b),
    decreases a.len(),
{
    if a.len() == 0 {
        assert(a + b =~= b);
    } else {
        assert((a + b)[0] == a[0]);
        assert((a + b).drop_first() =~= a.drop_first() + b);
        lemma_view_total_concat(a.drop_first(), b);
    }
}

/// A list's weight sum is at least its head's weight.
proof fn lemma_view_total_tail_bound(t: Seq<(Seq<char>, usize, Healthiness)>)
    requires
        t.len() > 0,
    ensures
        view_total(t) >= t[0].1,
    decreases t.len(),
{
    lemma_view_total_nonneg(t.drop_first());
}

/// Weight sums are never negative.
proof fn lemma_view_total_nonneg(t: Seq<(Seq<char>, usize, Healthiness)>)
    ensures
        view_total(t) >= 0,
    decreases t.len(),
{
    if t.len() > 0 {
        lemma_view_total_nonneg(t.drop_first());
    }
}

/// Appending an endpoint adds its weight to the sum.
proof fn lemma_view_total_push(
    a: Seq<(Seq<char>, usize, Healthiness)>,
    v: (Seq<char>, usize, Healthiness),
)
    ensures
        view_total(a.push(v)) == view_total(a) + v.1,
    decreases a.len(),
{
    if a.len() == 0 {
        assert(a.push(v)[0] == v);
        assert(a.push(v).drop_first() =~= Seq::<(Seq<char>, usize, Healthiness)>::empty());
        assert(view_total(Seq::<(Seq<char>, usize, Healthiness)>::empty()) == 0);
    } else {
        assert(a.push(v)[0] == a[0]);
        assert(a.push(v).drop_first() =~= a.drop_first().push(v));
        lemma_view_total_push(a.drop_first(), v);
    }
}


/// The first index holding an upstream with the given id.
pub open spec fn spec_find_upstream(items: Seq<Upstream>, id: Seq<char>) -> Option<int>
    decreases items.len(),
{
    if items.len() == 0 {
        None
    } else if items[0].id@ == id {
        Some(0int)
    } else {
        match spec_find_upstream(items.drop_first(), id) {
            Some(j) => Some(j + 1),
            None => None,
        }
    }
}

/// A found index is in range and holds the id.
pub proof fn lemma_find_upstream_valid(items: Seq<Upstream>, id: Seq<char>)
    ensures
        match spec_find_upstream(items, id) {
            Some(j) => 0 <= j < items.len() && items[j].id@ == id,
            None => forall|j: int| 0 <= j < items.len() ==> (#[trigger] items[j]).id@ != id,
        },
    decreases items.len(),
{
    if items.len() > 0 {
        lemma_find_upstream_valid(items.drop_first(), id);
        if items[0].id@ != id {
            match spec_find_upstream(items.drop_first(), id) {
                Some(j) => {
                    assert(items.drop_first()[j] == items[j + 1]);
                },
                None => {
                    assert forall|j: int| 0 <= j < items.len() implies (#[trigger] items[j]).id@
                        != id by {
                        if j > 0 {
                            assert(items.drop_first()[j - 1] == items[j]);
                        }
                    }
                },
            }
        }
    }
}

/// The live upstream pool, looked up by id; an insert under a held id
/// replaces that entry.
#[derive(Debug)]
pub struct UpstreamMap {
    pub items: Vec<Upstream>,
}

/// What an insert yields: a replacement or an append.
pub open spec fn spec_upsert(items: Seq<Upstream>, up: Upstream) -> Seq<Upstream> {
    match spec_find_upstream(items, up.id@) {
        Some(j) => items.update(j, up),
        None => items.push(up),
    }
}

impl UpstreamMap {
    /// Ids are unique and every entry is sound.
    pub open spec fn wf(&self) -> bool {
        &&& forall|i: int, j: int|
            0 <= i < j < self.items@.len() ==> (#[trigger] self.items@[i]).id@ != (
            #[trigger] self.items@[j]).id@
        &&& forall|i: int| 0 <= i < self.items@.len() ==> (#[trigger] self.items@[i]).wf()
    }

    pub fn new() -> (r: UpstreamMap)
        ensures
            r.wf(),
            r.items@.len() == 0,
    {
        UpstreamMap { items: Vec::new() }
    }

    /// The entry index for `id`, if one exists.
    pub fn find(&self, id: &str) -> (r: Option<usize>)
        ensures
            match r {
                Some(i) => spec_find_upstream(self.items@, id@) == Some(i as int),
                None => spec_find_upstream(self.items@, id@) is None,
            },
    {
        let n = self.items.len();
        let mut i: usize = 0;
        proof {
            assert(self.items@.skip(0) =~= self.items@);
        }
        while i < n
            invariant
                i <= n,
                n == self.items@.len(),
                match spec_find_upstream(self.items@.skip(i as int), id@) {
                    Some(j) => spec_find_upstream(self.items@, id@) == Some(j + i),
                    None => spec_find_upstream(self.items@, id@) is None,
                },
            decreases n - i,
        {
            assert(self.items@.skip(i as int)[0] == self.items@[i as int]);
            if str_eq(self.items[i].id.as_str(), id) {
                proof {
                    assert(spec_find_upstream(self.items@.skip(i as int), id@) == Some(0int));
                }
                return Some(i);
            }
            proof {
                assert(self.items@.skip(i as int).drop_first() =~= self.items@.skip(i + 1));
            }
            i = i + 1;
        }
        proof {
            assert(self.items@.skip(n as int) =~= Seq::<Upstream>::empty());
        }
        None
    }

    /// The upstream registered under `id`, if any.
    pub fn get(&self, id: &str) -> (r: Option<&Upstream>)
        ensures
            match r {
                Some(u) => spec_find_upstream(self.items@, id@) is Some && *u == self.items@[
                    spec_find_upstream(self.items@, id@)->Some_0],
                None => spec_find_upstream(self.items@, id@) is None,
            },
    {
        match self.find(id) {
            Some(i) => {
                proof {
                    lemma_find_upstream_valid(self.items@, id@);
                }
                Some(&self.items[i])
            },
            None => None,
        }
    }

    /// Register an upstream, replacing any entry with the same id.
    pub fn insert(&mut self, up: Upstream)
        requires
            old(self).wf(),
            up.wf(),
        ensures
            final(self).wf(),
            final(self).items@ == spec_upsert(old(self).items@, up),
    {
        proof {
            lemma_find_upstream_valid(self.items@, up.id@);
        }
        let id = up.id.clone();
        match self.find(id.as_str()) {
            Some(i) => {
                let ghost prev = self.items@;
                self.items.set(i, up);
                proof {
                    assert(forall|j: int|
                        0 <= j < self.items@.len() && j != i ==> self.items@[j] == prev[j]);
                    assert(self.items@[i as int].id@ == prev[i as int].id@);
                }
            },
            None => {
                self.items.push(up);
            },
        }
    }

    /// Drop the upstream registered under `id`, if any.
    pub fn remove(&mut self, id: &str)
        requires
            old(self).wf(),
        ensures
            final(self).wf(),
            final(self).items@ == (match spec_find_upstream(old(self).items@, id@) {
                Some(j) => old(self).items@.remove(j),
                None => old(self).items@,
            }),
    {
        proof {
            lemma_find_upstream_valid(self.items@, id@);
        }
        match self.find(id) {
            Some(i) => {
                let ghost prev = self.items@;
                self.items.remove(i);
                proof {
                    assert(forall|a: int, b: int|
                        0 <= a < b < self.items@.len() ==> self.items@[a].id@ != self.items@[b].id@)
                        by {
                        assert(forall|a: int|
                            0 <= a < self.items@.len() ==> self.items@[a] == (if a < i {
                                prev[a]
                            } else {
                                prev[a + 1]
                            }));
                    }
                }
            },
            None => {},
        }
    }
}

} // verus!
