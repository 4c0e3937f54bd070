use crate::registry::Endpoint;
use crate::strutil::str_eq;
use rand::Rng;
use vstd::prelude::*;
use vstd::string::StringExecFns;

verus! {

/// Relies on `rand::Rng::gen_range`: a draw below `n`. Nothing is
/// promised about which value comes back.
#[verifier::external_body]
fn gen_below(n: usize) -> (r: usize)
    requires
        n > 0,
    ensures
        r < n,
{
    rand::thread_rng().gen_range(0..n)
}

/// The sum of the endpoints' weights.
pub open spec fn total_weight(eps: Seq<Endpoint>) -> int
    decreases eps.len(),
{
    if eps.len() == 0 {
        0int
    } else {
        eps[0].weight + total_weight(eps.drop_first())
    }
}

proof fn lemma_total_weight_skip(eps: Seq<Endpoint>, i: int)
    requires
        0 <= i < eps.len(),
    ensures
        total_weight(eps.skip(i)) == eps[i].weight + total_weight(eps.skip(i + 1)),
{
    assert(eps.skip(i)[0] == eps[i]);
    assert(eps.skip(i).drop_first() =~= eps.skip(i + 1));
}

proof fn lemma_total_weight_nonneg(eps: Seq<Endpoint>)
    ensures
        total_weight(eps) >= 0,
    decreases eps.len(),
{
    if eps.len() > 0 {
        lemma_total_weight_nonneg(eps.drop_first());
    }
}

/// The index the weighted draw `r` lands on: endpoints are laid side by
/// side, each covering a stretch as long as its weight, and the draw
/// picks the stretch it falls into.
pub open spec fn spec_weighted_pick(eps: Seq<Endpoint>, draw: int) -> int
    decreases eps.len(),
{
    if eps.len() == 0 {
        0int
    } else if draw < eps[0].weight {
        0int
    } else {
        1 + spec_weighted_pick(eps.drop_first(), draw - eps[0].weight)
    }
}

/// A draw below the total weight lands on a real index, and never on a
/// weight-zero (drained) endpoint.
pub proof fn lemma_weighted_pick_in_range(eps: Seq<Endpoint>, draw: int)
    requires
        0 <= draw < total_weight(eps),
    ensures
        0 <= spec_weighted_pick(eps, draw) < eps.len(),
        eps[spec_weighted_pick(eps, draw)].weight > 0,
    decreases eps.len(),
{
    if eps.len() > 0 && draw >= eps[0].weight {
        lemma_weighted_pick_in_range(eps.drop_first(), draw - eps[0].weight);
    }
}

/// Uniform selection. The send and done hooks are no-ops.
#[derive(Debug)]
pub struct Random {}

impl Random {
    pub fn new() -> Random {
        Random {  }
    }

    /// Select one endpoint index uniformly.
    pub fn select_endpoint(&self, eps: &Vec<Endpoint>) -> (r: usize)
        requires
            eps@.len() > 0,
        ensures
            r < eps@.len(),
    {
        gen_below(eps.len())
    }
}

/// Weight-proportional selection. The send and done hooks are no-ops.
#[derive(Debug)]
pub struct WeightedRandom {}

impl WeightedRandom {
    pub fn new() -> WeightedRandom {
        WeightedRandom {  }
    }

    /// The deterministic core: the endpoint the draw lands on. Given
    /// the same draw and endpoint list, the same endpoint is chosen.
    pub fn pick(eps: &Vec<Endpoint>, draw: usize) -> (r: usize)
        requires
            draw < total_weight(eps@),
            total_weight(eps@) <= usize::MAX,
        ensures
            r == spec_weighted_pick(eps@, draw as int),
            r < eps@.len(),
            eps@[r as int].weight > 0,
    {
        proof {
            lemma_weighted_pick_in_range(eps@, draw as int);
            assert(eps@.skip(0) =~= eps@);
        }
        let ghost total = total_weight(eps@);
        let n = eps.len();
        let mut curr: usize = 0;
        let mut i: usize = 0;
        loop
            invariant
                n == eps@.len(),
                0 <= i <= eps@.len(),
                curr + total_weight(eps@.skip(i as int)) == total,
                total <= usize::MAX,
                0 <= curr <= draw < total,
                spec_weighted_pick(eps@, draw as int) == i + spec_weighted_pick(
                    eps@.skip(i as int),
                    draw - curr,
                ),
            decreases eps@.len() - i,
        {
            proof {
                lemma_total_weight_nonneg(eps@.skip(i as int));
                if i == eps@.len() {
                    assert(total_weight(eps@.skip(i as int)) == 0);
                    assert(false);
                }
                lemma_total_weight_skip(eps@, i as int);
                lemma_total_weight_nonneg(eps@.skip(i + 1));
            }
            let w = eps[i].weight;
            if draw < curr + w {
                proof {
                    assert(eps@.skip(i as int)[0] == eps@[i as int]);
                }
                return i;
            }
            proof {
                assert(eps@.skip(i as int)[0] == eps@[i as int]);
                assert(eps@.skip(i as int).drop_first() =~= eps@.skip(i + 1));
            }
            curr = curr + w;
            i = i + 1;
        }
    }

    /// Select an endpoint index with probability proportional to its
    /// weight: some draw below the total weight decides.
    pub fn select_endpoint(&self, eps: &Vec<Endpoint>) -> (r: usize)
        requires
            0 < total_weight(eps@),
            total_weight(eps@) <= usize::MAX,
        ensures
            exists|d: int| 0 <= d < total_weight(eps@) && r == spec_weighted_pick(eps@, d),
            r < eps@.len(),
            eps@[r as int].weight > 0,
    {
        proof {
            lemma_total_weight_nonneg(eps@);
        }
        let ghost total_g = total_weight(eps@);
        let mut total: usize = 0;
        let mut i: usize = 0;
        proof {
            assert(eps@.skip(0) =~= eps@);
        }
        while i < eps.len()
            invariant
                0 <= i <= eps@.len(),
                total + total_weight(eps@.skip(i as int)) == total_g,
                total_g <= usize::MAX,
                total >= 0,
            decreases eps@.len() - i,
        {
            proof {
                lemma_total_weight_skip(eps@, i as int);
                lemma_total_weight_nonneg(eps@.skip(i + 1));
            }
            total = total + eps[i].weight;
            i = i + 1;
        }
        proof {
            assert(eps@.skip(eps@.len() as int) =~= Seq::<Endpoint>::empty());
        }
        let draw = gen_below(total);
        let r = Self::pick(eps, draw);
        proof {
            assert(0 <= draw < total_weight(eps@) && r == spec_weighted_pick(eps@, draw as int));
        }
        r
    }
}


/// First-match lookup of a counter entry by endpoint target.
pub open spec fn spec_conn_count(m: Seq<(String, usize)>, t: Seq<char>) -> Option<usize>
    decreases m.len(),
{
    if m.len() == 0 {
        None
    } else if m[0].0@ == t {
        Some(m[0].1)
    } else {
        spec_conn_count(m.drop_first(), t)
    }
}

/// Every key occurs at most once in the counter list.
pub open spec fn conn_keys_unique(m: Seq<(String, usize)>) -> bool {
    forall|i: int, j: int| 0 <= i < j < m.len() ==> m[i].0@ != m[j].0@
}

/// One observation or release of an endpoint's in-flight counter.
pub enum CounterEvent {
    Send(Seq<char>),
    Done(Seq<char>),
}

/// The counter of `t`, reading an absent entry as zero.
pub open spec fn spec_get0(m: Map<Seq<char>, nat>, t: Seq<char>) -> nat {
    if m.dom().contains(t) {
        m[t]
    } else {
        0
    }
}

/// One event applied to the counters: a send increments, a done
/// decrements but never below zero.
pub open spec fn spec_apply_event(m: Map<Seq<char>, nat>, e: CounterEvent) -> Map<Seq<char>, nat> {
    match e {
        CounterEvent::Send(t) => m.insert(t, spec_get0(m, t) + 1),
        CounterEvent::Done(t) => if m.dom().contains(t) {
            m.insert(
                t,
                if spec_get0(m, t) > 0 {
                    (spec_get0(m, t) - 1) as nat
                } else {
                    0
                },
            )
        } else {
            m
        },
    }
}

/// A whole sequence of events applied in order.
pub open spec fn spec_run_events(m: Map<Seq<char>, nat>, evs: Seq<CounterEvent>) -> Map<
    Seq<char>,
    nat,
>
    decreases evs.len(),
{
    if evs.len() == 0 {
        m
    } else {
        spec_run_events(spec_apply_event(m, evs[0]), evs.drop_first())
    }
}

/// How many sends of `t` a sequence holds.
pub open spec fn count_sends(evs: Seq<CounterEvent>, t: Seq<char>) -> int
    decreases evs.len(),
{
    if evs.len() == 0 {
        0int
    } else {
        (match evs[0] {
            CounterEvent::Send(u) => if u == t {
                1int
            } else {
                0int
            },
            CounterEvent::Done(_) => 0int,
        }) + count_sends(evs.drop_first(), t)
    }
}

/// How many dones of `t` a sequence holds.
pub open spec fn count_dones(evs: Seq<CounterEvent>, t: Seq<char>) -> int
    decreases evs.len(),
{
    if evs.len() == 0 {
        0int
    } else {
        (match evs[0] {
            CounterEvent::Done(u) => if u == t {
                1int
            } else {
                0int
            },
            CounterEvent::Send(_) => 0int,
        }) + count_dones(evs.drop_first(), t)
    }
}


/// A lookup that finds nothing means no entry carries the key.
proof fn lemma_conn_count_none_no_key(m: Seq<(String, usize)>, t: Seq<char>)
    requires
        spec_conn_count(m, t) is None,
    ensures
        forall|j: int| 0 <= j < m.len() ==> m[j].0@ != t,
    decreases m.len(),
{
    if m.len() > 0 {
        assert(m[0].0@ != t);
        lemma_conn_count_none_no_key(m.drop_first(), t);
        assert forall|j: int| 0 <= j < m.len() implies m[j].0@ != t by {
            if j > 0 {
                assert(m.drop_first()[j - 1] == m[j]);
            }
        }
    }
}

/// Overwriting the entry at `i` with the same key rewrites that key's
/// counter and nothing else.
proof fn lemma_conn_count_after_update(
    m: Seq<(String, usize)>,
    i: int,
    v: (String, usize),
    t: Seq<char>,
)
    requires
        conn_keys_unique(m),
        0 <= i < m.len(),
        v.0@ == m[i].0@,
    ensures
        spec_conn_count(m.update(i, v), t) == (if t == v.0@ {
            Some(v.1)
        } else {
            spec_conn_count(m, t)
        }),
    decreases m.len(),
{
    let u = m.update(i, v);
    if i == 0 {
        assert(u[0] == v);
        if t != v.0@ {
            assert(u.drop_first() =~= m.drop_first());
        }
    } else {
        assert(u[0] == m[0]);
        if m[0].0@ == t {
            if t == v.0@ {
                assert(m[0].0@ == m[i].0@);
                assert(false);
            }
        } else {
            assert(u.drop_first() =~= m.drop_first().update(i - 1, v));
            assert(conn_keys_unique(m.drop_first())) by {
                assert(forall|a: int, b: int|
                    0 <= a < b < m.len() - 1 ==> m.drop_first()[a] == m[a + 1]
                        && m.drop_first()[b] == m[b + 1]);
            }
            assert(m.drop_first()[i - 1] == m[i]);
            lemma_conn_count_after_update(m.drop_first(), i - 1, v, t);
        }
    }
}

/// Appending an entry under a fresh key adds that key's counter and
/// leaves every other key's counter alone.
proof fn lemma_conn_count_after_push(m: Seq<(String, usize)>, v: (String, usize), t: Seq<char>)
    requires
        spec_conn_count(m, v.0@) is None,
    ensures
        spec_conn_count(m.push(v), t) == (if t == v.0@ {
            Some(v.1)
        } else {
            spec_conn_count(m, t)
        }),
    decreases m.len(),
{
    if m.len() == 0 {
        assert(m.push(v)[0] == v);
        if t != v.0@ {
            assert(m.push(v).drop_first() =~= Seq::<(String, usize)>::empty());
            assert(spec_conn_count(Seq::<(String, usize)>::empty(), t) is None);
        }
    } else {
        assert(m.push(v)[0] == m[0]);
        if m[0].0@ == t {
            if t == v.0@ {
                assert(false);
            }
        } else {
            assert(m[0].0@ != v.0@);
            assert(spec_conn_count(m.drop_first(), v.0@) is None);
            assert(m.push(v).drop_first() =~= m.drop_first().push(v));
            lemma_conn_count_after_push(m.drop_first(), v, t);
        }
    }
}

/// Tracks the number of requests in flight per endpoint target; selection
/// prefers untouched endpoints, then the lowest counter.
#[derive(Debug)]
pub struct LeastRequest {
    connections: Vec<(String, usize)>,
}

impl LeastRequest {
    /// The counters as a map from target to in-flight count.
    pub closed spec fn spec_counts(&self) -> Map<Seq<char>, nat> {
        Map::new(
            |t: Seq<char>| spec_conn_count(self.connections@, t) is Some,
            |t: Seq<char>| spec_conn_count(self.connections@, t)->Some_0 as nat,
        )
    }

    /// Each target holds at most one counter entry.
    pub closed spec fn wf(&self) -> bool {
        conn_keys_unique(self.connections@)
    }

    pub fn new() -> (r: LeastRequest)
        ensures
            r.wf(),
            r.spec_counts() =~= Map::<Seq<char>, nat>::empty(),
    {
        let r = LeastRequest { connections: Vec::new() };
        proof {
            assert(r.spec_counts() =~= Map::<Seq<char>, nat>::empty());
        }
        r
    }

    /// The entry index for `t`, if one exists.
    fn find_conn(&self, t: &str) -> (r: Option<usize>)
        ensures
            match r {
                Some(i) => i < self.connections@.len() && self.connections@[i as int].0@ == t@
                    && spec_conn_count(self.connections@, t@) == Some(
                    self.connections@[i as int].1,
                ),
                None => spec_conn_count(self.connections@, t@) is None,
            },
    {
        let n = self.connections.len();
        let mut i: usize = 0;
        proof {
            assert(self.connections@.skip(0) =~= self.connections@);
        }
        while i < n
            invariant
                i <= n,
                n == self.connections@.len(),
                spec_conn_count(self.connections@, t@) == spec_conn_count(
                    self.connections@.skip(i as int),
                    t@,
                ),
                forall|j: int| 0 <= j < i ==> self.connections@[j].0@ != t@,
            decreases n - i,
        {
            assert(self.connections@.skip(i as int)[0] == self.connections@[i as int]);
            if str_eq(self.connections[i].0.as_str(), t) {
                proof {
                    assert(spec_conn_count(self.connections@.skip(i as int), t@) == Some(
                        self.connections@[i as int].1,
                    ));
                }
                return Some(i);
            }
            proof {
                assert(self.connections@.skip(i as int).drop_first() =~= self.connections@.skip(
                    i + 1,
                ));
            }
            i = i + 1;
        }
        proof {
            assert(self.connections@.skip(n as int) =~= Seq::<(String, usize)>::empty());
        }
        None
    }

    /// Record that a request was handed to `endpoint`. A counter at the
    /// machine maximum stays put.
    pub fn on_send_request(&mut self, endpoint: &str)
        requires
            old(self).wf(),
        ensures
            final(self).wf(),
            spec_get0(old(self).spec_counts(), endpoint@) < usize::MAX ==> final(self).spec_counts()
                == spec_apply_event(old(self).spec_counts(), CounterEvent::Send(endpoint@)),
            spec_get0(old(self).spec_counts(), endpoint@) >= usize::MAX ==> final(self).spec_counts()
                == old(self).spec_counts(),
    {
        let ghost m0 = self.connections@;
        match self.find_conn(endpoint) {
            Some(i) => {
                let key = self.connections[i].0.clone();
                let c = self.connections[i].1;
                if c == usize::MAX {
                    return ;
                }
                self.connections.set(i, (key, c + 1));
                proof {
                    assert(self.connections@ =~= m0.update(i as int, self.connections@[i as int]));
                    assert(self.connections@[i as int].0@ == endpoint@);
                    assert forall|t: Seq<char>|
                        spec_conn_count(self.connections@, t) == (if t == endpoint@ {
                            Some((c + 1) as usize)
                        } else {
                            spec_conn_count(m0, t)
                        }) by {
                        lemma_conn_count_after_update(
                            m0,
                            i as int,
                            self.connections@[i as int],
                            t,
                        );
                    }
                    assert(conn_keys_unique(self.connections@)) by {
                        assert(forall|j: int|
                            0 <= j < m0.len() ==> self.connections@[j].0@ == m0[j].0@);
                    }
                    assert(final(self).spec_counts() =~= spec_apply_event(
                        old(self).spec_counts(),
                        CounterEvent::Send(endpoint@),
                    ));
                }
            },
            None => {
                let entry = (String::from_str(endpoint), 1usize);
                proof {
                    lemma_conn_count_none_no_key(m0, endpoint@);
                }
                self.connections.push(entry);
                proof {
                    assert forall|t: Seq<char>|
                        spec_conn_count(self.connections@, t) == (if t == endpoint@ {
                            Some(1usize)
                        } else {
                            spec_conn_count(m0, t)
                        }) by {
                        lemma_conn_count_after_push(m0, (entry.0, entry.1), t);
                        assert(self.connections@ =~= m0.push((entry.0, entry.1)));
                    }
                    assert(conn_keys_unique(self.connections@)) by {
                        assert(forall|j: int| 0 <= j < m0.len() ==> self.connections@[j] == m0[j]);
                        assert(self.connections@[m0.len() as int].0@ == endpoint@);
                    }
                    assert(final(self).spec_counts() =~= spec_apply_event(
                        old(self).spec_counts(),
                        CounterEvent::Send(endpoint@),
                    ));
                }
            },
        }
    }

    /// Record that a request to `endpoint` finished. An absent or zero
    /// counter stays at zero.
    pub fn on_request_done(&mut self, endpoint: &str)
        requires
            old(self).wf(),
        ensures
            final(self).wf(),
            final(self).spec_counts() == spec_apply_event(
                old(self).spec_counts(),
                CounterEvent::Done(endpoint@),
            ),
    {
        let ghost m0 = self.connections@;
        match self.find_conn(endpoint) {
            Some(i) => {
                let key = self.connections[i].0.clone();
                let c = self.connections[i].1;
                let newc = if c > 0 {
                    c - 1
                } else {
                    0
                };
                self.connections.set(i, (key, newc));
                proof {
                    assert(self.connections@ =~= m0.update(i as int, self.connections@[i as int]));
                    assert(self.connections@[i as int].0@ == endpoint@);
                    assert forall|t: Seq<char>|
                        spec_conn_count(self.connections@, t) == (if t == endpoint@ {
                            Some(newc)
                        } else {
                            spec_conn_count(m0, t)
                        }) by {
                        lemma_conn_count_after_update(
                            m0,
                            i as int,
                            self.connections@[i as int],
                            t,
                        );
                    }
                    assert(conn_keys_unique(self.connections@)) by {
                        assert(forall|j: int|
                            0 <= j < m0.len() ==> self.connections@[j].0@ == m0[j].0@);
                    }
                    assert(final(self).spec_counts() =~= spec_apply_event(
                        old(self).spec_counts(),
                        CounterEvent::Done(endpoint@),
                    ));
                }
            },
            None => {
                proof {
                    assert(final(self).spec_counts() =~= spec_apply_event(
                        old(self).spec_counts(),
                        CounterEvent::Done(endpoint@),
                    ));
                }
            },
        }
    }

    /// Whether endpoint `i` has never been counted.
    pub open spec fn spec_unused(counts: Map<Seq<char>, nat>, eps: Seq<Endpoint>, i: int) -> bool {
        !counts.dom().contains(eps[i].target@)
    }

    /// Whether endpoint `i` carries the least in-flight count.
    pub open spec fn spec_is_min(counts: Map<Seq<char>, nat>, eps: Seq<Endpoint>, i: int) -> bool {
        forall|j: int|
            0 <= j < eps.len() ==> spec_get0(counts, eps[i].target@) <= spec_get0(
                counts,
                #[trigger] eps[j].target@,
            )
    }

    /// Select an endpoint index: an uncounted endpoint if any exists,
    /// otherwise one whose in-flight count is minimal.
    pub fn select_endpoint(&self, eps: &Vec<Endpoint>) -> (r: usize)
        requires
            eps@.len() > 0,
        ensures
            r < eps@.len(),
            (exists|i: int|
                0 <= i < eps@.len() && Self::spec_unused(self.spec_counts(), eps@, i))
                ==> Self::spec_unused(self.spec_counts(), eps@, r as int),
            (forall|i: int|
                0 <= i < eps@.len() ==> !Self::spec_unused(self.spec_counts(), eps@, i))
                ==> Self::spec_is_min(self.spec_counts(), eps@, r as int),
    {
        let n = eps.len();
        let mut unused: Vec<usize> = Vec::new();
        let mut i: usize = 0;
        while i < n
            invariant
                i <= n,
                n == eps@.len(),
                forall|k: int|
                    0 <= k < unused@.len() ==> unused@[k] < eps@.len() && Self::spec_unused(
                        self.spec_counts(),
                        eps@,
                        #[trigger] unused@[k] as int,
                    ),
                (exists|j: int| 0 <= j < i && Self::spec_unused(self.spec_counts(), eps@, j))
                    <==> unused@.len() > 0,
            decreases n - i,
        {
            match self.find_conn(eps[i].target.as_str()) {
                None => {
                    unused.push(i);
                    assert(Self::spec_unused(self.spec_counts(), eps@, i as int));
                },
                Some(_) => {
                    assert(!Self::spec_unused(self.spec_counts(), eps@, i as int));
                },
            }
            i = i + 1;
        }
        if unused.len() > 0 {
            let k = gen_below(unused.len());
            let r = unused[k];
            return r;
        }
        assert(forall|j: int|
            0 <= j < eps@.len() ==> !Self::spec_unused(self.spec_counts(), eps@, j));
        // every endpoint has a counter: find the least one
        let mut min_val: usize = match self.find_conn(eps[0].target.as_str()) {
            Some(ix) => self.connections[ix].1,
            None => 0,  // unreachable: every endpoint is counted
        };
        assert(min_val == spec_get0(self.spec_counts(), eps@[0].target@));
        let mut i: usize = 1;
        while i < n
            invariant
                1 <= i <= n,
                n == eps@.len(),
                forall|j: int| 0 <= j < eps@.len() ==> !Self::spec_unused(self.spec_counts(), eps@, j),
                forall|j: int|
                    0 <= j < i ==> min_val <= spec_get0(
                        self.spec_counts(),
                        #[trigger] eps@[j].target@,
                    ),
                exists|j: int|
                    0 <= j < i && min_val == spec_get0(
                        self.spec_counts(),
                        #[trigger] eps@[j].target@,
                    ),
            decreases n - i,
        {
            let c = match self.find_conn(eps[i].target.as_str()) {
                Some(ix) => self.connections[ix].1,
                None => 0,  // unreachable: every endpoint is counted
            };
            assert(c == spec_get0(self.spec_counts(), eps@[i as int].target@));
            if c < min_val {
                min_val = c;
            }
            i = i + 1;
        }
        let mut mins: Vec<usize> = Vec::new();
        let mut i: usize = 0;
        while i < n
            invariant
                i <= n,
                n == eps@.len(),
                forall|j: int| 0 <= j < eps@.len() ==> !Self::spec_unused(self.spec_counts(), eps@, j),
                forall|j: int|
                    0 <= j < eps@.len() ==> min_val <= spec_get0(
                        self.spec_counts(),
                        #[trigger] eps@[j].target@,
                    ),
                forall|k: int|
                    0 <= k < mins@.len() ==> mins@[k] < eps@.len() && spec_get0(
                        self.spec_counts(),
                        eps@[#[trigger] mins@[k] as int].target@,
                    ) == min_val,
                (exists|j: int|
                    0 <= j < i && spec_get0(self.spec_counts(), #[trigger] eps@[j].target@)
                        == min_val) <==> mins@.len() > 0,
            decreases n - i,
        {
            let c = match self.find_conn(eps[i].target.as_str()) {
                Some(ix) => self.connections[ix].1,
                None => 0,  // unreachable: every endpoint is counted
            };
            assert(c == spec_get0(self.spec_counts(), eps@[i as int].target@));
            if c == min_val {
                mins.push(i);
            }
            i = i + 1;
        }
        let k = gen_below(mins.len());
        let r = mins[k];
        assert(Self::spec_is_min(self.spec_counts(), eps@, r as int));
        r
    }
}

/// When counters never run below zero along the way, a sequence of sends
/// and dones moves each counter by exactly its send-done surplus.
pub proof fn lemma_counter_balance(
    m0: Map<Seq<char>, nat>,
    evs: Seq<CounterEvent>,
    t: Seq<char>,
)
    requires
        forall|k: int|
            0 <= k <= evs.len() ==> count_dones(#[trigger] evs.take(k), t) <= spec_get0(m0, t)
                + count_sends(evs.take(k), t),
    ensures
        spec_get0(spec_run_events(m0, evs), t) == spec_get0(m0, t) + count_sends(evs, t)
            - count_dones(evs, t),
    decreases evs.len(),
{
    if evs.len() == 0 {
    } else {
        let e = evs[0];
        let m1 = spec_apply_event(m0, e);
        let tail = evs.drop_first();
        assert(evs.take(1).drop_first() =~= Seq::<CounterEvent>::empty());
        assert(evs.take(1)[0] == evs[0]);
        assert(evs.take(1).len() == 1);
        assert(count_dones(Seq::<CounterEvent>::empty(), t) == 0);
        assert(count_sends(Seq::<CounterEvent>::empty(), t) == 0);
        assert(count_dones(evs.take(1), t) <= spec_get0(m0, t) + count_sends(evs.take(1), t));
        assert forall|k: int| 0 <= k <= tail.len() implies count_dones(
            #[trigger] tail.take(k),
            t,
        ) <= spec_get0(m1, t) + count_sends(tail.take(k), t) by {
            assert(evs.take(k + 1).drop_first() =~= tail.take(k));
            assert(evs.take(k + 1)[0] == evs[0]);
            assert(count_dones(evs.take(k + 1), t) <= spec_get0(m0, t) + count_sends(
                evs.take(k + 1),
                t,
            ));
        }
        match e {
            CounterEvent::Send(u) => {
                if u == t {
                    assert(spec_get0(m1, t) == spec_get0(m0, t) + 1);
                } else {
                    assert(spec_get0(m1, t) == spec_get0(m0, t));
                }
            },
            CounterEvent::Done(u) => {
                if u == t {
                    assert(count_dones(evs.take(1), t) == 1);
                    assert(count_sends(evs.take(1), t) == 0);
                    assert(spec_get0(m0, t) >= 1);
                    assert(spec_get0(m1, t) == spec_get0(m0, t) - 1);
                } else {
                    assert(spec_get0(m1, t) == spec_get0(m0, t));
                }
            },
        }
        lemma_counter_balance(m1, tail, t);
        assert(evs.take(evs.len() as int) =~= evs);
    }
}

/// A sequence that nets to zero for an endpoint, and never releases more
/// than it sent, leaves that endpoint's counter where it started.
pub proof fn lemma_net_zero_restores_counter(
    m0: Map<Seq<char>, nat>,
    evs: Seq<CounterEvent>,
    t: Seq<char>,
)
    requires
        forall|k: int|
            0 <= k <= evs.len() ==> count_dones(#[trigger] evs.take(k), t) <= spec_get0(m0, t)
                + count_sends(evs.take(k), t),
        count_sends(evs, t) == count_dones(evs, t),
    ensures
        spec_get0(spec_run_events(m0, evs), t) == spec_get0(m0, t),
{
    lemma_counter_balance(m0, evs, t);
}

} // verus!
