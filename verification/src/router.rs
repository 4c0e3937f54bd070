use crate::config::{RouteConfig, RouteConfigView};
use crate::error::ConfigError;
use crate::matcher::{MatcherView, RouteMatcher};
use crate::parse::spec_parse_matcher;
use crate::plugins::{
    init_plugin, plugin_views, sort_plugins, spec_init_plugin, spec_sort_plugins, Plugin,
    PluginConfigView, PluginView,
};
use crate::strutil::str_eq;
use vstd::prelude::*;
use vstd::string::StringExecFns;

verus! {

#[verifier::external_type_specification]
#[verifier::external_body]
#[verifier::reject_recursive_types(T)]
pub struct ExPathRouter<T>(pathrouter::TreeRouter<T>);

/// The raw trie, mapping URI patterns to slot numbers. The tree-walking
/// router is used: its lookup answers `None` for a path that only
/// reaches an intermediate node, where the automaton-based router in
/// the same crate unwraps a missing entry and panics on any request
/// path that is a static prefix of a registered pattern.
pub type RawTrie = pathrouter::TreeRouter<usize>;

/// The node key the trie derives from a pattern: one leading slash is
/// insignificant and parameter and wildcard segments match by position,
/// not by name, so distinct pattern texts can share one node. Two
/// patterns resolve to the same node exactly when their normalized
/// forms are equal.
pub uninterp spec fn trie_normal_of(pattern: Seq<char>) -> Seq<char>;

/// What the trie holds: the slot number stored at each added pattern's
/// node, keyed by the pattern's normalized form.
pub uninterp spec fn trie_entries(r: RawTrie) -> Map<Seq<char>, usize>;

/// Which stored slot a path lookup lands on, as a function of the
/// stored entries and the path alone.
pub uninterp spec fn trie_route(entries: Map<Seq<char>, usize>, path: Seq<char>) -> Option<usize>;

/// Relies on `pathrouter::TreeRouter::new`; what the fresh trie holds
/// is stated by `trie_reset`, which callers pair this with.
#[verifier::external_body]
fn trie_new() -> RawTrie {
    pathrouter::TreeRouter::new()
}

/// Relies on `pathrouter::TreeRouter::new`: a freshly built trie
/// replaces the held one, and nothing of the old entries survives into
/// it.
#[verifier::external_body]
fn trie_reset(r: &mut RawTrie)
    ensures
        trie_entries(*final(r)) == trie_entries(*old(r)).restrict(Set::<Seq<char>>::empty()),
{
    *r = pathrouter::TreeRouter::new();
}

/// Relies on `pathrouter::TreeRouter::at_or_default`: assigning through
/// it stores the slot at the pattern's node, replacing what that node
/// held.
#[verifier::external_body]
fn trie_set(r: &mut RawTrie, pattern: &str, slot: usize)
    ensures
        trie_entries(*final(r)) == trie_entries(*old(r)).insert(trie_normal_of(pattern@), slot),
{
    *r.at_or_default(pattern) = slot;
}

/// Relies on `pathrouter::TreeRouter::{new, at_or_default}`: whether
/// two patterns resolve to one trie node, probed in a scratch trie.
/// Node identity is a function of the two pattern texts alone.
#[verifier::external_body]
fn trie_same_node(a: &str, b: &str) -> (r: bool)
    ensures
        r == (trie_normal_of(a@) == trie_normal_of(b@)),
{
    let mut probe: RawTrie = pathrouter::TreeRouter::new();
    *probe.at_or_default(a) = 1;
    *probe.at_or_default(b) == 1
}

/// Relies on `pathrouter::TreeRouter::route`: the slot stored at the
/// node the path resolves to, or `None` when no stored node is reached
/// — a total lookup. The result is one of the stored slots, and which
/// one depends on the stored entries and the path alone.
#[verifier::external_body]
fn trie_get(r: &RawTrie, path: &str) -> (res: Option<usize>)
    ensures
        match res {
            Some(k) => trie_route(trie_entries(*r), path@) == Some(k) && exists|p: Seq<char>|
                trie_entries(*r).dom().contains(p) && trie_entries(*r)[p] == k,
            None => trie_route(trie_entries(*r), path@) is None,
        },
{
    r.route(path).map(|(slot, _params)| *slot)
}

/// A route as the dispatcher uses it: predicate parsed, plugins built
/// and ordered.
#[derive(Debug)]
pub struct Route {
    pub id: String,
    pub matcher: RouteMatcher,
    pub upstream_id: String,
    pub overwrite_host: bool,
    pub priority: u32,
    pub plugins: Vec<Plugin>,
}

pub struct RouteView {
    pub id: Seq<char>,
    pub matcher: MatcherView,
    pub upstream_id: Seq<char>,
    pub overwrite_host: bool,
    pub priority: u32,
    pub plugins: Seq<PluginView>,
}

impl View for Route {
    type V = RouteView;

    open spec fn view(&self) -> RouteView {
        RouteView {
            id: self.id@,
            matcher: self.matcher@,
            upstream_id: self.upstream_id@,
            overwrite_host: self.overwrite_host,
            priority: self.priority,
            plugins: plugin_views(self.plugins@),
        }
    }
}

/// What building each configured plugin yields: all must build.
pub open spec fn spec_build_plugins(cfgs: Seq<PluginConfigView>) -> Option<Seq<PluginView>>
    decreases cfgs.len(),
{
    if cfgs.len() == 0 {
        Some(Seq::<PluginView>::empty())
    } else {
        match spec_init_plugin(cfgs[0].setting) {
            Some(p) => match spec_build_plugins(cfgs.drop_first()) {
                Some(t) => Some(seq![p] + t),
                None => None,
            },
            None => None,
        }
    }
}

/// What building a route yields: a named upstream, a predicate that
/// parses, and plugins that build, sorted by priority descending.
pub open spec fn spec_build_route(cfg: RouteConfigView) -> Option<RouteView> {
    if cfg.upstream_id.len() == 0 {
        None
    } else {
        match spec_parse_matcher(cfg.matcher) {
            None => None,
            Some(m) => match spec_build_plugins(cfg.plugins) {
                None => None,
                Some(ps) => Some(
                    RouteView {
                        id: cfg.id,
                        matcher: m,
                        upstream_id: cfg.upstream_id,
                        overwrite_host: cfg.overwrite_host,
                        priority: cfg.priority,
                        plugins: spec_sort_plugins(ps),
                    },
                ),
            },
        }
    }
}

impl Route {
    /// Build a route from its configuration.
    pub fn new(cfg: &RouteConfig) -> (r: Result<Route, ConfigError>)
        ensures
            match r {
                Ok(rt) => spec_build_route(cfg@) == Some(rt@),
                Err(e) => spec_build_route(cfg@) is None && (e is MatcherParse || (
                e is UpstreamNotFound && e->UpstreamNotFound_0@ == "UpstreamId missing"@)),
            },
    {
        if cfg.upstream_id.as_str().unicode_len() == 0 {
            return Err(ConfigError::UpstreamNotFound(String::from_str("UpstreamId missing")));
        }
        let matcher = match RouteMatcher::parse(cfg.matcher.as_str()) {
            Ok(m) => m,
            Err(e) => {
                return Err(ConfigError::MatcherParse(e));
            },
        };
        let mut plugins: Vec<Plugin> = Vec::new();
        let n = cfg.plugins.len();
        let mut i: usize = 0;
        proof {
            assert(cfg@.plugins.skip(0) =~= cfg@.plugins);
            assert(cfg@.plugins.len() == cfg.plugins@.len());
        }
        while i < n
            invariant
                i <= n,
                n == cfg.plugins@.len(),
                cfg@.plugins.len() == n,
                forall|j: int| 0 <= j < n ==> cfg@.plugins[j] == cfg.plugins@[j]@,
                match spec_build_plugins(cfg@.plugins.skip(i as int)) {
                    Some(t) => spec_build_plugins(cfg@.plugins) == Some(plugin_views(plugins@) + t),
                    None => spec_build_plugins(cfg@.plugins) is None,
                },
            decreases n - i,
        {
            assert(cfg@.plugins.skip(i as int)[0] == cfg@.plugins[i as int]);
            match init_plugin(&cfg.plugins[i].setting) {
                Ok(p) => {
                    let ghost prev = plugin_views(plugins@);
                    let ghost pv = p@;
                    plugins.push(p);
                    proof {
                        assert(plugin_views(plugins@) =~= prev.push(pv));
                        assert(cfg@.plugins.skip(i as int).drop_first() =~= cfg@.plugins.skip(
                            i + 1,
                        ));
                        if spec_build_plugins(cfg@.plugins.skip(i + 1)) is Some {
                            let t = spec_build_plugins(cfg@.plugins.skip(i + 1))->Some_0;
                            assert(prev + (seq![pv] + t) =~= prev.push(pv) + t);
                        }
                    }
                },
                Err(e) => {
                    return Err(e);
                },
            }
            i = i + 1;
        }
        proof {
            assert(cfg@.plugins.skip(n as int) =~= Seq::<PluginConfigView>::empty());
            assert(plugin_views(plugins@) + Seq::<PluginView>::empty() =~= plugin_views(plugins@));
        }
        let plugins = sort_plugins(plugins);
        Ok(
            Route {
                id: cfg.id.clone(),
                matcher,
                upstream_id: cfg.upstream_id.clone(),
                overwrite_host: cfg.overwrite_host,
                priority: cfg.priority,
                plugins,
            },
        )
    }
}

// ---------------------------------------------------------------------
// The path trie and its per-pattern route lists.
// ---------------------------------------------------------------------
/// A route-list entry: the route's index in the registry's route table,
/// with that route's priority.
pub type RouteEntry = (usize, u32);

/// Priorities never increase along a list.
pub open spec fn route_list_sorted(list: Seq<RouteEntry>) -> bool {
    forall|a: int, b: int| 0 <= a < b < list.len() ==> list[a].1 >= list[b].1
}

/// Stable insertion into a descending list: the new entry goes after
/// every entry of equal or higher priority, so ties keep insertion
/// order.
pub open spec fn spec_insert_route_entry(list: Seq<RouteEntry>, e: RouteEntry) -> Seq<RouteEntry>
    decreases list.len(),
{
    if list.len() == 0 {
        seq![e]
    } else if e.1 > list[0].1 {
        seq![e] + list
    } else {
        seq![list[0]] + spec_insert_route_entry(list.drop_first(), e)
    }
}

/// Inserting at the boundary the exec search finds is the stable
/// insertion.
proof fn lemma_route_insert_at(list: Seq<RouteEntry>, e: RouteEntry, k: int)
    requires
        route_list_sorted(list),
        0 <= k <= list.len(),
        forall|j: int| 0 <= j < k ==> (#[trigger] list[j]).1 >= e.1,
        k < list.len() ==> e.1 > list[k].1,
    ensures
        spec_insert_route_entry(list, e) == list.subrange(0, k) + seq![e] + list.subrange(
            k,
            list.len() as int,
        ),
        route_list_sorted(
            list.subrange(0, k) + seq![e] + list.subrange(k, list.len() as int),
        ),
    decreases list.len(),
{
    let merged = list.subrange(0, k) + seq![e] + list.subrange(k, list.len() as int);
    assert forall|a: int, b: int| 0 <= a < b < merged.len() implies merged[a].1 >= merged[b].1 by {
        if a < k {
            assert(merged[a] == list[a]);
        } else if a == k {
            assert(merged[a] == e);
        } else {
            assert(merged[a] == list[a - 1]);
        }
        if b < k {
            assert(merged[b] == list[b]);
        } else if b == k {
            assert(merged[b] == e);
        } else {
            assert(merged[b] == list[b - 1]);
        }
    }
    if list.len() == 0 {
        assert(spec_insert_route_entry(list, e) =~= merged);
    } else if e.1 > list[0].1 {
        assert(k == 0);
        assert(spec_insert_route_entry(list, e) =~= merged);
    } else {
        assert(k >= 1);
        let rest = list.drop_first();
        assert(route_list_sorted(rest)) by {
            assert(forall|a: int| 0 <= a < rest.len() ==> rest[a] == list[a + 1]);
        }
        assert(forall|j: int| 0 <= j < k - 1 ==> (#[trigger] rest[j]).1 >= e.1) by {
            assert(forall|a: int| 0 <= a < rest.len() ==> rest[a] == list[a + 1]);
        }
        assert(k - 1 < rest.len() ==> e.1 > rest[k - 1].1) by {
            if k - 1 < rest.len() {
                assert(rest[k - 1] == list[k]);
            }
        }
        lemma_route_insert_at(rest, e, k - 1);
        assert(seq![list[0]] + (rest.subrange(0, k - 1) + seq![e] + rest.subrange(
            k - 1,
            rest.len() as int,
        )) =~= merged);
    }
}

/// The view of the pattern table.
pub open spec fn table_view(t: Seq<(String, Vec<RouteEntry>)>) -> Seq<(Seq<char>, Seq<RouteEntry>)> {
    t.map_values(|p: (String, Vec<RouteEntry>)| (p.0@, p.1@))
}

/// A prefix/param path trie mapping each URI pattern to its route list,
/// ordered by priority descending.
#[derive(Debug)]
pub struct PathRouter {
    trie: RawTrie,
    table: Vec<(String, Vec<RouteEntry>)>,
}

impl View for PathRouter {
    type V = Seq<(Seq<char>, Seq<RouteEntry>)>;

    closed spec fn view(&self) -> Seq<(Seq<char>, Seq<RouteEntry>)> {
        table_view(self.table@)
    }
}

/// A copy of a route-entry list.
fn clone_entries(v: &Vec<RouteEntry>) -> (r: Vec<RouteEntry>)
    ensures
        r@ == v@,
{
    let mut out: Vec<RouteEntry> = Vec::new();
    let mut i: usize = 0;
    while i < v.len()
        invariant
            i <= v@.len(),
            out@ =~= v@.subrange(0, i as int),
        decreases v@.len() - i,
    {
        out.push(v[i]);
        assert(out@ =~= v@.subrange(0, i + 1));
        i = i + 1;
    }
    proof {
        assert(out@ =~= v@);
    }
    out
}

impl PathRouter {
    spec fn spec_trie(&self) -> RawTrie {
        self.trie
    }

    /// Each table slot is one trie node (no two stored patterns share a
    /// normalized form), the trie maps exactly those nodes to their
    /// slots, and every list is sorted by priority descending.
    pub closed spec fn wf(&self) -> bool {
        &&& forall|i: int, j: int|
            0 <= i < j < self.table@.len() ==> trie_normal_of((#[trigger] self.table@[i]).0@)
                != trie_normal_of((#[trigger] self.table@[j]).0@)
        &&& forall|j: int|
            0 <= j < self.table@.len() ==> trie_entries(self.trie).dom().contains(
                trie_normal_of((#[trigger] self.table@[j]).0@),
            ) && trie_entries(self.trie)[trie_normal_of(self.table@[j].0@)] == j
        &&& forall|p: Seq<char>|
            trie_entries(self.trie).dom().contains(p) ==> #[trigger] trie_entries(self.trie)[p]
                < self.table@.len() && trie_normal_of(
                self.table@[trie_entries(self.trie)[p] as int].0@,
            ) == p
        &&& forall|j: int|
            0 <= j < self.table@.len() ==> route_list_sorted((#[trigger] self.table@[j]).1@)
    }

    pub fn new() -> (r: PathRouter)
        ensures
            r.wf(),
            r@ == Seq::<(Seq<char>, Seq<RouteEntry>)>::empty(),
    {
        let mut trie = trie_new();
        trie_reset(&mut trie);
        let r = PathRouter { trie, table: Vec::new() };
        proof {
            assert(trie_entries(r.spec_trie()).dom() =~= Set::<Seq<char>>::empty());
            assert(r@ =~= Seq::<(Seq<char>, Seq<RouteEntry>)>::empty());
        }
        r
    }

    /// The first slot whose pattern shares `pattern`'s trie node, if any
    /// pattern was added for that node.
    fn find_pattern(&self, pattern: &str) -> (r: Option<usize>)
        ensures
            match r {
                Some(j) => j < self.table@.len() && trie_normal_of(self.table@[j as int].0@)
                    == trie_normal_of(pattern@) && (forall|i: int|
                    0 <= i < j ==> trie_normal_of((#[trigger] self.table@[i]).0@)
                        != trie_normal_of(pattern@)),
                None => forall|j: int|
                    0 <= j < self.table@.len() ==> trie_normal_of((#[trigger] self.table@[j]).0@)
                        != trie_normal_of(pattern@),
            },
    {
        let n = self.table.len();
        let mut i: usize = 0;
        while i < n
            invariant
                i <= n,
                n == self.table@.len(),
                forall|j: int|
                    0 <= j < i ==> trie_normal_of((#[trigger] self.table@[j]).0@)
                        != trie_normal_of(pattern@),
            decreases n - i,
        {
            if trie_same_node(self.table[i].0.as_str(), pattern) {
                return Some(i);
            }
            i = i + 1;
        }
        None
    }

    /// The table after one route entry lands under one pattern.
    /// Patterns compare by their normalized forms: a pattern that
    /// shares a stored pattern's trie node grows that slot's list by
    /// stable insertion (the slot keeps the pattern it was created
    /// with); otherwise a new slot is appended with a singleton list.
    pub open spec fn spec_insert(
        t: Seq<(Seq<char>, Seq<RouteEntry>)>,
        pattern: Seq<char>,
        e: RouteEntry,
    ) -> Seq<(Seq<char>, Seq<RouteEntry>)>
        decreases t.len(),
    {
        if t.len() == 0 {
            seq![(pattern, seq![e])]
        } else if trie_normal_of(t[0].0) == trie_normal_of(pattern) {
            seq![(t[0].0, spec_insert_route_entry(t[0].1, e))] + t.drop_first()
        } else {
            seq![t[0]] + Self::spec_insert(t.drop_first(), pattern, e)
        }
    }

    /// Add one route entry under one pattern, keeping the pattern's
    /// list ordered by priority descending, ties in insertion order.
    pub fn insert_route(&mut self, pattern: &str, idx: usize, priority: u32)
        requires
            old(self).wf(),
        ensures
            final(self).wf(),
            final(self)@ == Self::spec_insert(old(self)@, pattern@, (idx, priority)),
    {
        let e: RouteEntry = (idx, priority);
        match self.find_pattern(pattern) {
            Some(slot) => {
                let n = self.table[slot].1.len();
                let mut k: usize = 0;
                while k < n && self.table[slot].1[k].1 >= priority
                    invariant
                        k <= n,
                        slot < self.table@.len(),
                        n == self.table@[slot as int].1@.len(),
                        forall|j: int|
                            0 <= j < k ==> (#[trigger] self.table@[slot as int].1@[j]).1
                                >= priority,
                    decreases n - k,
                {
                    k = k + 1;
                }
                let ghost oldlist = self.table@[slot as int].1@;
                let ghost oldtable = self.table@;
                let key = self.table[slot].0.clone();
                let mut newlist = clone_entries(&self.table[slot].1);
                newlist.insert(k, e);
                self.table.set(slot, (key, newlist));
                proof {
                    lemma_route_insert_at(oldlist, e, k as int);
                    assert(self.table@[slot as int].1@ =~= spec_insert_route_entry(oldlist, e));
                    assert(self.table@[slot as int].0@ == oldtable[slot as int].0@);
                    lemma_spec_insert_existing(table_view(oldtable), pattern@, e, slot as int);
                    assert(self@ =~= table_view(oldtable).update(
                        slot as int,
                        (oldtable[slot as int].0@, spec_insert_route_entry(oldlist, e)),
                    ));
                    // the trie and every other slot are untouched
                    assert(forall|j: int|
                        0 <= j < self.table@.len() ==> (#[trigger] self.table@[j]).0@
                            == oldtable[j].0@);
                    assert(forall|j: int|
                        0 <= j < self.table@.len() && j != slot ==> (#[trigger] self.table@[j]).1@
                            == oldtable[j].1@);
                }
            },
            None => {
                let slot = self.table.len();
                let mut list: Vec<RouteEntry> = Vec::new();
                list.push(e);
                let ghost oldtable = self.table@;
                let ghost oldentries = trie_entries(self.trie);
                self.table.push((String::from_str(pattern), list));
                trie_set(&mut self.trie, pattern, slot);
                proof {
                    lemma_spec_insert_new(table_view(oldtable), pattern@, e);
                    assert(self@ =~= table_view(oldtable).push((pattern@, seq![e])));
                    assert(route_list_sorted(seq![e]));
                    assert(trie_entries(self.trie) =~= oldentries.insert(
                        trie_normal_of(pattern@),
                        slot,
                    ));
                    assert(self.table@[slot as int].0@ == pattern@);
                    assert forall|p: Seq<char>|
                        trie_entries(self.trie).dom().contains(p) implies #[trigger] trie_entries(
                        self.trie,
                    )[p] < self.table@.len() && trie_normal_of(
                        self.table@[trie_entries(self.trie)[p] as int].0@,
                    ) == p by {
                        if p == trie_normal_of(pattern@) {
                            assert(trie_entries(self.trie)[p] == slot);
                        } else {
                            assert(oldentries.dom().contains(p));
                            assert(oldentries[p] < oldtable.len());
                            assert(self.table@[oldentries[p] as int].0@ == oldtable[oldentries[p] as int].0@);
                        }
                    }
                }
            },
        }
    }

    /// The route list for the pattern the path resolves to, if any.
    pub fn lookup(&self, path: &str) -> (r: Option<&Vec<RouteEntry>>)
        requires
            self.wf(),
        ensures
            match r {
                Some(list) => {
                    &&& trie_route(spec_pattern_slots(self@), path@) is Some
                    &&& (trie_route(spec_pattern_slots(self@), path@)->Some_0 as int) < self@.len()
                    &&& list@ == self@[trie_route(spec_pattern_slots(self@), path@)->Some_0 as int].1
                    &&& route_list_sorted(list@)
                },
                None => trie_route(spec_pattern_slots(self@), path@) is None,
            },
    {
        proof {
            lemma_trie_matches_table(self);
        }
        match trie_get(&self.trie, path) {
            Some(k) => {
                proof {
                    let p = choose|p: Seq<char>|
                        trie_entries(self.trie).dom().contains(p) && trie_entries(self.trie)[p]
                            == k;
                    assert(k < self.table@.len());
                    assert(self@[k as int].1 == self.table@[k as int].1@);
                }
                Some(&self.table[k].1)
            },
            None => None,
        }
    }
}

/// Updating the matched slot realizes the spec-level insertion; the
/// slot keeps its stored pattern.
proof fn lemma_spec_insert_existing(
    t: Seq<(Seq<char>, Seq<RouteEntry>)>,
    pattern: Seq<char>,
    e: RouteEntry,
    slot: int,
)
    requires
        0 <= slot < t.len(),
        trie_normal_of(t[slot].0) == trie_normal_of(pattern),
        forall|i: int|
            0 <= i < slot ==> trie_normal_of((#[trigger] t[i]).0) != trie_normal_of(pattern),
    ensures
        PathRouter::spec_insert(t, pattern, e) == t.update(
            slot,
            (t[slot].0, spec_insert_route_entry(t[slot].1, e)),
        ),
    decreases t.len(),
{
    if slot == 0 {
        assert(PathRouter::spec_insert(t, pattern, e) =~= t.update(
            0,
            (t[0].0, spec_insert_route_entry(t[0].1, e)),
        ));
    } else {
        assert(trie_normal_of(t[0].0) != trie_normal_of(pattern));
        let rest = t.drop_first();
        assert(forall|i: int|
            0 <= i < slot - 1 ==> trie_normal_of((#[trigger] rest[i]).0) != trie_normal_of(
                pattern,
            )) by {
            assert(forall|a: int| 0 <= a < rest.len() ==> rest[a] == t[a + 1]);
        }
        assert(rest[slot - 1] == t[slot]);
        lemma_spec_insert_existing(rest, pattern, e, slot - 1);
        assert(seq![t[0]] + rest.update(
            slot - 1,
            (t[slot].0, spec_insert_route_entry(t[slot].1, e)),
        ) =~= t.update(slot, (t[slot].0, spec_insert_route_entry(t[slot].1, e))));
    }
}

/// Appending a pattern of a fresh node realizes the spec-level
/// insertion.
proof fn lemma_spec_insert_new(
    t: Seq<(Seq<char>, Seq<RouteEntry>)>,
    pattern: Seq<char>,
    e: RouteEntry,
)
    requires
        forall|i: int|
            0 <= i < t.len() ==> trie_normal_of((#[trigger] t[i]).0) != trie_normal_of(pattern),
    ensures
        PathRouter::spec_insert(t, pattern, e) == t.push((pattern, seq![e])),
    decreases t.len(),
{
    if t.len() == 0 {
        assert(PathRouter::spec_insert(t, pattern, e) =~= t.push((pattern, seq![e])));
    } else {
        let rest = t.drop_first();
        assert(forall|i: int|
            0 <= i < rest.len() ==> trie_normal_of((#[trigger] rest[i]).0) != trie_normal_of(
                pattern,
            )) by {
            assert(forall|a: int| 0 <= a < rest.len() ==> rest[a] == t[a + 1]);
        }
        lemma_spec_insert_new(rest, pattern, e);
        assert(seq![t[0]] + rest.push((pattern, seq![e])) =~= t.push((pattern, seq![e])));
    }
}

/// The node-to-slot map a table describes, keyed by the stored
/// patterns' normalized forms.
pub open spec fn spec_pattern_slots(t: Seq<(Seq<char>, Seq<RouteEntry>)>) -> Map<Seq<char>, usize> {
    Map::new(
        |p: Seq<char>|
            exists|j: int| 0 <= j < t.len() && trie_normal_of((#[trigger] t[j]).0) == p,
        |p: Seq<char>|
            (choose|j: int|
                0 <= j < t.len() && trie_normal_of((#[trigger] t[j]).0) == p) as usize,
    )
}

/// For a well-formed router the trie's entries are exactly the table's
/// node-to-slot map.
proof fn lemma_trie_matches_table(r: &PathRouter)
    requires
        r.wf(),
    ensures
        trie_entries(r.spec_trie()) == spec_pattern_slots(r@),
{
    let e = trie_entries(r.spec_trie());
    let m = spec_pattern_slots(r@);
    assert(forall|j: int| 0 <= j < r@.len() ==> (#[trigger] r@[j]).0 == r.spec_table()[j].0@);
    assert forall|p: Seq<char>| e.dom().contains(p) implies m.dom().contains(p) by {
        let j = e[p] as int;
        assert(trie_normal_of(r@[j].0) == p);
    }
    assert forall|p: Seq<char>| m.dom().contains(p) implies e.dom().contains(p) by {
        let j = choose|j: int| 0 <= j < r@.len() && trie_normal_of((#[trigger] r@[j]).0) == p;
        assert(e.dom().contains(trie_normal_of(r.spec_table()[j].0@)));
    }
    assert forall|p: Seq<char>| e.dom().contains(p) && m.dom().contains(p) implies e[p] == m[p] by {
        let j = e[p] as int;
        assert(trie_normal_of(r@[j].0) == p);
        let j2 = choose|j2: int|
            0 <= j2 < r@.len() && trie_normal_of((#[trigger] r@[j2]).0) == p;
        if j != j2 {
            assert(trie_normal_of(r.spec_table()[j].0@) == trie_normal_of(
                r.spec_table()[j2].0@,
            ));
        }
    }
    assert(e =~= m);
}

impl PathRouter {
    spec fn spec_table(&self) -> Seq<(String, Vec<RouteEntry>)> {
        self.table@
    }
}


/// Stable insertion keeps any property that every entry and the new one
/// enjoy, and grows the list by one.
pub proof fn lemma_insert_route_entry_all(
    list: Seq<RouteEntry>,
    e: RouteEntry,
    p: spec_fn(RouteEntry) -> bool,
)
    requires
        p(e),
        forall|k: int| 0 <= k < list.len() ==> p(#[trigger] list[k]),
    ensures
        spec_insert_route_entry(list, e).len() == list.len() + 1,
        forall|k: int|
            0 <= k < list.len() + 1 ==> p(#[trigger] spec_insert_route_entry(list, e)[k]),
    decreases list.len(),
{
    if list.len() == 0 {
    } else if e.1 > list[0].1 {
        assert(forall|k: int|
            0 <= k < list.len() + 1 ==> (seq![e] + list)[k] == (if k == 0 {
                e
            } else {
                list[k - 1]
            }));
    } else {
        let rest = list.drop_first();
        assert(forall|k: int| 0 <= k < rest.len() ==> rest[k] == list[k + 1]);
        lemma_insert_route_entry_all(rest, e, p);
        let inner = spec_insert_route_entry(rest, e);
        assert(forall|k: int|
            0 <= k < list.len() + 1 ==> (seq![list[0]] + inner)[k] == (if k == 0 {
                list[0]
            } else {
                inner[k - 1]
            }));
    }
}

/// Table insertion keeps any property that every stored entry and the
/// new one enjoy.
pub proof fn lemma_spec_insert_all(
    t: Seq<(Seq<char>, Seq<RouteEntry>)>,
    pattern: Seq<char>,
    e: RouteEntry,
    p: spec_fn(RouteEntry) -> bool,
)
    requires
        p(e),
        forall|j: int, k: int|
            0 <= j < t.len() && 0 <= k < (#[trigger] t[j]).1.len() ==> p(#[trigger] t[j].1[k]),
    ensures
        forall|j: int, k: int|
            0 <= j < PathRouter::spec_insert(t, pattern, e).len() && 0 <= k < (
            #[trigger] PathRouter::spec_insert(t, pattern, e)[j]).1.len() ==> p(
                #[trigger] PathRouter::spec_insert(t, pattern, e)[j].1[k],
            ),
    decreases t.len(),
{
    let r = PathRouter::spec_insert(t, pattern, e);
    if t.len() == 0 {
        assert(r =~= seq![(pattern, seq![e])]);
        assert(r[0].1 =~= seq![e]);
        assert(r[0].1[0] == e);
    } else if trie_normal_of(t[0].0) == trie_normal_of(pattern) {
        lemma_insert_route_entry_all(t[0].1, e, p);
        assert(forall|j: int| 0 <= j < r.len() ==> r[j] == (if j == 0 {
            (t[0].0, spec_insert_route_entry(t[0].1, e))
        } else {
            t[j]
        }));
    } else {
        let rest = t.drop_first();
        assert(forall|j: int| 0 <= j < rest.len() ==> rest[j] == t[j + 1]);
        lemma_spec_insert_all(rest, pattern, e, p);
        let inner = PathRouter::spec_insert(rest, pattern, e);
        assert(forall|j: int| 0 <= j < r.len() ==> r[j] == (if j == 0 {
            t[0]
        } else {
            inner[j - 1]
        }));
    }
}

/// One route's entry landing under each of its patterns, in order.
pub open spec fn spec_add_uris(
    t: Seq<(Seq<char>, Seq<RouteEntry>)>,
    uris: Seq<Seq<char>>,
    idx: usize,
    pri: u32,
) -> Seq<(Seq<char>, Seq<RouteEntry>)>
    decreases uris.len(),
{
    if uris.len() == 0 {
        t
    } else {
        spec_add_uris(PathRouter::spec_insert(t, uris[0], (idx, pri)), uris.drop_first(), idx, pri)
    }
}

/// Adding a route's patterns keeps any property of the stored entries
/// that the new entry also enjoys.
pub proof fn lemma_add_uris_all(
    t: Seq<(Seq<char>, Seq<RouteEntry>)>,
    uris: Seq<Seq<char>>,
    idx: usize,
    pri: u32,
    p: spec_fn(RouteEntry) -> bool,
)
    requires
        p((idx, pri)),
        forall|j: int, k: int|
            0 <= j < t.len() && 0 <= k < (#[trigger] t[j]).1.len() ==> p(#[trigger] t[j].1[k]),
    ensures
        forall|j: int, k: int|
            0 <= j < spec_add_uris(t, uris, idx, pri).len() && 0 <= k < (#[trigger] spec_add_uris(
                t,
                uris,
                idx,
                pri,
            )[j]).1.len() ==> p(#[trigger] spec_add_uris(t, uris, idx, pri)[j].1[k]),
    decreases uris.len(),
{
    if uris.len() > 0 {
        lemma_spec_insert_all(t, uris[0], (idx, pri), p);
        lemma_add_uris_all(
            PathRouter::spec_insert(t, uris[0], (idx, pri)),
            uris.drop_first(),
            idx,
            pri,
            p,
        );
        assert(spec_add_uris(t, uris, idx, pri) == spec_add_uris(
            PathRouter::spec_insert(t, uris[0], (idx, pri)),
            uris.drop_first(),
            idx,
            pri,
        ));
    }
}

/// In a well-formed router every pattern's route list is ordered by
/// priority descending.
pub proof fn lemma_router_lists_sorted(r: &PathRouter)
    requires
        r.wf(),
    ensures
        forall|j: int| 0 <= j < r@.len() ==> route_list_sorted((#[trigger] r@[j]).1),
{
    assert(forall|j: int| 0 <= j < r@.len() ==> (#[trigger] r@[j]).1 == r.spec_table()[j].1@);
}

} // verus!
