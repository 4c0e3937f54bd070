use crate::context::GatewayContext;
use crate::error::ConfigError;
use crate::http::{RequestData, RequestView};
use crate::matcher::{
    matcher_view, regex_ok, regex_replace, spec_matches, ComparableRegex, MatcherView, RouteMatcher,
};
use crate::parse::spec_parse_matcher;
use vstd::pervasive::unreached;
use vstd::prelude::*;
use vstd::string::StringExecFns;

verus! {

// ---------------------------------------------------------------------
// Plugin configuration, as it appears in a route's config document.
// ---------------------------------------------------------------------
/// How a route rewrites the outbound request path.
#[derive(Debug)]
pub enum PathRewriteConfig {
    Keep,
    Static(String),
    RegexReplace(String, String),
}

pub enum PathRewriteConfigView {
    Keep,
    Static(Seq<char>),
    RegexReplace(Seq<char>, Seq<char>),
}

impl View for PathRewriteConfig {
    type V = PathRewriteConfigView;

    open spec fn view(&self) -> PathRewriteConfigView {
        match self {
            PathRewriteConfig::Keep => PathRewriteConfigView::Keep,
            PathRewriteConfig::Static(s) => PathRewriteConfigView::Static(s@),
            PathRewriteConfig::RegexReplace(p, r) => PathRewriteConfigView::RegexReplace(p@, r@),
        }
    }
}

impl Clone for PathRewriteConfig {
    fn clone(&self) -> (r: Self)
        ensures
            r@ == self@,
    {
        match self {
            PathRewriteConfig::Keep => PathRewriteConfig::Keep,
            PathRewriteConfig::Static(s) => PathRewriteConfig::Static(s.clone()),
            PathRewriteConfig::RegexReplace(p, r) => PathRewriteConfig::RegexReplace(
                p.clone(),
                r.clone(),
            ),
        }
    }
}

impl Default for PathRewriteConfig {
    fn default() -> (r: Self)
        ensures
            r@ == PathRewriteConfigView::Keep,
    {
        PathRewriteConfig::Keep
    }
}

/// One traffic-split rule: a predicate and the upstream it diverts to.
#[derive(Debug)]
pub struct TrafficSplitRule {
    pub matcher: String,
    pub upstream_id: String,
}

pub struct TrafficSplitRuleView {
    pub matcher: Seq<char>,
    pub upstream_id: Seq<char>,
}

impl View for TrafficSplitRule {
    type V = TrafficSplitRuleView;

    open spec fn view(&self) -> TrafficSplitRuleView {
        TrafficSplitRuleView { matcher: self.matcher@, upstream_id: self.upstream_id@ }
    }
}

impl DeepView for TrafficSplitRule {
    type V = TrafficSplitRuleView;

    open spec fn deep_view(&self) -> TrafficSplitRuleView {
        self@
    }
}

impl Clone for TrafficSplitRule {
    fn clone(&self) -> (r: Self)
        ensures
            r@ == self@,
    {
        TrafficSplitRule { matcher: self.matcher.clone(), upstream_id: self.upstream_id.clone() }
    }
}

/// An ordered list of traffic-split rules; the first match wins.
#[derive(Debug)]
pub struct TrafficSplitConfig {
    pub rules: Vec<TrafficSplitRule>,
}

impl View for TrafficSplitConfig {
    type V = Seq<TrafficSplitRuleView>;

    open spec fn view(&self) -> Seq<TrafficSplitRuleView> {
        self.rules.deep_view()
    }
}

impl Clone for TrafficSplitConfig {
    fn clone(&self) -> (r: Self)
        ensures
            r@ == self@,
    {
        let mut rules: Vec<TrafficSplitRule> = Vec::new();
        let mut i: usize = 0;
        while i < self.rules.len()
            invariant
                i <= self.rules@.len(),
                rules.deep_view() =~= self.rules.deep_view().subrange(0, i as int),
            decreases self.rules@.len() - i,
        {
            let ghost prev = rules.deep_view();
            let c = self.rules[i].clone();
            rules.push(c);
            proof {
                assert(rules.deep_view() =~= prev.push(self.rules@[i as int]@));
                assert(self.rules.deep_view()[i as int] == self.rules@[i as int]@);
                assert(self.rules.deep_view().subrange(0, i + 1) =~= self.rules.deep_view()
                    .subrange(0, i as int).push(self.rules.deep_view()[i as int]));
                assert(rules.deep_view() =~= self.rules.deep_view().subrange(0, i + 1));
            }
            i = i + 1;
        }
        proof {
            assert(rules.deep_view() =~= self.rules.deep_view());
        }
        TrafficSplitConfig { rules }
    }
}

/// A script plugin's source text.
#[derive(Debug)]
pub struct ScriptConfig {
    pub script: String,
}

impl View for ScriptConfig {
    type V = Seq<char>;

    open spec fn view(&self) -> Seq<char> {
        self.script@
    }
}

impl Clone for ScriptConfig {
    fn clone(&self) -> (r: Self)
        ensures
            r@ == self@,
    {
        ScriptConfig { script: self.script.clone() }
    }
}

/// Which plugin a route enables, with its settings.
#[derive(Debug)]
pub enum PluginSetting {
    PathRewrite(PathRewriteConfig),
    TrafficSplit(TrafficSplitConfig),
    Script(ScriptConfig),
}

pub enum PluginSettingView {
    PathRewrite(PathRewriteConfigView),
    TrafficSplit(Seq<TrafficSplitRuleView>),
    Script(Seq<char>),
}

impl View for PluginSetting {
    type V = PluginSettingView;

    open spec fn view(&self) -> PluginSettingView {
        match self {
            PluginSetting::PathRewrite(c) => PluginSettingView::PathRewrite(c@),
            PluginSetting::TrafficSplit(c) => PluginSettingView::TrafficSplit(c@),
            PluginSetting::Script(c) => PluginSettingView::Script(c@),
        }
    }
}

impl Clone for PluginSetting {
    fn clone(&self) -> (r: Self)
        ensures
            r@ == self@,
    {
        match self {
            PluginSetting::PathRewrite(c) => PluginSetting::PathRewrite(c.clone()),
            PluginSetting::TrafficSplit(c) => PluginSetting::TrafficSplit(c.clone()),
            PluginSetting::Script(c) => PluginSetting::Script(c.clone()),
        }
    }
}

/// A plugin entry of a route's configuration.
#[derive(Debug)]
pub struct PluginConfig {
    pub enable: bool,
    pub setting: PluginSetting,
}

pub struct PluginConfigView {
    pub enable: bool,
    pub setting: PluginSettingView,
}

impl View for PluginConfig {
    type V = PluginConfigView;

    open spec fn view(&self) -> PluginConfigView {
        PluginConfigView { enable: self.enable, setting: self.setting@ }
    }
}

impl DeepView for PluginConfig {
    type V = PluginConfigView;

    open spec fn deep_view(&self) -> PluginConfigView {
        self@
    }
}

impl Clone for PluginConfig {
    fn clone(&self) -> (r: Self)
        ensures
            r@ == self@,
    {
        PluginConfig { enable: self.enable, setting: self.setting.clone() }
    }
}

// ---------------------------------------------------------------------
// Built plugins, as they run on the request path.
// ---------------------------------------------------------------------
/// The path-rewrite plugin, its regex compiled.
#[derive(Debug)]
pub enum PathRewritePlugin {
    Keep,
    Static(String),
    RegexReplace(ComparableRegex, String),
}

pub enum PathRewriteView {
    Keep,
    Static(Seq<char>),
    RegexReplace(Seq<char>, Seq<char>),
}

impl View for PathRewritePlugin {
    type V = PathRewriteView;

    open spec fn view(&self) -> PathRewriteView {
        match self {
            PathRewritePlugin::Keep => PathRewriteView::Keep,
            PathRewritePlugin::Static(s) => PathRewriteView::Static(s@),
            PathRewritePlugin::RegexReplace(re, r) => PathRewriteView::RegexReplace(
                re.pattern(),
                r@,
            ),
        }
    }
}

/// A traffic-split rule with its predicate parsed.
#[derive(Debug)]
pub struct TrafficSplitItem {
    pub matcher: RouteMatcher,
    pub upstream_id: String,
}

pub struct TrafficSplitItemView {
    pub matcher: MatcherView,
    pub upstream_id: Seq<char>,
}

impl View for TrafficSplitItem {
    type V = TrafficSplitItemView;

    open spec fn view(&self) -> TrafficSplitItemView {
        TrafficSplitItemView { matcher: self.matcher@, upstream_id: self.upstream_id@ }
    }
}

impl DeepView for TrafficSplitItem {
    type V = TrafficSplitItemView;

    open spec fn deep_view(&self) -> TrafficSplitItemView {
        self@
    }
}

/// The traffic-split plugin: the first rule whose predicate accepts the
/// request redirects it to that rule's upstream.
#[derive(Debug)]
pub struct TrafficSplitPlugin {
    pub rules: Vec<TrafficSplitItem>,
}

impl View for TrafficSplitPlugin {
    type V = Seq<TrafficSplitItemView>;

    open spec fn view(&self) -> Seq<TrafficSplitItemView> {
        self.rules.deep_view()
    }
}

/// The script plugin: its source is compiled and run by the embedding
/// runtime, outside this library.
#[derive(Debug)]
pub struct ScriptPlugin {
    pub source: String,
}

impl View for ScriptPlugin {
    type V = Seq<char>;

    open spec fn view(&self) -> Seq<char> {
        self.source@
    }
}

/// A route's plugin: one of the closed set of variants.
#[derive(Debug)]
pub enum Plugin {
    PathRewrite(PathRewritePlugin),
    TrafficSplit(TrafficSplitPlugin),
    Script(ScriptPlugin),
}

pub enum PluginView {
    PathRewrite(PathRewriteView),
    TrafficSplit(Seq<TrafficSplitItemView>),
    Script(Seq<char>),
}

impl View for Plugin {
    type V = PluginView;

    open spec fn view(&self) -> PluginView {
        match self {
            Plugin::PathRewrite(p) => PluginView::PathRewrite(p@),
            Plugin::TrafficSplit(p) => PluginView::TrafficSplit(p@),
            Plugin::Script(p) => PluginView::Script(p@),
        }
    }
}

/// Each plugin kind runs at a fixed priority; higher runs earlier.
pub open spec fn spec_plugin_priority(p: PluginView) -> u32 {
    match p {
        PluginView::PathRewrite(_) => 1002u32,
        PluginView::TrafficSplit(_) => 1001u32,
        PluginView::Script(_) => 2000u32,
    }
}

impl Plugin {
    /// The plugin's priority; higher runs earlier.
    pub fn priority(&self) -> (r: u32)
        ensures
            r == spec_plugin_priority(self@),
    {
        match self {
            Plugin::PathRewrite(_) => 1002,
            Plugin::TrafficSplit(_) => 1001,
            Plugin::Script(_) => 2000,
        }
    }
}

// ---------------------------------------------------------------------
// Building plugins from their configuration.
// ---------------------------------------------------------------------
/// What building a path-rewrite plugin yields: its regex must compile.
pub open spec fn spec_build_path_rewrite(v: PathRewriteConfigView) -> Option<PathRewriteView> {
    match v {
        PathRewriteConfigView::Keep => Some(PathRewriteView::Keep),
        PathRewriteConfigView::Static(s) => Some(PathRewriteView::Static(s)),
        PathRewriteConfigView::RegexReplace(p, r) => if regex_ok(p) {
            Some(PathRewriteView::RegexReplace(p, r))
        } else {
            None
        },
    }
}

/// What building traffic-split rules yields: every predicate must parse.
pub open spec fn spec_build_split_rules(rules: Seq<TrafficSplitRuleView>) -> Option<
    Seq<TrafficSplitItemView>,
>
    decreases rules.len(),
{
    if rules.len() == 0 {
        Some(Seq::<TrafficSplitItemView>::empty())
    } else {
        match spec_parse_matcher(rules[0].matcher) {
            Some(m) => match spec_build_split_rules(rules.drop_first()) {
                Some(tail) => Some(
                    seq![TrafficSplitItemView { matcher: m, upstream_id: rules[0].upstream_id }]
                        + tail,
                ),
                None => None,
            },
            None => None,
        }
    }
}

/// What building a plugin from its setting yields.
pub open spec fn spec_init_plugin(v: PluginSettingView) -> Option<PluginView> {
    match v {
        PluginSettingView::PathRewrite(c) => match spec_build_path_rewrite(c) {
            Some(p) => Some(PluginView::PathRewrite(p)),
            None => None,
        },
        PluginSettingView::TrafficSplit(rules) => match spec_build_split_rules(rules) {
            Some(items) => Some(PluginView::TrafficSplit(items)),
            None => None,
        },
        PluginSettingView::Script(s) => Some(PluginView::Script(s)),
    }
}

impl PathRewritePlugin {
    pub fn new(cfg: &PathRewriteConfig) -> (r: Result<PathRewritePlugin, ConfigError>)
        ensures
            match r {
                Ok(p) => spec_build_path_rewrite(cfg@) == Some(p@),
                Err(e) => spec_build_path_rewrite(cfg@) is None && e is MatcherParse,
            },
    {
        match cfg {
            PathRewriteConfig::Keep => Ok(PathRewritePlugin::Keep),
            PathRewriteConfig::Static(s) => Ok(PathRewritePlugin::Static(s.clone())),
            PathRewriteConfig::RegexReplace(m, r) => match ComparableRegex::new(m.as_str()) {
                Ok(re) => Ok(PathRewritePlugin::RegexReplace(re, r.clone())),
                Err(e) => Err(ConfigError::MatcherParse(e)),
            },
        }
    }

    /// The rewritten request path.
    pub fn path_rewrite(&self, path: &str) -> (r: String)
        ensures
            r@ == spec_path_rewrite(self@, path@),
    {
        match self {
            PathRewritePlugin::Keep => String::from_str(path),
            PathRewritePlugin::Static(s) => s.clone(),
            PathRewritePlugin::RegexReplace(re, rep) => re.replace(path, rep.as_str()),
        }
    }

    /// Rewrite the request path; method, query and headers are kept.
    pub fn on_access(&self, req: RequestData) -> (r: RequestData)
        ensures
            r@.path == spec_path_rewrite(self@, req@.path),
            r@.method == req@.method,
            r@.query == req@.query,
            r@.headers == req@.headers,
    {
        let mut req = req;
        let new_path = self.path_rewrite(req.path.as_str());
        req.path = new_path;
        req
    }
}

/// The path after a rewrite: kept, replaced, or regex-substituted.
pub open spec fn spec_path_rewrite(p: PathRewriteView, path: Seq<char>) -> Seq<char> {
    match p {
        PathRewriteView::Keep => path,
        PathRewriteView::Static(s) => s,
        PathRewriteView::RegexReplace(pat, rep) => regex_replace(pat, path, rep),
    }
}

/// The upstream the first matching rule names, if any.
pub open spec fn spec_select_upstream(rules: Seq<TrafficSplitItemView>, req: RequestView) -> Option<
    Seq<char>,
>
    decreases rules.len(),
{
    if rules.len() == 0 {
        None
    } else if spec_matches(rules[0].matcher, req) {
        Some(rules[0].upstream_id)
    } else {
        spec_select_upstream(rules.drop_first(), req)
    }
}

impl TrafficSplitItem {
    pub fn new(cfg: &TrafficSplitRule) -> (r: Result<TrafficSplitItem, ConfigError>)
        ensures
            match r {
                Ok(item) => spec_parse_matcher(cfg.matcher@) == Some(item@.matcher)
                    && item@.upstream_id == cfg.upstream_id@,
                Err(e) => spec_parse_matcher(cfg.matcher@) is None && e is MatcherParse,
            },
    {
        match RouteMatcher::parse(cfg.matcher.as_str()) {
            Ok(m) => Ok(
                TrafficSplitItem { matcher: m, upstream_id: cfg.upstream_id.clone() },
            ),
            Err(e) => Err(ConfigError::MatcherParse(e)),
        }
    }
}

impl TrafficSplitPlugin {
    pub fn new(cfg: &TrafficSplitConfig) -> (r: Result<TrafficSplitPlugin, ConfigError>)
        ensures
            match r {
                Ok(p) => spec_build_split_rules(cfg@) == Some(p@),
                Err(e) => spec_build_split_rules(cfg@) is None && e is MatcherParse,
            },
    {
        let mut rules: Vec<TrafficSplitItem> = Vec::new();
        let n = cfg.rules.len();
        let mut i: usize = 0;
        proof {
            assert(cfg@.skip(0) =~= cfg@);
        }
        while i < n
            invariant
                i <= n,
                n == cfg@.len(),
                cfg@.len() == cfg.rules@.len(),
                forall|j: int| 0 <= j < cfg@.len() ==> cfg@[j] == cfg.rules@[j]@,
                match spec_build_split_rules(cfg@.skip(i as int)) {
                    Some(tail) => spec_build_split_rules(cfg@) == Some(rules.deep_view() + tail),
                    None => spec_build_split_rules(cfg@) is None,
                },
            decreases n - i,
        {
            assert(cfg@.skip(i as int)[0] == cfg@[i as int]);
            match TrafficSplitItem::new(&cfg.rules[i]) {
                Ok(item) => {
                    proof {
                        assert(cfg@.skip(i as int).drop_first() =~= cfg@.skip(i + 1));
                    }
                    let ghost old_rules = rules.deep_view();
                    rules.push(item);
                    proof {
                        assert(rules.deep_view() =~= old_rules.push(item@));
                        if spec_build_split_rules(cfg@.skip(i + 1)) is Some {
                            let tail = spec_build_split_rules(cfg@.skip(i + 1))->Some_0;
                            assert(old_rules + (seq![
                                TrafficSplitItemView {
                                    matcher: item@.matcher,
                                    upstream_id: cfg@[i as int].upstream_id,
                                },
                            ] + tail) =~= old_rules.push(item@) + tail);
                        }
                    }
                },
                Err(e) => {
                    return Err(e);
                },
            }
            i = i + 1;
        }
        proof {
            assert(cfg@.skip(n as int) =~= Seq::<TrafficSplitRuleView>::empty());
            assert(rules.deep_view() + Seq::<TrafficSplitItemView>::empty() =~= rules.deep_view());
        }
        Ok(TrafficSplitPlugin { rules })
    }

    /// The upstream the first matching rule diverts to, if any.
    pub fn select_upstream(&self, req: &RequestData) -> (r: Option<String>)
        ensures
            match r {
                Some(u) => spec_select_upstream(self@, req@) == Some(u@),
                None => spec_select_upstream(self@, req@) is None,
            },
    {
        let n = self.rules.len();
        let mut i: usize = 0;
        proof {
            assert(self@.skip(0) =~= self@);
        }
        while i < n
            invariant
                i <= n,
                n == self.rules@.len(),
                self@.len() == self.rules@.len(),
                spec_select_upstream(self@, req@) == spec_select_upstream(
                    self@.skip(i as int),
                    req@,
                ),
            decreases n - i,
        {
            assert(self@.skip(i as int)[0] == self@[i as int]);
            if self.rules[i].matcher.matchs(req) {
                return Some(self.rules[i].upstream_id.clone());
            }
            proof {
                assert(self@.skip(i as int).drop_first() =~= self@.skip(i + 1));
            }
            i = i + 1;
        }
        proof {
            assert(self@.skip(n as int) =~= Seq::<TrafficSplitItemView>::empty());
        }
        None
    }

    /// Divert the request: the first matching rule writes the context's
    /// upstream id; with no match the route's default stands.
    pub fn on_access(&self, ctx: &mut GatewayContext, req: RequestData) -> (r: RequestData)
        ensures
            r@ == req@,
            match spec_select_upstream(self@, req@) {
                Some(s) => final(ctx).upstream_id matches Some(u) && u@ == s,
                None => final(ctx).upstream_id == old(ctx).upstream_id,
            },
            final(ctx).route_id == old(ctx).route_id,
            final(ctx).overwrite_host == old(ctx).overwrite_host,
            final(ctx).remote_addr == old(ctx).remote_addr,
            final(ctx).orig_scheme == old(ctx).orig_scheme,
            final(ctx).orig_host == old(ctx).orig_host,
            final(ctx).orig_path == old(ctx).orig_path,
            final(ctx).available_endpoints == old(ctx).available_endpoints,
    {
        match self.select_upstream(&req) {
            Some(u) => {
                ctx.upstream_id = Some(u);
            },
            None => {},
        }
        req
    }
}

/// Build one plugin from its setting. The `enable` flag is recorded in
/// the configuration but, as in the gateway's configuration loader, a
/// listed plugin is always built.
pub fn init_plugin(setting: &PluginSetting) -> (r: Result<Plugin, ConfigError>)
    ensures
        match r {
            Ok(p) => spec_init_plugin(setting@) == Some(p@),
            Err(e) => spec_init_plugin(setting@) is None && e is MatcherParse,
        },
{
    match setting {
        PluginSetting::PathRewrite(c) => match PathRewritePlugin::new(c) {
            Ok(p) => Ok(Plugin::PathRewrite(p)),
            Err(e) => Err(e),
        },
        PluginSetting::TrafficSplit(c) => match TrafficSplitPlugin::new(c) {
            Ok(p) => Ok(Plugin::TrafficSplit(p)),
            Err(e) => Err(e),
        },
        PluginSetting::Script(c) => Ok(Plugin::Script(ScriptPlugin { source: c.script.clone() })),
    }
}


/// The views of a plugin list, in order.
pub open spec fn plugin_views(s: Seq<Plugin>) -> Seq<PluginView> {
    s.map_values(|p: Plugin| p@)
}

/// Priorities never increase along the list.
pub open spec fn spec_sorted_desc(s: Seq<PluginView>) -> bool {
    forall|i: int, j: int|
        0 <= i < j < s.len() ==> spec_plugin_priority(s[i]) >= spec_plugin_priority(s[j])
}

/// Stable insertion into a descending list: the new plugin goes after
/// every plugin of equal or higher priority.
pub open spec fn spec_insert_plugin(sorted: Seq<PluginView>, p: PluginView) -> Seq<PluginView>
    decreases sorted.len(),
{
    if sorted.len() == 0 {
        seq![p]
    } else if spec_plugin_priority(p) > spec_plugin_priority(sorted[0]) {
        seq![p] + sorted
    } else {
        seq![sorted[0]] + spec_insert_plugin(sorted.drop_first(), p)
    }
}

/// Stable insertion sort by priority, descending.
pub open spec fn spec_sort_plugins(ps: Seq<PluginView>) -> Seq<PluginView>
    decreases ps.len(),
{
    if ps.len() == 0 {
        Seq::<PluginView>::empty()
    } else {
        spec_insert_plugin(spec_sort_plugins(ps.drop_last()), ps.last())
    }
}

/// Inserting at the boundary the exec search finds is the stable insertion.
proof fn lemma_insert_at(sorted: Seq<PluginView>, p: PluginView, k: int)
    requires
        spec_sorted_desc(sorted),
        0 <= k <= sorted.len(),
        forall|j: int|
            0 <= j < k ==> spec_plugin_priority(#[trigger] sorted[j]) >= spec_plugin_priority(p),
        k < sorted.len() ==> spec_plugin_priority(p) > spec_plugin_priority(sorted[k]),
    ensures
        spec_insert_plugin(sorted, p) == sorted.subrange(0, k) + seq![p] + sorted.subrange(
            k,
            sorted.len() as int,
        ),
    decreases sorted.len(),
{
    if sorted.len() == 0 {
        assert(spec_insert_plugin(sorted, p) =~= sorted.subrange(0, k) + seq![p] + sorted.subrange(
            k,
            sorted.len() as int,
        ));
    } else if spec_plugin_priority(p) > spec_plugin_priority(sorted[0]) {
        assert(k == 0);
        assert(spec_insert_plugin(sorted, p) =~= sorted.subrange(0, 0) + seq![p] + sorted.subrange(
            0,
            sorted.len() as int,
        ));
    } else {
        assert(k >= 1);
        let rest = sorted.drop_first();
        assert(spec_sorted_desc(rest)) by {
            assert(forall|a: int| 0 <= a < rest.len() ==> rest[a] == sorted[a + 1]);
        }
        assert(forall|j: int|
            0 <= j < k - 1 ==> spec_plugin_priority(#[trigger] rest[j]) >= spec_plugin_priority(
                p,
            )) by {
            assert(forall|a: int| 0 <= a < rest.len() ==> rest[a] == sorted[a + 1]);
        }
        assert(k - 1 < rest.len() ==> spec_plugin_priority(p) > spec_plugin_priority(rest[k - 1]))
            by {
            if k - 1 < rest.len() {
                assert(rest[k - 1] == sorted[k]);
            }
        }
        lemma_insert_at(rest, p, k - 1);
        assert(seq![sorted[0]] + (rest.subrange(0, k - 1) + seq![p] + rest.subrange(
            k - 1,
            rest.len() as int,
        )) =~= sorted.subrange(0, k) + seq![p] + sorted.subrange(k, sorted.len() as int));
    }
}

/// Stable insertion keeps the list descending.
proof fn lemma_insert_sorted(sorted: Seq<PluginView>, p: PluginView, k: int)
    requires
        spec_sorted_desc(sorted),
        0 <= k <= sorted.len(),
        forall|j: int|
            0 <= j < k ==> spec_plugin_priority(#[trigger] sorted[j]) >= spec_plugin_priority(p),
        k < sorted.len() ==> spec_plugin_priority(p) > spec_plugin_priority(sorted[k]),
    ensures
        spec_sorted_desc(sorted.subrange(0, k) + seq![p] + sorted.subrange(k, sorted.len() as int)),
{
    let merged = sorted.subrange(0, k) + seq![p] + sorted.subrange(k, sorted.len() as int);
    assert forall|i: int, j: int| 0 <= i < j < merged.len() implies spec_plugin_priority(
        merged[i],
    ) >= spec_plugin_priority(merged[j]) by {
        if i < k {
            assert(merged[i] == sorted[i]);
        } else if i == k {
            assert(merged[i] == p);
        } else {
            assert(merged[i] == sorted[i - 1]);
        }
        if j < k {
            assert(merged[j] == sorted[j]);
        } else if j == k {
            assert(merged[j] == p);
        } else {
            assert(merged[j] == sorted[j - 1]);
        }
        if i < k && k < j {
            assert(spec_plugin_priority(sorted[i]) >= spec_plugin_priority(p)
                || spec_plugin_priority(p) > spec_plugin_priority(sorted[k]));
        }
    }
}

/// Sort a route's plugins into invocation order: by priority descending,
/// plugins of equal priority keeping their relative order.
pub fn sort_plugins(ps: Vec<Plugin>) -> (r: Vec<Plugin>)
    ensures
        plugin_views(r@) == spec_sort_plugins(plugin_views(ps@)),
        spec_sorted_desc(plugin_views(r@)),
{
    let ghost orig = ps@;
    let mut ps = ps;
    let mut result: Vec<Plugin> = Vec::new();
    let mut k: usize = 0;
    proof {
        assert(orig.take(0) =~= Seq::<Plugin>::empty());
        assert(plugin_views(Seq::<Plugin>::empty()) =~= Seq::<PluginView>::empty());
        assert(plugin_views(result@) =~= spec_sort_plugins(plugin_views(orig.take(0))));
    }
    while k < ps.len()
        invariant
            0 <= k <= ps@.len(),
            ps@ == orig,
            plugin_views(result@) == spec_sort_plugins(plugin_views(orig.take(k as int))),
            spec_sorted_desc(plugin_views(result@)),
            result@.len() == k,
        decreases ps@.len() - k,
    {
        let pri = ps[k].priority();
        let mut idx: usize = 0;
        while idx < result.len() && result[idx].priority() >= pri
            invariant
                0 <= idx <= result@.len(),
                forall|j: int|
                    0 <= j < idx ==> spec_plugin_priority(#[trigger] plugin_views(result@)[j])
                        >= pri as u32,
            decreases result@.len() - idx,
        {
            idx = idx + 1;
        }
        let ghost pre = result@;
        let p = copy_plugin(&ps, k);
        result.insert(idx, p);
        proof {
            assert(pri == spec_plugin_priority(p@));
            lemma_insert_at(plugin_views(pre), p@, idx as int);
            lemma_insert_sorted(plugin_views(pre), p@, idx as int);
            assert(plugin_views(result@) =~= plugin_views(pre).subrange(0, idx as int) + seq![p@]
                + plugin_views(pre).subrange(idx as int, pre.len() as int)) by {
                assert(result@ =~= pre.insert(idx as int, p));
                assert(forall|a: int|
                    0 <= a < result@.len() ==> plugin_views(result@)[a] == result@[a]@);
            }
            assert(plugin_views(result@) == spec_insert_plugin(plugin_views(pre), p@));
            assert(orig.take(k + 1).drop_last() =~= orig.take(k as int));
            assert(orig.take(k + 1).last() == orig[k as int]);
            assert(plugin_views(orig.take(k + 1)).drop_last() =~= plugin_views(
                orig.take(k as int),
            ));
            assert(plugin_views(orig.take(k + 1)).last() == orig[k as int]@);
            assert(plugin_views(result@) == spec_sort_plugins(plugin_views(orig.take(k + 1))));
        }
        k = k + 1;
    }
    proof {
        assert(orig.take(orig.len() as int) =~= orig);
    }
    result
}

/// A structural copy of the plugin at `i`; regexes are recompiled from
/// their recorded patterns, so the copy's view equals the original's.
fn copy_plugin(ps: &Vec<Plugin>, i: usize) -> (r: Plugin)
    requires
        i < ps@.len(),
    ensures
        r@ == ps@[i as int]@,
{
    match &ps[i] {
        Plugin::PathRewrite(p) => Plugin::PathRewrite(copy_path_rewrite(p)),
        Plugin::TrafficSplit(p) => Plugin::TrafficSplit(copy_traffic_split(p)),
        Plugin::Script(p) => Plugin::Script(ScriptPlugin { source: p.source.clone() }),
    }
}

fn copy_path_rewrite(p: &PathRewritePlugin) -> (r: PathRewritePlugin)
    ensures
        r@ == p@,
{
    match p {
        PathRewritePlugin::Keep => PathRewritePlugin::Keep,
        PathRewritePlugin::Static(s) => PathRewritePlugin::Static(s.clone()),
        PathRewritePlugin::RegexReplace(re, rep) => {
            match ComparableRegex::new(re.pattern_str().as_str()) {
                Ok(re2) => PathRewritePlugin::RegexReplace(re2, rep.clone()),
                Err(_) => {
                    re.pattern_compiles();
                    unreached()
                },
            }
        },
    }
}

fn copy_traffic_split(p: &TrafficSplitPlugin) -> (r: TrafficSplitPlugin)
    ensures
        r@ == p@,
{
    let mut rules: Vec<TrafficSplitItem> = Vec::new();
    let mut i: usize = 0;
    while i < p.rules.len()
        invariant
            i <= p.rules@.len(),
            rules.deep_view() =~= p.rules.deep_view().subrange(0, i as int),
        decreases p.rules@.len() - i,
    {
        let ghost prev = rules.deep_view();
        let item = copy_split_item(&p.rules, i);
        rules.push(item);
        proof {
            assert(rules.deep_view() =~= prev.push(p.rules@[i as int]@));
            assert(p.rules.deep_view()[i as int] == p.rules@[i as int]@);
            assert(p.rules.deep_view().subrange(0, i + 1) =~= p.rules.deep_view().subrange(
                0,
                i as int,
            ).push(p.rules.deep_view()[i as int]));
            assert(rules.deep_view() =~= p.rules.deep_view().subrange(0, i + 1));
        }
        i = i + 1;
    }
    proof {
        assert(rules.deep_view() =~= p.rules.deep_view());
    }
    TrafficSplitPlugin { rules }
}

fn copy_split_item(rules: &Vec<TrafficSplitItem>, i: usize) -> (r: TrafficSplitItem)
    requires
        i < rules@.len(),
    ensures
        r@ == rules@[i as int]@,
{
    TrafficSplitItem {
        matcher: copy_matcher(&rules[i].matcher),
        upstream_id: rules[i].upstream_id.clone(),
    }
}

/// A structural copy of a matcher; regexes are recompiled from their
/// recorded patterns, so the copy's view equals the original's.
pub fn copy_matcher(m: &RouteMatcher) -> (r: RouteMatcher)
    ensures
        r@ == m@,
    decreases m,
{
    match m {
        RouteMatcher::Method(s) => RouteMatcher::Method(s.clone()),
        RouteMatcher::Host(s) => RouteMatcher::Host(s.clone()),
        RouteMatcher::HostRegexp(re) => match ComparableRegex::new(re.pattern_str().as_str()) {
            Ok(re2) => RouteMatcher::HostRegexp(re2),
            Err(_) => {
                re.pattern_compiles();
                unreached()
            },
        },
        RouteMatcher::Path(s) => RouteMatcher::Path(s.clone()),
        RouteMatcher::PathRegexp(re) => match ComparableRegex::new(re.pattern_str().as_str()) {
            Ok(re2) => RouteMatcher::PathRegexp(re2),
            Err(_) => {
                re.pattern_compiles();
                unreached()
            },
        },
        RouteMatcher::Query(k, v) => RouteMatcher::Query(k.clone(), v.clone()),
        RouteMatcher::Cookie(k, v) => RouteMatcher::Cookie(k.clone(), v.clone()),
        RouteMatcher::And(l, r) => RouteMatcher::And(
            Box::new(copy_matcher(l)),
            Box::new(copy_matcher(r)),
        ),
        RouteMatcher::Or(l, r) => RouteMatcher::Or(
            Box::new(copy_matcher(l)),
            Box::new(copy_matcher(r)),
        ),
        RouteMatcher::Empty => RouteMatcher::Empty,
    }
}


/// The shapes of a path rewrite: `Keep` leaves the path untouched (the
/// whole URI stays byte-identical, the query included), `Static`
/// replaces the path alone, and a regex rewrite substitutes within the
/// path; `on_access` preserves method, query and headers in every case.
pub proof fn lemma_path_rewrite_shapes(
    req: RequestView,
    s: Seq<char>,
    pat: Seq<char>,
    rep: Seq<char>,
)
    ensures
        spec_path_rewrite(PathRewriteView::Keep, req.path) == req.path,
        spec_path_rewrite(PathRewriteView::Static(s), req.path) == s,
        spec_path_rewrite(PathRewriteView::RegexReplace(pat, rep), req.path) == regex_replace(
            pat,
            req.path,
            rep,
        ),
{
}

} // verus!
