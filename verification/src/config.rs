use crate::health::HealthConfig;
use crate::plugins::{PluginConfig, PluginConfigView};
use vstd::prelude::*;
use vstd::string::StringExecFns;

verus! {

/// The gateway's root configuration: listeners, admin users, and where
/// the routing registry comes from.
#[derive(Debug)]
pub struct Config {
    pub server: ServerConfig,
    pub admin: AdminConfig,
    pub registry_provider: RegistryProvider,
}

/// The admin API listener and its allowed users.
#[derive(Debug)]
pub struct AdminConfig {
    pub enable: bool,
    pub adminapi_addr: String,
    pub users: Vec<User>,
}

/// One admin credential pair.
#[derive(Debug)]
pub struct User {
    pub username: String,
    pub password: String,
}

/// Listener addresses and TLS material, keyed by server name.
#[derive(Debug)]
pub struct ServerConfig {
    pub log_level: String,
    pub http_addr: String,
    pub https_addr: String,
    pub tls_config: Vec<(String, TlsConfig)>,
}

/// Paths of one certificate and its key.
#[derive(Debug)]
pub struct TlsConfig {
    pub cert_path: String,
    pub key_path: String,
}

/// Where the routing registry is loaded from.
#[derive(Debug)]
pub enum RegistryProvider {
    Etcd(EtcdProvider),
    File(FileProvider),
}

impl Default for RegistryProvider {
    fn default() -> (r: Self)
        ensures
            r matches RegistryProvider::File(f) && f.path@ == "config/apireception.yaml"@,
    {
        RegistryProvider::File(FileProvider { path: String::from_str("config/apireception.yaml") })
    }
}

/// A key-value store holding the registry document.
#[derive(Debug)]
pub struct EtcdProvider {
    pub host: String,
    pub username: String,
    pub password: String,
}

/// A file holding the registry document.
#[derive(Debug)]
pub struct FileProvider {
    pub path: String,
}

/// One route as configured: its patterns, predicate, upstream and
/// plugins.
#[derive(Debug)]
pub struct RouteConfig {
    pub id: String,
    pub name: String,
    pub desc: String,
    pub uris: Vec<String>,
    pub upstream_id: String,
    pub overwrite_host: bool,
    pub matcher: String,
    pub priority: u32,
    pub plugins: Vec<PluginConfig>,
}

pub struct RouteConfigView {
    pub id: Seq<char>,
    pub name: Seq<char>,
    pub desc: Seq<char>,
    pub uris: Seq<Seq<char>>,
    pub upstream_id: Seq<char>,
    pub overwrite_host: bool,
    pub matcher: Seq<char>,
    pub priority: u32,
    pub plugins: Seq<PluginConfigView>,
}

impl View for RouteConfig {
    type V = RouteConfigView;

    open spec fn view(&self) -> RouteConfigView {
        RouteConfigView {
            id: self.id@,
            name: self.name@,
            desc: self.desc@,
            uris: self.uris.deep_view(),
            upstream_id: self.upstream_id@,
            overwrite_host: self.overwrite_host,
            matcher: self.matcher@,
            priority: self.priority,
            plugins: self.plugins.deep_view(),
        }
    }
}

impl DeepView for RouteConfig {
    type V = RouteConfigView;

    open spec fn deep_view(&self) -> RouteConfigView {
        self@
    }
}

/// A character-for-character copy of a string list.
pub fn clone_strings(v: &Vec<String>) -> (r: Vec<String>)
    ensures
        r@ == v@,
        r.deep_view() == v.deep_view(),
{
    let mut out: Vec<String> = Vec::new();
    let mut i: usize = 0;
    while i < v.len()
        invariant
            i <= v@.len(),
            out@ =~= v@.subrange(0, i as int),
        decreases v@.len() - i,
    {
        out.push(v[i].clone());
        assert(out@ =~= v@.subrange(0, i + 1));
        i = i + 1;
    }
    proof {
        assert(out@ =~= v@);
        assert(out.deep_view() =~= v.deep_view());
    }
    out
}

fn clone_plugin_configs(v: &Vec<PluginConfig>) -> (r: Vec<PluginConfig>)
    ensures
        r.deep_view() == v.deep_view(),
{
    let mut out: Vec<PluginConfig> = Vec::new();
    let mut i: usize = 0;
    while i < v.len()
        invariant
            i <= v@.len(),
            out.deep_view() =~= v.deep_view().subrange(0, i as int),
        decreases v@.len() - i,
    {
        let ghost prev = out.deep_view();
        let c = v[i].clone();
        out.push(c);
        proof {
            assert(out.deep_view() =~= prev.push(v@[i as int]@));
            assert(v.deep_view()[i as int] == v@[i as int]@);
            assert(v.deep_view().subrange(0, i + 1) =~= v.deep_view().subrange(0, i as int).push(
                v.deep_view()[i as int],
            ));
            assert(out.deep_view() =~= v.deep_view().subrange(0, i + 1));
        }
        i = i + 1;
    }
    proof {
        assert(out.deep_view() =~= v.deep_view());
    }
    out
}

impl Clone for RouteConfig {
    fn clone(&self) -> (r: Self)
        ensures
            r@ == self@,
    {
        RouteConfig {
            id: self.id.clone(),
            name: self.name.clone(),
            desc: self.desc.clone(),
            uris: clone_strings(&self.uris),
            upstream_id: self.upstream_id.clone(),
            overwrite_host: self.overwrite_host,
            matcher: self.matcher.clone(),
            priority: self.priority,
            plugins: clone_plugin_configs(&self.plugins),
        }
    }
}

/// One upstream as configured: its endpoints, strategy and health policy.
#[derive(Debug)]
pub struct UpstreamConfig {
    pub id: String,
    pub name: String,
    pub desc: String,
    pub endpoints: Vec<EndpointConfig>,
    pub strategy: String,
    pub health_check: HealthConfig,
}

pub struct UpstreamConfigView {
    pub id: Seq<char>,
    pub name: Seq<char>,
    pub desc: Seq<char>,
    pub endpoints: Seq<EndpointConfigView>,
    pub strategy: Seq<char>,
    pub health_check: HealthConfigView,
}

pub struct HealthConfigView {
    pub timeout: u64,
    pub interval: u64,
    pub path: Seq<char>,
    pub status_regex: Seq<char>,
    pub rise: u64,
    pub fall: u64,
    pub default_down: bool,
}

/// The view of a health policy.
pub open spec fn health_config_view(h: HealthConfig) -> HealthConfigView {
    HealthConfigView {
        timeout: h.timeout,
        interval: h.interval,
        path: h.path@,
        status_regex: h.status_regex@,
        rise: h.rise,
        fall: h.fall,
        default_down: h.default_down,
    }
}

/// A field-for-field copy of a health policy.
pub fn clone_health_config(h: &HealthConfig) -> (r: HealthConfig)
    ensures
        health_config_view(r) == health_config_view(*h),
{
    HealthConfig {
        timeout: h.timeout,
        interval: h.interval,
        path: h.path.clone(),
        status_regex: h.status_regex.clone(),
        rise: h.rise,
        fall: h.fall,
        default_down: h.default_down,
    }
}

/// One backend address with its weight.
#[derive(Debug)]
pub struct EndpointConfig {
    pub addr: String,
    pub weight: u32,
}

pub struct EndpointConfigView {
    pub addr: Seq<char>,
    pub weight: u32,
}

impl View for EndpointConfig {
    type V = EndpointConfigView;

    open spec fn view(&self) -> EndpointConfigView {
        EndpointConfigView { addr: self.addr@, weight: self.weight }
    }
}

impl DeepView for EndpointConfig {
    type V = EndpointConfigView;

    open spec fn deep_view(&self) -> EndpointConfigView {
        self@
    }
}

impl Clone for EndpointConfig {
    fn clone(&self) -> (r: Self)
        ensures
            r@ == self@,
    {
        EndpointConfig { addr: self.addr.clone(), weight: self.weight }
    }
}

impl View for UpstreamConfig {
    type V = UpstreamConfigView;

    open spec fn view(&self) -> UpstreamConfigView {
        UpstreamConfigView {
            id: self.id@,
            name: self.name@,
            desc: self.desc@,
            endpoints: self.endpoints.deep_view(),
            strategy: self.strategy@,
            health_check: health_config_view(self.health_check),
        }
    }
}

impl DeepView for UpstreamConfig {
    type V = UpstreamConfigView;

    open spec fn deep_view(&self) -> UpstreamConfigView {
        self@
    }
}

impl Clone for UpstreamConfig {
    fn clone(&self) -> (r: Self)
        ensures
            r@ == self@,
    {
        let mut endpoints: Vec<EndpointConfig> = Vec::new();
        let mut i: usize = 0;
        while i < self.endpoints.len()
            invariant
                i <= self.endpoints@.len(),
                endpoints.deep_view() =~= self.endpoints.deep_view().subrange(0, i as int),
            decreases self.endpoints@.len() - i,
        {
            let ghost prev = endpoints.deep_view();
            let c = self.endpoints[i].clone();
            endpoints.push(c);
            proof {
                assert(endpoints.deep_view() =~= prev.push(self.endpoints@[i as int]@));
                assert(self.endpoints.deep_view()[i as int] == self.endpoints@[i as int]@);
                assert(self.endpoints.deep_view().subrange(0, i + 1) =~= self.endpoints.deep_view()
                    .subrange(0, i as int).push(self.endpoints.deep_view()[i as int]));
                assert(endpoints.deep_view() =~= self.endpoints.deep_view().subrange(0, i + 1));
            }
            i = i + 1;
        }
        proof {
            assert(endpoints.deep_view() =~= self.endpoints.deep_view());
        }
        UpstreamConfig {
            id: self.id.clone(),
            name: self.name.clone(),
            desc: self.desc.clone(),
            endpoints,
            strategy: self.strategy.clone(),
            health_check: clone_health_config(&self.health_check),
        }
    }
}

} // verus!
