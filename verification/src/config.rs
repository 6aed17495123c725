//! The configuration of the service. Paths are held as the text that the
//! configuration file gives.

use crate::text;
use vstd::prelude::*;

verus! {

/// A TOML value, carried from the configuration file to a plugin.
#[verifier::external_type_specification]
#[verifier::external_body]
pub struct ExTomlValue(toml::Value);

/// `clone` of `toml::Value`, which derives it: the copy is the same value.
pub assume_specification[ <toml::Value as Clone>::clone ](value: &toml::Value) -> (copy:
    toml::Value)
    ensures
        copy == *value,
;

#[derive(Debug, Clone)]
pub struct Config {
    pub server: ServerConfig,
    pub health: HealthConfig,
}

#[derive(Debug, Clone)]
pub struct ServerConfig {
    pub port: u16,
    pub tls: TlsConfig,
}

#[derive(Debug, Clone)]
pub struct TlsConfig {
    pub cert_path: String,
    pub key_path: String,
}

#[derive(Debug, Clone)]
pub struct HealthConfig {
    pub cache: HealthCacheConfig,
    pub http: Option<HttpConfig>,
    pub dns: Option<DnsConfig>,
    pub disk: Option<Vec<DiskConfig>>,
    pub plugins: Option<PluginsConfig>,
}

#[derive(Debug, Clone)]
pub struct PluginsConfig {
    pub timeout_seconds: u64,
    pub items: Vec<PluginConfig>,
}

#[derive(Debug)]
pub struct PluginConfig {
    pub name: String,
    pub path: String,
    pub config: toml::Value,
    pub timeout_seconds: Option<u64>,
    pub permissions: PluginPermissions,
}

#[derive(Debug, Clone)]
pub struct PluginPermissions {
    pub tcp: Vec<TcpPermission>,
}

#[derive(Debug)]
pub struct TcpPermission {
    pub host: Option<String>,
    pub cidr: Option<String>,
    pub ports: Vec<u16>,
}

#[derive(Debug, Clone)]
pub struct HealthCacheConfig {
    pub ttl_seconds: u64,
}

#[derive(Debug, Clone)]
pub struct HttpConfig {
    pub urls: Vec<String>,
}

#[derive(Debug, Clone)]
pub struct DnsConfig {
    pub hosts: Vec<String>,
}

#[derive(Debug, Clone)]
pub struct DiskConfig {
    pub path: String,
    pub threshold: u8,
}

/// A URL to check, and the address or host name to send the request to in
/// place of the URL's own host.
#[derive(Debug, Clone)]
pub struct HttpCheckConfig {
    pub url: String,
    pub resolve: Option<String>,
}

/// A host name to resolve.
#[derive(Debug, Clone)]
pub struct DnsCheckConfig {
    pub host: String,
}

/// An LDAP server to bind to.
#[derive(Debug, Clone)]
pub struct LdapCheckConfig {
    pub url: String,
    pub bind_dn: String,
    pub password: String,
}

#[verifier::ext_equal]
pub struct PluginsConfigView {
    pub timeout_seconds: u64,
    pub items: Seq<PluginConfigView>,
}

#[verifier::ext_equal]
pub struct PluginConfigView {
    pub name: Seq<char>,
    pub path: Seq<char>,
    pub config: toml::Value,
    pub timeout_seconds: Option<u64>,
    pub tcp: Seq<TcpPermissionView>,
}

#[verifier::ext_equal]
pub struct TcpPermissionView {
    pub host: Option<Seq<char>>,
    pub cidr: Option<Seq<char>>,
    pub ports: Seq<u16>,
}

#[verifier::ext_equal]
pub struct DiskConfigView {
    pub path: Seq<char>,
    pub threshold: u8,
}

#[verifier::ext_equal]
pub struct HttpCheckConfigView {
    pub url: Seq<char>,
    pub resolve: Option<Seq<char>>,
}

#[verifier::ext_equal]
pub struct LdapCheckConfigView {
    pub url: Seq<char>,
    pub bind_dn: Seq<char>,
    pub password: Seq<char>,
}

impl View for PluginsConfig {
    type V = PluginsConfigView;

    open spec fn view(&self) -> PluginsConfigView {
        PluginsConfigView {
            timeout_seconds: self.timeout_seconds,
            items: text::views(self.items@),
        }
    }
}

impl View for PluginConfig {
    type V = PluginConfigView;

    open spec fn view(&self) -> PluginConfigView {
        PluginConfigView {
            name: self.name@,
            path: self.path@,
            config: self.config,
            timeout_seconds: self.timeout_seconds,
            tcp: text::views(self.permissions.tcp@),
        }
    }
}

impl View for TcpPermission {
    type V = TcpPermissionView;

    open spec fn view(&self) -> TcpPermissionView {
        TcpPermissionView {
            host: text::option_view(self.host),
            cidr: text::option_view(self.cidr),
            ports: self.ports@,
        }
    }
}

impl View for DiskConfig {
    type V = DiskConfigView;

    open spec fn view(&self) -> DiskConfigView {
        DiskConfigView { path: self.path@, threshold: self.threshold }
    }
}

impl View for HttpCheckConfig {
    type V = HttpCheckConfigView;

    open spec fn view(&self) -> HttpCheckConfigView {
        HttpCheckConfigView { url: self.url@, resolve: text::option_view(self.resolve) }
    }
}

impl View for DnsCheckConfig {
    type V = Seq<char>;

    open spec fn view(&self) -> Seq<char> {
        self.host@
    }
}

impl View for LdapCheckConfig {
    type V = LdapCheckConfigView;

    open spec fn view(&self) -> LdapCheckConfigView {
        LdapCheckConfigView { url: self.url@, bind_dn: self.bind_dn@, password: self.password@ }
    }
}

impl Clone for TcpPermission {
    fn clone(&self) -> (copy: TcpPermission)
        ensures
            copy@ == self@,
    {
        let ports = self.ports.clone();
        assert(ports@ =~= self.ports@);
        TcpPermission {
            host: text::copy_option(&self.host),
            cidr: text::copy_option(&self.cidr),
            ports,
        }
    }
}

impl Clone for PluginConfig {
    fn clone(&self) -> (copy: PluginConfig)
        ensures
            copy@ == self@,
    {
        let tcp = self.permissions.tcp.clone();
        assert(text::views(tcp@) =~= text::views(self.permissions.tcp@));
        PluginConfig {
            name: self.name.clone(),
            path: self.path.clone(),
            config: self.config.clone(),
            timeout_seconds: self.timeout_seconds,
            permissions: PluginPermissions { tcp },
        }
    }
}

impl Default for PluginPermissions {
    /// No network access at all.
    fn default() -> (permissions: PluginPermissions)
        ensures
            permissions.tcp@.len() == 0,
    {
        PluginPermissions { tcp: Vec::new() }
    }
}

impl HttpConfig {
    /// The checks of the listed URLs, each sent to the URL's own host.
    pub fn checks(&self) -> (checks: Vec<HttpCheckConfig>)
        ensures
            checks@.len() == self.urls@.len(),
            forall|i: int|
                0 <= i < self.urls@.len() ==> (#[trigger] checks@[i])@ == (HttpCheckConfigView {
                    url: self.urls@[i]@,
                    resolve: None,
                }),
    {
        let mut checks: Vec<HttpCheckConfig> = Vec::new();
        let mut i: usize = 0;
        while i < self.urls.len()
            invariant
                i <= self.urls@.len(),
                checks@.len() == i,
                forall|j: int|
                    0 <= j < i ==> (#[trigger] checks@[j])@ == (HttpCheckConfigView {
                        url: self.urls@[j]@,
                        resolve: None,
                    }),
            decreases self.urls@.len() - i,
        {
            checks.push(HttpCheckConfig { url: self.urls[i].clone(), resolve: None });
            i += 1;
        }
        checks
    }
}

impl DnsConfig {
    /// The checks of the listed host names.
    pub fn checks(&self) -> (checks: Vec<DnsCheckConfig>)
        ensures
            text::views(checks@) == text::views(self.hosts@),
    {
        let mut checks: Vec<DnsCheckConfig> = Vec::new();
        let mut i: usize = 0;
        while i < self.hosts.len()
            invariant
                i <= self.hosts@.len(),
                checks@.len() == i,
                forall|j: int| 0 <= j < i ==> (#[trigger] checks@[j])@ == self.hosts@[j]@,
            decreases self.hosts@.len() - i,
        {
            checks.push(DnsCheckConfig { host: self.hosts[i].clone() });
            i += 1;
        }
        assert(text::views(checks@) =~= text::views(self.hosts@));
        checks
    }
}

/// The views show all the settings.
pub proof fn law_views_show_everything(
    plugins: PluginsConfig,
    plugin: PluginConfig,
    permission: TcpPermission,
    disk: DiskConfig,
    http: HttpCheckConfig,
    dns: DnsCheckConfig,
    ldap: LdapCheckConfig,
)
    ensures
        plugins@.timeout_seconds == plugins.timeout_seconds,
        plugins@.items == text::views(plugins.items@),
        plugin@.name == plugin.name@,
        plugin@.path == plugin.path@,
        plugin@.config == plugin.config,
        plugin@.timeout_seconds == plugin.timeout_seconds,
        plugin@.tcp == text::views(plugin.permissions.tcp@),
        permission@.host == text::option_view(permission.host),
        permission@.cidr == text::option_view(permission.cidr),
        permission@.ports == permission.ports@,
        disk@.path == disk.path@,
        disk@.threshold == disk.threshold,
        http@.url == http.url@,
        http@.resolve == text::option_view(http.resolve),
        dns@ == dns.host@,
        ldap@.url == ldap.url@,
        ldap@.bind_dn == ldap.bind_dn@,
        ldap@.password == ldap.password@,
{
}

} // verus!
