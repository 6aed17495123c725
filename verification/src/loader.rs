//! Loading the plugins that are configured.

use crate::address::{IpAddr, SocketAddr};
use crate::config::{Config, PluginConfigView, PluginsConfig};
use crate::health;
use crate::health::ComponentHealthView;
use crate::permission;
use crate::permission::{
    HostLookup, PermissionResolution, PermissionResolutionView, TcpPermissionRuleView,
};
use crate::plugin::{Plugin, PluginView};
use crate::text;
use vstd::prelude::*;
use vstd::string::*;

verus! {

/// What loading one plugin has brought so far.
#[derive(Debug)]
pub struct PluginLoad {
    /// Whether the component could be loaded.
    pub component: Result<(), String>,
    /// The results of the lookups that its permissions asked for, in order.
    pub lookups: Vec<HostLookup>,
}

/// What is to be done next to load the plugins.
#[derive(Debug)]
pub enum PluginLoading {
    /// Load the component of the next plugin from `path`.
    Load { path: String },
    /// Look up `host` for the plugin whose component was loaded last.
    Lookup { host: String },
    /// Nothing: these are the plugins.
    Done(Vec<Plugin>),
}

/// What comes of one plugin.
#[derive(Debug)]
pub enum PluginOutcome {
    /// The plugin cannot be used, for this reason.
    Refused(String),
    /// Its component has to be loaded from `path`.
    Load { path: String },
    /// The addresses of `host` have to be looked up.
    Lookup { host: String },
    Ready(Plugin),
}

#[verifier::ext_equal]
pub struct PluginLoadView {
    pub component: Result<(), Seq<char>>,
    pub lookups: Seq<Result<Seq<IpAddr>, Seq<char>>>,
}

#[verifier::ext_equal]
pub enum PluginLoadingView {
    Load { path: Seq<char> },
    Lookup { host: Seq<char> },
    Done(Seq<PluginView>),
}

#[verifier::ext_equal]
pub enum PluginOutcomeView {
    Refused(Seq<char>),
    Load { path: Seq<char> },
    Lookup { host: Seq<char> },
    Ready(PluginView),
}

impl View for PluginLoad {
    type V = PluginLoadView;

    open spec fn view(&self) -> PluginLoadView {
        PluginLoadView {
            component: text::result_view(self.component),
            lookups: permission::lookup_views(self.lookups@),
        }
    }
}

impl View for PluginLoading {
    type V = PluginLoadingView;

    open spec fn view(&self) -> PluginLoadingView {
        match self {
            PluginLoading::Load { path } => PluginLoadingView::Load { path: path@ },
            PluginLoading::Lookup { host } => PluginLoadingView::Lookup { host: host@ },
            PluginLoading::Done(plugins) => PluginLoadingView::Done(text::views(plugins@)),
        }
    }
}

impl View for PluginOutcome {
    type V = PluginOutcomeView;

    open spec fn view(&self) -> PluginOutcomeView {
        match self {
            PluginOutcome::Refused(reason) => PluginOutcomeView::Refused(reason@),
            PluginOutcome::Load { path } => PluginOutcomeView::Load { path: path@ },
            PluginOutcome::Lookup { host } => PluginOutcomeView::Lookup { host: host@ },
            PluginOutcome::Ready(plugin) => PluginOutcomeView::Ready(plugin@),
        }
    }
}

/// Where `path` leads from `directory`: an absolute path leads to the same
/// place from everywhere.
pub open spec fn path_from(directory: Seq<char>, path: Seq<char>) -> Seq<char> {
    if path.len() > 0 && path[0] == '/' {
        path
    } else if directory.len() == 0 || directory.last() == '/' {
        directory + path
    } else {
        directory + "/"@ + path
    }
}

/// Where the component of a plugin lies, given the directory of the
/// configuration file.
pub fn resolve_plugin_path(config_dir: &str, path: &str) -> (resolved: String)
    ensures
        resolved@ == path_from(config_dir@, path@),
{
    let directory = text::chars_of(config_dir);
    let chars = text::chars_of(path);
    if chars.len() > 0 && chars[0] == '/' {
        path.to_owned()
    } else if directory.len() == 0 || directory[directory.len() - 1] == '/' {
        config_dir.to_owned().concat(path)
    } else {
        config_dir.to_owned().concat("/").concat(path)
    }
}

/// The position of the last slash in `path`, or -1.
pub open spec fn last_slash(path: Seq<char>) -> int
    decreases path.len(),
{
    if path.len() == 0 {
        -1
    } else if path.last() == '/' {
        path.len() - 1
    } else {
        last_slash(path.drop_last())
    }
}

/// Whether `name` is the plain name of a file: not empty, and neither of the
/// two names that stand for directories.
pub open spec fn plain_name(name: Seq<char>) -> bool {
    name.len() > 0 && name != "."@ && name != ".."@
}

/// The path of the directory that holds `path`, where `path` is written
/// plainly: a name alone, a name right below the root, or a name behind a
/// directory that ends neither in a slash nor in a dot behind one.
pub open spec fn plain_parent(path: Seq<char>) -> Option<Seq<char>> {
    let slash = last_slash(path);
    let directory = path.take(slash);
    if path.len() == 0 {
        None
    } else if slash < 0 {
        Some(Seq::empty())
    } else if !plain_name(path.skip(slash + 1)) {
        None
    } else if slash == 0 {
        Some("/"@)
    } else if directory.last() == '/' || (directory.len() > 1 && directory.last() == '.'
        && directory[directory.len() - 2] == '/') {
        None
    } else {
        Some(directory)
    }
}

/// The directory that the paths of plugins start from, where the path of the
/// configuration file is empty or plainly written.
pub open spec fn plain_directory(config_path: Seq<char>) -> Option<Seq<char>> {
    if config_path.len() == 0 {
        Some("."@)
    } else {
        plain_parent(config_path)
    }
}

/// A path without its last component, where it has one.
pub uninterp spec fn parent_path(path: Seq<char>) -> Option<Seq<char>>;

/// Calls `std::path::Path::parent`, which returns the path without its last
/// component: the empty path for a relative path of one component, and nothing
/// for the empty path or one that ends in a root. `parent_path` stands for the
/// outcome on Unix; what it is for a plainly written path is stated.
#[verifier::external_body]
fn parent_of(path: &str) -> (parent: Option<String>)
    ensures
        text::option_view(parent) == parent_path(path@),
        path@.len() == 0 ==> parent is None,
        plain_parent(path@) matches Some(directory) ==> text::option_view(parent) == Some(
            directory,
        ),
{
    std::path::Path::new(path).parent().map(|parent| parent.display().to_string())
}

/// The directory of a file, given its path without the last component.
pub open spec fn directory_of(parent: Option<Seq<char>>) -> Seq<char> {
    match parent {
        Some(directory) => directory,
        None => "."@,
    }
}

/// The directory of a file, given its path without the last component.
pub fn directory_or_current(parent: Option<String>) -> (directory: String)
    ensures
        directory@ == directory_of(text::option_view(parent)),
{
    match parent {
        Some(directory) => directory,
        None => ".".to_owned(),
    }
}

/// The JSON text that a TOML value is written as, or the error with which
/// `serde_json` fails to write it, in its debug form.
pub uninterp spec fn config_json(config: toml::Value) -> Result<Seq<char>, Seq<char>>;

/// Calls `serde_json::to_string` on a TOML value; `config_json` stands for the
/// outcome, which depends on the value alone.
#[verifier::external_body]
fn write_config(config: &toml::Value) -> (json: Result<String, String>)
    ensures
        text::result_view(json) == config_json(*config),
{
    match serde_json::to_string(config) {
        Ok(json) => Ok(json),
        Err(err) => Err(format!("{err:?}")),
    }
}

/// Whether a check that is built in goes by this name.
pub open spec fn built_in_name(name: Seq<char>) -> bool {
    name == "http"@ || name == "dns"@ || name == "disk"@
}

/// What is wrong with the name of the plugin at `index`, if anything is.
pub open spec fn name_problem(items: Seq<PluginConfigView>, index: int) -> Option<Seq<char>> {
    let name = items[index].name;
    if name.len() == 0 || exists|j: int| 0 <= j < index && (#[trigger] items[j]).name == name {
        Some("plugin names must be non-empty and unique: "@ + name)
    } else if built_in_name(name) {
        Some("plugin name collides with built-in health check: "@ + name)
    } else {
        None
    }
}

/// The plugin that `item` configures.
pub open spec fn configured_plugin(
    item: PluginConfigView,
    default_timeout: u64,
    directory: Seq<char>,
    rules: Seq<TcpPermissionRuleView>,
    json: Seq<char>,
) -> PluginView {
    PluginView {
        name: item.name,
        path: path_from(directory, item.path),
        config_json: json,
        timeout_seconds: match item.timeout_seconds {
            Some(seconds) => seconds,
            None => default_timeout,
        },
        tcp_permissions: rules,
    }
}

/// What comes of the plugin at `index`, given what loading it has brought so
/// far and its configuration as JSON.
pub open spec fn plugin_outcome(
    items: Seq<PluginConfigView>,
    index: int,
    default_timeout: u64,
    directory: Seq<char>,
    load: Option<PluginLoadView>,
    json: Result<Seq<char>, Seq<char>>,
) -> PluginOutcomeView {
    let item = items[index];
    let path = path_from(directory, item.path);
    match name_problem(items, index) {
        Some(reason) => PluginOutcomeView::Refused(reason),
        None => match load {
            None => PluginOutcomeView::Load { path },
            Some(load) => match load.component {
                Err(reason) => PluginOutcomeView::Refused(
                    "failed to load health plugin "@ + item.name + " from "@ + path + ": "@
                        + reason,
                ),
                Ok(_) => match permission::resolution(item.tcp, load.lookups) {
                    Err(reason) => PluginOutcomeView::Refused(
                        "invalid permissions for plugin "@ + item.name + ": "@ + reason,
                    ),
                    Ok(PermissionResolutionView::Lookup(host)) => PluginOutcomeView::Lookup {
                        host,
                    },
                    Ok(PermissionResolutionView::Rules(rules)) => match json {
                        Err(reason) => PluginOutcomeView::Refused(
                            "TOML plugin configuration is always serializable: "@ + reason,
                        ),
                        Ok(json) => PluginOutcomeView::Ready(
                            configured_plugin(item, default_timeout, directory, rules, json),
                        ),
                    },
                },
            },
        },
    }
}

/// The loading with `plugins` put in front of those that it is done with.
pub open spec fn after_plugins(
    plugins: Seq<PluginView>,
    loading: Result<PluginLoadingView, Seq<char>>,
) -> Result<PluginLoadingView, Seq<char>> {
    match loading {
        Ok(PluginLoadingView::Done(rest)) => Ok(PluginLoadingView::Done(plugins + rest)),
        _ => loading,
    }
}

/// What the outcome of one plugin makes of the loading of those after it.
pub open spec fn after_outcome(
    outcome: PluginOutcomeView,
    rest: Result<PluginLoadingView, Seq<char>>,
) -> Result<PluginLoadingView, Seq<char>> {
    match outcome {
        PluginOutcomeView::Refused(reason) => Err(reason),
        PluginOutcomeView::Load { path } => Ok(PluginLoadingView::Load { path }),
        PluginOutcomeView::Lookup { host } => Ok(PluginLoadingView::Lookup { host }),
        PluginOutcomeView::Ready(plugin) => after_plugins(seq![plugin], rest),
    }
}

/// How far the plugins from `index` on can be loaded, given what loading them
/// has brought so far.
pub open spec fn loading_from(
    items: Seq<PluginConfigView>,
    index: int,
    default_timeout: u64,
    directory: Seq<char>,
    loads: Seq<PluginLoadView>,
) -> Result<PluginLoadingView, Seq<char>>
    decreases items.len() - index,
{
    if index >= items.len() {
        Ok(PluginLoadingView::Done(Seq::empty()))
    } else {
        let load = if index < loads.len() {
            Some(loads[index])
        } else {
            None
        };
        let json = config_json(items[index].config);
        after_outcome(
            plugin_outcome(items, index, default_timeout, directory, load, json),
            loading_from(items, index + 1, default_timeout, directory, loads),
        )
    }
}

/// Whether an earlier plugin has the name of the one at `index`.
fn name_taken(plugins: &PluginsConfig, index: usize) -> (taken: bool)
    requires
        index < plugins.items@.len(),
    ensures
        taken == exists|j: int|
            0 <= j < index && (#[trigger] plugins@.items[j]).name == plugins@.items[
                index as int
            ].name,
{
    let mut j: usize = 0;
    while j < index
        invariant
            j <= index < plugins.items@.len(),
            forall|k: int|
                0 <= k < j ==> (#[trigger] plugins@.items[k]).name != plugins@.items[
                    index as int
                ].name,
        decreases index - j,
    {
        assert(plugins@.items[j as int].name == plugins.items@[j as int].name@);
        if plugins.items[j].name == plugins.items[index].name {
            return true;
        }
        j += 1;
    }
    false
}

/// What comes of the plugin at `index`, given what loading it has brought so
/// far and its configuration as JSON.
pub fn load_plugin(
    plugins: &PluginsConfig,
    index: usize,
    config_dir: &str,
    load: Option<&PluginLoad>,
    json: Result<String, String>,
) -> (outcome: PluginOutcome)
    requires
        index < plugins.items@.len(),
    ensures
        outcome@ == plugin_outcome(
            plugins@.items,
            index as int,
            plugins.timeout_seconds,
            config_dir@,
            match load {
                Some(load) => Some(load@),
                None => None,
            },
            text::result_view(json),
        ),
        outcome matches PluginOutcome::Ready(plugin) ==> plugin@.well_formed(),
{
    let item = &plugins.items[index];
    assert(plugins@.items[index as int] == item@);
    if item.name.as_str().is_empty() || name_taken(plugins, index) {
        return PluginOutcome::Refused(
            "plugin names must be non-empty and unique: ".to_owned().concat(item.name.as_str()),
        );
    }
    let name = item.name.as_str();
    if text::same_text(name, "http") || text::same_text(name, "dns") || text::same_text(
        name,
        "disk",
    ) {
        return PluginOutcome::Refused(
            "plugin name collides with built-in health check: ".to_owned().concat(name),
        );
    }
    let path = resolve_plugin_path(config_dir, item.path.as_str());
    let load = match load {
        None => {
            return PluginOutcome::Load { path };
        },
        Some(load) => load,
    };
    if let Err(reason) = &load.component {
        return PluginOutcome::Refused(
            "failed to load health plugin ".to_owned().concat(name).concat(" from ").concat(
                path.as_str(),
            ).concat(": ").concat(reason.as_str()),
        );
    }
    match permission::resolve_tcp_permissions(
        item.permissions.tcp.as_slice(),
        load.lookups.as_slice(),
    ) {
        Err(reason) => PluginOutcome::Refused(
            "invalid permissions for plugin ".to_owned().concat(name).concat(": ").concat(
                reason.as_str(),
            ),
        ),
        Ok(PermissionResolution::Lookup(host)) => PluginOutcome::Lookup { host },
        Ok(PermissionResolution::Rules(rules)) => match json {
            Err(reason) => PluginOutcome::Refused(
                "TOML plugin configuration is always serializable: ".to_owned().concat(
                    reason.as_str(),
                ),
            ),
            Ok(config_json) => PluginOutcome::Ready(
                Plugin {
                    name: item.name.clone(),
                    path,
                    config_json,
                    timeout_seconds: match item.timeout_seconds {
                        Some(seconds) => seconds,
                        None => plugins.timeout_seconds,
                    },
                    tcp_permissions: rules,
                },
            ),
        },
    }
}

fn load_step(
    plugins: &PluginsConfig,
    index: usize,
    config_dir: &str,
    loads: &[PluginLoad],
) -> (outcome: PluginOutcome)
    requires
        index < plugins.items@.len(),
    ensures
        loading_from(
            plugins@.items,
            index as int,
            plugins.timeout_seconds,
            config_dir@,
            text::views(loads@),
        ) == after_outcome(
            outcome@,
            loading_from(
                plugins@.items,
                index + 1,
                plugins.timeout_seconds,
                config_dir@,
                text::views(loads@),
            ),
        ),
        outcome matches PluginOutcome::Ready(plugin) ==> plugin@.well_formed(),
{
    let load: Option<&PluginLoad> = if index < loads.len() {
        Some(&loads[index])
    } else {
        None
    };
    let json = write_config(&plugins.items[index].config);
    load_plugin(plugins, index, config_dir, load, json)
}

/// Loads the plugins one after the other from `config_dir`, given what loading
/// them has brought so far. The answer is what to do next, or all the plugins,
/// or the reason why one of them cannot be used.
pub fn load_plugins_from(
    plugins: &PluginsConfig,
    config_dir: &str,
    loads: &[PluginLoad],
) -> (loading: Result<PluginLoading, String>)
    ensures
        text::result_view(loading) == loading_from(
            plugins@.items,
            0,
            plugins.timeout_seconds,
            config_dir@,
            text::views(loads@),
        ),
        loading matches Ok(PluginLoading::Done(ready)) ==> forall|i: int|
            0 <= i < ready@.len() ==> (#[trigger] ready@[i])@.well_formed(),
{
    let ghost items = plugins@.items;
    let ghost all_loads = text::views(loads@);
    let ghost expected = loading_from(
        items,
        0,
        plugins.timeout_seconds,
        config_dir@,
        all_loads,
    );
    let mut ready: Vec<Plugin> = Vec::new();
    let mut i: usize = 0;
    proof {
        assert(text::views(ready@) =~= Seq::empty());
        match expected {
            Ok(PluginLoadingView::Done(rest)) => {
                assert(text::views(ready@) + rest =~= rest);
            },
            _ => {},
        }
    }
    while i < plugins.items.len()
        invariant
            i <= plugins.items@.len(),
            items == plugins@.items,
            all_loads == text::views(loads@),
            expected == loading_from(items, 0, plugins.timeout_seconds, config_dir@, all_loads),
            expected == after_plugins(
                text::views(ready@),
                loading_from(items, i as int, plugins.timeout_seconds, config_dir@, all_loads),
            ),
            forall|j: int| 0 <= j < ready@.len() ==> (#[trigger] ready@[j])@.well_formed(),
        decreases plugins.items@.len() - i,
    {
        match load_step(plugins, i, config_dir, loads) {
            PluginOutcome::Refused(reason) => {
                return Err(reason);
            },
            PluginOutcome::Load { path } => {
                return Ok(PluginLoading::Load { path });
            },
            PluginOutcome::Lookup { host } => {
                return Ok(PluginLoading::Lookup { host });
            },
            PluginOutcome::Ready(plugin) => {
                let ghost before = text::views(ready@);
                let ghost one = plugin@;
                ready.push(plugin);
                proof {
                    assert(text::views(ready@) =~= before.push(one));
                    let deeper = loading_from(
                        items,
                        i + 1,
                        plugins.timeout_seconds,
                        config_dir@,
                        all_loads,
                    );
                    match deeper {
                        Ok(PluginLoadingView::Done(tail)) => {
                            assert(before + (seq![one] + tail) =~= before.push(one) + tail);
                        },
                        _ => {},
                    }
                }
            },
        }
        i += 1;
    }
    proof {
        assert(text::views(ready@) + Seq::empty() =~= text::views(ready@));
    }
    Ok(PluginLoading::Done(ready))
}

/// Loads the configured plugins one after the other, given what loading them
/// has brought so far. Their paths are relative to the directory of the
/// configuration file, which is known where its path is plainly written. The
/// answer is what to do next, or all the plugins, or the reason why one of them
/// cannot be used.
pub fn load_plugins(config: &Config, config_path: &str, loads: &[PluginLoad]) -> (loading: Result<
    PluginLoading,
    String,
>)
    ensures
        match config.health.plugins {
            None => text::result_view(loading) == Ok::<PluginLoadingView, Seq<char>>(
                PluginLoadingView::Done(Seq::empty()),
            ),
            Some(plugins) => text::result_view(loading) == loading_from(
                plugins@.items,
                0,
                plugins.timeout_seconds,
                directory_of(parent_path(config_path@)),
                text::views(loads@),
            ),
        },
        config.health.plugins matches Some(plugins) ==> (plain_directory(config_path@) matches Some(
            directory,
        ) ==> text::result_view(loading) == loading_from(
            plugins@.items,
            0,
            plugins.timeout_seconds,
            directory,
            text::views(loads@),
        )),
        loading matches Ok(PluginLoading::Done(ready)) ==> forall|i: int|
            0 <= i < ready@.len() ==> (#[trigger] ready@[i])@.well_formed(),
{
    match &config.health.plugins {
        None => {
            let ready: Vec<Plugin> = Vec::new();
            assert(text::views(ready@) =~= Seq::empty());
            Ok(PluginLoading::Done(ready))
        },
        Some(plugins) => {
            let config_dir = directory_or_current(parent_of(config_path));
            load_plugins_from(plugins, config_dir.as_str(), loads)
        },
    }
}

/// Whether `plugin` is what `item` configures, with the rules that its
/// permissions resolved to.
pub open spec fn follows_configuration(
    plugin: PluginView,
    item: PluginConfigView,
    default_timeout: u64,
    directory: Seq<char>,
    load: PluginLoadView,
) -> bool {
    &&& permission::resolution(item.tcp, load.lookups) == Ok::<
        PermissionResolutionView,
        Seq<char>,
    >(PermissionResolutionView::Rules(plugin.tcp_permissions))
    &&& config_json(item.config) == Ok::<Seq<char>, Seq<char>>(plugin.config_json)
    &&& plugin == configured_plugin(
        item,
        default_timeout,
        directory,
        plugin.tcp_permissions,
        plugin.config_json,
    )
}

proof fn lemma_loaded_from(
    items: Seq<PluginConfigView>,
    index: int,
    default_timeout: u64,
    directory: Seq<char>,
    loads: Seq<PluginLoadView>,
    plugins: Seq<PluginView>,
)
    requires
        0 <= index <= items.len(),
        loading_from(items, index, default_timeout, directory, loads) == Ok::<
            PluginLoadingView,
            Seq<char>,
        >(PluginLoadingView::Done(plugins)),
    ensures
        plugins.len() == items.len() - index,
        loads.len() >= items.len() || index == items.len(),
        forall|i: int|
            index <= i < items.len() ==> {
                &&& #[trigger] name_problem(items, i) is None
                &&& follows_configuration(
                    plugins[i - index],
                    items[i],
                    default_timeout,
                    directory,
                    loads[i],
                )
            },
    decreases items.len() - index,
{
    if index < items.len() {
        let load = if index < loads.len() {
            Some(loads[index])
        } else {
            None
        };
        let json = config_json(items[index].config);
        let outcome = plugin_outcome(items, index, default_timeout, directory, load, json);
        let deeper = loading_from(items, index + 1, default_timeout, directory, loads);
        let first = outcome->Ready_0;
        let rest = deeper->Ok_0->Done_0;
        assert(plugins == seq![first] + rest);
        lemma_loaded_from(items, index + 1, default_timeout, directory, loads, rest);
        assert forall|i: int| index <= i < items.len() implies {
            &&& #[trigger] name_problem(items, i) is None
            &&& follows_configuration(
                plugins[i - index],
                items[i],
                default_timeout,
                directory,
                loads[i],
            )
        } by {
            if i > index {
                assert(plugins[i - index] == rest[i - (index + 1)]);
            }
        }
    }
}

/// Once the plugins are loaded, there is one for each that is configured, in
/// the same place. Each has the configured name, path, configuration and
/// timeout, and the rules that its permissions resolved to. The names are not
/// empty, none occurs twice and none is that of a built-in check.
pub proof fn law_loaded_plugins_follow_configuration(
    items: Seq<PluginConfigView>,
    default_timeout: u64,
    directory: Seq<char>,
    loads: Seq<PluginLoadView>,
    plugins: Seq<PluginView>,
)
    requires
        loading_from(items, 0, default_timeout, directory, loads) == Ok::<
            PluginLoadingView,
            Seq<char>,
        >(PluginLoadingView::Done(plugins)),
    ensures
        plugins.len() == items.len(),
        forall|i: int|
            0 <= i < items.len() ==> {
                &&& follows_configuration(
                    #[trigger] plugins[i],
                    items[i],
                    default_timeout,
                    directory,
                    loads[i],
                )
                &&& plugins[i].name == items[i].name
                &&& plugins[i].name.len() > 0
                &&& !built_in_name(plugins[i].name)
                &&& plugins[i].well_formed()
            },
        forall|i: int, j: int|
            0 <= i < j < plugins.len() ==> (#[trigger] plugins[i]).name != (
            #[trigger] plugins[j]).name,
{
    lemma_loaded_from(items, 0, default_timeout, directory, loads, plugins);
    assert forall|i: int| 0 <= i < items.len() implies {
        &&& follows_configuration(
            #[trigger] plugins[i],
            items[i],
            default_timeout,
            directory,
            loads[i],
        )
        &&& plugins[i].name == items[i].name
        &&& plugins[i].name.len() > 0
        &&& !built_in_name(plugins[i].name)
        &&& plugins[i].well_formed()
    } by {
        assert(name_problem(items, i) is None);
        permission::law_rules_follow_permissions(
            items[i].tcp,
            loads[i].lookups,
            plugins[i].tcp_permissions,
        );
    }
    assert forall|i: int, j: int| 0 <= i < j < plugins.len() implies (#[trigger] plugins[i]).name
        != (#[trigger] plugins[j]).name by {
        assert(name_problem(items, j) is None);
        assert(plugins[i].name == items[i].name);
    }
}

/// A loaded plugin may connect to an address exactly where one of the
/// permissions configured for it is meant to let it.
pub proof fn law_loaded_plugins_reach_what_is_permitted(
    items: Seq<PluginConfigView>,
    default_timeout: u64,
    directory: Seq<char>,
    loads: Seq<PluginLoadView>,
    plugins: Seq<PluginView>,
    index: int,
    destination: SocketAddr,
)
    requires
        loading_from(items, 0, default_timeout, directory, loads) == Ok::<
            PluginLoadingView,
            Seq<char>,
        >(PluginLoadingView::Done(plugins)),
        0 <= index < plugins.len(),
    ensures
        permission::some_rule_allows(plugins[index].tcp_permissions, destination) <==> exists|
            k: int,
        |
            0 <= k < items[index].tcp.len() && permission::permits(
                #[trigger] items[index].tcp[k],
                permission::own_lookup(items[index].tcp, loads[index].lookups, k),
                destination,
            ),
{
    law_loaded_plugins_follow_configuration(items, default_timeout, directory, loads, plugins);
    assert(follows_configuration(
        plugins[index],
        items[index],
        default_timeout,
        directory,
        loads[index],
    ));
    permission::law_rules_allow_what_is_permitted(
        items[index].tcp,
        loads[index].lookups,
        plugins[index].tcp_permissions,
        destination,
    );
}

/// The components of loaded plugins take the place of no other component:
/// together with the built-in checks they all have distinct names.
pub proof fn law_plugin_components_do_not_collide(
    items: Seq<PluginConfigView>,
    default_timeout: u64,
    directory: Seq<char>,
    loads: Seq<PluginLoadView>,
    plugins: Seq<PluginView>,
    http: Option<ComponentHealthView>,
    dns: Option<ComponentHealthView>,
    disk: Option<ComponentHealthView>,
    reports: Seq<(Seq<char>, ComponentHealthView)>,
)
    requires
        loading_from(items, 0, default_timeout, directory, loads) == Ok::<
            PluginLoadingView,
            Seq<char>,
        >(PluginLoadingView::Done(plugins)),
        reports.len() == plugins.len(),
        forall|i: int| 0 <= i < reports.len() ==> (#[trigger] reports[i]).0 == plugins[i].name,
    ensures
        health::distinct_names(health::all_reports(http, dns, disk, reports)),
        forall|i: int|
            0 <= i < reports.len() ==> health::gathered(
                health::all_reports(http, dns, disk, reports),
            )[(#[trigger] reports[i]).0] == reports[i].1,
{
    law_loaded_plugins_follow_configuration(items, default_timeout, directory, loads, plugins);
    reveal_strlit("http");
    reveal_strlit("dns");
    reveal_strlit("disk");
    assert("dns"@.len() == 3 && "disk"@.len() == 4 && "http"@.len() == 4);
    assert("disk"@[0] != "http"@[0]);
    let built_in = health::named_report("dns"@, dns) + health::named_report("disk"@, disk)
        + health::named_report("http"@, http);
    let all = health::all_reports(http, dns, disk, reports);
    assert(all =~= built_in + reports);
    assert(health::distinct_names(built_in));
    assert forall|i: int| 0 <= i < built_in.len() implies built_in_name(
        (#[trigger] built_in[i]).0,
    ) by {}
    assert forall|i: int, j: int| 0 <= i < j < all.len() implies (#[trigger] all[i]).0 != (
    #[trigger] all[j]).0 by {
        let n = built_in.len() as int;
        if j < n {
            assert(all[i] == built_in[i] && all[j] == built_in[j]);
        } else if i < n {
            assert(all[i] == built_in[i] && all[j] == reports[j - n]);
            assert(!built_in_name(plugins[j - n].name));
        } else {
            assert(all[i] == reports[i - n] && all[j] == reports[j - n]);
            assert(plugins[i - n].name != plugins[j - n].name);
        }
    }
    health::law_components_are_the_reports(all);
    assert forall|i: int| 0 <= i < reports.len() implies health::gathered(
        all,
    )[(#[trigger] reports[i]).0] == reports[i].1 by {
        assert(all[built_in.len() + i] == reports[i]);
    }
}

/// An absolute path is used as it is; any other leads on from the directory.
pub proof fn law_relative_paths_start_from_the_directory(
    directory: Seq<char>,
    path: Seq<char>,
)
    ensures
        path.len() > 0 && path[0] == '/' ==> path_from(directory, path) == path,
        !(path.len() > 0 && path[0] == '/') ==> directory.is_prefix_of(path_from(directory, path))
            && path.is_suffix_of(path_from(directory, path)),
{
    reveal_strlit("/");
    let whole = path_from(directory, path);
    if !(path.len() > 0 && path[0] == '/') {
        assert(directory =~= whole.subrange(0, directory.len() as int));
        assert(path =~= whole.subrange(
            (whole.len() - path.len()) as int,
            whole.len() as int,
        ));
    }
}

proof fn lemma_last_slash(directory: Seq<char>, name: Seq<char>)
    requires
        !name.contains('/'),
    ensures
        last_slash(directory + "/"@ + name) == directory.len(),
    decreases name.len(),
{
    reveal_strlit("/");
    let path = directory + "/"@ + name;
    if name.len() > 0 {
        assert(path.last() == name[name.len() - 1]);
        assert(path.drop_last() =~= directory + "/"@ + name.drop_last());
        assert forall|i: int| 0 <= i < name.drop_last().len() implies name.drop_last()[i]
            != '/' by {
            assert(name[i] != '/');
        }
        lemma_last_slash(directory, name.drop_last());
    }
}

/// The directory of a configuration file with a plain name is what stands
/// before the slash in its path.
pub proof fn law_plain_paths_show_their_directory(directory: Seq<char>, name: Seq<char>)
    requires
        plain_name(name),
        !name.contains('/'),
        directory.len() > 0,
        directory.last() != '/',
        !"/."@.is_suffix_of(directory),
    ensures
        plain_directory(directory + "/"@ + name) == Some(directory),
{
    reveal_strlit("/");
    reveal_strlit("/.");
    lemma_last_slash(directory, name);
    let path = directory + "/"@ + name;
    assert(path.take(directory.len() as int) =~= directory);
    assert(path.skip(directory.len() as int + 1) =~= name);
    if directory.len() > 1 && directory.last() == '.' && directory[directory.len() - 2] == '/' {
        assert("/."@ =~= directory.subrange(directory.len() - 2, directory.len() as int));
    }
}

/// No more components are asked for than there are plugins. Once they are
/// loaded, and for each plugin as many lookups were made as it has permissions,
/// nothing is left to do: the plugins are ready or one of them is refused.
pub proof fn law_loading_comes_to_an_end(
    items: Seq<PluginConfigView>,
    index: int,
    default_timeout: u64,
    directory: Seq<char>,
    loads: Seq<PluginLoadView>,
)
    requires
        0 <= index <= items.len(),
        loads.len() >= items.len(),
    ensures
        !(loading_from(items, index, default_timeout, directory, loads) matches Ok(answer)
            && answer is Load),
        (forall|i: int|
            0 <= i < items.len() ==> (#[trigger] loads[i]).lookups.len() >= items[i].tcp.len())
            ==> (loading_from(items, index, default_timeout, directory, loads) matches Ok(answer)
            ==> answer is Done),
    decreases items.len() - index,
{
    if index < items.len() {
        law_loading_comes_to_an_end(items, index + 1, default_timeout, directory, loads);
        if loads[index].lookups.len() >= items[index].tcp.len() {
            permission::law_lookups_come_to_an_end(items[index].tcp, loads[index].lookups);
        }
    }
}

/// The views show all that is in what loading brought and in what comes of it.
pub proof fn law_views_show_everything(
    load: PluginLoad,
    plugin: Plugin,
    plugins: Vec<Plugin>,
    text: String,
)
    ensures
        load@.component == text::result_view(load.component),
        load@.lookups == permission::lookup_views(load.lookups@),
        (PluginLoading::Load { path: text })@ == (PluginLoadingView::Load { path: text@ }),
        (PluginLoading::Lookup { host: text })@ == (PluginLoadingView::Lookup { host: text@ }),
        PluginLoading::Done(plugins)@ == PluginLoadingView::Done(text::views(plugins@)),
        PluginOutcome::Refused(text)@ == PluginOutcomeView::Refused(text@),
        (PluginOutcome::Load { path: text })@ == (PluginOutcomeView::Load { path: text@ }),
        (PluginOutcome::Lookup { host: text })@ == (PluginOutcomeView::Lookup { host: text@ }),
        PluginOutcome::Ready(plugin)@ == PluginOutcomeView::Ready(plugin@),
{
}

/// An absolute path stays as it is. Any other is put behind the directory, with
/// a slash between them unless the directory is empty or ends in one.
pub proof fn law_paths_are_joined(directory: Seq<char>, path: Seq<char>)
    ensures
        path_from(directory, seq!['/'] + path) == seq!['/'] + path,
        (path.len() == 0 || path[0] != '/') ==> {
            &&& path_from(Seq::empty(), path) == path
            &&& path_from(directory.push('/'), path) == directory.push('/') + path
            &&& directory.len() > 0 && directory.last() != '/' ==> path_from(directory, path)
                == directory.push('/') + path
        },
{
    reveal_strlit("/");
    assert((seq!['/'] + path)[0] == '/');
    assert(Seq::<char>::empty() + path =~= path);
    assert(directory + "/"@ + path =~= directory.push('/') + path);
}

/// A configuration file that is named without a directory lies in the current
/// one, and one right below the root lies there.
pub proof fn law_files_without_a_directory(name: Seq<char>)
    requires
        name.len() > 0,
        name != "."@,
        name != ".."@,
        !name.contains('/'),
    ensures
        plain_directory(name) == Some(Seq::<char>::empty()),
        plain_directory(seq!['/'] + name) == Some(seq!['/']),
        plain_directory(Seq::empty()) == Some("."@),
        directory_of(None) == "."@,
        directory_of(Some(name)) == name,
{
    reveal_strlit("/");
    assert("/"@ =~= seq!['/']);
    lemma_no_slash(name);
    lemma_last_slash(Seq::empty(), name);
    let path = seq!['/'] + name;
    assert(path =~= Seq::empty() + "/"@ + name);
    assert(path.skip(1) =~= name);
}

proof fn lemma_no_slash(name: Seq<char>)
    requires
        !name.contains('/'),
    ensures
        last_slash(name) == -1,
    decreases name.len(),
{
    if name.len() > 0 {
        assert(name[name.len() - 1] != '/');
        assert forall|i: int| 0 <= i < name.drop_last().len() implies name.drop_last()[i]
            != '/' by {
            assert(name[i] != '/');
        }
        lemma_no_slash(name.drop_last());
    }
}

/// The name of a plugin is refused exactly where it is empty, an earlier plugin
/// has it, or it is that of a built-in check.
pub proof fn law_names(items: Seq<PluginConfigView>, index: int)
    requires
        0 <= index < items.len(),
    ensures
        ({
            let name = items[index].name;
            let taken = name.len() == 0 || exists|j: int|
                0 <= j < index && (#[trigger] items[j]).name == name;
            let built_in = name == "http"@ || name == "dns"@ || name == "disk"@;
            &&& taken ==> name_problem(items, index) == Some(
                "plugin names must be non-empty and unique: "@ + name,
            )
            &&& !taken && built_in ==> name_problem(items, index) == Some(
                "plugin name collides with built-in health check: "@ + name,
            )
            &&& !taken && !built_in ==> name_problem(items, index) is None
        }),
{
}

/// A plugin with a bad name is refused. Otherwise its component is loaded from
/// its path, its permissions are resolved, its configuration is written out,
/// and it is ready; what fails on the way is the reason to refuse it.
pub proof fn law_outcomes_of_plugins(
    items: Seq<PluginConfigView>,
    index: int,
    default_timeout: u64,
    directory: Seq<char>,
    lookups: Seq<Result<Seq<IpAddr>, Seq<char>>>,
    load: Option<PluginLoadView>,
    json: Result<Seq<char>, Seq<char>>,
    reason: Seq<char>,
)
    requires
        0 <= index < items.len(),
    ensures
        name_problem(items, index) matches Some(problem) ==> plugin_outcome(
            items,
            index,
            default_timeout,
            directory,
            load,
            json,
        ) == PluginOutcomeView::Refused(problem),
        name_problem(items, index) is None ==> {
            let item = items[index];
            let path = path_from(directory, item.path);
            let loaded = Some(PluginLoadView { component: Ok(()), lookups });
            let outcome = plugin_outcome(items, index, default_timeout, directory, loaded, json);
            &&& plugin_outcome(items, index, default_timeout, directory, None, json) == (
            PluginOutcomeView::Load { path })
            &&& plugin_outcome(
                items,
                index,
                default_timeout,
                directory,
                Some(PluginLoadView { component: Err(reason), lookups }),
                json,
            ) == PluginOutcomeView::Refused(
                "failed to load health plugin "@ + item.name + " from "@ + path + ": "@ + reason,
            )
            &&& match permission::resolution(item.tcp, lookups) {
                Err(problem) => outcome == PluginOutcomeView::Refused(
                    "invalid permissions for plugin "@ + item.name + ": "@ + problem,
                ),
                Ok(PermissionResolutionView::Lookup(host)) => outcome == (
                PluginOutcomeView::Lookup { host }),
                Ok(PermissionResolutionView::Rules(rules)) => match json {
                    Err(problem) => outcome == PluginOutcomeView::Refused(
                        "TOML plugin configuration is always serializable: "@ + problem,
                    ),
                    Ok(config_json) => outcome == PluginOutcomeView::Ready(
                        PluginView {
                            name: item.name,
                            path,
                            config_json,
                            timeout_seconds: if item.timeout_seconds is Some {
                                item.timeout_seconds->0
                            } else {
                                default_timeout
                            },
                            tcp_permissions: rules,
                        },
                    ),
                },
            }
        },
{
}

/// What comes of the plugin at `index`, with what was brought for it.
pub open spec fn own_outcome(
    items: Seq<PluginConfigView>,
    index: int,
    default_timeout: u64,
    directory: Seq<char>,
    loads: Seq<PluginLoadView>,
) -> PluginOutcomeView {
    plugin_outcome(
        items,
        index,
        default_timeout,
        directory,
        if index < loads.len() {
            Some(loads[index])
        } else {
            None
        },
        config_json(items[index].config),
    )
}

/// Each plugin comes to what is brought for it in its own place, or to nothing
/// where nothing was brought yet.
pub proof fn law_each_plugin_has_its_own_load(
    items: Seq<PluginConfigView>,
    index: int,
    default_timeout: u64,
    directory: Seq<char>,
    loads: Seq<PluginLoadView>,
)
    requires
        0 <= index < items.len(),
    ensures
        index < loads.len() ==> own_outcome(items, index, default_timeout, directory, loads)
            == plugin_outcome(
            items,
            index,
            default_timeout,
            directory,
            Some(loads[index]),
            config_json(items[index].config),
        ),
        index >= loads.len() ==> own_outcome(items, index, default_timeout, directory, loads)
            == plugin_outcome(
            items,
            index,
            default_timeout,
            directory,
            None,
            config_json(items[index].config),
        ),
{
}

proof fn lemma_first_open_from(
    items: Seq<PluginConfigView>,
    index: int,
    default_timeout: u64,
    directory: Seq<char>,
    loads: Seq<PluginLoadView>,
    open: int,
)
    requires
        0 <= index <= open <= items.len(),
        forall|i: int|
            index <= i < open ==> #[trigger] own_outcome(
                items,
                i,
                default_timeout,
                directory,
                loads,
            ) is Ready,
        open < items.len() ==> !(own_outcome(
            items,
            open,
            default_timeout,
            directory,
            loads,
        ) is Ready),
    ensures
        open < items.len() ==> match own_outcome(items, open, default_timeout, directory, loads) {
            PluginOutcomeView::Refused(reason) => loading_from(
                items,
                index,
                default_timeout,
                directory,
                loads,
            ) == Err::<PluginLoadingView, Seq<char>>(reason),
            PluginOutcomeView::Load { path } => loading_from(
                items,
                index,
                default_timeout,
                directory,
                loads,
            ) == Ok::<PluginLoadingView, Seq<char>>(PluginLoadingView::Load { path }),
            PluginOutcomeView::Lookup { host } => loading_from(
                items,
                index,
                default_timeout,
                directory,
                loads,
            ) == Ok::<PluginLoadingView, Seq<char>>(PluginLoadingView::Lookup { host }),
            PluginOutcomeView::Ready(_) => true,
        },
        open == items.len() ==> (loading_from(
            items,
            index,
            default_timeout,
            directory,
            loads,
        ) matches Ok(PluginLoadingView::Done(plugins)) && plugins.len() == items.len() - index
            && forall|i: int|
            index <= i < items.len() ==> #[trigger] own_outcome(
                items,
                i,
                default_timeout,
                directory,
                loads,
            ) == PluginOutcomeView::Ready(plugins[i - index])),
    decreases items.len() - index,
{
    if index < items.len() {
        let outcome = own_outcome(items, index, default_timeout, directory, loads);
        let deeper = loading_from(items, index + 1, default_timeout, directory, loads);
        assert(loading_from(items, index, default_timeout, directory, loads) == after_outcome(
            outcome,
            deeper,
        ));
        if index < open {
            assert(outcome is Ready);
            lemma_first_open_from(items, index + 1, default_timeout, directory, loads, open);
            if open == items.len() {
                let rest = deeper->Ok_0->Done_0;
                let first = outcome->Ready_0;
                let plugins = seq![first] + rest;
                assert(loading_from(items, index, default_timeout, directory, loads) == Ok::<
                    PluginLoadingView,
                    Seq<char>,
                >(PluginLoadingView::Done(plugins)));
                assert forall|i: int| index <= i < items.len() implies #[trigger] own_outcome(
                    items,
                    i,
                    default_timeout,
                    directory,
                    loads,
                ) == PluginOutcomeView::Ready(plugins[i - index]) by {
                    if i > index {
                        assert(plugins[i - index] == rest[i - (index + 1)]);
                    }
                }
            }
        }
    }
}

/// The first plugin that is not ready decides how far loading has come: it is
/// refused, or its component has to be loaded, or a host has to be looked up
/// for it. Where there is none, all the plugins are ready, each in its place.
pub proof fn law_first_open_plugin_decides(
    items: Seq<PluginConfigView>,
    default_timeout: u64,
    directory: Seq<char>,
    loads: Seq<PluginLoadView>,
    open: int,
)
    requires
        0 <= open <= items.len(),
        forall|i: int|
            0 <= i < open ==> #[trigger] own_outcome(
                items,
                i,
                default_timeout,
                directory,
                loads,
            ) is Ready,
        open < items.len() ==> !(own_outcome(
            items,
            open,
            default_timeout,
            directory,
            loads,
        ) is Ready),
    ensures
        ({
            let loading = loading_from(items, 0, default_timeout, directory, loads);
            &&& open < items.len() ==> match own_outcome(
                items,
                open,
                default_timeout,
                directory,
                loads,
            ) {
                PluginOutcomeView::Refused(reason) => loading == Err::<
                    PluginLoadingView,
                    Seq<char>,
                >(reason),
                PluginOutcomeView::Load { path } => loading == Ok::<
                    PluginLoadingView,
                    Seq<char>,
                >(PluginLoadingView::Load { path }),
                PluginOutcomeView::Lookup { host } => loading == Ok::<
                    PluginLoadingView,
                    Seq<char>,
                >(PluginLoadingView::Lookup { host }),
                PluginOutcomeView::Ready(_) => true,
            }
            &&& open == items.len() ==> (loading matches Ok(PluginLoadingView::Done(plugins))
                && plugins.len() == items.len() && forall|i: int|
                0 <= i < items.len() ==> #[trigger] own_outcome(
                    items,
                    i,
                    default_timeout,
                    directory,
                    loads,
                ) == PluginOutcomeView::Ready(plugins[i]))
        }),
{
    lemma_first_open_from(items, 0, default_timeout, directory, loads, open);
}

/// Plugins with names of their own, whose components were loaded, whose
/// permissions resolve and whose configurations can be written out, are all
/// loaded: each with its name, its path from the directory, its configuration,
/// its timeout or the common one, and the rules of its permissions.
pub proof fn law_valid_plugins_are_loaded(
    items: Seq<PluginConfigView>,
    default_timeout: u64,
    directory: Seq<char>,
    loads: Seq<PluginLoadView>,
    rules: Seq<Seq<TcpPermissionRuleView>>,
    documents: Seq<Seq<char>>,
)
    requires
        loads.len() == items.len(),
        rules.len() == items.len(),
        documents.len() == items.len(),
        forall|i: int|
            0 <= i < items.len() ==> {
                let name = (#[trigger] items[i]).name;
                name.len() > 0 && name != "http"@ && name != "dns"@ && name != "disk"@
            },
        forall|i: int, j: int|
            0 <= i < j < items.len() ==> (#[trigger] items[i]).name != (#[trigger] items[j]).name,
        forall|i: int|
            0 <= i < items.len() ==> {
                &&& (#[trigger] loads[i]).component is Ok
                &&& permission::resolution(items[i].tcp, loads[i].lookups) == Ok::<
                    PermissionResolutionView,
                    Seq<char>,
                >(PermissionResolutionView::Rules(rules[i]))
                &&& config_json(items[i].config) == Ok::<Seq<char>, Seq<char>>(documents[i])
            },
    ensures
        loading_from(items, 0, default_timeout, directory, loads) matches Ok(
            PluginLoadingView::Done(plugins),
        ) && plugins.len() == items.len() && forall|i: int|
            0 <= i < items.len() ==> #[trigger] plugins[i] == (PluginView {
                name: items[i].name,
                path: path_from(directory, items[i].path),
                config_json: documents[i],
                timeout_seconds: if items[i].timeout_seconds is Some {
                    items[i].timeout_seconds->0
                } else {
                    default_timeout
                },
                tcp_permissions: rules[i],
            }),
{
    assert forall|i: int| 0 <= i < items.len() implies #[trigger] own_outcome(
        items,
        i,
        default_timeout,
        directory,
        loads,
    ) == PluginOutcomeView::Ready(
        PluginView {
            name: items[i].name,
            path: path_from(directory, items[i].path),
            config_json: documents[i],
            timeout_seconds: if items[i].timeout_seconds is Some {
                items[i].timeout_seconds->0
            } else {
                default_timeout
            },
            tcp_permissions: rules[i],
        },
    ) by {
        assert(loads[i].component is Ok);
        assert(items[i].name.len() > 0);
        law_names(items, i);
        assert(name_problem(items, i) is None);
    }
    law_first_open_plugin_decides(
        items,
        default_timeout,
        directory,
        loads,
        items.len() as int,
    );
    let plugins = loading_from(items, 0, default_timeout, directory, loads)->Ok_0->Done_0;
    assert forall|i: int| 0 <= i < items.len() implies #[trigger] plugins[i] == (PluginView {
        name: items[i].name,
        path: path_from(directory, items[i].path),
        config_json: documents[i],
        timeout_seconds: if items[i].timeout_seconds is Some {
            items[i].timeout_seconds->0
        } else {
            default_timeout
        },
        tcp_permissions: rules[i],
    }) by {
        assert(own_outcome(items, i, default_timeout, directory, loads)
            == PluginOutcomeView::Ready(plugins[i]));
    }
}

} // verus!
