//! Health plugins: what they may reach, and what comes of running one.

use crate::address::SocketAddr;
use crate::health::{ComponentDetails, ComponentDetailsView, ComponentHealth, ComponentHealthView};
use crate::permission;
use crate::permission::{TcpPermissionRule, TcpPermissionRuleView};
use crate::status::Status;
use crate::text;
use vstd::prelude::*;
use vstd::string::*;

verus! {

/// A plugin that is ready to run.
#[derive(Debug, Clone)]
pub struct Plugin {
    pub name: String,
    /// Where the component was loaded from.
    pub path: String,
    /// The configuration that the plugin is called with.
    pub config_json: String,
    pub timeout_seconds: u64,
    pub tcp_permissions: Vec<TcpPermissionRule>,
}

#[verifier::ext_equal]
pub struct PluginView {
    pub name: Seq<char>,
    pub path: Seq<char>,
    pub config_json: Seq<char>,
    pub timeout_seconds: u64,
    pub tcp_permissions: Seq<TcpPermissionRuleView>,
}

impl View for Plugin {
    type V = PluginView;

    open spec fn view(&self) -> PluginView {
        PluginView {
            name: self.name@,
            path: self.path@,
            config_json: self.config_json@,
            timeout_seconds: self.timeout_seconds,
            tcp_permissions: text::views(self.tcp_permissions@),
        }
    }
}

impl PluginView {
    /// Whether no prefix in a rule is longer than its addresses.
    pub open spec fn well_formed(self) -> bool {
        forall|i: int|
            0 <= i < self.tcp_permissions.len() ==> (
            #[trigger] self.tcp_permissions[i]).well_formed()
    }
}

/// What a plugin gets to see at all of what lies around it.
#[derive(Debug, Clone, Copy, PartialEq, Eq, Structural)]
pub struct Sandbox {
    pub tcp: bool,
    pub udp: bool,
    pub ip_name_lookup: bool,
    pub filesystem: bool,
    pub environment: bool,
    pub process: bool,
    pub standard_io: bool,
}

impl Sandbox {
    /// TCP and nothing else.
    pub open spec fn tcp_only() -> Sandbox {
        Sandbox {
            tcp: true,
            udp: false,
            ip_name_lookup: false,
            filesystem: false,
            environment: false,
            process: false,
            standard_io: false,
        }
    }
}

/// What a plugin wants an address for.
#[derive(Debug, Clone, Copy, PartialEq, Eq, Structural)]
pub enum SocketUse {
    TcpBind,
    TcpConnect,
    UdpBind,
    UdpConnect,
    UdpOutgoingDatagram,
}

/// What a plugin says of the component that it looks after.
#[derive(Debug, Clone)]
pub struct PluginReport {
    pub status: Status,
    pub details_json: String,
}

/// How a plugin ended that was not cut off.
#[derive(Debug)]
pub enum PluginOutput {
    /// It could not be run to its end, for this reason.
    Failed(String),
    /// It returned a report or an error of its own.
    Returned(Result<PluginReport, String>),
}

#[verifier::ext_equal]
pub enum PluginOutputView {
    Failed(Seq<char>),
    Returned(Result<(Status, Seq<char>), Seq<char>>),
}

impl View for PluginReport {
    type V = (Status, Seq<char>);

    open spec fn view(&self) -> (Status, Seq<char>) {
        (self.status, self.details_json@)
    }
}

impl View for PluginOutput {
    type V = PluginOutputView;

    open spec fn view(&self) -> PluginOutputView {
        match self {
            PluginOutput::Failed(reason) => PluginOutputView::Failed(reason@),
            PluginOutput::Returned(result) => PluginOutputView::Returned(
                text::result_view(*result),
            ),
        }
    }
}

/// The compact form of a JSON document, or the message with which `serde_json`
/// rejects the text.
pub uninterp spec fn json_reading(document: Seq<char>) -> Result<Seq<char>, Seq<char>>;

/// Calls `serde_json::from_str` for a `serde_json::Value` and writes the value
/// out as text; `json_reading` stands for the outcome, which depends on the
/// text alone.
#[verifier::external_body]
fn read_json(document: &str) -> (reading: Result<String, String>)
    ensures
        text::result_view(reading) == json_reading(document@),
{
    match serde_json::from_str::<serde_json::Value>(document) {
        Ok(value) => Ok(value.to_string()),
        Err(err) => Err(err.to_string()),
    }
}

/// The report of a component that is down.
pub open spec fn down_with(details: ComponentDetailsView) -> ComponentHealthView {
    ComponentHealthView { status: Status::Down, details }
}

/// What a plugin's report comes to, given the reading of its details.
pub open spec fn report_health(
    status: Status,
    details: Result<Seq<char>, Seq<char>>,
) -> Result<ComponentHealthView, Seq<char>> {
    match details {
        Ok(document) => Ok(
            ComponentHealthView { status, details: ComponentDetailsView::Json(document) },
        ),
        Err(reason) => Err("plugin returned invalid details JSON: "@ + reason),
    }
}

/// What the output of a plugin comes to.
pub open spec fn output_health(output: PluginOutputView) -> Result<
    ComponentHealthView,
    Seq<char>,
> {
    match output {
        PluginOutputView::Failed(reason) => Err(reason),
        PluginOutputView::Returned(Err(reason)) => Err("plugin returned an error: "@ + reason),
        PluginOutputView::Returned(Ok((status, details_json))) => report_health(
            status,
            json_reading(details_json),
        ),
    }
}

/// What is reported for a plugin, given its output, or none where the plugin
/// was cut off.
pub open spec fn plugin_health(output: Option<PluginOutputView>) -> ComponentHealthView {
    match output {
        None => down_with(ComponentDetailsView::Error("plugin health check timed out"@)),
        Some(output) => match output_health(output) {
            Ok(health) => health,
            Err(reason) => down_with(ComponentDetailsView::Error(reason)),
        },
    }
}

/// A plugin may use TCP, as far as its rules go. It has no UDP, looks up no
/// names, and has no access to files, the environment, processes or the
/// standard streams.
pub fn plugin_sandbox() -> (sandbox: Sandbox)
    ensures
        sandbox == Sandbox::tcp_only(),
{
    Sandbox {
        tcp: true,
        udp: false,
        ip_name_lookup: false,
        filesystem: false,
        environment: false,
        process: false,
        standard_io: false,
    }
}

/// Whether a plugin with these rules may use `address` in this way.
pub fn address_allowed(
    rules: &[TcpPermissionRule],
    usage: SocketUse,
    address: SocketAddr,
) -> (allowed: bool)
    requires
        forall|i: int| 0 <= i < rules@.len() ==> (#[trigger] rules@[i])@.well_formed(),
    ensures
        allowed == (usage == SocketUse::TcpConnect && permission::some_rule_allows(
            text::views(rules@),
            address,
        )),
{
    if usage != SocketUse::TcpConnect {
        return false;
    }
    let ghost all = text::views(rules@);
    let mut i: usize = 0;
    while i < rules.len()
        invariant
            i <= rules@.len(),
            usage == SocketUse::TcpConnect,
            all == text::views(rules@),
            forall|j: int| 0 <= j < rules@.len() ==> (#[trigger] rules@[j])@.well_formed(),
            forall|j: int| 0 <= j < i ==> !(#[trigger] all[j]).allows(address),
        decreases rules@.len() - i,
    {
        assert(all[i as int] == rules@[i as int]@);
        if rules[i].allows(address) {
            return true;
        }
        i += 1;
    }
    false
}

/// The report of a component that is down.
pub fn down(details: ComponentDetails) -> (health: ComponentHealth)
    ensures
        health@ == down_with(details@),
{
    ComponentHealth { status: Status::Down, details }
}

/// What a plugin's report comes to, given the reading of its details: the
/// document in compact form, or what is wrong with it.
pub fn health_of_report(status: Status, details: Result<String, String>) -> (health: Result<
    ComponentHealth,
    String,
>)
    ensures
        text::result_view(health) == report_health(status, text::result_view(details)),
{
    match details {
        Ok(document) => Ok(ComponentHealth { status, details: ComponentDetails::Json(document) }),
        Err(reason) => Err(
            "plugin returned invalid details JSON: ".to_owned().concat(reason.as_str()),
        ),
    }
}

/// What the output of a plugin comes to.
pub fn execute_plugin(output: PluginOutput) -> (health: Result<ComponentHealth, String>)
    ensures
        text::result_view(health) == output_health(output@),
{
    match output {
        PluginOutput::Failed(reason) => Err(reason),
        PluginOutput::Returned(Err(reason)) => Err(
            "plugin returned an error: ".to_owned().concat(reason.as_str()),
        ),
        PluginOutput::Returned(Ok(report)) => health_of_report(
            report.status,
            read_json(report.details_json.as_str()),
        ),
    }
}

impl Plugin {
    /// The name of the component that the plugin reports on.
    pub fn name(&self) -> (name: &str)
        ensures
            name@ == self@.name,
    {
        self.name.as_str()
    }

    /// What is reported for the plugin, given its output, or none where it was
    /// cut off.
    pub fn check(&self, output: Option<PluginOutput>) -> (health: ComponentHealth)
        ensures
            health@ == plugin_health(text::option_view(output)),
    {
        match output {
            None => down(ComponentDetails::Error("plugin health check timed out".to_owned())),
            Some(output) => match execute_plugin(output) {
                Ok(health) => health,
                Err(reason) => down(ComponentDetails::Error(reason)),
            },
        }
    }
}

/// A plugin is up only where it says so itself, with details that can be read.
pub proof fn law_up_only_by_its_own_report(output: Option<PluginOutputView>)
    ensures
        plugin_health(output).status == Status::Up <==> (output matches Some(
            PluginOutputView::Returned(Ok(report)),
        ) && report.0 == Status::Up && json_reading(report.1) is Ok),
{
}

/// A plugin that was cut off, failed, or returned an error or unreadable
/// details is shown as down, with the reason.
pub proof fn law_failures_show_their_reason(output: Option<PluginOutputView>)
    ensures
        !(plugin_health(output).details is Json) ==> plugin_health(output).status == Status::Down
            && plugin_health(output).details is Error,
        plugin_health(output).details is Json <==> (output matches Some(
            PluginOutputView::Returned(Ok(report)),
        ) && json_reading(report.1) is Ok),
{
}

/// The views show all that is in a plugin, a report and an output.
pub proof fn law_views_show_everything(
    plugin: Plugin,
    report: PluginReport,
    reason: String,
)
    ensures
        plugin@.name == plugin.name@,
        plugin@.path == plugin.path@,
        plugin@.config_json == plugin.config_json@,
        plugin@.timeout_seconds == plugin.timeout_seconds,
        plugin@.tcp_permissions == text::views(plugin.tcp_permissions@),
        report@ == (report.status, report.details_json@),
        PluginOutput::Failed(reason)@ == PluginOutputView::Failed(reason@),
        PluginOutput::Returned(Ok(report))@ == PluginOutputView::Returned(Ok(report@)),
        PluginOutput::Returned(Err(reason))@ == PluginOutputView::Returned(Err(reason@)),
{
}

/// A report whose details can be read is shown as it is: with the status that
/// the plugin gave and the document read from its details, whatever the status.
pub proof fn law_readable_reports_are_shown(
    status: Status,
    details_json: Seq<char>,
    document: Seq<char>,
)
    requires
        json_reading(details_json) == Ok::<Seq<char>, Seq<char>>(document),
    ensures
        plugin_health(Some(PluginOutputView::Returned(Ok((status, details_json))))) == (
        ComponentHealthView { status, details: ComponentDetailsView::Json(document) }),
        report_health(status, Ok(document)) == Ok::<ComponentHealthView, Seq<char>>(
            ComponentHealthView { status, details: ComponentDetailsView::Json(document) },
        ),
{
}

/// Whatever else a plugin comes to is shown as down, with the reason: that it
/// was cut off, why it could not be run, the error that it returned, or what is
/// wrong with its details.
pub proof fn law_reasons_of_failures(
    status: Status,
    details_json: Seq<char>,
    reason: Seq<char>,
)
    ensures
        plugin_health(None) == (ComponentHealthView {
            status: Status::Down,
            details: ComponentDetailsView::Error("plugin health check timed out"@),
        }),
        plugin_health(Some(PluginOutputView::Failed(reason))) == (ComponentHealthView {
            status: Status::Down,
            details: ComponentDetailsView::Error(reason),
        }),
        plugin_health(Some(PluginOutputView::Returned(Err(reason)))) == (ComponentHealthView {
            status: Status::Down,
            details: ComponentDetailsView::Error("plugin returned an error: "@ + reason),
        }),
        json_reading(details_json) == Err::<Seq<char>, Seq<char>>(reason) ==> plugin_health(
            Some(PluginOutputView::Returned(Ok((status, details_json)))),
        ) == (ComponentHealthView {
            status: Status::Down,
            details: ComponentDetailsView::Error(
                "plugin returned invalid details JSON: "@ + reason,
            ),
        }),
        report_health(status, Err(reason)) == Err::<ComponentHealthView, Seq<char>>(
            "plugin returned invalid details JSON: "@ + reason,
        ),
        output_health(PluginOutputView::Failed(reason)) == Err::<ComponentHealthView, Seq<char>>(
            reason,
        ),
        output_health(PluginOutputView::Returned(Err(reason))) == Err::<
            ComponentHealthView,
            Seq<char>,
        >("plugin returned an error: "@ + reason),
        output_health(PluginOutputView::Returned(Ok((status, details_json)))) == report_health(
            status,
            json_reading(details_json),
        ),
{
}

/// A component that is down says so, and keeps its details.
pub proof fn law_down_keeps_details(details: ComponentDetailsView)
    ensures
        down_with(details).status == Status::Down,
        down_with(details).details == details,
{
}

/// Of all that lies around a plugin it gets TCP alone.
pub proof fn law_sandbox_gives_tcp_alone()
    ensures
        ({
            let sandbox = Sandbox::tcp_only();
            &&& sandbox.tcp
            &&& !sandbox.udp
            &&& !sandbox.ip_name_lookup
            &&& !sandbox.filesystem
            &&& !sandbox.environment
            &&& !sandbox.process
            &&& !sandbox.standard_io
        }),
{
}

} // verus!
