//! The health of the service: the reports of its components and what they add
//! up to.

use crate::components;
use crate::components::{Components, NamedHealth};
use crate::disk;
use crate::dns;
use crate::http;
use crate::ldap;
use crate::status;
use crate::status::Status;
use crate::text;
use vstd::prelude::*;

verus! {

/// What a component has to say about itself.
#[derive(Debug, Clone)]
pub enum ComponentDetails {
    Disk(disk::DiskDetails),
    Dns(dns::DnsDetails),
    Http(http::HttpDetails),
    Ldap(ldap::LdapDetails),
    /// Nothing to add.
    Empty,
    /// A JSON document.
    Json(String),
    /// The reason why there is no report.
    Error(String),
}

/// The report of one component.
#[derive(Debug, Clone)]
pub struct ComponentHealth {
    pub status: Status,
    pub details: ComponentDetails,
}

#[verifier::ext_equal]
pub enum ComponentDetailsView {
    Disk(Seq<disk::DiskCheckView>),
    Dns(Seq<dns::DnsCheckView>),
    Http(Seq<http::HttpCheckView>),
    Ldap(Seq<ldap::LdapCheckView>),
    Empty,
    Json(Seq<char>),
    Error(Seq<char>),
}

#[verifier::ext_equal]
pub struct ComponentHealthView {
    pub status: Status,
    pub details: ComponentDetailsView,
}

impl View for ComponentDetails {
    type V = ComponentDetailsView;

    open spec fn view(&self) -> ComponentDetailsView {
        match self {
            ComponentDetails::Disk(details) => ComponentDetailsView::Disk(
                text::views(details.disks@),
            ),
            ComponentDetails::Dns(details) => ComponentDetailsView::Dns(
                text::views(details.hosts@),
            ),
            ComponentDetails::Http(details) => ComponentDetailsView::Http(
                text::views(details.urls@),
            ),
            ComponentDetails::Ldap(details) => ComponentDetailsView::Ldap(
                text::views(details.servers@),
            ),
            ComponentDetails::Empty => ComponentDetailsView::Empty,
            ComponentDetails::Json(document) => ComponentDetailsView::Json(document@),
            ComponentDetails::Error(reason) => ComponentDetailsView::Error(reason@),
        }
    }
}

impl View for ComponentHealth {
    type V = ComponentHealthView;

    open spec fn view(&self) -> ComponentHealthView {
        ComponentHealthView { status: self.status, details: self.details@ }
    }
}

/// What the service answers when it is asked for its health.
#[derive(Debug, Clone)]
pub struct HealthResponse {
    pub status: Status,
    pub components: Option<Components>,
}

#[verifier::ext_equal]
pub struct HealthResponseView {
    pub status: Status,
    pub components: Option<Map<Seq<char>, ComponentHealthView>>,
}

impl View for HealthResponse {
    type V = HealthResponseView;

    open spec fn view(&self) -> HealthResponseView {
        HealthResponseView {
            status: self.status,
            components: text::option_view(self.components),
        }
    }
}

impl HealthResponse {
    /// Whether the components are in order.
    pub open spec fn well_formed(self) -> bool {
        self.components matches Some(components) ==> components.well_formed()
    }
}

/// The reports by name; of two under one name the later counts.
pub open spec fn gathered(reports: Seq<(Seq<char>, ComponentHealthView)>) -> Map<
    Seq<char>,
    ComponentHealthView,
>
    decreases reports.len(),
{
    if reports.len() == 0 {
        Map::empty()
    } else {
        gathered(reports.drop_last()).insert(reports.last().0, reports.last().1)
    }
}

/// The statuses of reports.
pub open spec fn report_statuses(reports: Seq<(Seq<char>, ComponentHealthView)>) -> Seq<Status> {
    Seq::new(reports.len(), |i: int| reports[i].1.status)
}

/// The answer that reports add up to: up where all of them are.
pub open spec fn aggregated(
    reports: Seq<(Seq<char>, ComponentHealthView)>,
) -> HealthResponseView {
    HealthResponseView {
        status: status::combined(report_statuses(reports)),
        components: Some(gathered(reports)),
    }
}

/// The report under `name`, where there is one.
pub open spec fn named_report(
    name: Seq<char>,
    report: Option<ComponentHealthView>,
) -> Seq<(Seq<char>, ComponentHealthView)> {
    match report {
        Some(health) => seq![(name, health)],
        None => Seq::empty(),
    }
}

/// The reports of the checks that are built in and of the plugins.
pub open spec fn all_reports(
    http: Option<ComponentHealthView>,
    dns: Option<ComponentHealthView>,
    disk: Option<ComponentHealthView>,
    plugins: Seq<(Seq<char>, ComponentHealthView)>,
) -> Seq<(Seq<char>, ComponentHealthView)> {
    named_report("dns"@, dns) + named_report("disk"@, disk) + named_report("http"@, http) + plugins
}

/// Adds up reports.
pub fn aggregate(reports: Vec<NamedHealth>) -> (response: HealthResponse)
    ensures
        response@ == aggregated(text::views(reports@)),
        response.well_formed(),
{
    let ghost all = text::views(reports@);
    let ghost given = reports@;
    let mut components = Components::new();
    let mut parts: Vec<Status> = Vec::new();
    assert(all.take(0) =~= Seq::empty());
    for report in it: reports
        invariant
            it.seq() == given,
            all == text::views(given),
            components.well_formed(),
            components@ == gathered(all.take(it.index())),
            parts@.len() == it.index(),
            forall|j: int| 0 <= j < it.index() ==> parts@[j] == (#[trigger] all[j]).1.status,
    {
        let ghost i = it.index();
        proof {
            assert(all[i] == report@);
            assert(all.take(i + 1).drop_last() =~= all.take(i));
            assert(all.take(i + 1).last() == all[i]);
        }
        parts.push(report.health.status);
        components.insert(report.name, report.health);
    }
    assert(all.take(all.len() as int) =~= all);
    assert(parts@ =~= report_statuses(all));
    HealthResponse { status: status::combine(parts.as_slice()), components: Some(components) }
}

fn push_report(reports: &mut Vec<NamedHealth>, name: &str, report: Option<ComponentHealth>)
    ensures
        text::views(final(reports)@) == text::views(old(reports)@) + named_report(
            name@,
            text::option_view(report),
        ),
{
    let ghost before = text::views(reports@);
    match report {
        Some(health) => {
            let ghost value = health@;
            reports.push(NamedHealth { name: name.to_owned(), health });
            assert(text::views(reports@) =~= before + seq![(name@, value)]);
        },
        None => {
            assert(text::views(reports@) =~= before + Seq::empty());
        },
    }
}

/// Adds up the reports of the checks that are configured and of the plugins.
pub fn aggregate_response(
    http: Option<ComponentHealth>,
    dns: Option<ComponentHealth>,
    disk: Option<ComponentHealth>,
    plugins: Vec<NamedHealth>,
) -> (response: HealthResponse)
    ensures
        response@ == aggregated(
            all_reports(
                text::option_view(http),
                text::option_view(dns),
                text::option_view(disk),
                text::views(plugins@),
            ),
        ),
        response.well_formed(),
{
    let mut reports: Vec<NamedHealth> = Vec::new();
    assert(text::views(reports@) =~= Seq::empty());
    push_report(&mut reports, "dns", dns);
    push_report(&mut reports, "disk", disk);
    push_report(&mut reports, "http", http);
    let ghost built_in = text::views(reports@);
    let ghost rest = plugins@;
    proof {
        assert(built_in =~= named_report("dns"@, text::option_view(dns)) + named_report(
            "disk"@,
            text::option_view(disk),
        ) + named_report("http"@, text::option_view(http)));
        assert(text::views(rest.take(0)) =~= Seq::empty());
    }
    for plugin in it: plugins
        invariant
            it.seq() == rest,
            text::views(reports@) == built_in + text::views(rest.take(it.index())),
    {
        let ghost i = it.index();
        let ghost before = text::views(reports@);
        let ghost value = plugin@;
        reports.push(plugin);
        proof {
            assert(text::views(reports@) =~= before.push(value));
            assert(text::views(rest.take(i + 1)) =~= text::views(rest.take(i)).push(value));
        }
    }
    assert(rest.take(rest.len() as int) =~= rest);
    aggregate(reports)
}

/// The service is alive where it can answer at all.
pub fn liveness() -> (response: HealthResponse)
    ensures
        response@ == (HealthResponseView { status: Status::Up, components: None }),
{
    HealthResponse { status: Status::Up, components: None }
}

/// The service is ready where it can answer at all.
pub fn readiness() -> (response: HealthResponse)
    ensures
        response@ == (HealthResponseView { status: Status::Up, components: None }),
{
    HealthResponse { status: Status::Up, components: None }
}

/// Whether no two reports have the same name.
pub open spec fn distinct_names(reports: Seq<(Seq<char>, ComponentHealthView)>) -> bool {
    forall|i: int, j: int|
        0 <= i < j < reports.len() ==> (#[trigger] reports[i]).0 != (#[trigger] reports[j]).0
}

/// The components of an answer are those that reported, and no others; with
/// distinct names each is shown as it reported.
pub proof fn law_components_are_the_reports(reports: Seq<(Seq<char>, ComponentHealthView)>)
    ensures
        forall|name: Seq<char>| #[trigger]
            gathered(reports).contains_key(name) <==> components::has_name(reports, name),
        distinct_names(reports) ==> forall|i: int|
            0 <= i < reports.len() ==> gathered(reports)[(#[trigger] reports[i]).0] == reports[i].1,
    decreases reports.len(),
{
    if reports.len() > 0 {
        let rest = reports.drop_last();
        law_components_are_the_reports(rest);
        assert forall|name: Seq<char>| #[trigger]
            gathered(reports).contains_key(name) <==> components::has_name(reports, name) by {
            assert(gathered(rest).contains_key(name) <==> components::has_name(rest, name));
            if components::has_name(reports, name) && name != reports.last().0 {
                let i = components::position_of(reports, name);
                assert(rest[i].0 == name);
            }
            if components::has_name(rest, name) {
                assert(reports[components::position_of(rest, name)].0 == name);
            }
            assert(reports[reports.len() - 1].0 == reports.last().0);
        }
        if distinct_names(reports) {
            assert forall|i: int| 0 <= i < reports.len() implies gathered(
                reports,
            )[(#[trigger] reports[i]).0] == reports[i].1 by {
                if i < rest.len() {
                    assert(rest[i] == reports[i]);
                    assert(reports[i].0 != reports[reports.len() - 1].0);
                    assert forall|a: int, b: int| 0 <= a < b < rest.len() implies (
                    #[trigger] rest[a]).0 != (#[trigger] rest[b]).0 by {
                        assert(reports[a].0 != reports[b].0);
                    }
                }
            }
        }
    }
}

/// With distinct names, the service is up exactly where every component that
/// the answer shows is up.
pub proof fn law_up_means_all_components_up(reports: Seq<(Seq<char>, ComponentHealthView)>)
    requires
        distinct_names(reports),
    ensures
        aggregated(reports).status == Status::Up <==> forall|name: Seq<char>| #[trigger]
            gathered(reports).contains_key(name) ==> gathered(reports)[name].status == Status::Up,
{
    law_components_are_the_reports(reports);
    let statuses = report_statuses(reports);
    if aggregated(reports).status == Status::Up {
        assert forall|name: Seq<char>| #[trigger]
            gathered(reports).contains_key(name) implies gathered(reports)[name].status
            == Status::Up by {
            let i = components::position_of(reports, name);
            assert(statuses[i] == Status::Up);
            assert(gathered(reports)[reports[i].0] == reports[i].1);
        }
    }
    if forall|name: Seq<char>| #[trigger]
        gathered(reports).contains_key(name) ==> gathered(reports)[name].status == Status::Up {
        assert forall|i: int| 0 <= i < statuses.len() implies statuses[i] == Status::Up by {
            assert(reports[i].0 == reports[i].0);
            assert(components::has_name(reports, reports[i].0));
            assert(gathered(reports).contains_key(reports[i].0));
        }
    }
}

/// One component that is down brings down the service.
pub proof fn law_one_component_down_brings_down_the_service(
    reports: Seq<(Seq<char>, ComponentHealthView)>,
    i: int,
)
    requires
        0 <= i < reports.len(),
        reports[i].1.status == Status::Down,
    ensures
        aggregated(reports).status == Status::Down,
{
    assert(report_statuses(reports)[i] == Status::Down);
}

/// With all three built-in checks configured and no plugins, the answer shows
/// these three, and is up where they all are.
pub proof fn law_built_in_checks(
    http: ComponentHealthView,
    dns: ComponentHealthView,
    disk: ComponentHealthView,
)
    ensures
        ({
            let answer = aggregated(all_reports(Some(http), Some(dns), Some(disk), Seq::empty()));
            &&& answer.components == Some(
                map!["disk"@ => disk, "dns"@ => dns, "http"@ => http],
            )
            &&& answer.status == Status::Up <==> http.status == Status::Up && dns.status
                == Status::Up && disk.status == Status::Up
        }),
{
    reveal_strlit("disk");
    reveal_strlit("dns");
    reveal_strlit("http");
    let reports = all_reports(Some(http), Some(dns), Some(disk), Seq::empty());
    assert(reports =~= seq![("dns"@, dns), ("disk"@, disk), ("http"@, http)]);
    assert("dns"@.len() == 3 && "disk"@.len() == 4 && "http"@.len() == 4);
    assert("disk"@[0] != "http"@[0]);
    reveal_with_fuel(gathered, 4);
    assert(reports.drop_last() =~= seq![("dns"@, dns), ("disk"@, disk)]);
    assert(reports.drop_last().drop_last() =~= seq![("dns"@, dns)]);
    assert(reports.drop_last().drop_last().drop_last() =~= Seq::empty());
    assert(gathered(reports) =~= map!["disk"@ => disk, "dns"@ => dns, "http"@ => http]);
    let statuses = report_statuses(reports);
    assert(statuses =~= seq![dns.status, disk.status, http.status]);
    assert(statuses[0] == dns.status && statuses[1] == disk.status && statuses[2] == http.status);
}

/// The view of a report or an answer shows all that is in it.
pub proof fn law_views_show_everything(
    health: ComponentHealth,
    response: HealthResponse,
    disk: disk::DiskDetails,
    dns: dns::DnsDetails,
    http: http::HttpDetails,
    ldap: ldap::LdapDetails,
    text: String,
)
    ensures
        health@.status == health.status,
        health@.details == health.details@,
        response@.status == response.status,
        response.components is None <==> response@.components is None,
        response.components matches Some(components) ==> response@.components == Some(components@),
        ComponentDetails::Disk(disk)@ == ComponentDetailsView::Disk(text::views(disk.disks@)),
        ComponentDetails::Dns(dns)@ == ComponentDetailsView::Dns(text::views(dns.hosts@)),
        ComponentDetails::Http(http)@ == ComponentDetailsView::Http(text::views(http.urls@)),
        ComponentDetails::Ldap(ldap)@ == ComponentDetailsView::Ldap(text::views(ldap.servers@)),
        ComponentDetails::Empty@ == ComponentDetailsView::Empty,
        ComponentDetails::Json(text)@ == ComponentDetailsView::Json(text@),
        ComponentDetails::Error(text)@ == ComponentDetailsView::Error(text@),
{
}

/// A further report is put under its name, in place of an earlier one, and
/// leaves the others alone.
pub proof fn law_later_reports_replace_earlier(
    reports: Seq<(Seq<char>, ComponentHealthView)>,
    name: Seq<char>,
    health: ComponentHealthView,
)
    ensures
        gathered(Seq::empty()) == Map::<Seq<char>, ComponentHealthView>::empty(),
        gathered(reports.push((name, health))) == gathered(reports).insert(name, health),
        aggregated(reports).components == Some(gathered(reports)),
{
    assert(reports.push((name, health)).drop_last() =~= reports);
}

/// The service is up exactly where every report is, of each check that is
/// configured and of each plugin.
pub proof fn law_up_means_every_report_is_up(
    http: Option<ComponentHealthView>,
    dns: Option<ComponentHealthView>,
    disk: Option<ComponentHealthView>,
    plugins: Seq<(Seq<char>, ComponentHealthView)>,
)
    ensures
        aggregated(all_reports(http, dns, disk, plugins)).status == Status::Up <==> {
            &&& http matches Some(health) ==> health.status == Status::Up
            &&& dns matches Some(health) ==> health.status == Status::Up
            &&& disk matches Some(health) ==> health.status == Status::Up
            &&& forall|i: int|
                0 <= i < plugins.len() ==> (#[trigger] plugins[i]).1.status == Status::Up
        },
{
    let reports = all_reports(http, dns, disk, plugins);
    let statuses = report_statuses(reports);
    let first = named_report("dns"@, dns);
    let second = named_report("disk"@, disk);
    let third = named_report("http"@, http);
    let built_in = first + second + third;
    let n = built_in.len() as int;
    assert(reports =~= built_in + plugins);
    if aggregated(reports).status == Status::Up {
        assert forall|i: int| 0 <= i < plugins.len() implies (#[trigger] plugins[i]).1.status
            == Status::Up by {
            assert(statuses[n + i] == plugins[i].1.status);
        }
        if let Some(health) = dns {
            assert(reports[0].1 == health);
            assert(statuses[0] == health.status);
        }
        if let Some(health) = disk {
            assert(reports[first.len() as int].1 == health);
            assert(statuses[first.len() as int] == health.status);
        }
        if let Some(health) = http {
            assert(reports[(first + second).len() as int].1 == health);
            assert(statuses[(first + second).len() as int] == health.status);
        }
    }
    if {
        &&& http matches Some(health) ==> health.status == Status::Up
        &&& dns matches Some(health) ==> health.status == Status::Up
        &&& disk matches Some(health) ==> health.status == Status::Up
        &&& forall|i: int| 0 <= i < plugins.len() ==> (#[trigger] plugins[i]).1.status == Status::Up
    } {
        assert forall|i: int| 0 <= i < statuses.len() implies statuses[i] == Status::Up by {
            if i >= n {
                assert(reports[i] == plugins[i - n]);
            } else {
                assert(reports[i] == built_in[i]);
            }
        }
    }
}

/// The answer shows each check that is configured, whether the others are or
/// not, and each plugin: under its own name, as it reported, and nothing else.
pub proof fn law_answer_shows_every_report(
    http: Option<ComponentHealthView>,
    dns: Option<ComponentHealthView>,
    disk: Option<ComponentHealthView>,
    plugins: Seq<(Seq<char>, ComponentHealthView)>,
)
    requires
        forall|i: int, j: int|
            0 <= i < j < plugins.len() ==> (#[trigger] plugins[i]).0 != (#[trigger] plugins[j]).0,
        forall|i: int|
            0 <= i < plugins.len() ==> {
                &&& (#[trigger] plugins[i]).0 != "http"@
                &&& plugins[i].0 != "dns"@
                &&& plugins[i].0 != "disk"@
            },
    ensures
        ({
            let answer = aggregated(all_reports(http, dns, disk, plugins));
            let shown = answer.components->0;
            &&& answer.components is Some
            &&& shown.contains_key("http"@) <==> http is Some
            &&& shown.contains_key("dns"@) <==> dns is Some
            &&& shown.contains_key("disk"@) <==> disk is Some
            &&& http matches Some(health) ==> shown["http"@] == health
            &&& dns matches Some(health) ==> shown["dns"@] == health
            &&& disk matches Some(health) ==> shown["disk"@] == health
            &&& forall|i: int|
                0 <= i < plugins.len() ==> shown.contains_key((#[trigger] plugins[i]).0)
                    && shown[plugins[i].0] == plugins[i].1
            &&& forall|name: Seq<char>| #[trigger]
                shown.contains_key(name) ==> name == "http"@ || name == "dns"@ || name == "disk"@
                    || exists|i: int| 0 <= i < plugins.len() && (#[trigger] plugins[i]).0 == name
        }),
{
    reveal_strlit("disk");
    reveal_strlit("dns");
    reveal_strlit("http");
    assert("dns"@.len() == 3 && "disk"@.len() == 4 && "http"@.len() == 4);
    assert("disk"@[0] != "http"@[0]);
    let built_in = named_report("dns"@, dns) + named_report("disk"@, disk) + named_report(
        "http"@,
        http,
    );
    lemma_gathered_built_in(http, dns, disk);
    lemma_gathered_more(built_in, plugins);
    let reports = all_reports(http, dns, disk, plugins);
    assert(reports =~= built_in + plugins);
    let shown = gathered(built_in + plugins);
    let before = gathered(built_in);
    lemma_name_untouched(built_in, plugins, "http"@);
    lemma_name_untouched(built_in, plugins, "dns"@);
    lemma_name_untouched(built_in, plugins, "disk"@);
    assert forall|name: Seq<char>| #[trigger] shown.contains_key(name) implies name == "http"@
        || name == "dns"@ || name == "disk"@ || exists|i: int|
        0 <= i < plugins.len() && (#[trigger] plugins[i]).0 == name by {
        if forall|i: int| 0 <= i < plugins.len() ==> (#[trigger] plugins[i]).0 != name {
            assert(before.contains_key(name));
        }
    }
}

proof fn lemma_name_untouched(
    before: Seq<(Seq<char>, ComponentHealthView)>,
    more: Seq<(Seq<char>, ComponentHealthView)>,
    name: Seq<char>,
)
    requires
        distinct_names(more),
        forall|i: int| 0 <= i < more.len() ==> (#[trigger] more[i]).0 != name,
    ensures
        gathered(before + more).contains_key(name) == gathered(before).contains_key(name),
        gathered(before + more)[name] == gathered(before)[name],
{
    lemma_gathered_more(before, more);
}

/// The built-in reports alone.
proof fn lemma_gathered_built_in(
    http: Option<ComponentHealthView>,
    dns: Option<ComponentHealthView>,
    disk: Option<ComponentHealthView>,
)
    requires
        "dns"@ != "disk"@,
        "disk"@ != "http"@,
        "dns"@ != "http"@,
    ensures
        ({
            let shown = gathered(
                named_report("dns"@, dns) + named_report("disk"@, disk) + named_report(
                    "http"@,
                    http,
                ),
            );
            &&& shown.contains_key("http"@) <==> http is Some
            &&& shown.contains_key("dns"@) <==> dns is Some
            &&& shown.contains_key("disk"@) <==> disk is Some
            &&& http matches Some(health) ==> shown["http"@] == health
            &&& dns matches Some(health) ==> shown["dns"@] == health
            &&& disk matches Some(health) ==> shown["disk"@] == health
            &&& forall|name: Seq<char>| #[trigger]
                shown.contains_key(name) ==> name == "http"@ || name == "dns"@ || name == "disk"@
        }),
{
    let first = named_report("dns"@, dns);
    let second = first + named_report("disk"@, disk);
    let third = second + named_report("http"@, http);
    let none = Seq::<(Seq<char>, ComponentHealthView)>::empty();
    lemma_gathered_option(none, "dns"@, dns);
    assert(none + named_report("dns"@, dns) =~= first);
    lemma_gathered_option(first, "disk"@, disk);
    lemma_gathered_option(second, "http"@, http);
}

proof fn lemma_gathered_option(
    reports: Seq<(Seq<char>, ComponentHealthView)>,
    name: Seq<char>,
    report: Option<ComponentHealthView>,
)
    ensures
        gathered(reports + named_report(name, report)) == (match report {
            Some(health) => gathered(reports).insert(name, health),
            None => gathered(reports),
        }),
{
    match report {
        Some(health) => {
            assert((reports + named_report(name, report)).drop_last() =~= reports);
        },
        None => {
            assert(reports + named_report(name, report) =~= reports);
        },
    }
}

/// Reports under new and distinct names are added to those before.
proof fn lemma_gathered_more(
    before: Seq<(Seq<char>, ComponentHealthView)>,
    more: Seq<(Seq<char>, ComponentHealthView)>,
)
    requires
        distinct_names(more),
    ensures
        forall|i: int|
            0 <= i < more.len() ==> gathered(before + more).contains_key((#[trigger] more[i]).0)
                && gathered(before + more)[more[i].0] == more[i].1,
        forall|name: Seq<char>|
            (forall|i: int| 0 <= i < more.len() ==> (#[trigger] more[i]).0 != name) ==> {
                &&& (#[trigger] gathered(before + more).contains_key(name)) == gathered(
                    before,
                ).contains_key(name)
                &&& gathered(before + more)[name] == gathered(before)[name]
            },
    decreases more.len(),
{
    if more.len() == 0 {
        assert(before + more =~= before);
    } else {
        let rest = more.drop_last();
        assert forall|i: int, j: int| 0 <= i < j < rest.len() implies (#[trigger] rest[i]).0 != (
        #[trigger] rest[j]).0 by {
            assert(more[i].0 != more[j].0);
        }
        lemma_gathered_more(before, rest);
        assert((before + more).drop_last() =~= before + rest);
        let last = more[more.len() - 1];
        assert(gathered(before + more) == gathered(before + rest).insert(last.0, last.1));
        assert forall|i: int| 0 <= i < more.len() implies gathered(before + more).contains_key(
            (#[trigger] more[i]).0,
        ) && gathered(before + more)[more[i].0] == more[i].1 by {
            if i < rest.len() {
                assert(rest[i] == more[i]);
                assert(more[i].0 != last.0);
            }
        }
        assert forall|name: Seq<char>|
            (forall|i: int| 0 <= i < more.len() ==> (#[trigger] more[i]).0 != name) implies {
            &&& (#[trigger] gathered(before + more).contains_key(name)) == gathered(
                before,
            ).contains_key(name)
            &&& gathered(before + more)[name] == gathered(before)[name]
        } by {
            assert(last.0 != name);
            assert forall|i: int| 0 <= i < rest.len() implies (#[trigger] rest[i]).0 != name by {
                assert(more[i].0 != name);
            }
            assert(gathered(before + rest).contains_key(name) == gathered(before).contains_key(
                name,
            ));
        }
    }
}

} // verus!
