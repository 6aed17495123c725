//! Checks that host names resolve.

use crate::config::DnsCheckConfig;
use crate::health::{ComponentDetails, ComponentDetailsView, ComponentHealth, ComponentHealthView};
use crate::status;
use crate::status::Status;
use crate::text;
use vstd::prelude::*;

verus! {

/// What a lookup of a host name came back with: the addresses as text, or what
/// went wrong.
pub type NameLookup = Result<Vec<String>, String>;

/// The report on one host name.
#[derive(Debug, Clone)]
pub struct DnsCheck {
    pub host: String,
    pub status: Status,
    pub addresses: Option<Vec<String>>,
    pub error: Option<String>,
}

/// The reports on all host names.
#[derive(Debug, Clone)]
pub struct DnsDetails {
    pub hosts: Vec<DnsCheck>,
}

/// The host names to resolve.
pub struct DnsHealthCheck {
    pub hosts: Vec<String>,
}

#[verifier::ext_equal]
pub struct DnsCheckView {
    pub host: Seq<char>,
    pub status: Status,
    pub addresses: Option<Seq<Seq<char>>>,
    pub error: Option<Seq<char>>,
}

impl View for DnsCheck {
    type V = DnsCheckView;

    open spec fn view(&self) -> DnsCheckView {
        DnsCheckView {
            host: self.host@,
            status: self.status,
            addresses: match self.addresses {
                Some(addresses) => Some(text::views(addresses@)),
                None => None,
            },
            error: text::option_view(self.error),
        }
    }
}

/// The view of a lookup.
pub open spec fn lookup_view(lookup: NameLookup) -> Result<Seq<Seq<char>>, Seq<char>> {
    match lookup {
        Ok(addresses) => Ok(text::views(addresses@)),
        Err(reason) => Err(reason@),
    }
}

/// The report on `host`: it is up where the lookup returned an address.
pub open spec fn dns_report(
    host: Seq<char>,
    lookup: Result<Seq<Seq<char>>, Seq<char>>,
) -> DnsCheckView {
    match lookup {
        Ok(addresses) => if addresses.len() == 0 {
            DnsCheckView {
                host,
                status: Status::Down,
                addresses: None,
                error: Some("no addresses resolved"@),
            }
        } else {
            DnsCheckView { host, status: Status::Up, addresses: Some(addresses), error: None }
        },
        Err(reason) => DnsCheckView {
            host,
            status: Status::Down,
            addresses: None,
            error: Some(reason),
        },
    }
}

/// The report on all of `hosts`, given what their lookups came back with.
pub open spec fn dns_component(
    hosts: Seq<Seq<char>>,
    lookups: Seq<Result<Seq<Seq<char>>, Seq<char>>>,
) -> ComponentHealthView {
    let reports = Seq::new(hosts.len(), |i: int| dns_report(hosts[i], lookups[i]));
    ComponentHealthView {
        status: status::combined(Seq::new(hosts.len(), |i: int| reports[i].status)),
        details: ComponentDetailsView::Dns(reports),
    }
}

/// The views of lookups.
pub open spec fn lookup_views(lookups: Seq<NameLookup>) -> Seq<Result<Seq<Seq<char>>, Seq<char>>> {
    Seq::new(lookups.len(), |i: int| lookup_view(lookups[i]))
}

/// The report on one host, given what its lookup came back with.
pub fn check_host(host: String, lookup: NameLookup) -> (report: DnsCheck)
    ensures
        report@ == dns_report(host@, lookup_view(lookup)),
{
    match lookup {
        Ok(addresses) => {
            if addresses.len() == 0 {
                DnsCheck {
                    host,
                    status: Status::Down,
                    addresses: None,
                    error: Some("no addresses resolved".to_owned()),
                }
            } else {
                DnsCheck { host, status: Status::Up, addresses: Some(addresses), error: None }
            }
        },
        Err(reason) => DnsCheck {
            host,
            status: Status::Down,
            addresses: None,
            error: Some(reason),
        },
    }
}

impl DnsHealthCheck {
    /// The check of the configured host names.
    pub fn new(config: &[DnsCheckConfig]) -> (check: DnsHealthCheck)
        ensures
            text::views(check.hosts@) == text::views(config@),
    {
        let mut hosts: Vec<String> = Vec::new();
        let mut i: usize = 0;
        while i < config.len()
            invariant
                i <= config@.len(),
                hosts@.len() == i,
                forall|j: int| 0 <= j < i ==> (#[trigger] hosts@[j])@ == config@[j]@,
            decreases config@.len() - i,
        {
            hosts.push(config[i].host.clone());
            i += 1;
        }
        assert(text::views(hosts@) =~= text::views(config@));
        DnsHealthCheck { hosts }
    }

    /// The report on all the hosts, given what their lookups came back with.
    pub fn check(&self, lookups: Vec<NameLookup>) -> (component: ComponentHealth)
        requires
            lookups@.len() == self.hosts@.len(),
        ensures
            component@ == dns_component(text::views(self.hosts@), lookup_views(lookups@)),
    {
        let ghost all = lookups@;
        let mut reports: Vec<DnsCheck> = Vec::new();
        let mut parts: Vec<Status> = Vec::new();
        let mut i: usize = 0;
        let count = self.hosts.len();
        for lookup in it: lookups
            invariant
                it.seq() == all,
                i == it.index(),
                all.len() == count == self.hosts@.len(),
                reports@.len() == i,
                parts@.len() == i,
                forall|j: int|
                    0 <= j < i ==> (#[trigger] reports@[j])@ == dns_report(
                        self.hosts@[j]@,
                        lookup_view(all[j]),
                    ),
                forall|j: int| 0 <= j < i ==> parts@[j] == (#[trigger] reports@[j]).status,
        {
            let report = check_host(self.hosts[i].clone(), lookup);
            parts.push(report.status);
            reports.push(report);
            i += 1;
        }
        proof {
            let expected = dns_component(text::views(self.hosts@), lookup_views(all));
            assert(text::views(reports@) =~= expected.details->Dns_0);
            assert(parts@ =~= Seq::new(count as nat, |j: int| expected.details->Dns_0[j].status));
        }
        ComponentHealth {
            status: status::combine(parts.as_slice()),
            details: ComponentDetails::Dns(DnsDetails { hosts: reports }),
        }
    }
}

/// A host is up exactly where it has addresses to show and no error.
pub proof fn law_report_shows_addresses_or_error(
    host: Seq<char>,
    lookup: Result<Seq<Seq<char>>, Seq<char>>,
)
    ensures
        ({
            let report = dns_report(host, lookup);
            &&& report.host == host
            &&& report.status == Status::Up <==> report.addresses is Some
            &&& report.status == Status::Up <==> report.error is None
            &&& report.addresses matches Some(addresses) ==> addresses.len() > 0
        }),
{
}

/// The view of a report shows all its fields.
pub proof fn law_views_show_everything(report: DnsCheck, lookups: Seq<NameLookup>, i: int)
    requires
        0 <= i < lookups.len(),
    ensures
        report@.host == report.host@,
        report@.status == report.status,
        report.addresses is None <==> report@.addresses is None,
        report.addresses matches Some(addresses) ==> report@.addresses == Some(
            text::views(addresses@),
        ),
        report.error is None <==> report@.error is None,
        report.error matches Some(error) ==> report@.error == Some(error@),
        lookup_views(lookups).len() == lookups.len(),
        lookups[i] matches Ok(addresses) ==> lookup_views(lookups)[i] == Ok::<
            Seq<Seq<char>>,
            Seq<char>,
        >(text::views(addresses@)),
        lookups[i] matches Err(reason) ==> lookup_views(lookups)[i] == Err::<
            Seq<Seq<char>>,
            Seq<char>,
        >(reason@),
{
}

/// A lookup with addresses is shown with all of them, one without as such, and
/// one that failed with its reason.
pub proof fn law_reports_show_the_lookup(
    host: Seq<char>,
    addresses: Seq<Seq<char>>,
    reason: Seq<char>,
)
    ensures
        addresses.len() > 0 ==> dns_report(host, Ok(addresses)) == (DnsCheckView {
            host,
            status: Status::Up,
            addresses: Some(addresses),
            error: None,
        }),
        dns_report(host, Ok(Seq::empty())) == (DnsCheckView {
            host,
            status: Status::Down,
            addresses: None,
            error: Some("no addresses resolved"@),
        }),
        dns_report(host, Err(reason)) == (DnsCheckView {
            host,
            status: Status::Down,
            addresses: None,
            error: Some(reason),
        }),
{
}

/// The component reports on each host in its place, and is up exactly where
/// every lookup returned an address.
pub proof fn law_up_means_every_host_resolves(
    hosts: Seq<Seq<char>>,
    lookups: Seq<Result<Seq<Seq<char>>, Seq<char>>>,
)
    requires
        lookups.len() == hosts.len(),
    ensures
        ({
            let component = dns_component(hosts, lookups);
            let reports = component.details->Dns_0;
            &&& component.details is Dns
            &&& reports.len() == hosts.len()
            &&& forall|i: int|
                0 <= i < hosts.len() ==> #[trigger] reports[i] == dns_report(hosts[i], lookups[i])
            &&& component.status == Status::Up <==> forall|i: int|
                0 <= i < reports.len() ==> (#[trigger] reports[i]).status == Status::Up
            &&& component.status == Status::Up <==> forall|i: int|
                0 <= i < lookups.len() ==> (#[trigger] lookups[i] matches Ok(addresses)
                    && addresses.len() > 0)
        }),
{
    let component = dns_component(hosts, lookups);
    let reports = component.details->Dns_0;
    let statuses = Seq::new(hosts.len(), |i: int| reports[i].status);
    status::law_up_means_all_parts_up(statuses);
    assert forall|i: int| 0 <= i < lookups.len() implies ((#[trigger] lookups[i] matches Ok(
        addresses,
    ) && addresses.len() > 0) <==> reports[i].status == Status::Up) by {}
    if component.status == Status::Up {
        assert forall|i: int| 0 <= i < reports.len() implies (#[trigger] reports[i]).status
            == Status::Up by {
            assert(statuses[i] == Status::Up);
        }
    }
    if forall|i: int| 0 <= i < reports.len() ==> (#[trigger] reports[i]).status == Status::Up {
        assert forall|i: int| 0 <= i < statuses.len() implies #[trigger] statuses[i]
            == Status::Up by {
            assert(reports[i].status == Status::Up);
        }
    }
    if forall|i: int|
        0 <= i < lookups.len() ==> (#[trigger] lookups[i] matches Ok(addresses) && addresses.len()
            > 0) {
        assert forall|i: int| 0 <= i < statuses.len() implies #[trigger] statuses[i]
            == Status::Up by {
            assert(lookups[i] is Ok);
        }
    }
}

} // verus!
