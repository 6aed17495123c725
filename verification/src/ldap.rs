//! Checks that LDAP servers accept a bind.

use crate::config::LdapCheckConfig;
use crate::health::{ComponentDetails, ComponentDetailsView, ComponentHealth, ComponentHealthView};
use crate::status;
use crate::status::Status;
use crate::text;
use vstd::prelude::*;

verus! {

/// The report on one server.
#[derive(Debug, Clone)]
pub struct LdapCheck {
    pub url: String,
    pub status: Status,
    pub error: Option<String>,
}

/// The reports on all servers.
#[derive(Debug, Clone)]
pub struct LdapDetails {
    pub servers: Vec<LdapCheck>,
}

/// A server to bind to.
#[derive(Debug, Clone)]
pub struct LdapTarget {
    pub url: String,
    pub bind_dn: String,
    pub password: String,
}

/// The servers to bind to, and how long to wait for each of them.
pub struct LdapHealthCheck {
    pub servers: Vec<LdapTarget>,
    pub timeout_seconds: u64,
}

/// What is known of one server so far.
#[derive(Debug)]
pub enum LdapProgress {
    Start,
    /// How connecting ended.
    Connected(Result<(), String>),
    /// How the bind ended: the server's answer, if there was one.
    Bound(Result<Result<(), String>, String>),
    /// The server's answer to the bind, and how unbinding ended.
    Unbound { bind: Result<(), String>, unbind: Result<(), String> },
}

/// What is to be done next for one server.
#[derive(Debug, Clone)]
pub enum LdapStep {
    /// Connect to `url`.
    Connect { url: String, timeout_seconds: u64 },
    /// Bind over the connection.
    Bind { bind_dn: String, password: String, timeout_seconds: u64 },
    /// Unbind and give up the connection.
    Unbind,
    /// Nothing: this is the report.
    Finished(LdapCheck),
}

#[verifier::ext_equal]
pub struct LdapCheckView {
    pub url: Seq<char>,
    pub status: Status,
    pub error: Option<Seq<char>>,
}

#[verifier::ext_equal]
pub struct LdapTargetView {
    pub url: Seq<char>,
    pub bind_dn: Seq<char>,
    pub password: Seq<char>,
}

#[verifier::ext_equal]
pub enum LdapProgressView {
    Start,
    Connected(Result<(), Seq<char>>),
    Bound(Result<Result<(), Seq<char>>, Seq<char>>),
    Unbound { bind: Result<(), Seq<char>>, unbind: Result<(), Seq<char>> },
}

#[verifier::ext_equal]
pub enum LdapStepView {
    Connect { url: Seq<char>, timeout_seconds: u64 },
    Bind { bind_dn: Seq<char>, password: Seq<char>, timeout_seconds: u64 },
    Unbind,
    Finished(LdapCheckView),
}

impl View for LdapCheck {
    type V = LdapCheckView;

    open spec fn view(&self) -> LdapCheckView {
        LdapCheckView {
            url: self.url@,
            status: self.status,
            error: text::option_view(self.error),
        }
    }
}

impl View for LdapTarget {
    type V = LdapTargetView;

    open spec fn view(&self) -> LdapTargetView {
        LdapTargetView { url: self.url@, bind_dn: self.bind_dn@, password: self.password@ }
    }
}

impl View for LdapProgress {
    type V = LdapProgressView;

    open spec fn view(&self) -> LdapProgressView {
        match self {
            LdapProgress::Start => LdapProgressView::Start,
            LdapProgress::Connected(outcome) => LdapProgressView::Connected(
                text::result_view(*outcome),
            ),
            LdapProgress::Bound(outcome) => LdapProgressView::Bound(
                match outcome {
                    Ok(answer) => Ok(text::result_view(*answer)),
                    Err(reason) => Err(reason@),
                },
            ),
            LdapProgress::Unbound { bind, unbind } => LdapProgressView::Unbound {
                bind: text::result_view(*bind),
                unbind: text::result_view(*unbind),
            },
        }
    }
}

impl View for LdapStep {
    type V = LdapStepView;

    open spec fn view(&self) -> LdapStepView {
        match self {
            LdapStep::Connect { url, timeout_seconds } => LdapStepView::Connect {
                url: url@,
                timeout_seconds: *timeout_seconds,
            },
            LdapStep::Bind { bind_dn, password, timeout_seconds } => LdapStepView::Bind {
                bind_dn: bind_dn@,
                password: password@,
                timeout_seconds: *timeout_seconds,
            },
            LdapStep::Unbind => LdapStepView::Unbind,
            LdapStep::Finished(report) => LdapStepView::Finished(report@),
        }
    }
}

/// The report on a server, given the reason why it is down, if it is.
pub open spec fn ldap_report(url: Seq<char>, error: Option<Seq<char>>) -> LdapCheckView {
    LdapCheckView {
        url,
        status: if error is None {
            Status::Up
        } else {
            Status::Down
        },
        error,
    }
}

/// What is to be done next for `server`. A server that answered the bind is
/// unbound before it is reported on; a refused bind goes before a failure to
/// unbind.
pub open spec fn server_step(
    server: LdapTargetView,
    timeout_seconds: u64,
    progress: LdapProgressView,
) -> LdapStepView {
    let url = server.url;
    if !"ldaps://"@.is_prefix_of(url) {
        LdapStepView::Finished(ldap_report(url, Some("LDAP URL must use the ldaps:// scheme"@)))
    } else {
        match progress {
            LdapProgressView::Start => LdapStepView::Connect { url, timeout_seconds },
            LdapProgressView::Connected(Ok(_)) => LdapStepView::Bind {
                bind_dn: server.bind_dn,
                password: server.password,
                timeout_seconds,
            },
            LdapProgressView::Connected(Err(reason)) => LdapStepView::Finished(
                ldap_report(url, Some(reason)),
            ),
            LdapProgressView::Bound(Ok(_)) => LdapStepView::Unbind,
            LdapProgressView::Bound(Err(reason)) => LdapStepView::Finished(
                ldap_report(url, Some(reason)),
            ),
            LdapProgressView::Unbound { bind: Err(reason), .. } => LdapStepView::Finished(
                ldap_report(url, Some(reason)),
            ),
            LdapProgressView::Unbound { bind: Ok(_), unbind: Err(reason) } => {
                LdapStepView::Finished(ldap_report(url, Some(reason)))
            },
            LdapProgressView::Unbound { bind: Ok(_), unbind: Ok(_) } => LdapStepView::Finished(
                ldap_report(url, None),
            ),
        }
    }
}

/// The report on all servers, once none of them has anything left to do.
pub open spec fn ldap_component(steps: Seq<LdapStepView>) -> Option<ComponentHealthView> {
    if forall|i: int| 0 <= i < steps.len() ==> #[trigger] steps[i] is Finished {
        let reports = Seq::new(steps.len(), |i: int| steps[i]->Finished_0);
        Some(
            ComponentHealthView {
                status: status::combined(Seq::new(steps.len(), |i: int| reports[i].status)),
                details: ComponentDetailsView::Ldap(reports),
            },
        )
    } else {
        None
    }
}

fn failure(url: &String, reason: &String) -> (step: LdapStep)
    ensures
        step@ == LdapStepView::Finished(ldap_report(url@, Some(reason@))),
{
    LdapStep::Finished(
        LdapCheck { url: url.clone(), status: Status::Down, error: Some(reason.clone()) },
    )
}

/// What is to be done next for `server`, given what is known of it so far.
pub fn check_server(
    server: &LdapTarget,
    timeout_seconds: u64,
    progress: &LdapProgress,
) -> (step: LdapStep)
    ensures
        step@ == server_step(server@, timeout_seconds, progress@),
{
    if !text::starts_with(server.url.as_str(), "ldaps://") {
        return failure(&server.url, &"LDAP URL must use the ldaps:// scheme".to_owned());
    }
    match progress {
        LdapProgress::Start => LdapStep::Connect { url: server.url.clone(), timeout_seconds },
        LdapProgress::Connected(Ok(_)) => LdapStep::Bind {
            bind_dn: server.bind_dn.clone(),
            password: server.password.clone(),
            timeout_seconds,
        },
        LdapProgress::Connected(Err(reason)) => failure(&server.url, reason),
        LdapProgress::Bound(Ok(_)) => LdapStep::Unbind,
        LdapProgress::Bound(Err(reason)) => failure(&server.url, reason),
        LdapProgress::Unbound { bind, unbind } => match (bind, unbind) {
            (Err(reason), _) => failure(&server.url, reason),
            (Ok(_), Err(reason)) => failure(&server.url, reason),
            (Ok(_), Ok(_)) => LdapStep::Finished(
                LdapCheck { url: server.url.clone(), status: Status::Up, error: None },
            ),
        },
    }
}

impl LdapHealthCheck {
    /// What is to be done next for each server.
    pub open spec fn steps(self, progress: Seq<LdapProgress>) -> Seq<LdapStepView> {
        Seq::new(
            self.servers@.len(),
            |i: int| server_step(self.servers@[i]@, self.timeout_seconds, progress[i]@),
        )
    }

    /// The check of the configured servers.
    pub fn new(config: &[LdapCheckConfig], timeout_seconds: u64) -> (check: LdapHealthCheck)
        ensures
            check.timeout_seconds == timeout_seconds,
            check.servers@.len() == config@.len(),
            forall|i: int|
                0 <= i < config@.len() ==> {
                    &&& (#[trigger] check.servers@[i])@.url == config@[i]@.url
                    &&& check.servers@[i]@.bind_dn == config@[i]@.bind_dn
                    &&& check.servers@[i]@.password == config@[i]@.password
                },
    {
        let mut servers: Vec<LdapTarget> = Vec::new();
        let mut i: usize = 0;
        while i < config.len()
            invariant
                i <= config@.len(),
                servers@.len() == i,
                forall|j: int|
                    0 <= j < i ==> {
                        &&& (#[trigger] servers@[j])@.url == config@[j]@.url
                        &&& servers@[j]@.bind_dn == config@[j]@.bind_dn
                        &&& servers@[j]@.password == config@[j]@.password
                    },
            decreases config@.len() - i,
        {
            servers.push(
                LdapTarget {
                    url: config[i].url.clone(),
                    bind_dn: config[i].bind_dn.clone(),
                    password: config[i].password.clone(),
                },
            );
            i += 1;
        }
        LdapHealthCheck { servers, timeout_seconds }
    }

    /// The report on all the servers, or none while one of them has something
    /// left to do.
    pub fn check(&self, progress: &[LdapProgress]) -> (component: Option<ComponentHealth>)
        requires
            progress@.len() == self.servers@.len(),
        ensures
            text::option_view(component) == ldap_component(self.steps(progress@)),
    {
        let ghost steps = self.steps(progress@);
        let mut reports: Vec<LdapCheck> = Vec::new();
        let mut parts: Vec<Status> = Vec::new();
        let mut i: usize = 0;
        while i < self.servers.len()
            invariant
                i <= self.servers@.len(),
                progress@.len() == self.servers@.len(),
                steps == self.steps(progress@),
                reports@.len() == i,
                parts@.len() == i,
                forall|j: int|
                    0 <= j < i ==> #[trigger] steps[j] == LdapStepView::Finished(reports@[j]@),
                forall|j: int| 0 <= j < i ==> parts@[j] == (#[trigger] reports@[j]).status,
            decreases self.servers@.len() - i,
        {
            match check_server(&self.servers[i], self.timeout_seconds, &progress[i]) {
                LdapStep::Finished(report) => {
                    parts.push(report.status);
                    reports.push(report);
                },
                _ => {
                    assert(!(steps[i as int] is Finished));
                    return None;
                },
            }
            i += 1;
        }
        proof {
            let expected = ldap_component(steps)->Some_0;
            assert(text::views(reports@) =~= expected.details->Ldap_0);
            assert(parts@ =~= Seq::new(steps.len(), |j: int| expected.details->Ldap_0[j].status));
        }
        Some(
            ComponentHealth {
                status: status::combine(parts.as_slice()),
                details: ComponentDetails::Ldap(LdapDetails { servers: reports }),
            },
        )
    }
}

/// A URL that does not start with `ldaps://` is refused whatever else happens:
/// nothing is ever sent to it.
pub proof fn law_only_ldaps_urls_are_contacted(
    server: LdapTargetView,
    timeout_seconds: u64,
    progress: LdapProgressView,
)
    ensures
        !"ldaps://"@.is_prefix_of(server.url) ==> server_step(server, timeout_seconds, progress)
            == LdapStepView::Finished(
            LdapCheckView {
                url: server.url,
                status: Status::Down,
                error: Some("LDAP URL must use the ldaps:// scheme"@),
            },
        ),
{
}

/// Two checks of the same servers that see the same events report the same,
/// whatever the names and passwords they bind with: nothing of these shows in
/// a report but what the server itself puts into an answer.
pub proof fn law_reports_do_not_depend_on_credentials(
    one: LdapHealthCheck,
    other: LdapHealthCheck,
    progress: Seq<LdapProgress>,
)
    requires
        one.servers@.len() == other.servers@.len(),
        forall|i: int|
            0 <= i < one.servers@.len() ==> (#[trigger] one.servers@[i])@.url
                == other.servers@[i]@.url,
    ensures
        ldap_component(one.steps(progress)) == ldap_component(other.steps(progress)),
{
    let first = one.steps(progress);
    let second = other.steps(progress);
    assert forall|i: int| 0 <= i < first.len() implies #[trigger] first[i] is Finished
        == second[i] is Finished && (first[i] is Finished ==> first[i] == second[i]) by {
        assert(one.servers@[i]@.url == other.servers@[i]@.url);
    }
    if ldap_component(first) is Some {
        assert(first =~= second);
    } else {
        let i = choose|i: int| 0 <= i < first.len() && !(#[trigger] first[i] is Finished);
        assert(!(second[i] is Finished));
    }
}

/// A server is up only after it accepted the bind and was unbound.
pub proof fn law_up_means_bound_and_unbound(
    server: LdapTargetView,
    timeout_seconds: u64,
    progress: LdapProgressView,
)
    requires
        server_step(server, timeout_seconds, progress) is Finished,
    ensures
        ({
            let report = server_step(server, timeout_seconds, progress)->Finished_0;
            &&& report.url == server.url
            &&& report.status == Status::Up <==> report.error is None
            &&& report.status == Status::Up <==> "ldaps://"@.is_prefix_of(server.url) && (
            progress matches LdapProgressView::Unbound { bind, unbind } && bind is Ok
                && unbind is Ok)
        }),
{
}

/// A server that answered a bind, either way, is unbound before it is reported
/// on, and a refused bind is what the report then shows.
pub proof fn law_answered_binds_are_unbound(
    server: LdapTargetView,
    timeout_seconds: u64,
    bind: Result<(), Seq<char>>,
    unbind: Result<(), Seq<char>>,
)
    requires
        "ldaps://"@.is_prefix_of(server.url),
    ensures
        server_step(server, timeout_seconds, LdapProgressView::Bound(Ok(bind)))
            == LdapStepView::Unbind,
        bind matches Err(reason) ==> server_step(
            server,
            timeout_seconds,
            LdapProgressView::Unbound { bind, unbind },
        ) == LdapStepView::Finished(ldap_report(server.url, Some(reason))),
{
}

/// A server goes through at most one connection, one bind and one unbind, in
/// this order.
pub proof fn law_each_server_comes_to_an_end(
    server: LdapTargetView,
    timeout_seconds: u64,
    progress: LdapProgressView,
)
    ensures
        ({
            let step = server_step(server, timeout_seconds, progress);
            &&& step is Connect ==> progress is Start
            &&& step is Bind ==> progress is Connected
            &&& step is Unbind ==> progress is Bound
            &&& progress is Unbound ==> step is Finished
        }),
{
}

/// The views show all that is in a report, a target, what is known of a server
/// and what is to be done for it.
pub proof fn law_views_show_everything(
    report: LdapCheck,
    target: LdapTarget,
    outcome: Result<(), String>,
    other: Result<(), String>,
    reason: String,
    seconds: u64,
)
    ensures
        report@.url == report.url@,
        report@.status == report.status,
        report@.error == text::option_view(report.error),
        target@.url == target.url@,
        target@.bind_dn == target.bind_dn@,
        target@.password == target.password@,
        LdapProgress::Start@ == LdapProgressView::Start,
        LdapProgress::Connected(outcome)@ == LdapProgressView::Connected(
            text::result_view(outcome),
        ),
        LdapProgress::Bound(Ok(outcome))@ == LdapProgressView::Bound(
            Ok(text::result_view(outcome)),
        ),
        LdapProgress::Bound(Err(reason))@ == LdapProgressView::Bound(Err(reason@)),
        (LdapProgress::Unbound { bind: outcome, unbind: other })@ == (LdapProgressView::Unbound {
            bind: text::result_view(outcome),
            unbind: text::result_view(other),
        }),
        (LdapStep::Connect { url: reason, timeout_seconds: seconds })@ == (LdapStepView::Connect {
            url: reason@,
            timeout_seconds: seconds,
        }),
        (LdapStep::Bind {
            bind_dn: target.bind_dn,
            password: target.password,
            timeout_seconds: seconds,
        })@ == (LdapStepView::Bind {
            bind_dn: target.bind_dn@,
            password: target.password@,
            timeout_seconds: seconds,
        }),
        LdapStep::Unbind@ == LdapStepView::Unbind,
        LdapStep::Finished(report)@ == LdapStepView::Finished(report@),
{
}

/// A server with an `ldaps://` URL is connected to, bound to with its own name
/// and password, and unbound. It is up where all of this succeeded; where a
/// step failed it is down, with the reason.
pub proof fn law_servers_are_followed_through(
    server: LdapTargetView,
    timeout_seconds: u64,
    reason: Seq<char>,
    other: Result<(), Seq<char>>,
)
    requires
        "ldaps://"@.is_prefix_of(server.url),
    ensures
        server_step(server, timeout_seconds, LdapProgressView::Start) == (LdapStepView::Connect {
            url: server.url,
            timeout_seconds,
        }),
        server_step(server, timeout_seconds, LdapProgressView::Connected(Ok(()))) == (
        LdapStepView::Bind {
            bind_dn: server.bind_dn,
            password: server.password,
            timeout_seconds,
        }),
        server_step(server, timeout_seconds, LdapProgressView::Bound(Ok(other)))
            == LdapStepView::Unbind,
        server_step(
            server,
            timeout_seconds,
            LdapProgressView::Unbound { bind: Ok(()), unbind: Ok(()) },
        ) == LdapStepView::Finished(
            LdapCheckView { url: server.url, status: Status::Up, error: None },
        ),
        ({
            let down = LdapStepView::Finished(
                LdapCheckView { url: server.url, status: Status::Down, error: Some(reason) },
            );
            &&& server_step(server, timeout_seconds, LdapProgressView::Connected(Err(reason)))
                == down
            &&& server_step(server, timeout_seconds, LdapProgressView::Bound(Err(reason))) == down
            &&& server_step(
                server,
                timeout_seconds,
                LdapProgressView::Unbound { bind: Err(reason), unbind: other },
            ) == down
            &&& server_step(
                server,
                timeout_seconds,
                LdapProgressView::Unbound { bind: Ok(()), unbind: Err(reason) },
            ) == down
        }),
{
}

/// The component waits until all servers are reported on. It then shows the
/// report on each in its place, and is up exactly where every one of them is.
pub proof fn law_up_means_every_server_is_up(steps: Seq<LdapStepView>)
    ensures
        ldap_component(steps) is Some <==> forall|i: int|
            0 <= i < steps.len() ==> #[trigger] steps[i] is Finished,
        ldap_component(steps) matches Some(component) ==> {
            let reports = component.details->Ldap_0;
            &&& component.details is Ldap
            &&& reports.len() == steps.len()
            &&& forall|i: int|
                0 <= i < steps.len() ==> #[trigger] steps[i] == LdapStepView::Finished(reports[i])
            &&& component.status == Status::Up <==> forall|i: int|
                0 <= i < reports.len() ==> (#[trigger] reports[i]).status == Status::Up
        },
{
    if let Some(component) = ldap_component(steps) {
        let reports = component.details->Ldap_0;
        let statuses = Seq::new(steps.len(), |i: int| reports[i].status);
        status::law_up_means_all_parts_up(statuses);
        assert forall|i: int| 0 <= i < steps.len() implies #[trigger] steps[i]
            == LdapStepView::Finished(reports[i]) by {
            assert(steps[i] is Finished);
        }
        if component.status == Status::Up {
            assert forall|i: int| 0 <= i < reports.len() implies (#[trigger] reports[i]).status
                == Status::Up by {
                assert(statuses[i] == Status::Up);
            }
        }
        if forall|i: int| 0 <= i < reports.len() ==> (#[trigger] reports[i]).status == Status::Up {
            assert forall|i: int| 0 <= i < statuses.len() implies #[trigger] statuses[i]
                == Status::Up by {
                assert(reports[i].status == Status::Up);
            }
        }
    }
}

/// Each server is followed by its own progress, with the timeout of the check.
pub proof fn law_each_server_has_its_own_step(
    check: LdapHealthCheck,
    progress: Seq<LdapProgress>,
    i: int,
)
    requires
        progress.len() == check.servers@.len(),
        0 <= i < progress.len(),
    ensures
        check.steps(progress).len() == check.servers@.len(),
        check.steps(progress)[i] == server_step(
            check.servers@[i]@,
            check.timeout_seconds,
            progress[i]@,
        ),
{
}

} // verus!
