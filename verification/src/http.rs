//! Checks that URLs answer with success.

use crate::address;
use crate::address::SocketAddr;
use crate::config::HttpCheckConfig;
use crate::health::{ComponentDetails, ComponentDetailsView, ComponentHealth, ComponentHealthView};
use crate::status;
use crate::status::Status;
use crate::text;
use vstd::prelude::*;
use vstd::string::*;

verus! {

/// What a lookup of a host name came back with: the addresses to connect to,
/// or what went wrong.
pub type AddressLookup = Result<Vec<SocketAddr>, String>;

/// The report on one URL.
#[derive(Debug, Clone)]
pub struct HttpCheck {
    pub url: String,
    pub status: Status,
    pub http_status: Option<u16>,
    pub error: Option<String>,
}

/// The reports on all URLs.
#[derive(Debug, Clone)]
pub struct HttpDetails {
    pub urls: Vec<HttpCheck>,
}

/// A URL to check, and the address or host name to connect to in place of the
/// URL's own host.
#[derive(Debug, Clone)]
pub struct HttpTarget {
    pub url: String,
    pub resolve: Option<String>,
}

/// The URLs to check, and how long to wait for each answer.
pub struct HttpHealthCheck {
    pub checks: Vec<HttpTarget>,
    pub timeout_seconds: u64,
}

/// How a request is to be connected.
#[derive(Debug, Clone)]
pub enum Connection {
    /// As the URL says.
    Shared,
    /// To these addresses wherever the URL names `host`.
    Pinned { host: String, addresses: Vec<SocketAddr> },
}

/// What has to be done before a request can be sent.
#[derive(Debug, Clone)]
pub enum ClientStep {
    /// Nothing more.
    Connect(Connection),
    /// The addresses of `name` have to be looked up.
    Lookup { name: String, port: u16 },
}

/// How a request ended.
#[derive(Debug, Clone)]
pub enum HttpReply {
    TimedOut,
    /// It failed, or could not be sent, for this reason.
    Failed(String),
    /// The server answered with this status code.
    Answered(u16),
}

/// What is known of one URL so far.
#[derive(Debug)]
pub enum HttpProgress {
    Start,
    LookedUp(AddressLookup),
    Replied(HttpReply),
}

/// What is to be done next for one URL.
#[derive(Debug, Clone)]
pub enum HttpStep {
    /// Look up the addresses of `name`.
    Lookup { name: String, port: u16 },
    /// Send a GET request for `url` and wait no longer than the timeout.
    Send { url: String, connection: Connection, timeout_seconds: u64 },
    /// Nothing: this is the report.
    Finished(HttpCheck),
}

/// The parts of a URL that decide where to connect to.
#[derive(Debug, Clone)]
pub struct UrlParts {
    pub host: Option<String>,
    pub port: Option<u16>,
}

#[verifier::ext_equal]
pub struct HttpCheckView {
    pub url: Seq<char>,
    pub status: Status,
    pub http_status: Option<u16>,
    pub error: Option<Seq<char>>,
}

#[verifier::ext_equal]
pub struct HttpTargetView {
    pub url: Seq<char>,
    pub resolve: Option<Seq<char>>,
}

#[verifier::ext_equal]
pub enum ConnectionView {
    Shared,
    Pinned { host: Seq<char>, addresses: Seq<SocketAddr> },
}

#[verifier::ext_equal]
pub enum ClientStepView {
    Connect(ConnectionView),
    Lookup { name: Seq<char>, port: u16 },
}

#[verifier::ext_equal]
pub enum HttpReplyView {
    TimedOut,
    Failed(Seq<char>),
    Answered(u16),
}

#[verifier::ext_equal]
pub enum HttpProgressView {
    Start,
    LookedUp(Result<Seq<SocketAddr>, Seq<char>>),
    Replied(HttpReplyView),
}

#[verifier::ext_equal]
pub enum HttpStepView {
    Lookup { name: Seq<char>, port: u16 },
    Send { url: Seq<char>, connection: ConnectionView, timeout_seconds: u64 },
    Finished(HttpCheckView),
}

impl View for HttpCheck {
    type V = HttpCheckView;

    open spec fn view(&self) -> HttpCheckView {
        HttpCheckView {
            url: self.url@,
            status: self.status,
            http_status: self.http_status,
            error: text::option_view(self.error),
        }
    }
}

impl View for HttpTarget {
    type V = HttpTargetView;

    open spec fn view(&self) -> HttpTargetView {
        HttpTargetView { url: self.url@, resolve: text::option_view(self.resolve) }
    }
}

impl View for Connection {
    type V = ConnectionView;

    open spec fn view(&self) -> ConnectionView {
        match self {
            Connection::Shared => ConnectionView::Shared,
            Connection::Pinned { host, addresses } => ConnectionView::Pinned {
                host: host@,
                addresses: addresses@,
            },
        }
    }
}

impl View for ClientStep {
    type V = ClientStepView;

    open spec fn view(&self) -> ClientStepView {
        match self {
            ClientStep::Connect(connection) => ClientStepView::Connect(connection@),
            ClientStep::Lookup { name, port } => ClientStepView::Lookup {
                name: name@,
                port: *port,
            },
        }
    }
}

impl View for HttpReply {
    type V = HttpReplyView;

    open spec fn view(&self) -> HttpReplyView {
        match self {
            HttpReply::TimedOut => HttpReplyView::TimedOut,
            HttpReply::Failed(reason) => HttpReplyView::Failed(reason@),
            HttpReply::Answered(code) => HttpReplyView::Answered(*code),
        }
    }
}

impl View for HttpProgress {
    type V = HttpProgressView;

    open spec fn view(&self) -> HttpProgressView {
        match self {
            HttpProgress::Start => HttpProgressView::Start,
            HttpProgress::LookedUp(lookup) => HttpProgressView::LookedUp(
                text::result_view(*lookup),
            ),
            HttpProgress::Replied(reply) => HttpProgressView::Replied(reply@),
        }
    }
}

impl View for HttpStep {
    type V = HttpStepView;

    open spec fn view(&self) -> HttpStepView {
        match self {
            HttpStep::Lookup { name, port } => HttpStepView::Lookup { name: name@, port: *port },
            HttpStep::Send { url, connection, timeout_seconds } => HttpStepView::Send {
                url: url@,
                connection: connection@,
                timeout_seconds: *timeout_seconds,
            },
            HttpStep::Finished(report) => HttpStepView::Finished(report@),
        }
    }
}

impl View for UrlParts {
    type V = (Option<Seq<char>>, Option<u16>);

    open spec fn view(&self) -> (Option<Seq<char>>, Option<u16>) {
        (text::option_view(self.host), self.port)
    }
}

/// The host of a URL and its port, explicit or by default for the scheme, or
/// the message with which `reqwest::Url` rejects the text.
pub uninterp spec fn url_parts(url: Seq<char>) -> Result<
    (Option<Seq<char>>, Option<u16>),
    Seq<char>,
>;

/// Calls `reqwest::Url::parse` and takes the host and the port from what it
/// returns, with `host_str` and `port_or_known_default`; `url_parts` stands
/// for the outcome, which depends on the text alone.
#[verifier::external_body]
fn parse_url(url: &str) -> (parts: Result<UrlParts, String>)
    ensures
        text::result_view(parts) == url_parts(url@),
{
    match reqwest::Url::parse(url) {
        Ok(parsed) => Ok(
            UrlParts {
                host: parsed.host_str().map(|host| host.to_string()),
                port: parsed.port_or_known_default(),
            },
        ),
        Err(err) => Err(err.to_string()),
    }
}

/// What a URL that starts with `mock://` is reported as, without a request.
pub open spec fn mock_report(url: Seq<char>) -> Option<HttpCheckView> {
    if !"mock://"@.is_prefix_of(url) {
        None
    } else if url == "mock://up"@ {
        Some(
            HttpCheckView { url, status: Status::Up, http_status: Some(200), error: None },
        )
    } else if url == "mock://down"@ {
        Some(
            HttpCheckView { url, status: Status::Down, http_status: Some(503), error: None },
        )
    } else {
        Some(
            HttpCheckView {
                url,
                status: Status::Down,
                http_status: None,
                error: Some("unsupported mock url: "@ + url),
            },
        )
    }
}

/// The report on a URL for which nothing was received.
pub open spec fn failure_report(url: Seq<char>, reason: Seq<char>) -> HttpCheckView {
    HttpCheckView { url, status: Status::Down, http_status: None, error: Some(reason) }
}

/// The report on a URL whose request ended so.
pub open spec fn reply_report(
    url: Seq<char>,
    timeout_seconds: u64,
    reply: HttpReplyView,
) -> HttpCheckView {
    match reply {
        HttpReplyView::TimedOut => failure_report(
            url,
            "request timed out after "@ + text::decimal(timeout_seconds as nat) + " seconds"@,
        ),
        HttpReplyView::Failed(reason) => failure_report(url, reason),
        HttpReplyView::Answered(code) => HttpCheckView {
            url,
            status: if 200 <= code < 300 {
                Status::Up
            } else {
                Status::Down
            },
            http_status: Some(code),
            error: None,
        },
    }
}

/// How a request is to be connected, given the parts of its URL, the address
/// or host name that takes the place of the URL's host, and the lookup of that
/// name as far as it was made.
pub open spec fn client_step(
    parts: Result<(Option<Seq<char>>, Option<u16>), Seq<char>>,
    resolve: Option<Seq<char>>,
    lookup: Option<Result<Seq<SocketAddr>, Seq<char>>>,
) -> Result<ClientStepView, Seq<char>> {
    match resolve {
        None => Ok(ClientStepView::Connect(ConnectionView::Shared)),
        Some(name) => match parts {
            Err(reason) => Err(reason),
            Ok((None, _)) => Err("URL has no hostname"@),
            Ok((Some(_), None)) => Err("URL has no known default port"@),
            Ok((Some(host), Some(port))) => match address::ip_value(name) {
                Some(ip) => Ok(
                    ClientStepView::Connect(
                        ConnectionView::Pinned { host, addresses: seq![SocketAddr::of(ip, port)] },
                    ),
                ),
                None => match lookup {
                    None => Ok(ClientStepView::Lookup { name, port }),
                    Some(Err(reason)) => Err("failed to resolve "@ + name + ": "@ + reason),
                    Some(Ok(addresses)) => if addresses.len() == 0 {
                        Err("failed to resolve "@ + name + ": no addresses found"@)
                    } else {
                        Ok(ClientStepView::Connect(ConnectionView::Pinned { host, addresses }))
                    },
                },
            },
        },
    }
}

/// What is to be done next for `target`, given the parts of its URL and what
/// is known of it so far.
pub open spec fn target_step(
    target: HttpTargetView,
    timeout_seconds: u64,
    parts: Result<(Option<Seq<char>>, Option<u16>), Seq<char>>,
    progress: HttpProgressView,
) -> HttpStepView {
    match mock_report(target.url) {
        Some(report) => HttpStepView::Finished(report),
        None => match progress {
            HttpProgressView::Replied(reply) => HttpStepView::Finished(
                reply_report(target.url, timeout_seconds, reply),
            ),
            _ => {
                let lookup = match progress {
                    HttpProgressView::LookedUp(result) => Some(result),
                    _ => None,
                };
                match client_step(parts, target.resolve, lookup) {
                    Err(reason) => HttpStepView::Finished(failure_report(target.url, reason)),
                    Ok(ClientStepView::Lookup { name, port }) => HttpStepView::Lookup {
                        name,
                        port,
                    },
                    Ok(ClientStepView::Connect(connection)) => HttpStepView::Send {
                        url: target.url,
                        connection,
                        timeout_seconds,
                    },
                }
            },
        },
    }
}

/// The report on all of `targets`, once none of them has anything left to do.
pub open spec fn http_component(steps: Seq<HttpStepView>) -> Option<ComponentHealthView> {
    if forall|i: int| 0 <= i < steps.len() ==> #[trigger] steps[i] is Finished {
        let reports = Seq::new(steps.len(), |i: int| steps[i]->Finished_0);
        Some(
            ComponentHealthView {
                status: status::combined(Seq::new(steps.len(), |i: int| reports[i].status)),
                details: ComponentDetailsView::Http(reports),
            },
        )
    } else {
        None
    }
}

/// The report on a URL that starts with `mock://`, for which no request is
/// made.
pub fn mock_check(url: &str) -> (report: Option<HttpCheck>)
    ensures
        text::option_view(report) == mock_report(url@),
{
    if !text::starts_with(url, "mock://") {
        return None;
    }
    if text::same_text(url, "mock://up") {
        Some(
            HttpCheck {
                url: url.to_owned(),
                status: Status::Up,
                http_status: Some(200),
                error: None,
            },
        )
    } else if text::same_text(url, "mock://down") {
        Some(
            HttpCheck {
                url: url.to_owned(),
                status: Status::Down,
                http_status: Some(503),
                error: None,
            },
        )
    } else {
        Some(
            HttpCheck {
                url: url.to_owned(),
                status: Status::Down,
                http_status: None,
                error: Some("unsupported mock url: ".to_owned().concat(url)),
            },
        )
    }
}

fn copy_addresses(addresses: &Vec<SocketAddr>) -> (copy: Vec<SocketAddr>)
    ensures
        copy@ == addresses@,
{
    let mut copy: Vec<SocketAddr> = Vec::new();
    let mut i: usize = 0;
    while i < addresses.len()
        invariant
            i <= addresses@.len(),
            copy@ == addresses@.take(i as int),
        decreases addresses@.len() - i,
    {
        copy.push(addresses[i]);
        assert(addresses@.take(i + 1) =~= addresses@.take(i as int).push(addresses@[i as int]));
        i += 1;
    }
    assert(addresses@.take(addresses@.len() as int) =~= addresses@);
    copy
}

/// The view of a lookup, where it was made.
pub open spec fn lookup_view(lookup: Option<&AddressLookup>) -> Option<
    Result<Seq<SocketAddr>, Seq<char>>,
> {
    match lookup {
        None => None,
        Some(result) => Some(text::result_view(*result)),
    }
}

/// How a request is to be connected in place of the host of its URL, given the
/// parts of the URL and the lookup of `name` as far as it was made.
pub fn client_for_parts(
    parts: Result<UrlParts, String>,
    name: &str,
    lookup: Option<&AddressLookup>,
) -> (step: Result<ClientStep, String>)
    ensures
        text::result_view(step) == client_step(
            text::result_view(parts),
            Some(name@),
            lookup_view(lookup),
        ),
{
    let parts = match parts {
        Ok(parts) => parts,
        Err(reason) => {
            return Err(reason);
        },
    };
    let host = match parts.host {
        Some(host) => host,
        None => {
            return Err("URL has no hostname".to_owned());
        },
    };
    let port: u16 = match parts.port {
        Some(port) => port,
        None => {
            return Err("URL has no known default port".to_owned());
        },
    };
    match address::parse_ip(name) {
        Some(ip) => {
            let mut addresses: Vec<SocketAddr> = Vec::new();
            addresses.push(SocketAddr::new(ip, port));
            assert(addresses@ =~= seq![SocketAddr::of(ip, port)]);
            Ok(ClientStep::Connect(Connection::Pinned { host, addresses }))
        },
        None => match lookup {
            None => Ok(ClientStep::Lookup { name: name.to_owned(), port }),
            Some(Err(reason)) => Err(
                "failed to resolve ".to_owned().concat(name).concat(": ").concat(reason.as_str()),
            ),
            Some(Ok(addresses)) => {
                if addresses.len() == 0 {
                    Err(
                        "failed to resolve ".to_owned().concat(name).concat(
                            ": no addresses found",
                        ),
                    )
                } else {
                    Ok(
                        ClientStep::Connect(
                            Connection::Pinned { host, addresses: copy_addresses(addresses) },
                        ),
                    )
                }
            },
        },
    }
}

/// How a request for `url` is to be connected, given the address or host name
/// that takes the place of the URL's host, and the lookup of that name as far
/// as it was made.
pub fn client_for_target(
    url: &str,
    resolve: Option<&str>,
    lookup: Option<&AddressLookup>,
) -> (step: Result<ClientStep, String>)
    ensures
        text::result_view(step) == client_step(
            url_parts(url@),
            match resolve {
                Some(name) => Some(name@),
                None => None,
            },
            lookup_view(lookup),
        ),
{
    match resolve {
        None => Ok(ClientStep::Connect(Connection::Shared)),
        Some(name) => client_for_parts(parse_url(url), name, lookup),
    }
}

fn failure(url: String, reason: String) -> (report: HttpCheck)
    ensures
        report@ == failure_report(url@, reason@),
{
    HttpCheck { url, status: Status::Down, http_status: None, error: Some(reason) }
}

/// The report on a URL whose request ended so.
pub fn check_reply(url: String, timeout_seconds: u64, reply: &HttpReply) -> (report: HttpCheck)
    ensures
        report@ == reply_report(url@, timeout_seconds, reply@),
{
    match reply {
        HttpReply::TimedOut => failure(
            url,
            "request timed out after ".to_owned().concat(
                text::decimal_text(timeout_seconds).as_str(),
            ).concat(" seconds"),
        ),
        HttpReply::Failed(reason) => failure(url, reason.clone()),
        HttpReply::Answered(code) => HttpCheck {
            url,
            status: if 200 <= *code && *code < 300 {
                Status::Up
            } else {
                Status::Down
            },
            http_status: Some(*code),
            error: None,
        },
    }
}

/// What is to be done next for `target`, given what is known of it so far.
pub fn check_target(
    target: &HttpTarget,
    timeout_seconds: u64,
    progress: &HttpProgress,
) -> (step: HttpStep)
    ensures
        step@ == target_step(target@, timeout_seconds, url_parts(target@.url), progress@),
{
    if let Some(report) = mock_check(target.url.as_str()) {
        return HttpStep::Finished(report);
    }
    let lookup: Option<&AddressLookup> = match progress {
        HttpProgress::Replied(reply) => {
            return HttpStep::Finished(check_reply(target.url.clone(), timeout_seconds, reply));
        },
        HttpProgress::LookedUp(lookup) => Some(lookup),
        HttpProgress::Start => None,
    };
    let resolve: Option<&str> = match &target.resolve {
        Some(name) => Some(name.as_str()),
        None => None,
    };
    match client_for_target(target.url.as_str(), resolve, lookup) {
        Err(reason) => HttpStep::Finished(failure(target.url.clone(), reason)),
        Ok(ClientStep::Lookup { name, port }) => HttpStep::Lookup { name, port },
        Ok(ClientStep::Connect(connection)) => HttpStep::Send {
            url: target.url.clone(),
            connection,
            timeout_seconds,
        },
    }
}

impl HttpHealthCheck {
    /// What is to be done next for each URL.
    pub open spec fn steps(self, progress: Seq<HttpProgress>) -> Seq<HttpStepView> {
        Seq::new(
            self.checks@.len(),
            |i: int|
                target_step(
                    self.checks@[i]@,
                    self.timeout_seconds,
                    url_parts(self.checks@[i]@.url),
                    progress[i]@,
                ),
        )
    }

    /// The check of the configured URLs.
    pub fn new(checks: &[HttpCheckConfig], timeout_seconds: u64) -> (check: HttpHealthCheck)
        ensures
            check.timeout_seconds == timeout_seconds,
            check.checks@.len() == checks@.len(),
            forall|i: int|
                0 <= i < checks@.len() ==> {
                    &&& (#[trigger] check.checks@[i])@.url == checks@[i]@.url
                    &&& check.checks@[i]@.resolve == checks@[i]@.resolve
                },
    {
        let mut targets: Vec<HttpTarget> = Vec::new();
        let mut i: usize = 0;
        while i < checks.len()
            invariant
                i <= checks@.len(),
                targets@.len() == i,
                forall|j: int|
                    0 <= j < i ==> {
                        &&& (#[trigger] targets@[j])@.url == checks@[j]@.url
                        &&& targets@[j]@.resolve == checks@[j]@.resolve
                    },
            decreases checks@.len() - i,
        {
            targets.push(
                HttpTarget {
                    url: checks[i].url.clone(),
                    resolve: text::copy_option(&checks[i].resolve),
                },
            );
            i += 1;
        }
        HttpHealthCheck { checks: targets, timeout_seconds }
    }

    /// The name of the component.
    pub fn name(&self) -> (name: &'static str)
        ensures
            name@ == "http"@,
    {
        "http"
    }

    /// The report on all the URLs, or none while one of them has something
    /// left to do.
    pub fn check(&self, progress: &[HttpProgress]) -> (component: Option<ComponentHealth>)
        requires
            progress@.len() == self.checks@.len(),
        ensures
            text::option_view(component) == http_component(self.steps(progress@)),
    {
        let ghost steps = self.steps(progress@);
        let mut reports: Vec<HttpCheck> = Vec::new();
        let mut parts: Vec<Status> = Vec::new();
        let mut i: usize = 0;
        while i < self.checks.len()
            invariant
                i <= self.checks@.len(),
                progress@.len() == self.checks@.len(),
                steps == self.steps(progress@),
                reports@.len() == i,
                parts@.len() == i,
                forall|j: int|
                    0 <= j < i ==> #[trigger] steps[j] == HttpStepView::Finished(reports@[j]@),
                forall|j: int| 0 <= j < i ==> parts@[j] == (#[trigger] reports@[j]).status,
            decreases self.checks@.len() - i,
        {
            match check_target(&self.checks[i], self.timeout_seconds, &progress[i]) {
                HttpStep::Finished(report) => {
                    parts.push(report.status);
                    reports.push(report);
                },
                _ => {
                    assert(!(steps[i as int] is Finished));
                    return None;
                },
            }
            i += 1;
        }
        proof {
            let expected = http_component(steps)->Some_0;
            assert(text::views(reports@) =~= expected.details->Http_0);
            assert(parts@ =~= Seq::new(steps.len(), |j: int| expected.details->Http_0[j].status));
        }
        Some(
            ComponentHealth {
                status: status::combine(parts.as_slice()),
                details: ComponentDetails::Http(HttpDetails { urls: reports }),
            },
        )
    }
}

/// A URL that starts with `mock://` is reported on at once, whatever happened
/// before: it never causes a lookup or a request.
pub proof fn law_mock_urls_stay_off_the_network(
    target: HttpTargetView,
    timeout_seconds: u64,
    parts: Result<(Option<Seq<char>>, Option<u16>), Seq<char>>,
    progress: HttpProgressView,
)
    requires
        "mock://"@.is_prefix_of(target.url),
    ensures
        target_step(target, timeout_seconds, parts, progress) is Finished,
{
}

/// A URL goes through at most one lookup and one request.
pub proof fn law_each_target_comes_to_an_end(
    target: HttpTargetView,
    timeout_seconds: u64,
    parts: Result<(Option<Seq<char>>, Option<u16>), Seq<char>>,
    progress: HttpProgressView,
)
    ensures
        progress is LookedUp ==> !(target_step(target, timeout_seconds, parts, progress) is Lookup),
        progress is Replied ==> target_step(target, timeout_seconds, parts, progress) is Finished,
{
}

/// Without an address or a name to use in place of its host, a URL is
/// requested as it stands.
pub proof fn law_plain_targets_use_the_shared_client(
    target: HttpTargetView,
    timeout_seconds: u64,
    parts: Result<(Option<Seq<char>>, Option<u16>), Seq<char>>,
)
    requires
        target.resolve is None,
        mock_report(target.url) is None,
    ensures
        target_step(target, timeout_seconds, parts, HttpProgressView::Start) == (
        HttpStepView::Send { url: target.url, connection: ConnectionView::Shared, timeout_seconds }),
{
}

/// An address given in place of a host is used without a lookup.
pub proof fn law_literal_addresses_need_no_lookup(
    parts: Result<(Option<Seq<char>>, Option<u16>), Seq<char>>,
    name: Seq<char>,
    lookup: Option<Result<Seq<SocketAddr>, Seq<char>>>,
)
    requires
        address::ip_value(name) is Some,
    ensures
        !(client_step(parts, Some(name), lookup) matches Ok(step) && step is Lookup),
        client_step(parts, Some(name), lookup) == client_step(parts, Some(name), None),
{
}

/// A report is about the URL of its target. Of the URLs that are requested,
/// those are up that answered with a status code from 200 to 299.
pub proof fn law_up_means_success(
    target: HttpTargetView,
    timeout_seconds: u64,
    parts: Result<(Option<Seq<char>>, Option<u16>), Seq<char>>,
    progress: HttpProgressView,
)
    requires
        target_step(target, timeout_seconds, parts, progress) is Finished,
    ensures
        ({
            let report = target_step(target, timeout_seconds, parts, progress)->Finished_0;
            &&& report.url == target.url
            &&& mock_report(target.url) is None ==> (report.status == Status::Up <==> (
            progress matches HttpProgressView::Replied(HttpReplyView::Answered(code)) && 200
                <= code < 300))
            &&& report.status == Status::Up ==> report.error is None && report.http_status is Some
        }),
{
}

/// The views show all that is in a report, a target, a connection, a reply and
/// the steps between.
pub proof fn law_views_show_everything(
    report: HttpCheck,
    target: HttpTarget,
    parts: UrlParts,
    url: String,
    addresses: Vec<SocketAddr>,
    connection: Connection,
    lookup: AddressLookup,
    reply: HttpReply,
    port: u16,
    seconds: u64,
)
    ensures
        report@.url == report.url@,
        report@.status == report.status,
        report@.http_status == report.http_status,
        report@.error == text::option_view(report.error),
        target@.url == target.url@,
        target@.resolve == text::option_view(target.resolve),
        parts@ == (text::option_view(parts.host), parts.port),
        Connection::Shared@ == ConnectionView::Shared,
        (Connection::Pinned { host: url, addresses })@ == (ConnectionView::Pinned {
            host: url@,
            addresses: addresses@,
        }),
        ClientStep::Connect(connection)@ == ClientStepView::Connect(connection@),
        (ClientStep::Lookup { name: url, port })@ == (ClientStepView::Lookup { name: url@, port }),
        HttpReply::TimedOut@ == HttpReplyView::TimedOut,
        HttpReply::Failed(url)@ == HttpReplyView::Failed(url@),
        HttpReply::Answered(port)@ == HttpReplyView::Answered(port),
        HttpProgress::Start@ == HttpProgressView::Start,
        HttpProgress::LookedUp(lookup)@ == HttpProgressView::LookedUp(text::result_view(lookup)),
        HttpProgress::Replied(reply)@ == HttpProgressView::Replied(reply@),
        (HttpStep::Lookup { name: url, port })@ == (HttpStepView::Lookup { name: url@, port }),
        (HttpStep::Send { url, connection, timeout_seconds: seconds })@ == (HttpStepView::Send {
            url: url@,
            connection: connection@,
            timeout_seconds: seconds,
        }),
        HttpStep::Finished(report)@ == HttpStepView::Finished(report@),
        lookup_view(None) is None,
        lookup_view(Some(&lookup)) == Some(text::result_view(lookup)),
{
}

/// A URL is answered without a request exactly where it starts with `mock://`:
/// as up with 200 where `up` follows, as down with 503 where `down` does, and
/// as down with an error that names the URL in every other case.
pub proof fn law_mock_answers(suffix: Seq<char>, url: Seq<char>)
    ensures
        mock_report(url) is Some <==> url.len() >= 7 && url.take(7) == "mock://"@,
        suffix == "up"@ ==> mock_report("mock://"@ + suffix) == Some(
            HttpCheckView {
                url: "mock://"@ + suffix,
                status: Status::Up,
                http_status: Some(200),
                error: None,
            },
        ),
        suffix == "down"@ ==> mock_report("mock://"@ + suffix) == Some(
            HttpCheckView {
                url: "mock://"@ + suffix,
                status: Status::Down,
                http_status: Some(503),
                error: None,
            },
        ),
        suffix != "up"@ && suffix != "down"@ ==> mock_report("mock://"@ + suffix) == Some(
            HttpCheckView {
                url: "mock://"@ + suffix,
                status: Status::Down,
                http_status: None,
                error: Some("unsupported mock url: "@ + ("mock://"@ + suffix)),
            },
        ),
{
    reveal_strlit("mock://");
    reveal_strlit("mock://up");
    reveal_strlit("mock://down");
    reveal_strlit("up");
    reveal_strlit("down");
    assert("mock://"@.len() == 7);
    let whole = "mock://"@ + suffix;
    assert("mock://"@ =~= whole.subrange(0, 7));
    assert("mock://up"@ =~= "mock://"@ + "up"@);
    assert("mock://down"@ =~= "mock://"@ + "down"@);
    assert(whole.skip(7) =~= suffix);
    assert(("mock://"@ + "up"@).skip(7) =~= "up"@);
    assert(("mock://"@ + "down"@).skip(7) =~= "down"@);
    assert("up"@.len() == 2 && "down"@.len() == 4);
    if url.len() >= 7 {
        assert(url.take(7) =~= url.subrange(0, 7));
    }
}

/// An answer is shown with its code, and is up from 200 to 299. A request that
/// failed or timed out is down, with the reason and without a code.
pub proof fn law_replies_are_reported(
    url: Seq<char>,
    timeout_seconds: u64,
    code: u16,
    reason: Seq<char>,
)
    ensures
        reply_report(url, timeout_seconds, HttpReplyView::Answered(code)) == (HttpCheckView {
            url,
            status: if 200 <= code && code <= 299 {
                Status::Up
            } else {
                Status::Down
            },
            http_status: Some(code),
            error: None,
        }),
        reply_report(url, timeout_seconds, HttpReplyView::Failed(reason)) == (HttpCheckView {
            url,
            status: Status::Down,
            http_status: None,
            error: Some(reason),
        }),
        reply_report(url, timeout_seconds, HttpReplyView::TimedOut) == (HttpCheckView {
            url,
            status: Status::Down,
            http_status: None,
            error: Some(
                "request timed out after "@ + text::decimal(timeout_seconds as nat) + " seconds"@,
            ),
        }),
{
}

/// In place of a URL's host, a request goes to the address given, at the port
/// of the URL, or to all the addresses that the name given was looked up to.
pub proof fn law_overrides_pin_the_host(
    host: Seq<char>,
    port: u16,
    name: Seq<char>,
    lookup: Option<Result<Seq<SocketAddr>, Seq<char>>>,
)
    ensures
        ({
            let step = client_step(Ok((Some(host), Some(port))), Some(name), lookup);
            &&& address::ip_value(name) matches Some(ip) ==> step == Ok::<
                ClientStepView,
                Seq<char>,
            >(
                ClientStepView::Connect(
                    ConnectionView::Pinned {
                        host,
                        addresses: seq![SocketAddr { ip, port, flow_info: 0, scope_id: 0 }],
                    },
                ),
            )
            &&& address::ip_value(name) is None ==> match lookup {
                None => step == Ok::<ClientStepView, Seq<char>>(
                    ClientStepView::Lookup { name, port },
                ),
                Some(Ok(addresses)) => if addresses.len() > 0 {
                    step == Ok::<ClientStepView, Seq<char>>(
                        ClientStepView::Connect(ConnectionView::Pinned { host, addresses }),
                    )
                } else {
                    step == Err::<ClientStepView, Seq<char>>(
                        "failed to resolve "@ + name + ": no addresses found"@,
                    )
                },
                Some(Err(reason)) => step == Err::<ClientStepView, Seq<char>>(
                    "failed to resolve "@ + name + ": "@ + reason,
                ),
            }
        }),
{
}

/// A URL that cannot be read, or has no host or no port, cannot be given another
/// host; without another host nothing of this matters.
pub proof fn law_unusable_urls_cannot_be_overridden(
    name: Seq<char>,
    reason: Seq<char>,
    host: Seq<char>,
    port: Option<u16>,
    parts: Result<(Option<Seq<char>>, Option<u16>), Seq<char>>,
    lookup: Option<Result<Seq<SocketAddr>, Seq<char>>>,
)
    ensures
        client_step(Err(reason), Some(name), lookup) == Err::<ClientStepView, Seq<char>>(reason),
        client_step(Ok((None, port)), Some(name), lookup) == Err::<ClientStepView, Seq<char>>(
            "URL has no hostname"@,
        ),
        client_step(Ok((Some(host), None)), Some(name), lookup) == Err::<
            ClientStepView,
            Seq<char>,
        >("URL has no known default port"@),
        client_step(parts, None, lookup) == Ok::<ClientStepView, Seq<char>>(
            ClientStepView::Connect(ConnectionView::Shared),
        ),
{
}

/// A URL that is not answered without a request is looked up, requested and
/// reported as far as it has come: what cannot be connected is down with the
/// reason, what can be is requested with the timeout given, and what replied is
/// reported by its reply.
pub proof fn law_targets_are_followed_through(
    target: HttpTargetView,
    timeout_seconds: u64,
    parts: Result<(Option<Seq<char>>, Option<u16>), Seq<char>>,
    lookup: Result<Seq<SocketAddr>, Seq<char>>,
    reply: HttpReplyView,
)
    requires
        mock_report(target.url) is None,
    ensures
        target_step(target, timeout_seconds, parts, HttpProgressView::Replied(reply))
            == HttpStepView::Finished(reply_report(target.url, timeout_seconds, reply)),
        client_step(parts, target.resolve, None) matches Ok(ClientStepView::Connect(connection))
            ==> target_step(target, timeout_seconds, parts, HttpProgressView::Start) == (
        HttpStepView::Send { url: target.url, connection, timeout_seconds }),
        client_step(parts, target.resolve, None) matches Ok(ClientStepView::Lookup { name, port })
            ==> target_step(target, timeout_seconds, parts, HttpProgressView::Start) == (
        HttpStepView::Lookup { name, port }),
        client_step(parts, target.resolve, None) matches Err(reason) ==> target_step(
            target,
            timeout_seconds,
            parts,
            HttpProgressView::Start,
        ) == HttpStepView::Finished(
            HttpCheckView {
                url: target.url,
                status: Status::Down,
                http_status: None,
                error: Some(reason),
            },
        ),
        client_step(parts, target.resolve, Some(lookup)) matches Ok(
            ClientStepView::Connect(connection),
        ) ==> target_step(target, timeout_seconds, parts, HttpProgressView::LookedUp(lookup)) == (
        HttpStepView::Send { url: target.url, connection, timeout_seconds }),
        client_step(parts, target.resolve, Some(lookup)) matches Err(reason) ==> target_step(
            target,
            timeout_seconds,
            parts,
            HttpProgressView::LookedUp(lookup),
        ) == HttpStepView::Finished(
            HttpCheckView {
                url: target.url,
                status: Status::Down,
                http_status: None,
                error: Some(reason),
            },
        ),
{
}

/// A URL that is answered without a request is reported so at every step.
pub proof fn law_mock_targets_are_answered(
    target: HttpTargetView,
    timeout_seconds: u64,
    parts: Result<(Option<Seq<char>>, Option<u16>), Seq<char>>,
    progress: HttpProgressView,
)
    ensures
        mock_report(target.url) matches Some(report) ==> target_step(
            target,
            timeout_seconds,
            parts,
            progress,
        ) == HttpStepView::Finished(report),
{
}

/// The component waits until all URLs are reported on. It then shows the report
/// on each in its place, and is up exactly where every one of them is.
pub proof fn law_up_means_every_url_is_up(steps: Seq<HttpStepView>)
    ensures
        http_component(steps) is Some <==> forall|i: int|
            0 <= i < steps.len() ==> #[trigger] steps[i] is Finished,
        http_component(steps) matches Some(component) ==> {
            let reports = component.details->Http_0;
            &&& component.details is Http
            &&& reports.len() == steps.len()
            &&& forall|i: int|
                0 <= i < steps.len() ==> #[trigger] steps[i] == HttpStepView::Finished(reports[i])
            &&& component.status == Status::Up <==> forall|i: int|
                0 <= i < reports.len() ==> (#[trigger] reports[i]).status == Status::Up
        },
{
    if let Some(component) = http_component(steps) {
        let reports = component.details->Http_0;
        let statuses = Seq::new(steps.len(), |i: int| reports[i].status);
        status::law_up_means_all_parts_up(statuses);
        assert forall|i: int| 0 <= i < steps.len() implies #[trigger] steps[i]
            == HttpStepView::Finished(reports[i]) by {
            assert(steps[i] is Finished);
        }
        if component.status == Status::Up {
            assert forall|i: int| 0 <= i < reports.len() implies (#[trigger] reports[i]).status
                == Status::Up by {
                assert(statuses[i] == Status::Up);
            }
        }
        if forall|i: int| 0 <= i < reports.len() ==> (#[trigger] reports[i]).status == Status::Up {
            assert forall|i: int| 0 <= i < statuses.len() implies #[trigger] statuses[i]
                == Status::Up by {
                assert(reports[i].status == Status::Up);
            }
        }
    }
}

/// Each URL is followed by its own progress, with the timeout of the check.
pub proof fn law_each_url_has_its_own_step(
    check: HttpHealthCheck,
    progress: Seq<HttpProgress>,
    i: int,
)
    requires
        progress.len() == check.checks@.len(),
        0 <= i < progress.len(),
    ensures
        check.steps(progress).len() == check.checks@.len(),
        check.steps(progress)[i] == target_step(
            check.checks@[i]@,
            check.timeout_seconds,
            url_parts(check.checks@[i].url@),
            progress[i]@,
        ),
{
}

/// Where every URL was requested and answered, the component shows the code of
/// each answer, and is up exactly where all the codes are from 200 to 299.
pub proof fn law_answered_urls(check: HttpHealthCheck, progress: Seq<HttpProgress>, codes: Seq<u16>)
    requires
        progress.len() == check.checks@.len(),
        codes.len() == check.checks@.len(),
        forall|i: int|
            0 <= i < codes.len() ==> #[trigger] progress[i] == HttpProgress::Replied(
                HttpReply::Answered(codes[i]),
            ),
        forall|i: int|
            0 <= i < codes.len() ==> {
                let url = (#[trigger] check.checks@[i]).url@;
                url.len() < 7 || url.take(7) != "mock://"@
            },
    ensures
        http_component(check.steps(progress)) matches Some(component) && {
            let reports = component.details->Http_0;
            &&& component.details is Http
            &&& reports.len() == codes.len()
            &&& forall|i: int|
                0 <= i < codes.len() ==> {
                    &&& (#[trigger] reports[i]).url == check.checks@[i].url@
                    &&& reports[i].http_status == Some(codes[i])
                    &&& reports[i].error is None
                    &&& reports[i].status == Status::Up <==> 200 <= codes[i] && codes[i] <= 299
                }
            &&& component.status == Status::Up <==> forall|i: int|
                0 <= i < codes.len() ==> 200 <= #[trigger] codes[i] && codes[i] <= 299
        },
{
    let steps = check.steps(progress);
    assert forall|i: int| 0 <= i < steps.len() implies #[trigger] steps[i]
        == HttpStepView::Finished(
        HttpCheckView {
            url: check.checks@[i].url@,
            status: if 200 <= codes[i] && codes[i] <= 299 {
                Status::Up
            } else {
                Status::Down
            },
            http_status: Some(codes[i]),
            error: None,
        },
    ) by {
        assert(progress[i]@ == HttpProgressView::Replied(HttpReplyView::Answered(codes[i])));
        law_mock_answers(Seq::empty(), check.checks@[i].url@);
    }
    law_up_means_every_url_is_up(steps);
    let component = http_component(steps)->0;
    let reports = component.details->Http_0;
    assert forall|i: int| 0 <= i < codes.len() implies {
        &&& (#[trigger] reports[i]).url == check.checks@[i].url@
        &&& reports[i].http_status == Some(codes[i])
        &&& reports[i].error is None
        &&& reports[i].status == Status::Up <==> 200 <= codes[i] && codes[i] <= 299
    } by {
        assert(steps[i] == HttpStepView::Finished(reports[i]));
    }
    if forall|i: int| 0 <= i < codes.len() ==> 200 <= #[trigger] codes[i] && codes[i] <= 299 {
        assert forall|i: int| 0 <= i < reports.len() implies (#[trigger] reports[i]).status
            == Status::Up by {
            assert(200 <= codes[i]);
        }
    }
    if component.status == Status::Up {
        assert forall|i: int| 0 <= i < codes.len() implies 200 <= #[trigger] codes[i] && codes[i]
            <= 299 by {
            assert(reports[i].status == Status::Up);
        }
    }
}

} // verus!
