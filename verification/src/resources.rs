//! What the service offers over HTTP.

use vstd::prelude::*;

verus! {

/// The resources that can be asked for.
#[derive(Debug, Clone, Copy, PartialEq, Eq, Structural)]
pub enum Endpoint {
    Root,
    Health,
    Liveness,
    Readiness,
}

impl Endpoint {
    /// The path under which the resource is served.
    pub open spec fn path(self) -> Seq<char> {
        match self {
            Endpoint::Root => "/actuator"@,
            Endpoint::Health => "/actuator/health"@,
            Endpoint::Liveness => "/actuator/health/liveness"@,
            Endpoint::Readiness => "/actuator/health/readiness"@,
        }
    }

    /// The path under which the resource is served.
    pub fn route(&self) -> (path: &'static str)
        ensures
            path@ == self.path(),
    {
        match self {
            Endpoint::Root => "/actuator",
            Endpoint::Health => "/actuator/health",
            Endpoint::Liveness => "/actuator/health/liveness",
            Endpoint::Readiness => "/actuator/health/readiness",
        }
    }
}

/// A link to a resource.
#[derive(Debug, Clone)]
pub struct Link {
    pub href: String,
    pub templated: bool,
}

/// The links that the root resource lists.
#[derive(Debug, Clone)]
pub struct ActuatorLinks {
    pub self_link: Link,
    pub health: Link,
}

#[derive(Debug, Clone)]
pub struct ActuatorLinksResponse {
    pub links: ActuatorLinks,
}

/// The answer to a request for the root resource.
#[derive(Debug, Clone)]
pub struct ActuatorRoot {
    pub content_type: &'static str,
    pub body: ActuatorLinksResponse,
}

/// How long an answer about the health is kept, and how many are.
#[derive(Debug, Clone, Copy, PartialEq, Eq, Structural)]
pub struct CachePolicy {
    pub ttl_seconds: u64,
    pub max_capacity: u64,
}

impl View for Link {
    type V = (Seq<char>, bool);

    open spec fn view(&self) -> (Seq<char>, bool) {
        (self.href@, self.templated)
    }
}

/// One answer is kept, for as long as configured.
pub fn health_response_cache(ttl_seconds: u64) -> (policy: CachePolicy)
    ensures
        policy == (CachePolicy { ttl_seconds, max_capacity: 1 }),
{
    CachePolicy { ttl_seconds, max_capacity: 1 }
}

/// The root resource: links to itself and to the health resource.
pub fn actuator_root() -> (root: ActuatorRoot)
    ensures
        root.content_type@ == "application/vnd.spring-boot.actuator.v3+json"@,
        root.body.links.self_link@ == (Endpoint::Root.path(), false),
        root.body.links.health@ == (Endpoint::Health.path(), false),
{
    ActuatorRoot {
        content_type: "application/vnd.spring-boot.actuator.v3+json",
        body: ActuatorLinksResponse {
            links: ActuatorLinks {
                self_link: Link { href: Endpoint::Root.route().to_owned(), templated: false },
                health: Link { href: Endpoint::Health.route().to_owned(), templated: false },
            },
        },
    }
}

/// No two resources share a path.
pub proof fn law_paths_are_distinct(one: Endpoint, other: Endpoint)
    ensures
        one.path() == other.path() <==> one == other,
{
    reveal_strlit("/actuator");
    reveal_strlit("/actuator/health");
    reveal_strlit("/actuator/health/liveness");
    reveal_strlit("/actuator/health/readiness");
    assert("/actuator"@.len() == 9);
    assert("/actuator/health"@.len() == 16);
    assert("/actuator/health/liveness"@.len() == 25);
    assert("/actuator/health/readiness"@.len() == 26);
}

/// The health resource lies below the root, and liveness and readiness below
/// it, each under its name.
pub proof fn law_paths_are_nested()
    ensures
        Endpoint::Root.path() == "/actuator"@,
        Endpoint::Health.path() == Endpoint::Root.path() + "/health"@,
        Endpoint::Liveness.path() == Endpoint::Health.path() + "/liveness"@,
        Endpoint::Readiness.path() == Endpoint::Health.path() + "/readiness"@,
{
    reveal_strlit("/actuator");
    reveal_strlit("/health");
    reveal_strlit("/liveness");
    reveal_strlit("/readiness");
    reveal_strlit("/actuator/health");
    reveal_strlit("/actuator/health/liveness");
    reveal_strlit("/actuator/health/readiness");
    assert("/actuator/health"@ =~= "/actuator"@ + "/health"@);
    assert("/actuator/health/liveness"@ =~= "/actuator/health"@ + "/liveness"@);
    assert("/actuator/health/readiness"@ =~= "/actuator/health"@ + "/readiness"@);
}

/// The view of a link shows where it leads and whether it is a template.
pub proof fn law_links_show_everything(link: Link)
    ensures
        link@ == (link.href@, link.templated),
{
}

} // verus!
