use axum_health::listener::{next_action, AcceptAction, AcceptEvent};
use axum_health::resources::{actuator_root, health_response_cache, Endpoint};

#[test]
fn actuator_root_returns_spring_style_links() {
    let root = actuator_root();
    assert_eq!(
        root.content_type,
        "application/vnd.spring-boot.actuator.v3+json"
    );
    assert_eq!(root.body.links.self_link.href, "/actuator");
    assert!(!root.body.links.self_link.templated);
    assert_eq!(root.body.links.health.href, "/actuator/health");
    assert!(!root.body.links.health.templated);
}

#[test]
fn resources_are_served_under_their_paths() {
    assert_eq!(Endpoint::Root.route(), "/actuator");
    assert_eq!(Endpoint::Health.route(), "/actuator/health");
    assert_eq!(Endpoint::Liveness.route(), "/actuator/health/liveness");
    assert_eq!(Endpoint::Readiness.route(), "/actuator/health/readiness");
}

#[test]
fn one_answer_is_kept_for_the_configured_time() {
    let policy = health_response_cache(10);
    assert_eq!(policy.ttl_seconds, 10);
    assert_eq!(policy.max_capacity, 1);
}

#[test]
fn failed_connections_cost_a_pause() {
    assert_eq!(
        next_action(AcceptEvent::Start),
        AcceptAction::Accept { pause_seconds: 0 }
    );
    assert_eq!(
        next_action(AcceptEvent::AcceptFailed),
        AcceptAction::Accept { pause_seconds: 1 }
    );
    assert_eq!(next_action(AcceptEvent::Accepted), AcceptAction::Handshake);
    assert_eq!(
        next_action(AcceptEvent::HandshakeFailed),
        AcceptAction::Accept { pause_seconds: 1 }
    );
    assert_eq!(next_action(AcceptEvent::HandshakeDone), AcceptAction::Serve);
}
