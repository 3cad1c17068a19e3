use floxide::event::{
    event_node_action, nested_workflow_action, text_contains, EventActionExt, EventRouteError,
    EventRouter, RouteStep,
};

#[test]
fn routes_lead_to_their_targets() {
    let mut router = EventRouter::new("source".to_string(), String::terminate());
    assert!(router.has_node("source"));
    assert!(!router.has_node("classifier"));
    assert_eq!(
        router.set_route_with_validation("source", "classify", "classifier"),
        Err(EventRouteError::DestinationNotFound)
    );
    assert!(router.route("source", "classify").is_none());
    router.add_node("classifier".to_string());
    assert_eq!(router.set_route_with_validation("source", "classify", "classifier"), Ok(()));
    router.set_route("classifier", "done", "source");
    assert_eq!(router.route("source", "classify").as_deref(), Some("classifier"));
    router.set_route("source", "classify", "source");
    assert_eq!(router.route("source", "classify").as_deref(), Some("source"));
    match router.after_event("classifier", "done") {
        RouteStep::Goto(next) => assert_eq!(next, "source"),
        other => panic!("unexpected {:?}", other),
    }
    assert!(matches!(router.after_event("classifier", "terminate"), RouteStep::Terminate));
    assert!(matches!(router.after_event("classifier", "unknown"), RouteStep::NoRoute));
}

#[test]
fn processors_send_the_workflow_back_to_its_source() {
    let router = EventRouter::new("source".to_string(), String::terminate());
    assert_eq!(
        router.after_wait_error("Node 'x' is not an event source").as_deref(),
        Some("source")
    );
    assert!(router.after_wait_error("channel closed").is_none());
}

#[test]
fn text_search() {
    assert!(text_contains("abcabd", "abd"));
    assert!(text_contains("abc", ""));
    assert!(!text_contains("ab", "abc"));
    assert!(!text_contains("abcabc", "abd"));
}

#[test]
fn waiting_nodes_and_nested_workflows_pick_actions() {
    assert_eq!(String::timeout(), "timeout");
    assert_eq!(String::terminate(), "terminate");
    let got: Result<String, String> = event_node_action(Some(Ok("next".to_string())), String::timeout());
    assert_eq!(got.unwrap(), "next");
    let got: Result<String, String> = event_node_action(None, String::timeout());
    assert_eq!(got.unwrap(), "timeout");
    let got: Result<String, String> = event_node_action(Some(Err("boom".to_string())), String::timeout());
    assert_eq!(got.unwrap_err(), "boom");
    let done: Result<String, String> = nested_workflow_action(Some(Ok(())), "complete".to_string(), String::timeout());
    assert_eq!(done.unwrap(), "complete");
    let late: Result<String, String> = nested_workflow_action(None, "complete".to_string(), String::timeout());
    assert_eq!(late.unwrap(), "timeout");
}
