use push_notifications_service::clone_service_request::CloneServiceRequest;
use push_notifications_service::commit_signals::{signal_action, CommittedAction, LinkType, Signal};
use push_notifications_service::service_providers::ServiceProviders;
use push_notifications_service::validation::{
    validate_create_index_link, validate_create_link_service_providers,
    validate_update_clone_service_request, validate_update_service_account_key, LinkableKind,
    ValidateCallbackResult,
};

fn request(seed: &str) -> CloneServiceRequest {
    CloneServiceRequest { network_seed: seed.to_string(), properties: vec![], origin_time: 0, quantum_time: 0 }
}

#[test]
fn updates_are_invalid() {
    match validate_update_service_account_key() {
        ValidateCallbackResult::Invalid(m) => assert_eq!(m, "Service Account Keys cannot be updated"),
        ValidateCallbackResult::Valid => panic!("updates must be refused"),
    }
    match validate_update_clone_service_request() {
        ValidateCallbackResult::Invalid(m) => assert_eq!(m, "Clone Service Requests cannot be updated"),
        ValidateCallbackResult::Valid => panic!("updates must be refused"),
    }
}

#[test]
fn provider_links_go_from_entry_to_agent() {
    assert!(matches!(
        validate_create_link_service_providers(LinkableKind::Entry, LinkableKind::Agent),
        ValidateCallbackResult::Valid
    ));
    assert!(matches!(
        validate_create_link_service_providers(LinkableKind::Action, LinkableKind::Agent),
        ValidateCallbackResult::Invalid(m) if m.starts_with("Base address")
    ));
    assert!(matches!(
        validate_create_link_service_providers(LinkableKind::Entry, LinkableKind::Entry),
        ValidateCallbackResult::Invalid(m) if m.starts_with("Target address")
    ));
}

#[test]
fn index_links_point_at_entries() {
    assert!(matches!(validate_create_index_link(LinkableKind::Action, true), Ok(ValidateCallbackResult::Valid)));
    assert_eq!(
        validate_create_index_link(LinkableKind::Entry, true).unwrap_err(),
        "No action hash associated with link"
    );
    assert_eq!(
        validate_create_index_link(LinkableKind::Action, false).unwrap_err(),
        "Linked action must reference an entry"
    );
}

#[test]
fn new_request_is_announced_to_every_provider() {
    let mut providers = ServiceProviders::new();
    providers.announce_as_provider("node1".to_string());
    providers.announce_as_provider("node2".to_string());
    let out = signal_action(CommittedAction::Create { entry: Some(request("s1")) }, &providers);
    let notice = out.notice.unwrap();
    assert_eq!(notice.recipients, vec!["node1".to_string(), "node2".to_string()]);
    assert_eq!(notice.clone_service_request, request("s1"));
    assert!(matches!(out.signal, Some(Signal::EntryCreated { app_entry }) if app_entry == request("s1")));
}

#[test]
fn other_actions_are_only_echoed() {
    let providers = ServiceProviders::new();
    let out = signal_action(CommittedAction::CreateLink { link_type: Some(LinkType::ServiceProviders) }, &providers);
    assert!(out.notice.is_none());
    assert!(matches!(out.signal, Some(Signal::LinkCreated { link_type: LinkType::ServiceProviders })));
    let out = signal_action(CommittedAction::Update { entry: Some(request("a")), original: None }, &providers);
    assert!(out.notice.is_none() && out.signal.is_none());
    let out = signal_action(CommittedAction::Delete { original: Some(request("a")) }, &providers);
    assert!(matches!(out.signal, Some(Signal::EntryDeleted { .. })));
    let out = signal_action(CommittedAction::Other, &providers);
    assert!(out.notice.is_none() && out.signal.is_none());
}
