use push_notifications_service::clone_service_request::CloneServiceRequest;
use push_notifications_service::gateway_message::{notification_message, test_message, MessageTarget};
use push_notifications_service::fcm_token::{RegisterFcmTokenForAgentInput, TokenRegistry};
use push_notifications_service::provider::is_app_installed;
use push_notifications_service::push_notifications::{
    handle_signal, is_listed, send_push_notification_to_agent, DeliveryError, DropReason, ProviderSignal,
    PushNotification, SendPushNotificationSignal, SendPushNotificationToAgentInput, SignalAction,
};
use push_notifications_service::service_account_key::{ServiceAccountKey, ServiceAccountKeyRegistry};
use push_notifications_service::service_providers::{
    gateway_grant, gateway_init_result, remote_signal_grant, InitCallbackResult, ProviderRace, RaceStep,
    ServiceProviders,
};

fn key(project: &str, token_uri: &str) -> ServiceAccountKey {
    ServiceAccountKey {
        key_type: None,
        project_id: Some(project.to_string()),
        private_key_id: None,
        private_key: "private_key_1".to_string(),
        client_email: "random@email.com".to_string(),
        client_id: None,
        auth_uri: None,
        token_uri: token_uri.to_string(),
        auth_provider_x509_cert_url: None,
        client_x509_cert_url: None,
    }
}

fn notification() -> PushNotification {
    PushNotification { title: "Hey".to_string(), body: "there".to_string() }
}

fn ask(agent: &str) -> SendPushNotificationToAgentInput {
    SendPushNotificationToAgentInput { agent: agent.to_string(), notification: notification() }
}

#[test]
fn end_to_end_delivery_calls_gateway_once() {
    let mut keys = ServiceAccountKeyRegistry::new();
    let mut tokens = TokenRegistry::new();
    let credential = key("P1", "t");
    keys.publish(credential.duplicate()).unwrap();
    tokens.register_fcm_token_for_agent(RegisterFcmTokenForAgentInput {
        agent: "agentA".to_string(),
        fcm_project_id: "P1".to_string(),
        token: "tok1".to_string(),
    });
    let signal = send_push_notification_to_agent(&tokens, &keys, ask("agentA")).unwrap();
    let mut calls = Vec::new();
    if let SignalAction::Deliver(call) = handle_signal(ProviderSignal::SendPushNotification(signal)) {
        calls.push(call);
    }
    assert_eq!(calls.len(), 1);
    let call = &calls[0];
    assert_eq!(call.fcm_project_id, "P1");
    assert!(call.service_account_key == credential);
    assert_eq!(call.token, "tok1");
    assert_eq!(call.notification.title, "Hey");
    assert_eq!(call.notification.body, "there");
}

#[test]
fn agent_without_token_cannot_be_notified() {
    let keys = ServiceAccountKeyRegistry::new();
    let tokens = TokenRegistry::new();
    let r = send_push_notification_to_agent(&tokens, &keys, ask("agentA"));
    assert_eq!(r.unwrap_err(), DeliveryError::NoFcmToken);
}

#[test]
fn project_without_credential_cannot_deliver() {
    let keys = ServiceAccountKeyRegistry::new();
    let mut tokens = TokenRegistry::new();
    tokens.register_fcm_token_for_agent(RegisterFcmTokenForAgentInput {
        agent: "agentA".to_string(),
        fcm_project_id: "FCM_PROJECT_1".to_string(),
        token: "myfcmtoken".to_string(),
    });
    let r = send_push_notification_to_agent(&tokens, &keys, ask("agentA"));
    assert_eq!(r.unwrap_err(), DeliveryError::NoServiceAccountKey);
}

#[test]
fn malformed_event_is_dropped() {
    let signal = SendPushNotificationSignal {
        token: String::new(),
        fcm_project_id: "P1".to_string(),
        service_account_key: key("P1", "t"),
        notification: notification(),
    };
    assert!(matches!(
        handle_signal(ProviderSignal::SendPushNotification(signal)),
        SignalAction::Drop(DropReason::Malformed)
    ));
    let mut anonymous = key("P1", "t");
    anonymous.project_id = None;
    let signal = SendPushNotificationSignal {
        token: "tok".to_string(),
        fcm_project_id: "P1".to_string(),
        service_account_key: anonymous,
        notification: notification(),
    };
    assert!(matches!(
        handle_signal(ProviderSignal::SendPushNotification(signal)),
        SignalAction::Drop(DropReason::Malformed)
    ));
}

#[test]
fn other_signals_are_routed() {
    let r = CloneServiceRequest { network_seed: "s".to_string(), properties: vec![7], origin_time: 1, quantum_time: 2 };
    let copy = CloneServiceRequest { network_seed: "s".to_string(), properties: vec![7], origin_time: 1, quantum_time: 2 };
    assert!(matches!(handle_signal(ProviderSignal::NewCloneServiceRequest(r)), SignalAction::ReconcileWhenVisible(q) if q == copy));
    assert!(matches!(handle_signal(ProviderSignal::Unrecognized), SignalAction::Drop(DropReason::Unrecognized)));
}

#[test]
fn third_candidate_wins_once_it_answers() {
    let mut race = ProviderRace::new(3);
    assert_eq!(race.on_probe(2, true), RaceStep::Winner(2));
    assert!(race.is_decided());

    let mut race = ProviderRace::new(3);
    assert_eq!(race.on_probe(0, false), RaceStep::Pending);
    assert_eq!(race.on_probe(1, false), RaceStep::Pending);
    assert_eq!(race.on_probe(2, true), RaceStep::Winner(2));
}

#[test]
fn race_is_lost_when_every_candidate_fails() {
    let mut race = ProviderRace::new(2);
    assert_eq!(race.on_probe(1, false), RaceStep::Pending);
    assert_eq!(race.on_probe(0, false), RaceStep::NoProviderAvailable);
    assert!(race.is_decided());
    assert!(ProviderRace::new(0).is_decided());
}

#[test]
fn announcing_twice_lists_once() {
    let mut providers = ServiceProviders::new();
    let grant = providers.announce_as_provider("node1".to_string());
    providers.announce_as_provider("node2".to_string());
    providers.announce_as_provider("node1".to_string());
    assert_eq!(providers.get_service_providers(), vec!["node1".to_string(), "node2".to_string()]);
    assert!(grant.is_authorized(&"available_as_provider".to_string()));
    assert!(!grant.is_authorized(&"register_fcm_token".to_string()));
}

#[test]
fn grants_list_their_operations() {
    let g = gateway_grant();
    assert_eq!(g.tag, "send_push_notification");
    assert!(g.is_authorized(&"register_fcm_token".to_string()));
    assert!(g.is_authorized(&"send_push_notifications".to_string()));
    assert!(!g.is_authorized(&"*".to_string()));
    assert!(remote_signal_grant().is_authorized(&"recv_remote_signal".to_string()));
}

#[test]
fn signalled_request_is_listed_once_visible() {
    let r = CloneServiceRequest { network_seed: "s".to_string(), properties: vec![7], origin_time: 1, quantum_time: 2 };
    let other = CloneServiceRequest { network_seed: "t".to_string(), properties: vec![7], origin_time: 1, quantum_time: 2 };
    assert!(!is_listed(&vec![], &r));
    assert!(!is_listed(&vec![other.duplicate()], &r));
    assert!(is_listed(&vec![other, r.duplicate()], &r));
}

#[test]
fn installed_app_is_found() {
    let apps = vec!["client-happ".to_string()];
    assert!(is_app_installed(&apps, &"client-happ".to_string()));
    assert!(!is_app_installed(&apps, &"test-app".to_string()));
}

#[test]
fn notification_message_carries_title_and_body_everywhere() {
    let m = notification_message(&notification(), "myfcmtoken".to_string());
    let expected = vec![("title".to_string(), "Hey".to_string()), ("body".to_string(), "there".to_string())];
    assert_eq!(m.data, expected);
    assert_eq!(m.apns_alert, expected);
    assert_eq!(m.android_data, expected);
    assert_eq!(m.apns_mutable_content, 1);
    assert!(matches!(m.target, MessageTarget::Token(t) if t == "myfcmtoken"));
    let t = test_message();
    assert_eq!(t.data[0].1, "This is a test notification");
    assert!(matches!(t.target, MessageTarget::Topic(topic) if topic == "test"));
}

#[test]
fn gateway_init_passes_only_when_announced() {
    assert!(matches!(gateway_init_result(Ok(())), InitCallbackResult::Pass));
    match gateway_init_result(Err("unreachable".to_string())) {
        InitCallbackResult::Fail(m) => assert_eq!(m, "Failed to announce as provider: unreachable"),
        InitCallbackResult::Pass => panic!("init must fail when the announcement fails"),
    }
}

#[test]
fn race_result_reports_the_outcome() {
    assert_eq!(ProviderRace::new(0).result(), Some(RaceStep::NoProviderAvailable));
    let mut race = ProviderRace::new(3);
    assert_eq!(race.result(), None);
    race.on_probe(0, false);
    assert_eq!(race.result(), None);
    race.on_probe(2, true);
    assert_eq!(race.result(), Some(RaceStep::Winner(2)));
}
