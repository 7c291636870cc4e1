use push_notifications_service::fcm_token::{RegisterFcmTokenForAgentInput, TokenRegistry};
use push_notifications_service::service_account_key::{
    confirm_published, project_of_key, should_publish, KeyError, ServiceAccountKey, ServiceAccountKeyRegistry,
};

fn key(project: Option<&str>, private_key: &str) -> ServiceAccountKey {
    ServiceAccountKey {
        key_type: None,
        project_id: project.map(|p| p.to_string()),
        private_key_id: None,
        private_key: private_key.to_string(),
        client_email: "random@email.com".to_string(),
        client_id: None,
        auth_uri: None,
        token_uri: "random://token.uri".to_string(),
        auth_provider_x509_cert_url: None,
        client_x509_cert_url: None,
    }
}

fn register(tokens: &mut TokenRegistry, agent: &str, project: &str, token: &str) {
    tokens.register_fcm_token_for_agent(RegisterFcmTokenForAgentInput {
        agent: agent.to_string(),
        fcm_project_id: project.to_string(),
        token: token.to_string(),
    });
}

#[test]
fn last_published_credential_is_current() {
    let mut keys = ServiceAccountKeyRegistry::new();
    let project = "FCM_PROJECT_1".to_string();
    for i in 1..=4 {
        keys.publish(key(Some("FCM_PROJECT_1"), &format!("private_key_{i}"))).unwrap();
        let current = keys.get_current(&project).unwrap();
        assert_eq!(current.private_key, format!("private_key_{i}"));
        assert_eq!(keys.get_all_projects(), vec!["FCM_PROJECT_1".to_string()]);
    }
}

#[test]
fn projects_are_independent() {
    let mut keys = ServiceAccountKeyRegistry::new();
    keys.publish(key(Some("A"), "ka")).unwrap();
    keys.publish(key(Some("B"), "kb")).unwrap();
    keys.publish(key(Some("A"), "ka2")).unwrap();
    assert_eq!(keys.get_current(&"A".to_string()).unwrap().private_key, "ka2");
    assert_eq!(keys.get_current(&"B".to_string()).unwrap().private_key, "kb");
    assert_eq!(keys.get_all_projects(), vec!["B".to_string(), "A".to_string()]);
    assert!(keys.get_current(&"C".to_string()).is_none());
}

#[test]
fn credential_without_project_is_refused() {
    let mut keys = ServiceAccountKeyRegistry::new();
    assert_eq!(keys.publish(key(None, "k")), Err(KeyError::MissingProjectId));
    assert_eq!(keys.publish(key(Some(""), "k")), Err(KeyError::MissingProjectId));
    assert!(keys.get_all_projects().is_empty());
}

#[test]
fn deleting_a_project_removes_its_credential() {
    let mut keys = ServiceAccountKeyRegistry::new();
    keys.publish(key(Some("A"), "ka")).unwrap();
    keys.publish(key(Some("B"), "kb")).unwrap();
    keys.delete_project(&"A".to_string());
    assert!(keys.get_current(&"A".to_string()).is_none());
    assert_eq!(keys.get_current(&"B".to_string()).unwrap().private_key, "kb");
    assert_eq!(keys.get_all_projects(), vec!["B".to_string()]);
}

#[test]
fn needs_publish_only_when_different() {
    let mut keys = ServiceAccountKeyRegistry::new();
    let k = key(Some("A"), "ka");
    assert!(keys.needs_publish(&k));
    keys.publish(k.duplicate()).unwrap();
    assert!(!keys.needs_publish(&k));
    assert!(keys.needs_publish(&key(Some("A"), "other")));
}

#[test]
fn publish_then_verify() {
    let sent = key(Some("P1"), "k");
    assert_eq!(confirm_published(&sent, &Some(sent.duplicate())), Ok(()));
    assert_eq!(confirm_published(&sent, &None), Err(KeyError::NotPublished));
    assert_eq!(
        confirm_published(&sent, &Some(key(Some("P1"), "stale"))),
        Err(KeyError::NotPublished)
    );
}

#[test]
fn later_token_registration_supersedes_earlier() {
    let mut tokens = TokenRegistry::new();
    register(&mut tokens, "agentA", "p1", "t1");
    register(&mut tokens, "agentA", "p2", "t2");
    let current = tokens.get_fcm_token_for_agent(&"agentA".to_string()).unwrap();
    assert_eq!(current.fcm_project_id, "p2");
    assert_eq!(current.token, "t2");
}

#[test]
fn identical_token_registration_changes_nothing() {
    let mut tokens = TokenRegistry::new();
    register(&mut tokens, "agentA", "p1", "myfcmtoken");
    register(&mut tokens, "agentA", "p1", "myfcmtoken");
    let current = tokens.get_fcm_token_for_agent(&"agentA".to_string()).unwrap();
    assert_eq!(current.token, "myfcmtoken");
}

#[test]
fn tokens_of_other_agents_stay() {
    let mut tokens = TokenRegistry::new();
    register(&mut tokens, "agentA", "p1", "ta");
    register(&mut tokens, "agentB", "p1", "tb");
    register(&mut tokens, "agentA", "p1", "ta2");
    assert_eq!(tokens.get_fcm_token_for_agent(&"agentB".to_string()).unwrap().token, "tb");
    assert_eq!(tokens.get_fcm_token_for_agent(&"agentA".to_string()).unwrap().token, "ta2");
    assert!(tokens.get_fcm_token_for_agent(&"agentC".to_string()).is_none());
}

#[test]
fn publish_only_when_changed() {
    let k = key(Some("A"), "ka");
    assert!(should_publish(&None, &k));
    assert!(!should_publish(&Some(k.duplicate()), &k));
    assert!(should_publish(&Some(key(Some("A"), "old")), &k));
}

#[test]
fn project_of_a_key() {
    assert_eq!(project_of_key(&key(Some("P1"), "k")), Some("P1".to_string()));
    assert_eq!(project_of_key(&key(Some(""), "k")), None);
    assert_eq!(project_of_key(&key(None, "k")), None);
}

#[test]
fn deleting_a_project_keeps_other_projects() {
    let mut keys = ServiceAccountKeyRegistry::new();
    keys.publish(key(Some("A"), "ka")).unwrap();
    keys.publish(key(Some("B"), "kb")).unwrap();
    keys.delete_project(&"B".to_string());
    assert_eq!(keys.get_current(&"A".to_string()).unwrap().private_key, "ka");
}
