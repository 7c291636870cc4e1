use push_notifications_service::clone_service_request::{CloneServiceRequest, CloneServiceRequests};
use push_notifications_service::provider::PassGate;
use push_notifications_service::reconcile::{
    installed_request, plan_reconciliation, plan_supported_seeds, LocalShard, ReconcilePass, ShardAction,
};

fn request(seed: &str) -> CloneServiceRequest {
    CloneServiceRequest {
        network_seed: seed.to_string(),
        properties: vec![1, 2, 3],
        origin_time: 1_700_000_000_000_000,
        quantum_time: 300_000_000,
    }
}

fn shard(seed: &str, id: &str, enabled: bool) -> LocalShard {
    LocalShard { request: request(seed), clone_id: id.to_string(), enabled, cloned: true }
}

/// Runs a pass to its end; `fail` names the seeds whose creation fails.
fn run_pass(wanted: &Vec<CloneServiceRequest>, existing: Vec<LocalShard>, fail: &[&str], next_id: &mut u32) -> ReconcilePass {
    let mut pass = ReconcilePass::reconcile(wanted, existing);
    while let Some(action) = pass.next_action() {
        let result = match action {
            ShardAction::Create(r) if fail.contains(&r.network_seed.as_str()) => Err(format!("cannot clone {}", r.network_seed)),
            ShardAction::Create(_) => {
                *next_id += 1;
                Ok(format!("services.{next_id}"))
            }
            ShardAction::Enable(id) | ShardAction::Disable(id) => Ok(id.clone()),
        };
        pass.report(result);
    }
    assert!(pass.is_finished());
    pass
}

fn copies(shards: &Vec<LocalShard>) -> Vec<LocalShard> {
    shards.iter().map(|s| s.duplicate()).collect()
}

fn count_enabled(shards: &Vec<LocalShard>, seed: &str) -> usize {
    shards.iter().filter(|s| s.request.network_seed == seed && s.enabled).count()
}

#[test]
fn ledger_appends_and_lists() {
    let mut ledger = CloneServiceRequests::new();
    assert_eq!(ledger.create_clone_service_request(request("s1")), 0);
    assert_eq!(ledger.create_clone_service_request(request("s2")), 1);
    assert_eq!(ledger.create_clone_service_request(request("s1")), 2);
    let all = ledger.get_all_clone_service_requests();
    assert_eq!(all.len(), 3);
    assert_eq!(all[1], request("s2"));
    assert_eq!(ledger.get_clone_service_request(2), Some(request("s1")));
    assert_eq!(ledger.get_clone_service_request(3), None);
}

#[test]
fn two_requests_converge_to_one_enabled_shard_each() {
    let wanted = vec![request("r1"), request("r2")];
    let mut ids = 0;
    let pass = run_pass(&wanted, vec![], &[], &mut ids);
    let shards = pass.shards();
    assert_eq!(shards.len(), 2);
    assert_eq!(count_enabled(shards, "r1"), 1);
    assert_eq!(count_enabled(shards, "r2"), 1);
    assert!(pass.errors().is_empty());
}

#[test]
fn convergence_does_not_depend_on_listing_order() {
    let mut ids = 0;
    let first = run_pass(&vec![request("r2"), request("r1")], vec![], &[], &mut ids);
    let again = plan_reconciliation(&vec![request("r1"), request("r2")], first.shards());
    assert!(again.is_empty());
    assert_eq!(count_enabled(first.shards(), "r1"), 1);
    assert_eq!(count_enabled(first.shards(), "r2"), 1);
}

#[test]
fn second_pass_adds_nothing() {
    let wanted = vec![request("r1"), request("r2")];
    let mut ids = 0;
    let first = run_pass(&wanted, vec![], &[], &mut ids);
    let second = run_pass(&wanted, copies(first.shards()), &[], &mut ids);
    assert_eq!(second.shards().len(), 2);
    assert!(second.errors().is_empty());
    assert_eq!(ids, 2);
}

#[test]
fn failed_creation_does_not_stop_the_pass() {
    let wanted = vec![request("r1"), request("r2")];
    let mut ids = 0;
    let first = run_pass(&wanted, vec![], &["r1"], &mut ids);
    assert_eq!(count_enabled(first.shards(), "r1"), 0);
    assert_eq!(count_enabled(first.shards(), "r2"), 1);
    assert_eq!(first.errors(), &vec!["cannot clone r1".to_string()]);
    let second = run_pass(&wanted, copies(first.shards()), &[], &mut ids);
    assert_eq!(count_enabled(second.shards(), "r1"), 1);
    assert_eq!(count_enabled(second.shards(), "r2"), 1);
    assert_eq!(second.shards().len(), 2);
}

#[test]
fn duplicate_requests_get_one_shard() {
    let wanted = vec![request("r1"), request("r1")];
    let plan = plan_reconciliation(&wanted, &vec![]);
    assert_eq!(plan.len(), 1);
    assert!(matches!(&plan[0], ShardAction::Create(r) if *r == request("r1")));
}

#[test]
fn disabled_shard_of_wanted_request_is_enabled() {
    let wanted = vec![request("r1")];
    let existing = vec![shard("r1", "services.0", false), shard("other", "services.1", false)];
    let plan = plan_reconciliation(&wanted, &existing);
    assert_eq!(plan.len(), 1);
    assert!(matches!(&plan[0], ShardAction::Enable(id) if id == "services.0"));
}

#[test]
fn request_with_other_properties_is_another_request() {
    let mut other = request("r1");
    other.properties = vec![9];
    let plan = plan_reconciliation(&vec![other], &vec![shard("r1", "services.0", true)]);
    assert_eq!(plan.len(), 1);
}

#[test]
fn supported_seeds_enable_create_and_disable() {
    let seeds = vec!["a".to_string(), "b".to_string(), "a".to_string()];
    let existing = vec![shard("a", "services.0", false), shard("c", "services.1", true), shard("d", "services.2", false)];
    let plan = plan_supported_seeds(&seeds, &existing, &request("base"));
    assert_eq!(plan.len(), 3);
    assert!(matches!(&plan[0], ShardAction::Enable(id) if id == "services.0"));
    assert!(matches!(&plan[1], ShardAction::Create(r) if r.network_seed == "b" && r.properties == vec![1, 2, 3]));
    assert!(matches!(&plan[2], ShardAction::Disable(id) if id == "services.1"));
}

#[test]
fn supported_seeds_ignore_the_installed_shard() {
    let seeds = vec!["a".to_string()];
    let mut installed = shard("a", "services", true);
    installed.cloned = false;
    let plan = plan_supported_seeds(&seeds, &vec![installed], &request("base"));
    assert_eq!(plan.len(), 1);
    assert!(matches!(&plan[0], ShardAction::Create(r) if r.network_seed == "a"));
}

#[test]
fn disable_step_applies_to_the_shard() {
    let existing = vec![shard("c", "services.1", true)];
    let plan = plan_supported_seeds(&vec![], &existing, &request("base"));
    let mut pass = ReconcilePass::new(copies(&existing), plan);
    pass.report(Ok("services.1".to_string()));
    assert!(pass.is_finished());
    assert!(!pass.shards()[0].enabled);
}

#[test]
fn wake_during_a_pass_is_absorbed() {
    let mut gate = PassGate::new();
    assert!(gate.wake());
    assert!(!gate.wake());
    gate.finish();
    assert!(gate.wake());
}

#[test]
fn installed_shard_gives_the_template() {
    let mut installed = shard("throwaway", "service_providers", true);
    installed.cloned = false;
    installed.request.quantum_time = 42;
    let existing = vec![shard("a", "services.0", true), installed];
    let template = installed_request(&existing).unwrap();
    assert_eq!(template.network_seed, "throwaway");
    assert_eq!(template.quantum_time, 42);
    assert!(installed_request(&vec![shard("a", "services.0", true)]).is_none());
}

#[test]
fn supported_seeds_pass_leaves_only_supported_enabled() {
    let seeds = vec!["a".to_string(), "b".to_string()];
    let existing = vec![shard("a", "services.0", false), shard("c", "services.1", true)];
    let plan = plan_supported_seeds(&seeds, &existing, &request("base"));
    let mut pass = ReconcilePass::new(copies(&existing), plan);
    while let Some(action) = pass.next_action() {
        let result = match action {
            ShardAction::Create(_) => Ok("services.2".to_string()),
            ShardAction::Enable(id) | ShardAction::Disable(id) => Ok(id.clone()),
        };
        pass.report(result);
    }
    assert_eq!(count_enabled(pass.shards(), "a"), 1);
    assert_eq!(count_enabled(pass.shards(), "b"), 1);
    assert_eq!(count_enabled(pass.shards(), "c"), 0);
}

#[test]
fn listing_order_gives_the_same_shards() {
    let mut ids = 0;
    let existing = vec![shard("r1", "services.0", false)];
    let a = run_pass(&vec![request("r1"), request("r2"), request("r3")], copies(&existing), &[], &mut ids);
    let b = run_pass(&vec![request("r3"), request("r1"), request("r2")], copies(&existing), &[], &mut ids);
    let mut sa: Vec<(String, bool)> = a.shards().iter().map(|s| (s.request.network_seed.clone(), s.enabled)).collect();
    let mut sb: Vec<(String, bool)> = b.shards().iter().map(|s| (s.request.network_seed.clone(), s.enabled)).collect();
    sa.sort();
    sb.sort();
    assert_eq!(sa, sb);
    assert_eq!(sa.len(), 3);
}
