use brave_proton::error::AppError;
use brave_proton::policy::NextAction;
use brave_proton::reconciller::{desired_state, reconciler};
use brave_proton::records::{DesiredDnsRecord, ObservedDnsRecord};
use brave_proton::resource::ObservedResource;
use brave_proton::utils::KubernetesContext;
use brave_proton::sync::{count_matches, plan_sync, plan_teardown, DnsAction};

fn record(id: &str, hostname: &str, content: &str) -> ObservedDnsRecord {
    ObservedDnsRecord {
        id: id.to_string(),
        hostname: hostname.to_string(),
        content: content.to_string(),
        ttl: 1,
        proxied: false,
    }
}

fn web(deletion_requested: bool, has_marker: bool, address: Option<&str>) -> ObservedResource {
    ObservedResource {
        namespace: "default".to_string(),
        name: "web".to_string(),
        deletion_requested,
        has_marker,
        hostnames: vec!["a.example.com".to_string()],
        assigned_address: address.map(|a| a.to_string()),
    }
}

#[test]
fn scenario_fresh_resource_creates_record_and_marker() {
    let resource = web(false, false, Some("10.0.0.5"));
    let zone: Vec<ObservedDnsRecord> = Vec::new();
    let plan = reconciler(&resource, &zone, &KubernetesContext { update_seconds: 1800 }).unwrap();
    assert!(plan.add_marker);
    assert!(!plan.remove_marker);
    assert_eq!(
        plan.dns_actions,
        vec![DnsAction::Create {
            hostname: "a.example.com".to_string(),
            content: "10.0.0.5".to_string(),
        }]
    );
    assert_eq!(plan.next, NextAction::Requeue(1800));
}

#[test]
fn scenario_new_address_updates_in_place() {
    let resource = web(false, true, Some("10.0.0.9"));
    let zone = vec![record("r1", "a.example.com", "10.0.0.5")];
    let plan = reconciler(&resource, &zone, &KubernetesContext { update_seconds: 1800 }).unwrap();
    assert!(!plan.add_marker);
    assert!(!plan.remove_marker);
    assert_eq!(
        plan.dns_actions,
        vec![DnsAction::Update {
            id: "r1".to_string(),
            hostname: "a.example.com".to_string(),
            content: "10.0.0.9".to_string(),
        }]
    );
    assert_eq!(plan.next, NextAction::Requeue(1800));
}

#[test]
fn scenario_deletion_tears_down_then_releases_marker() {
    let resource = web(true, true, Some("10.0.0.9"));
    let zone = vec![record("r1", "a.example.com", "10.0.0.9")];
    let plan = reconciler(&resource, &zone, &KubernetesContext { update_seconds: 1800 }).unwrap();
    assert!(!plan.add_marker);
    assert!(plan.remove_marker);
    assert_eq!(
        plan.dns_actions,
        vec![DnsAction::Delete {
            id: "r1".to_string(),
            hostname: "a.example.com".to_string(),
        }]
    );
    assert_eq!(plan.next, NextAction::AwaitChange);

    // once the record is gone, a re-delivered deletion event plans nothing
    let emptied: Vec<ObservedDnsRecord> = Vec::new();
    let again = reconciler(&resource, &emptied, &KubernetesContext { update_seconds: 1800 }).unwrap();
    assert!(again.dns_actions.is_empty());
    assert_eq!(again.next, NextAction::AwaitChange);
}

#[test]
fn scenario_duplicate_records_fail_without_mutation() {
    let resource = web(false, true, Some("10.0.0.5"));
    let zone = vec![
        record("r1", "a.example.com", "10.0.0.5"),
        record("r2", "a.example.com", "10.0.0.7"),
    ];
    let err = reconciler(&resource, &zone, &KubernetesContext { update_seconds: 1800 }).unwrap_err();
    assert_eq!(err, AppError::AmbiguousRecord("a.example.com".to_string()));
    // planning is pure: the listed zone is exactly as it was
    assert_eq!(zone.len(), 2);
    assert_eq!(zone[0], record("r1", "a.example.com", "10.0.0.5"));
    assert_eq!(zone[1], record("r2", "a.example.com", "10.0.0.7"));
}

#[test]
fn reconcile_is_idempotent_once_zone_matches() {
    let resource = web(false, true, Some("10.0.0.5"));
    let zone: Vec<ObservedDnsRecord> = Vec::new();
    let plan = reconciler(&resource, &zone, &KubernetesContext { update_seconds: 1800 }).unwrap();
    assert_eq!(plan.dns_actions.len(), 1);

    // carry the plan out by hand: the provider assigns a fresh id
    let after = vec![record("fresh-1", "a.example.com", "10.0.0.5")];
    let second = reconciler(&resource, &after, &KubernetesContext { update_seconds: 1800 }).unwrap();
    assert!(second.dns_actions.is_empty());
}

#[test]
fn reconcile_keeps_one_record_per_hostname() {
    let resource = web(false, true, Some("10.0.0.5"));
    let zone = vec![record("r1", "a.example.com", "10.0.0.5")];
    let plan = reconciler(&resource, &zone, &KubernetesContext { update_seconds: 1800 }).unwrap();
    assert!(plan.dns_actions.is_empty());
    assert_eq!(count_matches(&zone, &"a.example.com".to_string()), 1);
}

#[test]
fn out_of_band_drift_is_healed_on_resync() {
    let resource = web(false, true, Some("10.0.0.5"));
    let drifted = vec![record("r1", "a.example.com", "10.9.9.9")];
    let plan = reconciler(&resource, &drifted, &KubernetesContext { update_seconds: 1800 }).unwrap();
    assert_eq!(
        plan.dns_actions,
        vec![DnsAction::Update {
            id: "r1".to_string(),
            hostname: "a.example.com".to_string(),
            content: "10.0.0.5".to_string(),
        }]
    );
    // after the update is applied the zone matches and nothing more is planned
    let healed = vec![record("r1", "a.example.com", "10.0.0.5")];
    let again = reconciler(&resource, &healed, &KubernetesContext { update_seconds: 1800 }).unwrap();
    assert!(again.dns_actions.is_empty());
}

#[test]
fn missing_address_is_reported_before_any_dns_work() {
    let resource = web(false, false, None);
    let zone: Vec<ObservedDnsRecord> = Vec::new();
    let err = reconciler(&resource, &zone, &KubernetesContext { update_seconds: 1800 }).unwrap_err();
    assert_eq!(err, AppError::MissingAddress);
}

#[test]
fn no_hostnames_is_success_even_without_address() {
    let mut resource = web(false, true, None);
    resource.hostnames.clear();
    let zone: Vec<ObservedDnsRecord> = Vec::new();
    let plan = reconciler(&resource, &zone, &KubernetesContext { update_seconds: 1800 }).unwrap();
    assert!(plan.dns_actions.is_empty());
    assert_eq!(plan.next, NextAction::Requeue(1800));
}

#[test]
fn desired_state_pairs_every_hostname_with_the_address() {
    let mut resource = web(false, true, Some("10.0.0.5"));
    resource.hostnames.push("b.example.com".to_string());
    let desired = desired_state(&resource).unwrap();
    assert_eq!(
        desired,
        vec![
            DesiredDnsRecord {
                hostname: "a.example.com".to_string(),
                content: "10.0.0.5".to_string(),
            },
            DesiredDnsRecord {
                hostname: "b.example.com".to_string(),
                content: "10.0.0.5".to_string(),
            },
        ]
    );
}

#[test]
fn plan_sync_mixes_create_update_and_nothing() {
    let zone = vec![
        record("r1", "a.example.com", "10.0.0.5"),
        record("r2", "b.example.com", "10.9.9.9"),
        record("r3", "unrelated.example.org", "192.0.2.1"),
    ];
    let desired = vec![
        DesiredDnsRecord {
            hostname: "a.example.com".to_string(),
            content: "10.0.0.5".to_string(),
        },
        DesiredDnsRecord {
            hostname: "b.example.com".to_string(),
            content: "10.0.0.5".to_string(),
        },
        DesiredDnsRecord {
            hostname: "c.example.com".to_string(),
            content: "10.0.0.5".to_string(),
        },
    ];
    let actions = plan_sync(&zone, &desired).unwrap();
    assert_eq!(
        actions,
        vec![
            DnsAction::Update {
                id: "r2".to_string(),
                hostname: "b.example.com".to_string(),
                content: "10.0.0.5".to_string(),
            },
            DnsAction::Create {
                hostname: "c.example.com".to_string(),
                content: "10.0.0.5".to_string(),
            },
        ]
    );
}

#[test]
fn teardown_deletes_present_and_skips_absent() {
    let zone = vec![record("r1", "a.example.com", "10.0.0.5")];
    let hostnames = vec!["a.example.com".to_string(), "b.example.com".to_string()];
    let actions = plan_teardown(&zone, &hostnames).unwrap();
    assert_eq!(
        actions,
        vec![DnsAction::Delete {
            id: "r1".to_string(),
            hostname: "a.example.com".to_string(),
        }]
    );
    // deleting what is already absent succeeds with nothing to do
    let empty: Vec<ObservedDnsRecord> = Vec::new();
    assert!(plan_teardown(&empty, &hostnames).unwrap().is_empty());
}

#[test]
fn teardown_refuses_ambiguous_hostnames() {
    let zone = vec![
        record("r1", "a.example.com", "10.0.0.5"),
        record("r2", "a.example.com", "10.0.0.7"),
    ];
    let hostnames = vec!["a.example.com".to_string()];
    let err = plan_teardown(&zone, &hostnames).unwrap_err();
    assert_eq!(err, AppError::AmbiguousRecord("a.example.com".to_string()));
}
