use brave_proton::clouddns::{
    create_client, create_cloudflare_client, get_cloud_record, get_record, has_record,
};
use brave_proton::error::AppError;
use brave_proton::finalizer::{add_marker, finalizer_name, marker_present, remove_marker};
use brave_proton::policy::{
    error_policy, NextAction, DEFAULT_BACKOFF_SECONDS, MISSING_ADDRESS_RETRY_SECONDS,
};
use brave_proton::reconciller::determine_activity;
use brave_proton::records::ObservedDnsRecord;
use brave_proton::resource::{pick_address, AddressCandidate, ObservedResource};
use brave_proton::utils::OperatorActivities;

fn record(id: &str, hostname: &str, content: &str) -> ObservedDnsRecord {
    ObservedDnsRecord {
        id: id.to_string(),
        hostname: hostname.to_string(),
        content: content.to_string(),
        ttl: 1,
        proxied: false,
    }
}

fn snapshot(deletion_requested: bool, has_marker: bool) -> ObservedResource {
    ObservedResource {
        namespace: "default".to_string(),
        name: "web".to_string(),
        deletion_requested,
        has_marker,
        hostnames: vec!["a.example.com".to_string()],
        assigned_address: Some("10.0.0.5".to_string()),
    }
}

#[test]
fn classification_follows_priority_order() {
    assert_eq!(
        determine_activity(&snapshot(true, true), 1800),
        OperatorActivities::Delete
    );
    assert_eq!(
        determine_activity(&snapshot(true, false), 1800),
        OperatorActivities::Delete
    );
    assert_eq!(
        determine_activity(&snapshot(false, false), 1800),
        OperatorActivities::Create
    );
    assert_eq!(
        determine_activity(&snapshot(false, true), 1800),
        OperatorActivities::Update(1800)
    );
}

#[test]
fn classification_ignores_hostnames_and_address() {
    let mut bare = snapshot(false, false);
    bare.hostnames.clear();
    bare.assigned_address = None;
    assert_eq!(determine_activity(&bare, 60), OperatorActivities::Create);
}

#[test]
fn error_policy_gives_missing_address_a_short_retry() {
    assert_eq!(
        error_policy(&AppError::MissingAddress),
        NextAction::RetryBackoff(MISSING_ADDRESS_RETRY_SECONDS)
    );
}

#[test]
fn error_policy_backs_off_on_everything_else() {
    let errors = [
        AppError::ResourceStore("conflict".to_string()),
        AppError::DnsTransient("timeout".to_string()),
        AppError::DnsValidation("bad content".to_string()),
        AppError::AmbiguousRecord("a.example.com".to_string()),
        AppError::MalformedResource("no namespace".to_string()),
    ];
    for e in errors {
        assert_eq!(
            error_policy(&e),
            NextAction::RetryBackoff(DEFAULT_BACKOFF_SECONDS)
        );
    }
}

#[test]
fn transience_classification_matches_the_taxonomy() {
    assert!(AppError::ResourceStore("x".to_string()).is_transient());
    assert!(AppError::DnsTransient("x".to_string()).is_transient());
    assert!(AppError::MissingAddress.is_transient());
    assert!(!AppError::DnsValidation("x".to_string()).is_transient());
    assert!(!AppError::AmbiguousRecord("x".to_string()).is_transient());
    assert!(!AppError::MalformedResource("x".to_string()).is_transient());
}

#[test]
fn adding_the_marker_is_idempotent() {
    let once = add_marker(&Vec::new());
    assert_eq!(once, vec![finalizer_name()]);
    let twice = add_marker(&once);
    assert_eq!(twice, once);
    assert!(marker_present(&twice));
}

#[test]
fn adding_the_marker_keeps_foreign_finalizers() {
    let fins = vec!["other.io/finalizer".to_string()];
    let out = add_marker(&fins);
    assert_eq!(out, vec!["other.io/finalizer".to_string(), finalizer_name()]);
}

#[test]
fn removing_the_marker_is_idempotent_and_keeps_others() {
    let fins = vec![
        "other.io/finalizer".to_string(),
        finalizer_name(),
        "another.io/cleanup".to_string(),
    ];
    let once = remove_marker(&fins);
    assert_eq!(
        once,
        vec![
            "other.io/finalizer".to_string(),
            "another.io/cleanup".to_string(),
        ]
    );
    assert!(!marker_present(&once));
    let twice = remove_marker(&once);
    assert_eq!(twice, once);
}

#[test]
fn observation_without_namespace_is_malformed() {
    let err = ObservedResource::from_observation(
        None,
        "web".to_string(),
        false,
        false,
        vec!["a.example.com".to_string()],
        None,
    )
    .unwrap_err();
    assert!(matches!(err, AppError::MalformedResource(_)));
}

#[test]
fn observation_collapses_repeated_hostnames() {
    let resource = ObservedResource::from_observation(
        Some("default".to_string()),
        "web".to_string(),
        false,
        true,
        vec![
            "a.example.com".to_string(),
            "b.example.com".to_string(),
            "a.example.com".to_string(),
        ],
        Some("10.0.0.5".to_string()),
    )
    .unwrap();
    assert_eq!(
        resource.hostnames,
        vec!["a.example.com".to_string(), "b.example.com".to_string()]
    );
    assert_eq!(resource.namespace, "default".to_string());
    assert!(resource.has_marker);
}

#[test]
fn address_prefers_ip_over_hostname() {
    let candidates = vec![AddressCandidate {
        ip: Some("10.0.0.5".to_string()),
        hostname: Some("lb.example.net".to_string()),
    }];
    assert_eq!(
        pick_address(&candidates).unwrap(),
        Some("10.0.0.5".to_string())
    );
}

#[test]
fn address_falls_back_to_hostname() {
    let candidates = vec![AddressCandidate {
        ip: None,
        hostname: Some("lb.example.net".to_string()),
    }];
    assert_eq!(
        pick_address(&candidates).unwrap(),
        Some("lb.example.net".to_string())
    );
}

#[test]
fn address_is_absent_without_entries() {
    assert_eq!(pick_address(&Vec::new()).unwrap(), None);
}

#[test]
fn empty_balancer_entry_is_malformed() {
    let candidates = vec![
        AddressCandidate {
            ip: Some("10.0.0.5".to_string()),
            hostname: None,
        },
        AddressCandidate {
            ip: None,
            hostname: None,
        },
    ];
    let err = pick_address(&candidates).unwrap_err();
    assert!(matches!(err, AppError::MalformedResource(_)));
}

#[test]
fn record_queries_answer_from_the_listing() {
    let zone = vec![
        record("r1", "a.example.com", "10.0.0.5"),
        record("r2", "b.example.com", "10.0.0.6"),
        record("r3", "b.example.com", "10.0.0.7"),
    ];
    assert!(has_record(&zone, &"a.example.com".to_string()));
    assert!(!has_record(&zone, &"b.example.com".to_string()));
    assert!(!has_record(&zone, &"c.example.com".to_string()));
    assert_eq!(
        get_record(&zone, &"a.example.com".to_string()),
        Some("r1".to_string())
    );
    assert_eq!(get_record(&zone, &"c.example.com".to_string()), None);
    assert_eq!(
        get_cloud_record(&zone, &"b.example.com".to_string()),
        Some("r2".to_string())
    );
}

#[test]
fn client_handles_carry_the_token() {
    let c = create_client("token-for-tests").unwrap();
    assert_eq!(c.api_token, "token-for-tests".to_string());
    let c2 = create_cloudflare_client("token-for-tests").unwrap();
    assert_eq!(c2.api_token, "token-for-tests".to_string());
}
