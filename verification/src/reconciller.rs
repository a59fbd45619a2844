use vstd::prelude::*;

use crate::apply::apply_plan;
use crate::error::AppError;
use crate::policy::NextAction;
use crate::records::{
    DesiredDnsRecord, DesiredModel, ObservedDnsRecord, host_count, ids_unique, names_model,
    zone_model,
};
use crate::resource::ObservedResource;
use crate::sync::{
    DnsAction, actions_model, desired_hosts, desired_model, plan_sync, plan_teardown, sync_plan,
    teardown_plan, unambiguous,
};
use crate::utils::{KubernetesContext, OperatorActivities};

verus! {

/// What one reconciliation pass has decided to do, in the order the parts
/// must be carried out: ensure the protection marker first, then apply the
/// DNS mutations, and only after every one of them succeeded remove the
/// marker; `next` schedules the pass after this one.
#[derive(Debug, Clone)]
pub struct ReconcilePlan {
    /// Apply the protection marker before any DNS mutation is attempted.
    pub add_marker: bool,
    /// Provider mutations, to be applied in order.
    pub dns_actions: Vec<DnsAction>,
    /// Remove the protection marker — only once every DNS action succeeded.
    pub remove_marker: bool,
    /// What to do once the pass has completed successfully.
    pub next: NextAction,
}

/// The intent an observed snapshot classifies to, in priority order:
/// requested deletion wins, an unprotected resource must first be set up,
/// anything else is a periodic update.
pub open spec fn spec_determine_activity(
    deletion_requested: bool,
    has_marker: bool,
    update_seconds: u64,
) -> OperatorActivities {
    if deletion_requested {
        OperatorActivities::Delete
    } else if !has_marker {
        OperatorActivities::Create
    } else {
        OperatorActivities::Update(update_seconds)
    }
}

/// Classify the observed snapshot. A pure function of the current state
/// alone, so re-delivering an unchanged observation yields the same intent.
pub fn determine_activity(resource: &ObservedResource, update_seconds: u64) -> (a:
    OperatorActivities)
    ensures
        a == spec_determine_activity(
            resource.deletion_requested,
            resource.has_marker,
            update_seconds,
        ),
{
    if resource.deletion_requested {
        OperatorActivities::Delete
    } else if !resource.has_marker {
        OperatorActivities::Create
    } else {
        OperatorActivities::Update(update_seconds)
    }
}

/// Every declared hostname resolving to the one assigned address.
pub open spec fn spec_desired_records(
    hostnames: Seq<Seq<char>>,
    address: Seq<char>,
) -> Seq<DesiredModel> {
    hostnames.map(|i: int, h: Seq<char>| DesiredModel { hostname: h, content: address })
}

/// The desired DNS state a snapshot derives to; empty when no address is
/// assigned (which only a hostname-less snapshot turns into success).
pub open spec fn spec_resource_desired(r: ObservedResource) -> Seq<DesiredModel> {
    match r.assigned_address {
        Some(a) => spec_desired_records(names_model(r.hostnames@), a@),
        None => Seq::empty(),
    }
}

/// Derive the desired records: each declared hostname paired with the
/// assigned address. Declared hostnames without an assigned address fail
/// with `MissingAddress` — synchronization must not proceed on an empty
/// target; with nothing declared there is nothing to synchronize, address or
/// not.
pub fn desired_state(resource: &ObservedResource) -> (r: Result<Vec<DesiredDnsRecord>, AppError>)
    ensures
        r is Ok <==> (resource.hostnames@.len() == 0 || resource.assigned_address is Some),
        r is Err ==> r->Err_0 is MissingAddress,
        r is Ok ==> desired_model(r->Ok_0@) == spec_resource_desired(*resource),
{
    if resource.hostnames.len() == 0 {
        let out: Vec<DesiredDnsRecord> = Vec::new();
        proof {
            assert(desired_model(out@) =~= spec_resource_desired(*resource));
        }
        return Ok(out);
    }
    match &resource.assigned_address {
        None => Err(AppError::MissingAddress),
        Some(addr) => {
            let ghost hm = names_model(resource.hostnames@);
            let ghost want = spec_desired_records(hm, addr@);
            let mut out: Vec<DesiredDnsRecord> = Vec::new();
            let mut k: usize = 0;
            while k < resource.hostnames.len()
                invariant
                    k <= resource.hostnames@.len(),
                    hm == names_model(resource.hostnames@),
                    addr@ == resource.assigned_address->0@,
                    want == spec_desired_records(hm, addr@),
                    desired_model(out@) =~= want.take(k as int),
                decreases resource.hostnames@.len() - k,
            {
                let d = DesiredDnsRecord {
                    hostname: resource.hostnames[k].clone(),
                    content: addr.clone(),
                };
                proof {
                    assert(d.hostname@ == hm[k as int]);
                    assert(d@ == want[k as int]);
                    assert(desired_model(out@.push(d)) =~= desired_model(out@).push(d@));
                    assert(want.take(k as int + 1) =~= want.take(k as int).push(want[k as int]));
                    assert(desired_model(out@.push(d)) =~= want.take(k as int + 1));
                }
                out.push(d);
                k = k + 1;
            }
            proof {
                assert(want.take(resource.hostnames@.len() as int) =~= want);
                assert(desired_model(out@) =~= spec_resource_desired(*resource));
            }
            Ok(out)
        },
    }
}

/// One reconciliation pass, planned from plain observations: classify the
/// intent from the snapshot, then plan the marker handling and the DNS
/// mutations the intent calls for. The caller carries the plan out in its
/// stated order and reports failures through the error policy; re-running
/// the pass on the resulting state plans nothing further.
pub fn reconciler(
    resource: &ObservedResource,
    zone: &Vec<ObservedDnsRecord>,
    context: &KubernetesContext,
) -> (r: Result<ReconcilePlan, AppError>)
    ensures
        resource.deletion_requested ==> (match r {
            Ok(p) => {
                &&& unambiguous(zone_model(zone@), names_model(resource.hostnames@))
                &&& actions_model(p.dns_actions@) == teardown_plan(
                    zone_model(zone@),
                    names_model(resource.hostnames@),
                )
                &&& !p.add_marker
                &&& p.remove_marker
                &&& p.next == NextAction::AwaitChange
            },
            Err(e) => e is AmbiguousRecord && !unambiguous(
                zone_model(zone@),
                names_model(resource.hostnames@),
            ),
        }),
        !resource.deletion_requested ==> (match r {
            Ok(p) => {
                &&& resource.hostnames@.len() == 0 || resource.assigned_address is Some
                &&& unambiguous(
                    zone_model(zone@),
                    desired_hosts(spec_resource_desired(*resource)),
                )
                &&& actions_model(p.dns_actions@) == sync_plan(
                    zone_model(zone@),
                    spec_resource_desired(*resource),
                )
                &&& p.add_marker == !resource.has_marker
                &&& !p.remove_marker
                &&& p.next == NextAction::Requeue(context.update_seconds)
            },
            Err(e) => {
                ||| (e is MissingAddress && resource.hostnames@.len() > 0
                    && resource.assigned_address is None)
                ||| (e is AmbiguousRecord && (resource.hostnames@.len() == 0
                    || resource.assigned_address is Some) && !unambiguous(
                    zone_model(zone@),
                    desired_hosts(spec_resource_desired(*resource)),
                ))
            },
        }),
{
    let activity = determine_activity(resource, context.update_seconds);
    match activity {
        OperatorActivities::Delete => {
            match plan_teardown(zone, &resource.hostnames) {
                Ok(actions) => Ok(
                    ReconcilePlan {
                        add_marker: false,
                        dns_actions: actions,
                        remove_marker: true,
                        next: NextAction::AwaitChange,
                    },
                ),
                Err(e) => Err(e),
            }
        },
        OperatorActivities::Create | OperatorActivities::Update(_) => {
            let desired = match desired_state(resource) {
                Ok(d) => d,
                Err(e) => {
                    return Err(e);
                },
            };
            match plan_sync(zone, &desired) {
                Ok(actions) => Ok(
                    ReconcilePlan {
                        add_marker: !resource.has_marker,
                        dns_actions: actions,
                        remove_marker: false,
                        next: NextAction::Requeue(context.update_seconds),
                    },
                ),
                Err(e) => Err(e),
            }
        },
    }
}

/// A well-formed snapshot derives a desired state whose hostnames are
/// pairwise distinct — the shape under which the synchronizer laws apply to
/// every plan this module produces.
pub proof fn lemma_resource_desired_distinct(resource: ObservedResource)
    requires
        resource.wf(),
    ensures
        crate::apply::hosts_distinct(spec_resource_desired(resource)),
{
    let desired = spec_resource_desired(resource);
    assert forall|i: int, j: int|
        0 <= i < j < desired.len() implies desired[i].hostname != desired[j].hostname by {
        assert(desired[i].hostname == names_model(resource.hostnames@)[i]);
        assert(desired[j].hostname == names_model(resource.hostnames@)[j]);
    }
}

/// Law (ordering safety): a plan that removes the protection marker carries
/// the full teardown for the object's hostnames, and applying those actions
/// — whatever ids the provider reports — leaves no record for any of them.
/// Since the pass removes the marker only after every planned action
/// succeeded, the marker is never removed while a DNS record for the object
/// still exists.
pub proof fn lemma_marker_removal_safe(
    resource: ObservedResource,
    zone: Seq<ObservedDnsRecord>,
    plan: ReconcilePlan,
    ids: Seq<Seq<char>>,
)
    requires
        ids_unique(zone_model(zone)),
        plan.remove_marker,
        actions_model(plan.dns_actions@) == teardown_plan(
            zone_model(zone),
            names_model(resource.hostnames@),
        ),
        unambiguous(zone_model(zone), names_model(resource.hostnames@)),
        ids.len() >= plan.dns_actions@.len(),
    ensures
        forall|j: int|
            0 <= j < resource.hostnames@.len() ==> host_count(
                apply_plan(zone_model(zone), actions_model(plan.dns_actions@), ids),
                #[trigger] names_model(resource.hostnames@)[j],
            ) == 0,
{
    crate::apply::lemma_teardown_clears_hosts(
        zone_model(zone),
        names_model(resource.hostnames@),
        ids,
    );
}

} // verus!
