use vstd::prelude::*;

use crate::error::AppError;
use crate::records::{
    names_model,
    DesiredDnsRecord, DesiredModel, ObservedDnsRecord, RecordModel, first_match, host_count,
    lemma_first_match_at, lemma_host_count_take_all, lemma_host_count_take_step,
    lemma_host_count_zero, zone_model,
};

verus! {

/// One provider mutation the synchronizer has decided on. A reconciliation
/// pass first plans, then applies; a pass that fails to plan applies nothing.
#[derive(Debug, Clone, PartialEq, Eq)]
pub enum DnsAction {
    /// Create an A record for a hostname that has none.
    Create { hostname: String, content: String },
    /// Rewrite the content of the single existing record for the hostname.
    Update { id: String, hostname: String, content: String },
    /// Delete the single existing record for the hostname.
    Delete { id: String, hostname: String },
}

/// Ghost image of a planned mutation.
pub enum ActionModel {
    Create { hostname: Seq<char>, content: Seq<char> },
    Update { id: Seq<char>, hostname: Seq<char>, content: Seq<char> },
    Delete { id: Seq<char>, hostname: Seq<char> },
}

impl View for DnsAction {
    type V = ActionModel;

    open spec fn view(&self) -> ActionModel {
        match self {
            DnsAction::Create { hostname, content } => ActionModel::Create {
                hostname: hostname@,
                content: content@,
            },
            DnsAction::Update { id, hostname, content } => ActionModel::Update {
                id: id@,
                hostname: hostname@,
                content: content@,
            },
            DnsAction::Delete { id, hostname } => ActionModel::Delete {
                id: id@,
                hostname: hostname@,
            },
        }
    }
}

/// The ghost image of a planned action list.
pub open spec fn actions_model(actions: Seq<DnsAction>) -> Seq<ActionModel> {
    actions.map(|i: int, a: DnsAction| a@)
}

/// The ghost image of a desired record list.
pub open spec fn desired_model(desired: Seq<DesiredDnsRecord>) -> Seq<DesiredModel> {
    desired.map(|i: int, d: DesiredDnsRecord| d@)
}

/// The hostnames a desired state speaks of.
pub open spec fn desired_hosts(desired: Seq<DesiredModel>) -> Seq<Seq<char>> {
    desired.map(|i: int, d: DesiredModel| d.hostname)
}

/// No hostname of the list matches more than one record of the zone.
pub open spec fn unambiguous(zone: Seq<RecordModel>, hosts: Seq<Seq<char>>) -> bool {
    forall|j: int| 0 <= j < hosts.len() ==> host_count(zone, hosts[j]) <= 1
}

/// What the synchronizer does for one desired record, diffed against the
/// observed zone: create when the hostname is absent, nothing when its one
/// record already holds the desired content, update in place otherwise.
/// Meaningful only when the hostname matches at most one record.
pub open spec fn plan_for(zone: Seq<RecordModel>, d: DesiredModel) -> Seq<ActionModel> {
    if host_count(zone, d.hostname) == 0 {
        seq![ActionModel::Create { hostname: d.hostname, content: d.content }]
    } else if first_match(zone, d.hostname).content == d.content {
        Seq::empty()
    } else {
        seq![
            ActionModel::Update {
                id: first_match(zone, d.hostname).id,
                hostname: d.hostname,
                content: d.content,
            },
        ]
    }
}

/// The full synchronization plan: the per-record plans, in desired order, all
/// diffed against the same observed zone snapshot.
pub open spec fn sync_plan(zone: Seq<RecordModel>, desired: Seq<DesiredModel>) -> Seq<ActionModel>
    decreases desired.len(),
{
    if desired.len() == 0 {
        Seq::empty()
    } else {
        sync_plan(zone, desired.drop_last()) + plan_for(zone, desired.last())
    }
}

/// The teardown plan: one delete per hostname that still has a record; an
/// absent hostname needs nothing (deletion is idempotent). Meaningful only
/// when each hostname matches at most one record.
pub open spec fn teardown_plan(zone: Seq<RecordModel>, hosts: Seq<Seq<char>>) -> Seq<ActionModel>
    decreases hosts.len(),
{
    if hosts.len() == 0 {
        Seq::empty()
    } else {
        teardown_plan(zone, hosts.drop_last()) + if host_count(zone, hosts.last()) == 0 {
            Seq::empty()
        } else {
            seq![
                ActionModel::Delete {
                    id: first_match(zone, hosts.last()).id,
                    hostname: hosts.last(),
                },
            ]
        }
    }
}

/// How many records of the zone carry exactly this hostname.
pub fn count_matches(zone: &Vec<ObservedDnsRecord>, host: &String) -> (n: usize)
    ensures
        n == host_count(zone_model(zone@), host@),
{
    let mut n: usize = 0;
    let mut k: usize = 0;
    while k < zone.len()
        invariant
            k <= zone@.len(),
            n <= k,
            n == host_count(zone_model(zone@).take(k as int), host@),
        decreases zone@.len() - k,
    {
        proof {
            lemma_host_count_take_step(zone_model(zone@), host@, k as int);
        }
        if zone[k].hostname == *host {
            n = n + 1;
        }
        k = k + 1;
    }
    proof {
        lemma_host_count_take_all(zone_model(zone@), host@);
    }
    n
}

/// The index of the first record carrying this hostname, if any record does.
pub fn find_first_match(zone: &Vec<ObservedDnsRecord>, host: &String) -> (r: Option<usize>)
    ensures
        match r {
            Some(i) => i < zone@.len() && zone@[i as int]@.hostname == host@ && zone@[i as int]@
                == first_match(zone_model(zone@), host@) && host_count(
                zone_model(zone@),
                host@,
            ) > 0,
            None => host_count(zone_model(zone@), host@) == 0,
        },
{
    let mut k: usize = 0;
    while k < zone.len()
        invariant
            k <= zone@.len(),
            forall|j: int| 0 <= j < k ==> zone_model(zone@)[j].hostname != host@,
        decreases zone@.len() - k,
    {
        if zone[k].hostname == *host {
            proof {
                lemma_first_match_at(zone_model(zone@), host@, k as int);
                lemma_host_count_zero(zone_model(zone@), host@);
            }
            return Some(k);
        }
        k = k + 1;
    }
    proof {
        lemma_host_count_zero(zone_model(zone@), host@);
    }
    None
}

/// Diff the desired records against the observed zone and plan the provider
/// mutations: per desired record, create when its hostname is absent, nothing
/// when its one record already holds the desired content, update in place when
/// the content drifted. A hostname matching more than one record makes the
/// whole pass fail with `AmbiguousRecord` (carrying the first such hostname),
/// and nothing is planned: the zone is never mutated on a failed plan.
pub fn plan_sync(zone: &Vec<ObservedDnsRecord>, desired: &Vec<DesiredDnsRecord>) -> (r: Result<
    Vec<DnsAction>,
    AppError,
>)
    ensures
        r is Ok <==> unambiguous(zone_model(zone@), desired_hosts(desired_model(desired@))),
        r is Ok ==> actions_model(r->Ok_0@) == sync_plan(
            zone_model(zone@),
            desired_model(desired@),
        ),
        r is Err ==> r->Err_0 is AmbiguousRecord && (exists|j: int|
            0 <= j < desired@.len() && host_count(zone_model(zone@), desired@[j]@.hostname) > 1
                && r->Err_0->AmbiguousRecord_0@ == desired@[j]@.hostname),
{
    let ghost zm = zone_model(zone@);
    let ghost dm = desired_model(desired@);
    let mut actions: Vec<DnsAction> = Vec::new();
    let mut di: usize = 0;
    while di < desired.len()
        invariant
            di <= desired@.len(),
            zm == zone_model(zone@),
            dm == desired_model(desired@),
            forall|j: int| 0 <= j < di ==> host_count(zm, dm[j].hostname) <= 1,
            actions_model(actions@) == sync_plan(zm, dm.take(di as int)),
        decreases desired@.len() - di,
    {
        let d = &desired[di];
        let n = count_matches(zone, &d.hostname);
        proof {
            assert(dm.take(di as int + 1).drop_last() =~= dm.take(di as int));
        }
        if n > 1 {
            proof {
                assert(host_count(zm, desired_hosts(dm)[di as int]) > 1);
            }
            return Err(AppError::AmbiguousRecord(d.hostname.clone()));
        }
        if n == 0 {
            let a = DnsAction::Create {
                hostname: d.hostname.clone(),
                content: d.content.clone(),
            };
            proof {
                assert(actions_model(actions@.push(a)) =~= sync_plan(zm, dm.take(di as int + 1)));
            }
            actions.push(a);
        } else {
            match find_first_match(zone, &d.hostname) {
                Some(i) => {
                    if d.content == zone[i].content {
                        proof {
                            assert(actions_model(actions@) =~= sync_plan(
                                zm,
                                dm.take(di as int + 1),
                            ));
                        }
                    } else {
                        let a = DnsAction::Update {
                            id: zone[i].id.clone(),
                            hostname: d.hostname.clone(),
                            content: d.content.clone(),
                        };
                        proof {
                            assert(actions_model(actions@.push(a)) =~= sync_plan(
                                zm,
                                dm.take(di as int + 1),
                            ));
                        }
                        actions.push(a);
                    }
                },
                None => {
                    proof {
                        assert(false);
                    }
                },
            }
        }
        di = di + 1;
    }
    proof {
        assert(dm.take(desired@.len() as int) =~= dm);
    }
    Ok(actions)
}

/// Plan the removal of every record for the given hostnames: one delete per
/// hostname that still has a record; an absent hostname needs nothing, so the
/// teardown is idempotent. A hostname matching more than one record makes the
/// pass fail with `AmbiguousRecord`, and nothing is planned.
pub fn plan_teardown(zone: &Vec<ObservedDnsRecord>, hostnames: &Vec<String>) -> (r: Result<
    Vec<DnsAction>,
    AppError,
>)
    ensures
        r is Ok <==> unambiguous(zone_model(zone@), names_model(hostnames@)),
        r is Ok ==> actions_model(r->Ok_0@) == teardown_plan(
            zone_model(zone@),
            names_model(hostnames@),
        ),
        r is Err ==> r->Err_0 is AmbiguousRecord && (exists|j: int|
            0 <= j < hostnames@.len() && host_count(zone_model(zone@), hostnames@[j]@) > 1
                && r->Err_0->AmbiguousRecord_0@ == hostnames@[j]@),
{
    let ghost zm = zone_model(zone@);
    let ghost hm = names_model(hostnames@);
    let mut actions: Vec<DnsAction> = Vec::new();
    let mut hi: usize = 0;
    while hi < hostnames.len()
        invariant
            hi <= hostnames@.len(),
            zm == zone_model(zone@),
            hm == names_model(hostnames@),
            forall|j: int| 0 <= j < hi ==> host_count(zm, hm[j]) <= 1,
            actions_model(actions@) == teardown_plan(zm, hm.take(hi as int)),
        decreases hostnames@.len() - hi,
    {
        let h = &hostnames[hi];
        let n = count_matches(zone, h);
        proof {
            assert(hm.take(hi as int + 1).drop_last() =~= hm.take(hi as int));
        }
        if n > 1 {
            proof {
                assert(host_count(zm, hm[hi as int]) > 1);
            }
            return Err(AppError::AmbiguousRecord(h.clone()));
        }
        if n == 0 {
            proof {
                assert(actions_model(actions@) =~= teardown_plan(zm, hm.take(hi as int + 1)));
            }
        } else {
            match find_first_match(zone, h) {
                Some(i) => {
                    let a = DnsAction::Delete { id: zone[i].id.clone(), hostname: h.clone() };
                    proof {
                        assert(actions_model(actions@.push(a)) =~= teardown_plan(
                            zm,
                            hm.take(hi as int + 1),
                        ));
                    }
                    actions.push(a);
                },
                None => {
                    proof {
                        assert(false);
                    }
                },
            }
        }
        hi = hi + 1;
    }
    proof {
        assert(hm.take(hostnames@.len() as int) =~= hm);
    }
    Ok(actions)
}

} // verus!
