use vstd::prelude::*;

use crate::records::{
    DesiredModel, RecordModel, first_match, host_count, ids_unique, lemma_count_one_unique,
    lemma_first_match_props, lemma_host_count_zero,
};
use crate::sync::{ActionModel, desired_hosts, plan_for, sync_plan, teardown_plan, unambiguous};

verus! {

/// Time-to-live given to records the synchronizer creates or rewrites.
pub const DEFAULT_TTL: u32 = 1;

/// Records the synchronizer creates are never proxied.
pub const DEFAULT_PROXIED: bool = false;

/// Content rewrite of every record carrying the provider id; hostname and id
/// are untouched, ttl and the proxied flag take the rewrite defaults.
pub open spec fn set_content(zone: Seq<RecordModel>, id: Seq<char>, content: Seq<char>) -> Seq<
    RecordModel,
> {
    Seq::new(
        zone.len(),
        |i: int|
            if zone[i].id == id {
                RecordModel {
                    id: zone[i].id,
                    hostname: zone[i].hostname,
                    content: content,
                    ttl: DEFAULT_TTL,
                    proxied: DEFAULT_PROXIED,
                }
            } else {
                zone[i]
            },
    )
}

/// Removal of every record carrying the provider id.
pub open spec fn remove_id(zone: Seq<RecordModel>, id: Seq<char>) -> Seq<RecordModel>
    decreases zone.len(),
{
    if zone.len() == 0 {
        Seq::empty()
    } else {
        remove_id(zone.drop_last(), id) + if zone.last().id == id {
            Seq::empty()
        } else {
            seq![zone.last()]
        }
    }
}

/// One planned mutation applied to the zone model. A created record receives
/// the provider-assigned id handed in and the fixed creation defaults.
pub open spec fn apply_action(
    zone: Seq<RecordModel>,
    a: ActionModel,
    fresh_id: Seq<char>,
) -> Seq<RecordModel> {
    match a {
        ActionModel::Create { hostname, content } => zone.push(
            RecordModel {
                id: fresh_id,
                hostname: hostname,
                content: content,
                ttl: DEFAULT_TTL,
                proxied: DEFAULT_PROXIED,
            },
        ),
        ActionModel::Update { id, hostname, content } => set_content(zone, id, content),
        ActionModel::Delete { id, hostname } => remove_id(zone, id),
    }
}

/// A plan applied in order; the k-th action consumes the k-th provider id
/// (only creations use theirs).
pub open spec fn apply_plan(
    zone: Seq<RecordModel>,
    actions: Seq<ActionModel>,
    ids: Seq<Seq<char>>,
) -> Seq<RecordModel>
    decreases actions.len(),
{
    if actions.len() == 0 {
        zone
    } else {
        apply_plan(
            apply_action(zone, actions.first(), ids.first()),
            actions.drop_first(),
            ids.drop_first(),
        )
    }
}

/// Ids the provider may assign to created records: pairwise distinct and
/// distinct from every id already in the zone.
pub open spec fn fresh_ids_ok(zone: Seq<RecordModel>, ids: Seq<Seq<char>>) -> bool {
    &&& (forall|i: int, j: int| 0 <= i < j < ids.len() ==> ids[i] != ids[j])
    &&& (forall|i: int, k: int|
        0 <= i < ids.len() && 0 <= k < zone.len() ==> ids[i] != zone[k].id)
}

/// The hostnames of the desired records are pairwise distinct, as they are in
/// any desired state derived from a resource.
pub open spec fn hosts_distinct(desired: Seq<DesiredModel>) -> bool {
    forall|i: int, j: int|
        0 <= i < j < desired.len() ==> desired[i].hostname != desired[j].hostname
}

/// The zone holds the desired state: each desired hostname has exactly one
/// record, and every record carrying it holds the desired content.
pub open spec fn zone_satisfies(zone: Seq<RecordModel>, desired: Seq<DesiredModel>) -> bool {
    forall|j: int|
        0 <= j < desired.len() ==> #[trigger] host_count(zone, desired[j].hostname) == 1 && (forall|
            i: int,
        |
            0 <= i < zone.len() && zone[i].hostname == desired[j].hostname ==> zone[i].content
                == desired[j].content)
}

/// Applying a concatenated plan is applying its halves in turn, each with its
/// share of the provider ids.
pub proof fn lemma_apply_plan_concat(
    zone: Seq<RecordModel>,
    a: Seq<ActionModel>,
    b: Seq<ActionModel>,
    ids: Seq<Seq<char>>,
)
    requires
        a.len() + b.len() <= ids.len(),
    ensures
        apply_plan(zone, a + b, ids) == apply_plan(
            apply_plan(zone, a, ids.take(a.len() as int)),
            b,
            ids.skip(a.len() as int),
        ),
    decreases a.len(),
{
    if a.len() == 0 {
        assert(a + b =~= b);
        assert(ids.skip(0) =~= ids);
    } else {
        let zone1 = apply_action(zone, a.first(), ids.first());
        assert((a + b).first() == a.first());
        assert((a + b).drop_first() =~= a.drop_first() + b);
        assert(ids.take(a.len() as int).first() == ids.first());
        assert(ids.take(a.len() as int).drop_first() =~= ids.drop_first().take(a.len() - 1));
        assert(ids.skip(a.len() as int) =~= ids.drop_first().skip(a.len() - 1));
        lemma_apply_plan_concat(zone1, a.drop_first(), b, ids.drop_first());
    }
}

/// Two zones of equal length whose hostnames agree pointwise count every
/// hostname alike.
pub proof fn lemma_host_count_pointwise(a: Seq<RecordModel>, b: Seq<RecordModel>, h: Seq<char>)
    requires
        a.len() == b.len(),
        forall|i: int| 0 <= i < a.len() ==> a[i].hostname == b[i].hostname,
    ensures
        host_count(a, h) == host_count(b, h),
    decreases a.len(),
{
    if a.len() > 0 {
        assert(forall|i: int|
            0 <= i < a.len() - 1 ==> a.drop_last()[i].hostname == b.drop_last()[i].hostname);
        lemma_host_count_pointwise(a.drop_last(), b.drop_last(), h);
    }
}

/// Counting a concatenation counts both halves.
pub proof fn lemma_host_count_split(a: Seq<RecordModel>, b: Seq<RecordModel>, h: Seq<char>)
    ensures
        host_count(a + b, h) == host_count(a, h) + host_count(b, h),
    decreases b.len(),
{
    if b.len() == 0 {
        assert(a + b =~= a);
    } else {
        assert((a + b).drop_last() =~= a + b.drop_last());
        assert((a + b).last() == b.last());
        lemma_host_count_split(a, b.drop_last(), h);
    }
}

/// Appending one record raises the count of its hostname alone.
pub proof fn lemma_host_count_push(zone: Seq<RecordModel>, r: RecordModel, h: Seq<char>)
    ensures
        host_count(zone.push(r), h) == host_count(zone, h) + if r.hostname == h {
            1nat
        } else {
            0nat
        },
{
    assert(zone.push(r).drop_last() =~= zone);
    assert(zone.push(r).last() == r);
}

/// Removing an id whose records all carry other hostnames leaves a hostname's
/// count alone.
pub proof fn lemma_remove_id_keeps_count(zone: Seq<RecordModel>, id: Seq<char>, h: Seq<char>)
    requires
        forall|i: int| 0 <= i < zone.len() && zone[i].id == id ==> zone[i].hostname != h,
    ensures
        host_count(remove_id(zone, id), h) == host_count(zone, h),
    decreases zone.len(),
{
    if zone.len() > 0 {
        assert(forall|i: int|
            0 <= i < zone.len() - 1 ==> zone.drop_last()[i] == zone[i]);
        lemma_remove_id_keeps_count(zone.drop_last(), id, h);
        if zone.last().id == id {
            assert(remove_id(zone, id) =~= remove_id(zone.drop_last(), id));
        } else {
            assert(remove_id(zone, id) =~= remove_id(zone.drop_last(), id).push(zone.last()));
            lemma_host_count_push(remove_id(zone.drop_last(), id), zone.last(), h);
        }
    }
}

/// Removing an id that every record of a hostname carries clears that
/// hostname.
pub proof fn lemma_remove_id_clears_host(zone: Seq<RecordModel>, id: Seq<char>, h: Seq<char>)
    requires
        forall|i: int| 0 <= i < zone.len() && zone[i].hostname == h ==> zone[i].id == id,
    ensures
        host_count(remove_id(zone, id), h) == 0,
    decreases zone.len(),
{
    if zone.len() > 0 {
        assert(forall|i: int|
            0 <= i < zone.len() - 1 ==> zone.drop_last()[i] == zone[i]);
        lemma_remove_id_clears_host(zone.drop_last(), id, h);
        if zone.last().id == id {
            assert(remove_id(zone, id) =~= remove_id(zone.drop_last(), id));
        } else {
            assert(remove_id(zone, id) =~= remove_id(zone.drop_last(), id).push(zone.last()));
            lemma_host_count_push(remove_id(zone.drop_last(), id), zone.last(), h);
        }
    }
}

/// Every record that survives a removal was a record of the zone.
pub proof fn lemma_remove_id_membership(zone: Seq<RecordModel>, id: Seq<char>)
    ensures
        forall|i: int|
            0 <= i < remove_id(zone, id).len() ==> (exists|k: int|
                0 <= k < zone.len() && #[trigger] remove_id(zone, id)[i] == #[trigger] zone[k]),
    decreases zone.len(),
{
    if zone.len() > 0 {
        lemma_remove_id_membership(zone.drop_last(), id);
        let rm = remove_id(zone, id);
        let rm0 = remove_id(zone.drop_last(), id);
        assert forall|i: int| 0 <= i < rm.len() implies (exists|k: int|
            0 <= k < zone.len() && #[trigger] rm[i] == #[trigger] zone[k]) by {
            if i < rm0.len() {
                assert(rm[i] == rm0[i]);
                let k = choose|k: int| 0 <= k < zone.drop_last().len() && rm0[i]
                    == zone.drop_last()[k];
                assert(rm[i] == zone[k]);
            } else {
                assert(rm[i] == zone.last());
                assert(rm[i] == zone[zone.len() - 1]);
            }
        }
    }
}

/// What applying a synchronization plan does to the zone, stated pointwise:
/// the observed records keep their position, id and hostname, with contents
/// rewritten to the desired ones where a desired hostname matches; created
/// records sit behind them, one per desired hostname the zone lacked, under
/// provider ids the zone never held.
pub open spec fn sync_effect(
    zone: Seq<RecordModel>,
    desired: Seq<DesiredModel>,
    out: Seq<RecordModel>,
) -> bool {
    &&& out.len() >= zone.len()
    &&& (forall|i: int|
        0 <= i < zone.len() ==> (#[trigger] out[i]).id == zone[i].id && out[i].hostname
            == zone[i].hostname)
    &&& (forall|i: int|
        0 <= i < zone.len() && !desired_hosts(desired).contains(zone[i].hostname) ==> (
        #[trigger] out[i]).content == zone[i].content)
    &&& (forall|i: int, j: int|
        0 <= i < zone.len() && 0 <= j < desired.len() && zone[i].hostname == (
        #[trigger] desired[j]).hostname ==> (#[trigger] out[i]).content == desired[j].content)
    &&& (forall|p: int|
        zone.len() <= p < out.len() ==> (exists|j: int|
            0 <= j < desired.len() && (#[trigger] out[p]).hostname == (
            #[trigger] desired[j]).hostname && out[p].content == desired[j].content && host_count(
                zone,
                desired[j].hostname,
            ) == 0))
    &&& (forall|p: int, k: int|
        zone.len() <= p < out.len() && 0 <= k < zone.len() ==> (#[trigger] out[p]).id != (
        #[trigger] zone[k]).id)
    &&& (forall|j: int|
        0 <= j < desired.len() ==> host_count(
            out.skip(zone.len() as int),
            (#[trigger] desired[j]).hostname,
        ) == (if host_count(zone, desired[j].hostname) == 0 {
            1nat
        } else {
            0nat
        }))
    &&& (forall|h: Seq<char>|
        !desired_hosts(desired).contains(h) ==> #[trigger] host_count(
            out.skip(zone.len() as int),
            h,
        ) == 0)
}

/// Applying the synchronization plan has exactly the pointwise effect above,
/// whatever fresh ids the provider assigns.
#[verifier::rlimit(60)]
pub proof fn lemma_sync_plan_effect(
    zone: Seq<RecordModel>,
    desired: Seq<DesiredModel>,
    ids: Seq<Seq<char>>,
)
    requires
        ids_unique(zone),
        hosts_distinct(desired),
        unambiguous(zone, desired_hosts(desired)),
        ids.len() >= sync_plan(zone, desired).len(),
        fresh_ids_ok(zone, ids),
    ensures
        sync_effect(zone, desired, apply_plan(zone, sync_plan(zone, desired), ids)),
    decreases desired.len(),
{
    let plan = sync_plan(zone, desired);
    let out = apply_plan(zone, plan, ids);
    if desired.len() == 0 {
        assert(out == zone);
        assert(zone.skip(zone.len() as int) =~= Seq::<RecordModel>::empty());
    } else {
        let d = desired.last();
        let dp = desired.drop_last();
        let plan_p = sync_plan(zone, dp);
        let tail = plan_for(zone, d);
        assert(plan == plan_p + tail);
        assert(desired_hosts(dp) =~= desired_hosts(desired).drop_last());
        assert(desired_hosts(desired)[desired.len() - 1] == d.hostname);
        assert(desired_hosts(desired).contains(d.hostname));
        assert forall|h: Seq<char>|
            desired_hosts(dp).contains(h) implies desired_hosts(desired).contains(h) by {
            let j = choose|j: int| 0 <= j < desired_hosts(dp).len() && desired_hosts(dp)[j] == h;
            assert(desired_hosts(desired)[j] == h);
        }
        assert forall|j: int| 0 <= j < dp.len() implies host_count(
            zone,
            desired_hosts(dp)[j],
        ) <= 1 by {
            assert(desired_hosts(dp)[j] == desired_hosts(desired)[j]);
        }
        assert(d.hostname == desired_hosts(desired)[desired.len() - 1]);
        assert(!desired_hosts(dp).contains(d.hostname)) by {
            if desired_hosts(dp).contains(d.hostname) {
                let j = choose|j: int|
                    0 <= j < desired_hosts(dp).len() && desired_hosts(dp)[j] == d.hostname;
                assert(desired[j].hostname == desired[desired.len() - 1].hostname);
            }
        }
        let idsp = ids.take(plan_p.len() as int);
        let idsq = ids.skip(plan_p.len() as int);
        lemma_apply_plan_concat(zone, plan_p, tail, ids);
        let s1 = apply_plan(zone, plan_p, idsp);
        assert(out == apply_plan(s1, tail, idsq));
        lemma_sync_plan_effect(zone, dp, idsp);
        assert(sync_effect(zone, dp, s1));
        let n = host_count(zone, d.hostname);
        assert(n <= 1) by {
            assert(host_count(zone, desired_hosts(desired)[desired.len() - 1]) <= 1);
        }
        if n == 0 {
            // the tail is one creation
            let new_id = ids[plan_p.len() as int];
            assert(plan_p.len() < ids.len());
            assert(idsq[0] == new_id);
            let newr = RecordModel {
                id: new_id,
                hostname: d.hostname,
                content: d.content,
                ttl: DEFAULT_TTL,
                proxied: DEFAULT_PROXIED,
            };
            assert(tail[0] == (ActionModel::Create { hostname: d.hostname, content: d.content }));
            assert(apply_plan(s1, tail, idsq) == apply_action(s1, tail[0], idsq[0])) by {
                assert(tail.len() == 1);
                assert(tail.first() == tail[0]);
                assert(idsq.first() == idsq[0]);
                let s2 = apply_action(s1, tail.first(), idsq.first());
                assert(apply_plan(s1, tail, idsq) == apply_plan(
                    s2,
                    tail.drop_first(),
                    idsq.drop_first(),
                ));
                assert(tail.drop_first().len() == 0);
                assert(apply_plan(s2, tail.drop_first(), idsq.drop_first()) == s2);
            }
            assert(out == s1.push(newr));
            lemma_host_count_zero(zone, d.hostname);
            assert forall|i: int, j: int|
                0 <= i < zone.len() && 0 <= j < desired.len() && zone[i].hostname == (
                #[trigger] desired[j]).hostname implies (#[trigger] out[i]).content
                == desired[j].content by {
                assert(out[i] == s1[i]);
                if j < desired.len() - 1 {
                    assert(dp[j] == desired[j]);
                } else {
                    assert(zone[i].hostname != d.hostname);
                }
            }
            assert forall|p: int| zone.len() <= p < out.len() implies (exists|j: int|
                0 <= j < desired.len() && (#[trigger] out[p]).hostname == (
                #[trigger] desired[j]).hostname && out[p].content == desired[j].content
                    && host_count(zone, desired[j].hostname) == 0) by {
                if p < s1.len() {
                    assert(out[p] == s1[p]);
                    let j = choose|j: int|
                        0 <= j < dp.len() && s1[p].hostname == dp[j].hostname && s1[p].content
                            == dp[j].content && host_count(zone, dp[j].hostname) == 0;
                    assert(desired[j] == dp[j]);
                    assert(out[p].hostname == desired[j].hostname && out[p].content
                        == desired[j].content && host_count(zone, desired[j].hostname) == 0);
                } else {
                    assert(out[p] == newr);
                    let j = desired.len() - 1;
                    assert(out[p].hostname == desired[j].hostname && out[p].content
                        == desired[j].content && host_count(zone, desired[j].hostname) == 0);
                }
            }
            assert(out.skip(zone.len() as int) =~= s1.skip(zone.len() as int).push(newr));
            assert forall|j: int| 0 <= j < desired.len() implies host_count(
                out.skip(zone.len() as int),
                (#[trigger] desired[j]).hostname,
            ) == (if host_count(zone, desired[j].hostname) == 0 {
                1nat
            } else {
                0nat
            }) by {
                lemma_host_count_push(s1.skip(zone.len() as int), newr, desired[j].hostname);
                if j < desired.len() - 1 {
                    assert(dp[j] == desired[j]);
                    assert(desired[j].hostname != d.hostname);
                }
            }
            assert forall|h: Seq<char>|
                !desired_hosts(desired).contains(h) implies #[trigger] host_count(
                out.skip(zone.len() as int),
                h,
            ) == 0 by {
                lemma_host_count_push(s1.skip(zone.len() as int), newr, h);
                assert(h != d.hostname);
            }
        } else {
            // exactly one record carries the hostname
            lemma_first_match_props(zone, d.hostname);
            lemma_count_one_unique(zone, d.hostname);
            let fm = first_match(zone, d.hostname);
            let istar = choose|i: int| 0 <= i < zone.len() && zone[i] == fm;
            assert(zone[istar].id == fm.id);
            if fm.content == d.content {
                // nothing to do for this hostname
                assert(tail.len() == 0);
                assert(plan =~= plan_p);
                assert(out == s1);
                assert forall|i: int, j: int|
                    0 <= i < zone.len() && 0 <= j < desired.len() && zone[i].hostname == (
                    #[trigger] desired[j]).hostname implies (#[trigger] out[i]).content
                    == desired[j].content by {
                    if j < desired.len() - 1 {
                        assert(dp[j] == desired[j]);
                    } else {
                        assert(zone[i] == fm);
                        assert(!desired_hosts(dp).contains(zone[i].hostname));
                        assert(out[i].content == zone[i].content);
                    }
                }
                assert forall|p: int| zone.len() <= p < out.len() implies (exists|j: int|
                    0 <= j < desired.len() && (#[trigger] out[p]).hostname == (
                    #[trigger] desired[j]).hostname && out[p].content == desired[j].content
                        && host_count(zone, desired[j].hostname) == 0) by {
                    let j = choose|j: int|
                        0 <= j < dp.len() && s1[p].hostname == dp[j].hostname && s1[p].content
                            == dp[j].content && host_count(zone, dp[j].hostname) == 0;
                    assert(desired[j] == dp[j]);
                    assert(out[p].hostname == desired[j].hostname && out[p].content
                        == desired[j].content && host_count(zone, desired[j].hostname) == 0);
                }
                assert forall|j: int| 0 <= j < desired.len() implies host_count(
                    out.skip(zone.len() as int),
                    (#[trigger] desired[j]).hostname,
                ) == (if host_count(zone, desired[j].hostname) == 0 {
                    1nat
                } else {
                    0nat
                }) by {
                    if j < desired.len() - 1 {
                        assert(dp[j] == desired[j]);
                    } else {
                        assert(host_count(out.skip(zone.len() as int), d.hostname) == 0);
                    }
                }
            } else {
                // the tail is one content rewrite, targeting the matched id
                assert(tail[0] == (ActionModel::Update {
                    id: fm.id,
                    hostname: d.hostname,
                    content: d.content,
                }));
                assert(apply_plan(s1, tail, idsq) == apply_action(s1, tail[0], idsq[0])) by {
                    assert(tail.len() == 1);
                    assert(tail.first() == tail[0]);
                    assert(idsq.first() == idsq[0]);
                    let s2 = apply_action(s1, tail.first(), idsq.first());
                    assert(apply_plan(s1, tail, idsq) == apply_plan(
                        s2,
                        tail.drop_first(),
                        idsq.drop_first(),
                    ));
                    assert(tail.drop_first().len() == 0);
                    assert(apply_plan(s2, tail.drop_first(), idsq.drop_first()) == s2);
                }
                assert(out == set_content(s1, fm.id, d.content));
                assert(out.len() == s1.len());
                // which positions of s1 carry the target id: the one matched record
                assert forall|p: int| 0 <= p < s1.len() && s1[p].id == fm.id implies p == istar by {
                    if p < zone.len() {
                        assert(zone[p].id == zone[istar].id);
                    } else {
                        assert(s1[p].id != zone[istar].id);
                    }
                }
                assert(forall|p: int|
                    0 <= p < out.len() && p != istar ==> out[p] == s1[p]);
                assert(out[istar].content == d.content);
                assert(out[istar].hostname == s1[istar].hostname);
                assert forall|i: int, j: int|
                    0 <= i < zone.len() && 0 <= j < desired.len() && zone[i].hostname == (
                    #[trigger] desired[j]).hostname implies (#[trigger] out[i]).content
                    == desired[j].content by {
                    if j < desired.len() - 1 {
                        assert(dp[j] == desired[j]);
                        assert(zone[i].hostname != d.hostname);
                        assert(i != istar);
                        assert(out[i] == s1[i]);
                    } else {
                        assert(zone[i] == fm);
                        assert(zone[i].id == fm.id);
                        assert(i == istar);
                    }
                }
                assert forall|i: int|
                    0 <= i < zone.len() && !desired_hosts(desired).contains(
                        zone[i].hostname,
                    ) implies (#[trigger] out[i]).content == zone[i].content by {
                    assert(zone[i].hostname != d.hostname);
                    assert(i != istar);
                    assert(!desired_hosts(dp).contains(zone[i].hostname));
                }
                assert forall|p: int| zone.len() <= p < out.len() implies (exists|j: int|
                    0 <= j < desired.len() && (#[trigger] out[p]).hostname == (
                    #[trigger] desired[j]).hostname && out[p].content == desired[j].content
                        && host_count(zone, desired[j].hostname) == 0) by {
                    assert(s1[p].id != zone[istar].id);
                    assert(p != istar);
                    assert(out[p] == s1[p]);
                    let j = choose|j: int|
                        0 <= j < dp.len() && s1[p].hostname == dp[j].hostname && s1[p].content
                            == dp[j].content && host_count(zone, dp[j].hostname) == 0;
                    assert(desired[j] == dp[j]);
                    assert(out[p].hostname == desired[j].hostname && out[p].content
                        == desired[j].content && host_count(zone, desired[j].hostname) == 0);
                }
                assert forall|p: int, k: int|
                    zone.len() <= p < out.len() && 0 <= k < zone.len() implies (
                #[trigger] out[p]).id != (#[trigger] zone[k]).id by {
                    assert(s1[p].id != zone[istar].id);
                    assert(p != istar);
                    assert(out[p] == s1[p]);
                }
                let outs = out.skip(zone.len() as int);
                let s1s = s1.skip(zone.len() as int);
                assert(outs.len() == s1s.len());
                assert forall|q: int| 0 <= q < outs.len() implies outs[q].hostname
                    == s1s[q].hostname by {
                    assert(outs[q] == out[q + zone.len()]);
                    assert(s1s[q] == s1[q + zone.len()]);
                }
                assert forall|j: int| 0 <= j < desired.len() implies host_count(
                    outs,
                    (#[trigger] desired[j]).hostname,
                ) == (if host_count(zone, desired[j].hostname) == 0 {
                    1nat
                } else {
                    0nat
                }) by {
                    lemma_host_count_pointwise(outs, s1s, desired[j].hostname);
                    if j < desired.len() - 1 {
                        assert(dp[j] == desired[j]);
                    } else {
                        assert(host_count(s1s, d.hostname) == 0);
                    }
                }
                assert forall|h: Seq<char>|
                    !desired_hosts(desired).contains(h) implies #[trigger] host_count(
                    outs,
                    h,
                ) == 0 by {
                    lemma_host_count_pointwise(outs, s1s, h);
                }
            }
        }
    }
}

/// Law (uniqueness and drift correction): applying the planned
/// synchronization, with whatever fresh ids the provider assigns, leaves
/// exactly one record for each desired hostname, every record of that
/// hostname holding the desired content; hostnames the desired state does not
/// mention keep their record count.
pub proof fn lemma_sync_plan_establishes_desired(
    zone: Seq<RecordModel>,
    desired: Seq<DesiredModel>,
    ids: Seq<Seq<char>>,
)
    requires
        ids_unique(zone),
        hosts_distinct(desired),
        unambiguous(zone, desired_hosts(desired)),
        ids.len() >= sync_plan(zone, desired).len(),
        fresh_ids_ok(zone, ids),
    ensures
        zone_satisfies(apply_plan(zone, sync_plan(zone, desired), ids), desired),
        forall|h: Seq<char>|
            !desired_hosts(desired).contains(h) ==> #[trigger] host_count(
                apply_plan(zone, sync_plan(zone, desired), ids),
                h,
            ) == host_count(zone, h),
{
    lemma_sync_plan_effect(zone, desired, ids);
    let out = apply_plan(zone, sync_plan(zone, desired), ids);
    let pre = out.take(zone.len() as int);
    let suf = out.skip(zone.len() as int);
    assert(out =~= pre + suf);
    assert(pre.len() == zone.len());
    assert(forall|i: int| 0 <= i < zone.len() ==> pre[i] == out[i]);
    assert forall|j: int| 0 <= j < desired.len() implies #[trigger] host_count(
        out,
        desired[j].hostname,
    ) == 1 && (forall|i: int|
        0 <= i < out.len() && out[i].hostname == desired[j].hostname ==> out[i].content
            == desired[j].content) by {
        let h = desired[j].hostname;
        lemma_host_count_split(pre, suf, h);
        lemma_host_count_pointwise(pre, zone, h);
        assert(host_count(zone, desired_hosts(desired)[j]) <= 1);
        assert(desired_hosts(desired)[j] == h);
        assert(host_count(out, h) == 1);
        assert forall|i: int|
            0 <= i < out.len() && out[i].hostname == h implies out[i].content
            == desired[j].content by {
            if i < zone.len() {
                assert(zone[i].hostname == h);
            } else {
                let j2 = choose|j2: int|
                    0 <= j2 < desired.len() && out[i].hostname == desired[j2].hostname
                        && out[i].content == desired[j2].content && host_count(
                        zone,
                        desired[j2].hostname,
                    ) == 0;
                assert(desired[j2].hostname == desired[j].hostname);
                if j2 != j {
                    assert(false);
                }
            }
        }
    }
    assert forall|h: Seq<char>| !desired_hosts(desired).contains(h) implies #[trigger] host_count(
        out,
        h,
    ) == host_count(zone, h) by {
        lemma_host_count_split(pre, suf, h);
        lemma_host_count_pointwise(pre, zone, h);
    }
}

/// Law (idempotence, second half): a zone that already holds the desired
/// state yields an empty plan, so running the synchronizer again issues no
/// provider mutations.
pub proof fn lemma_sync_plan_idempotent(zone: Seq<RecordModel>, desired: Seq<DesiredModel>)
    requires
        zone_satisfies(zone, desired),
    ensures
        sync_plan(zone, desired).len() == 0,
    decreases desired.len(),
{
    if desired.len() > 0 {
        let d = desired.last();
        let dp = desired.drop_last();
        assert(forall|j: int| 0 <= j < dp.len() ==> dp[j] == desired[j]);
        assert(zone_satisfies(zone, dp)) by {
            assert forall|j: int| 0 <= j < dp.len() implies #[trigger] host_count(
                zone,
                dp[j].hostname,
            ) == 1 && (forall|i: int|
                0 <= i < zone.len() && zone[i].hostname == dp[j].hostname ==> zone[i].content
                    == dp[j].content) by {
                assert(host_count(zone, desired[j].hostname) == 1);
            }
        }
        lemma_sync_plan_idempotent(zone, dp);
        assert(host_count(zone, desired[desired.len() - 1].hostname) == 1);
        lemma_first_match_props(zone, d.hostname);
        let i = choose|i: int| 0 <= i < zone.len() && zone[i] == first_match(zone, d.hostname);
        assert(zone[i].hostname == desired[desired.len() - 1].hostname);
        assert(zone[i].content == d.content);
        assert(plan_for(zone, d).len() == 0);
    }
}

/// Law (idempotence): once one reconcile's plan has been applied, planning
/// again against the resulting zone with the unchanged desired state yields
/// zero further mutations.
pub proof fn lemma_reconcile_idempotent(
    zone: Seq<RecordModel>,
    desired: Seq<DesiredModel>,
    ids: Seq<Seq<char>>,
)
    requires
        ids_unique(zone),
        hosts_distinct(desired),
        unambiguous(zone, desired_hosts(desired)),
        ids.len() >= sync_plan(zone, desired).len(),
        fresh_ids_ok(zone, ids),
    ensures
        sync_plan(apply_plan(zone, sync_plan(zone, desired), ids), desired).len() == 0,
{
    lemma_sync_plan_establishes_desired(zone, desired, ids);
    lemma_sync_plan_idempotent(apply_plan(zone, sync_plan(zone, desired), ids), desired);
}

/// Law (drift self-heal): when some record's content was changed out of band,
/// the next resync's applied plan leaves that hostname with exactly one
/// record, restored to the resource-derived content.
pub proof fn lemma_resync_heals_drift(
    zone: Seq<RecordModel>,
    desired: Seq<DesiredModel>,
    ids: Seq<Seq<char>>,
    j: int,
)
    requires
        ids_unique(zone),
        hosts_distinct(desired),
        unambiguous(zone, desired_hosts(desired)),
        ids.len() >= sync_plan(zone, desired).len(),
        fresh_ids_ok(zone, ids),
        0 <= j < desired.len(),
    ensures
        host_count(apply_plan(zone, sync_plan(zone, desired), ids), desired[j].hostname) == 1,
        forall|i: int|
            0 <= i < apply_plan(zone, sync_plan(zone, desired), ids).len() && (#[trigger] apply_plan(
                zone,
                sync_plan(zone, desired),
                ids,
            )[i]).hostname == desired[j].hostname ==> apply_plan(
                zone,
                sync_plan(zone, desired),
                ids,
            )[i].content == desired[j].content,
{
    lemma_sync_plan_establishes_desired(zone, desired, ids);
    let out = apply_plan(zone, sync_plan(zone, desired), ids);
    assert(host_count(out, desired[j].hostname) == 1);
}

/// Law (teardown, the DNS half of ordering safety): applying the planned
/// teardown removes every record of the listed hostnames; hostnames not
/// listed keep their record count, and every surviving record already stood
/// in the zone.
pub proof fn lemma_teardown_clears_hosts(
    zone: Seq<RecordModel>,
    hosts: Seq<Seq<char>>,
    ids: Seq<Seq<char>>,
)
    requires
        ids_unique(zone),
        unambiguous(zone, hosts),
        ids.len() >= teardown_plan(zone, hosts).len(),
    ensures
        forall|j: int|
            0 <= j < hosts.len() ==> #[trigger] host_count(
                apply_plan(zone, teardown_plan(zone, hosts), ids),
                hosts[j],
            ) == 0,
        forall|h: Seq<char>|
            !hosts.contains(h) ==> #[trigger] host_count(
                apply_plan(zone, teardown_plan(zone, hosts), ids),
                h,
            ) == host_count(zone, h),
        forall|i: int|
            0 <= i < apply_plan(zone, teardown_plan(zone, hosts), ids).len() ==> (exists|k: int|
                0 <= k < zone.len() && #[trigger] apply_plan(
                    zone,
                    teardown_plan(zone, hosts),
                    ids,
                )[i] == #[trigger] zone[k]),
    decreases hosts.len(),
{
    let plan = teardown_plan(zone, hosts);
    let out = apply_plan(zone, plan, ids);
    if hosts.len() == 0 {
        assert(out == zone);
        assert forall|i: int| 0 <= i < out.len() implies (exists|k: int|
            0 <= k < zone.len() && #[trigger] out[i] == #[trigger] zone[k]) by {
            assert(out[i] == zone[i]);
        }
    } else {
        let h = hosts.last();
        let hp = hosts.drop_last();
        let plan_p = teardown_plan(zone, hp);
        let tail = if host_count(zone, h) == 0 {
            Seq::<ActionModel>::empty()
        } else {
            seq![
                ActionModel::Delete { id: first_match(zone, h).id, hostname: h },
            ]
        };
        assert(plan == plan_p + tail);
        assert(forall|j: int| 0 <= j < hp.len() ==> hp[j] == hosts[j]);
        assert forall|h2: Seq<char>| hp.contains(h2) implies hosts.contains(h2) by {
            let j = choose|j: int| 0 <= j < hp.len() && hp[j] == h2;
            assert(hosts[j] == h2);
        }
        let idsp = ids.take(plan_p.len() as int);
        let idsq = ids.skip(plan_p.len() as int);
        lemma_apply_plan_concat(zone, plan_p, tail, ids);
        let s1 = apply_plan(zone, plan_p, idsp);
        assert(out == apply_plan(s1, tail, idsq));
        lemma_teardown_clears_hosts(zone, hp, idsp);
        assert(host_count(zone, hosts[hosts.len() - 1]) <= 1);
        if host_count(zone, h) == 0 {
            assert(tail.len() == 0);
            assert(out == s1);
            assert forall|j: int| 0 <= j < hosts.len() implies #[trigger] host_count(
                out,
                hosts[j],
            ) == 0 by {
                if j < hosts.len() - 1 {
                    assert(host_count(s1, hp[j]) == 0);
                } else {
                    if hp.contains(h) {
                        let j2 = choose|j2: int| 0 <= j2 < hp.len() && hp[j2] == h;
                        assert(host_count(s1, hp[j2]) == 0);
                    } else {
                        assert(host_count(s1, h) == host_count(zone, h));
                    }
                }
            }
        } else {
            lemma_first_match_props(zone, h);
            lemma_count_one_unique(zone, h);
            let fm = first_match(zone, h);
            let istar = choose|i: int| 0 <= i < zone.len() && zone[i] == fm;
            assert forall|k: int| 0 <= k < zone.len() && (#[trigger] zone[k]).id
                == fm.id implies zone[k] == fm by {
                if k != istar {
                    assert(zone[k].id != zone[istar].id);
                }
            }
            // surviving or not, every record of the intermediate zone is a
            // zone record, so id and hostname determine each other for `h`
            assert forall|p: int| 0 <= p < s1.len() && (#[trigger] s1[p]).id == fm.id implies s1[p]
                == fm by {
                let k = choose|k: int| 0 <= k < zone.len() && s1[p] == zone[k];
                assert(zone[k].id == fm.id);
            }
            assert forall|p: int|
                0 <= p < s1.len() && (#[trigger] s1[p]).hostname == h implies s1[p].id == fm.id by {
                let k = choose|k: int| 0 <= k < zone.len() && s1[p] == zone[k];
                assert(zone[k] == fm);
            }
            assert(tail[0] == (ActionModel::Delete { id: fm.id, hostname: h }));
            assert(apply_plan(s1, tail, idsq) == apply_action(s1, tail[0], idsq[0])) by {
                assert(tail.len() == 1);
                assert(tail.first() == tail[0]);
                assert(idsq.first() == idsq[0]);
                let s2 = apply_action(s1, tail.first(), idsq.first());
                assert(apply_plan(s1, tail, idsq) == apply_plan(
                    s2,
                    tail.drop_first(),
                    idsq.drop_first(),
                ));
                assert(tail.drop_first().len() == 0);
                assert(apply_plan(s2, tail.drop_first(), idsq.drop_first()) == s2);
            }
            assert(out == remove_id(s1, fm.id));
            lemma_remove_id_membership(s1, fm.id);
            assert forall|i: int| 0 <= i < out.len() implies (exists|k: int|
                0 <= k < zone.len() && #[trigger] out[i] == #[trigger] zone[k]) by {
                let p = choose|p: int| 0 <= p < s1.len() && #[trigger] out[i] == #[trigger] s1[p];
                let k = choose|k: int| 0 <= k < zone.len() && s1[p] == zone[k];
                assert(out[i] == zone[k]);
            }
            assert forall|j: int| 0 <= j < hosts.len() implies #[trigger] host_count(
                out,
                hosts[j],
            ) == 0 by {
                if hosts[j] == h {
                    lemma_remove_id_clears_host(s1, fm.id, h);
                } else {
                    lemma_remove_id_keeps_count(s1, fm.id, hosts[j]);
                    assert(hp[j] == hosts[j]);
                    assert(host_count(s1, hp[j]) == 0);
                }
            }
            assert forall|h2: Seq<char>| !hosts.contains(h2) implies #[trigger] host_count(
                out,
                h2,
            ) == host_count(zone, h2) by {
                assert(hosts[hosts.len() - 1] == h);
                assert(h2 != h);
                lemma_remove_id_keeps_count(s1, fm.id, h2);
                assert(!hp.contains(h2));
            }
        }
    }
}

} // verus!
