use vstd::prelude::*;

verus! {

/// An A record as currently stored in the zone, re-read from the provider on
/// every reconciliation pass.
#[derive(Debug, Clone, PartialEq, Eq)]
pub struct ObservedDnsRecord {
    /// Provider-assigned identifier, unique within the zone.
    pub id: String,
    pub hostname: String,
    /// The address the record resolves to.
    pub content: String,
    pub ttl: u32,
    pub proxied: bool,
}

/// Ghost image of an observed record: each text field as a character sequence.
pub struct RecordModel {
    pub id: Seq<char>,
    pub hostname: Seq<char>,
    pub content: Seq<char>,
    pub ttl: u32,
    pub proxied: bool,
}

impl View for ObservedDnsRecord {
    type V = RecordModel;

    open spec fn view(&self) -> RecordModel {
        RecordModel {
            id: self.id@,
            hostname: self.hostname@,
            content: self.content@,
            ttl: self.ttl,
            proxied: self.proxied,
        }
    }
}

/// A record the zone should hold: one hostname resolving to the resource's
/// assigned address. Derived fresh on every pass, never persisted.
#[derive(Debug, Clone, PartialEq, Eq)]
pub struct DesiredDnsRecord {
    pub hostname: String,
    pub content: String,
}

/// Ghost image of a desired record.
pub struct DesiredModel {
    pub hostname: Seq<char>,
    pub content: Seq<char>,
}

impl View for DesiredDnsRecord {
    type V = DesiredModel;

    open spec fn view(&self) -> DesiredModel {
        DesiredModel { hostname: self.hostname@, content: self.content@ }
    }
}

/// The ghost image of a list of names, each as its character sequence.
pub open spec fn names_model(names: Seq<String>) -> Seq<Seq<char>> {
    names.map(|i: int, n: String| n@)
}

/// The ghost image of a listed zone.
pub open spec fn zone_model(zone: Seq<ObservedDnsRecord>) -> Seq<RecordModel> {
    zone.map(|i: int, r: ObservedDnsRecord| r@)
}

/// How many records of the zone carry exactly this hostname.
pub open spec fn host_count(zone: Seq<RecordModel>, host: Seq<char>) -> nat
    decreases zone.len(),
{
    if zone.len() == 0 {
        0
    } else {
        host_count(zone.drop_last(), host) + if zone.last().hostname == host {
            1nat
        } else {
            0nat
        }
    }
}

/// Provider identifiers are unique within a zone listing.
pub open spec fn ids_unique(zone: Seq<RecordModel>) -> bool {
    forall|i: int, j: int|
        0 <= i < j < zone.len() ==> zone[i].id != zone[j].id
}

/// The first record of the zone that carries this hostname; meaningful only
/// when at least one does.
pub open spec fn first_match(zone: Seq<RecordModel>, host: Seq<char>) -> RecordModel
    decreases zone.len(),
{
    if zone.len() == 0 {
        arbitrary()
    } else if host_count(zone.drop_last(), host) > 0 {
        first_match(zone.drop_last(), host)
    } else {
        zone.last()
    }
}

/// A zone has no record for this hostname exactly when no index matches.
pub proof fn lemma_host_count_zero(zone: Seq<RecordModel>, host: Seq<char>)
    ensures
        (host_count(zone, host) == 0) <==> (forall|i: int|
            0 <= i < zone.len() ==> zone[i].hostname != host),
    decreases zone.len(),
{
    if zone.len() > 0 {
        lemma_host_count_zero(zone.drop_last(), host);
        assert(forall|i: int|
            0 <= i < zone.len() - 1 ==> zone.drop_last()[i] == zone[i]);
    }
}

/// Counting over a one-longer prefix adds at most the newly exposed record.
pub proof fn lemma_host_count_take_step(zone: Seq<RecordModel>, host: Seq<char>, k: int)
    requires
        0 <= k < zone.len(),
    ensures
        host_count(zone.take(k + 1), host) == host_count(zone.take(k), host) + if zone[
            k
        ].hostname == host {
            1nat
        } else {
            0nat
        },
{
    assert(zone.take(k + 1).drop_last() =~= zone.take(k));
    assert(zone.take(k + 1).last() == zone[k]);
}

/// Counting the whole zone is counting its full-length prefix.
pub proof fn lemma_host_count_take_all(zone: Seq<RecordModel>, host: Seq<char>)
    ensures
        host_count(zone.take(zone.len() as int), host) == host_count(zone, host),
{
    assert(zone.take(zone.len() as int) =~= zone);
}

/// The first matching record is the one at the first matching index.
pub proof fn lemma_first_match_at(zone: Seq<RecordModel>, host: Seq<char>, k: int)
    requires
        0 <= k < zone.len(),
        zone[k].hostname == host,
        forall|j: int| 0 <= j < k ==> zone[j].hostname != host,
    ensures
        first_match(zone, host) == zone[k],
    decreases zone.len(),
{
    if k < zone.len() - 1 {
        assert(forall|j: int|
            0 <= j < zone.drop_last().len() && zone.drop_last()[j].hostname == host ==> j >= k);
        lemma_host_count_zero(zone.drop_last().take(k), host);
        assert(zone.drop_last()[k] == zone[k]);
        lemma_host_count_zero(zone.drop_last(), host);
        assert(host_count(zone.drop_last(), host) > 0);
        lemma_first_match_at(zone.drop_last(), host, k);
    } else {
        lemma_host_count_zero(zone.drop_last(), host);
        assert(forall|j: int|
            0 <= j < zone.drop_last().len() ==> zone.drop_last()[j] == zone[j]);
    }
}

/// When exactly one record matches, every matching record is the first match.
pub proof fn lemma_count_one_unique(zone: Seq<RecordModel>, host: Seq<char>)
    requires
        host_count(zone, host) == 1,
    ensures
        forall|i: int|
            0 <= i < zone.len() && zone[i].hostname == host ==> zone[i] == first_match(zone, host),
    decreases zone.len(),
{
    if zone.len() > 0 {
        if zone.last().hostname == host {
            lemma_host_count_zero(zone.drop_last(), host);
            assert(forall|j: int|
                0 <= j < zone.len() - 1 ==> zone.drop_last()[j] == zone[j]);
        } else {
            lemma_count_one_unique(zone.drop_last(), host);
            assert(forall|j: int|
                0 <= j < zone.len() - 1 ==> zone.drop_last()[j] == zone[j]);
        }
    }
}

/// When the hostname occurs, its first match is a matching record of the zone,
/// and no earlier index matches.
pub proof fn lemma_first_match_props(zone: Seq<RecordModel>, host: Seq<char>)
    requires
        host_count(zone, host) > 0,
    ensures
        first_match(zone, host).hostname == host,
        exists|i: int|
            0 <= i < zone.len() && zone[i] == first_match(zone, host),
    decreases zone.len(),
{
    if zone.len() > 0 {
        if host_count(zone.drop_last(), host) > 0 {
            lemma_first_match_props(zone.drop_last(), host);
            let i = choose|i: int|
                0 <= i < zone.drop_last().len() && zone.drop_last()[i] == first_match(
                    zone.drop_last(),
                    host,
                );
            assert(zone[i] == first_match(zone, host));
        } else {
            assert(zone[zone.len() - 1] == first_match(zone, host));
        }
    }
}

/// A name list with every occurrence of one name removed, order kept.
pub open spec fn remove_name(names: Seq<Seq<char>>, name: Seq<char>) -> Seq<Seq<char>>
    decreases names.len(),
{
    if names.len() == 0 {
        Seq::empty()
    } else {
        remove_name(names.drop_last(), name) + if names.last() == name {
            Seq::empty()
        } else {
            seq![names.last()]
        }
    }
}

/// Removal drops exactly the removed name's occurrences.
pub proof fn lemma_remove_name(names: Seq<Seq<char>>, name: Seq<char>)
    ensures
        forall|h: Seq<char>|
            #[trigger] remove_name(names, name).contains(h) <==> (names.contains(h) && h != name),
    decreases names.len(),
{
    if names.len() > 0 {
        lemma_remove_name(names.drop_last(), name);
        let out = remove_name(names, name);
        let pre = remove_name(names.drop_last(), name);
        assert forall|h: Seq<char>| #[trigger] out.contains(h) implies (names.contains(h) && h
            != name) by {
            let k = choose|k: int| 0 <= k < out.len() && out[k] == h;
            if k < pre.len() {
                assert(out[k] == pre[k]);
                assert(pre.contains(h));
                let m = choose|m: int|
                    0 <= m < names.drop_last().len() && names.drop_last()[m] == h;
                assert(names[m] == h);
            } else {
                assert(h == names.last() && h != name);
                assert(names[names.len() - 1] == h);
            }
        }
        assert forall|h: Seq<char>| names.contains(h) && h != name implies out.contains(h) by {
            let k = choose|k: int| 0 <= k < names.len() && names[k] == h;
            if k < names.len() - 1 {
                assert(names.drop_last()[k] == h);
                assert(names.drop_last().contains(h));
                assert(pre.contains(h));
                let m = choose|m: int| 0 <= m < pre.len() && pre[m] == h;
                assert(out[m] == h);
            } else {
                assert(names.last() == h);
                assert(out[out.len() - 1] == h);
            }
        }
    }
}


/// Removal keeps pairwise distinct names pairwise distinct.
pub proof fn lemma_remove_name_distinct(names: Seq<Seq<char>>, name: Seq<char>)
    requires
        forall|i: int, j: int| 0 <= i < j < names.len() ==> names[i] != names[j],
    ensures
        forall|i: int, j: int|
            0 <= i < j < remove_name(names, name).len() ==> remove_name(names, name)[i]
                != remove_name(names, name)[j],
    decreases names.len(),
{
    if names.len() > 0 {
        assert(forall|i: int| 0 <= i < names.len() - 1 ==> names.drop_last()[i] == names[i]);
        lemma_remove_name_distinct(names.drop_last(), name);
        let pre = remove_name(names.drop_last(), name);
        let out = remove_name(names, name);
        if names.last() == name {
            assert(out =~= pre);
        } else {
            assert(out =~= pre.push(names.last()));
            lemma_remove_name(names.drop_last(), name);
            assert(!names.drop_last().contains(names.last())) by {
                if names.drop_last().contains(names.last()) {
                    let m = choose|m: int|
                        0 <= m < names.drop_last().len() && names.drop_last()[m] == names.last();
                    assert(names[m] == names[names.len() - 1]);
                }
            }
            assert(!pre.contains(names.last()));
            assert forall|i: int, j: int| 0 <= i < j < out.len() implies out[i] != out[j] by {
                if j < pre.len() {
                    assert(out[i] == pre[i] && out[j] == pre[j]);
                } else {
                    assert(out[j] == names.last());
                    assert(out[i] == pre[i]);
                    if pre[i] == names.last() {
                        assert(pre.contains(names.last()));
                    }
                }
            }
        }
    }
}

} // verus!
