use vstd::prelude::*;

use crate::error::AppError;
use crate::records::{lemma_remove_name, names_model, remove_name};

verus! {

/// Snapshot of an ingress-like resource as the watch feed observed it.
/// Read-only to the reconciler: every pass derives its intent and desired
/// DNS state fresh from such a snapshot, never from history.
#[derive(Debug, Clone)]
pub struct ObservedResource {
    pub namespace: String,
    pub name: String,
    /// The resource store has been asked to delete the object.
    pub deletion_requested: bool,
    /// The deletion-protection marker is present on the object.
    pub has_marker: bool,
    /// The declared hostnames, an ordered set: first occurrences, no repeats.
    pub hostnames: Vec<String>,
    /// The externally assigned address, once the load balancer provides one:
    /// an IPv4 address or a DNS hostname.
    pub assigned_address: Option<String>,
}

/// One load-balancer entry on the resource's status: an IP address, a
/// hostname, either or neither.
#[derive(Debug, Clone)]
pub struct AddressCandidate {
    pub ip: Option<String>,
    pub hostname: Option<String>,
}

/// An ordered set built from a name list: the first occurrence of each name
/// is kept in order, later repeats are dropped.
pub open spec fn dedup_names(names: Seq<Seq<char>>) -> Seq<Seq<char>>
    decreases names.len(),
{
    if names.len() == 0 {
        Seq::empty()
    } else if dedup_names(names.drop_last()).contains(names.last()) {
        dedup_names(names.drop_last())
    } else {
        dedup_names(names.drop_last()).push(names.last())
    }
}

/// Deduplication yields pairwise distinct names with the same membership.
pub proof fn lemma_dedup_names(names: Seq<Seq<char>>)
    ensures
        forall|i: int, j: int|
            0 <= i < j < dedup_names(names).len() ==> dedup_names(names)[i] != dedup_names(
                names,
            )[j],
        forall|h: Seq<char>| #[trigger] dedup_names(names).contains(h) <==> names.contains(h),
    decreases names.len(),
{
    if names.len() > 0 {
        let pre = dedup_names(names.drop_last());
        let out = dedup_names(names);
        lemma_dedup_names(names.drop_last());
        if !pre.contains(names.last()) {
            assert forall|i: int, j: int| 0 <= i < j < out.len() implies out[i] != out[j] by {
                if j < pre.len() {
                    assert(out[i] == pre[i] && out[j] == pre[j]);
                } else {
                    assert(out[i] == pre[i] && out[j] == names.last());
                    if pre[i] == names.last() {
                        assert(pre.contains(names.last()));
                    }
                }
            }
        }
        assert forall|h: Seq<char>| #[trigger] out.contains(h) implies names.contains(h) by {
            let k = choose|k: int| 0 <= k < out.len() && out[k] == h;
            if k < pre.len() {
                assert(pre.contains(h));
                assert(names.drop_last().contains(h));
                let m = choose|m: int|
                    0 <= m < names.drop_last().len() && names.drop_last()[m] == h;
                assert(names[m] == h);
            } else {
                assert(h == names.last());
                assert(names[names.len() - 1] == h);
            }
        }
        assert forall|h: Seq<char>| names.contains(h) implies out.contains(h) by {
            let k = choose|k: int| 0 <= k < names.len() && names[k] == h;
            if k < names.len() - 1 {
                assert(names.drop_last()[k] == h);
                assert(names.drop_last().contains(h));
                assert(pre.contains(h));
                let m = choose|m: int| 0 <= m < pre.len() && pre[m] == h;
                assert(out[m] == h);
            } else {
                if pre.contains(names.last()) {
                    let m = choose|m: int| 0 <= m < pre.len() && pre[m] == names.last();
                    assert(out[m] == h);
                } else {
                    assert(out[out.len() - 1] == h);
                }
            }
        }
    }
}

/// Whether the list already carries this name.
pub fn contains_name(names: &Vec<String>, name: &String) -> (r: bool)
    ensures
        r == names_model(names@).contains(name@),
{
    let mut k: usize = 0;
    while k < names.len()
        invariant
            k <= names@.len(),
            forall|j: int| 0 <= j < k ==> names_model(names@)[j] != name@,
        decreases names@.len() - k,
    {
        if names[k] == *name {
            proof {
                assert(names_model(names@)[k as int] == name@);
            }
            return true;
        }
        k = k + 1;
    }
    proof {
        if names_model(names@).contains(name@) {
            let j = choose|j: int|
                0 <= j < names_model(names@).len() && names_model(names@)[j] == name@;
            assert(false);
        }
    }
    false
}


/// The list with every occurrence of one name removed, order kept.
pub fn remove_key(names: &Vec<String>, name: &String) -> (r: Vec<String>)
    ensures
        names_model(r@) == remove_name(names_model(names@), name@),
        !names_model(r@).contains(name@),
{
    let ghost nm = names_model(names@);
    let mut out: Vec<String> = Vec::new();
    let mut k: usize = 0;
    while k < names.len()
        invariant
            k <= names@.len(),
            nm == names_model(names@),
            names_model(out@) == remove_name(nm.take(k as int), name@),
        decreases names@.len() - k,
    {
        proof {
            assert(nm.take(k as int + 1).drop_last() =~= nm.take(k as int));
        }
        if !(names[k] == *name) {
            let f = names[k].clone();
            proof {
                assert(names_model(out@.push(f)) =~= names_model(out@).push(nm[k as int]));
                assert(remove_name(nm.take(k as int), name@).push(nm[k as int]) =~= remove_name(
                    nm.take(k as int + 1),
                    name@,
                ));
            }
            out.push(f);
        }
        k = k + 1;
    }
    proof {
        assert(nm.take(names@.len() as int) =~= nm);
        lemma_remove_name(nm, name@);
    }
    out
}

/// Collapse a declared hostname list to an ordered set: first occurrences in
/// order, later repeats dropped.
pub fn dedup_hostnames(hostnames: &Vec<String>) -> (r: Vec<String>)
    ensures
        names_model(r@) == dedup_names(names_model(hostnames@)),
{
    let ghost hm = names_model(hostnames@);
    let mut out: Vec<String> = Vec::new();
    let mut k: usize = 0;
    while k < hostnames.len()
        invariant
            k <= hostnames@.len(),
            hm == names_model(hostnames@),
            names_model(out@) == dedup_names(hm.take(k as int)),
        decreases hostnames@.len() - k,
    {
        proof {
            assert(hm.take(k as int + 1).drop_last() =~= hm.take(k as int));
        }
        if !contains_name(&out, &hostnames[k]) {
            let h = hostnames[k].clone();
            proof {
                assert(names_model(out@.push(h)) =~= names_model(out@).push(hm[k as int]));
            }
            out.push(h);
        }
        k = k + 1;
    }
    proof {
        assert(hm.take(hostnames@.len() as int) =~= hm);
    }
    out
}

impl ObservedResource {
    /// Validity of a snapshot: the declared hostnames form an ordered set.
    pub open spec fn wf(&self) -> bool {
        forall|i: int, j: int|
            0 <= i < j < self.hostnames@.len() ==> names_model(self.hostnames@)[i] != names_model(
                self.hostnames@,
            )[j]
    }

    /// Build the snapshot a reconciliation pass works on from the raw
    /// observed fields. A resource without a namespace has no usable
    /// identity and is rejected; declared hostnames are collapsed to an
    /// ordered set.
    pub fn from_observation(
        namespace: Option<String>,
        name: String,
        deletion_requested: bool,
        has_marker: bool,
        hostnames: Vec<String>,
        assigned_address: Option<String>,
    ) -> (r: Result<ObservedResource, AppError>)
        ensures
            r is Ok <==> namespace is Some,
            r is Err ==> r->Err_0 is MalformedResource,
            r is Ok ==> {
                let res = r->Ok_0;
                &&& res.wf()
                &&& res.namespace == namespace->0
                &&& res.name == name
                &&& res.deletion_requested == deletion_requested
                &&& res.has_marker == has_marker
                &&& names_model(res.hostnames@) == dedup_names(names_model(hostnames@))
                &&& res.assigned_address == assigned_address
            },
    {
        match namespace {
            None => Err(
                AppError::MalformedResource(String::from_str("resource has no namespace")),
            ),
            Some(ns) => {
                let hosts = dedup_hostnames(&hostnames);
                proof {
                    lemma_dedup_names(names_model(hostnames@));
                }
                Ok(
                    ObservedResource {
                        namespace: ns,
                        name: name,
                        deletion_requested: deletion_requested,
                        has_marker: has_marker,
                        hostnames: hosts,
                        assigned_address: assigned_address,
                    },
                )
            },
        }
    }
}

/// The address the load balancer entries yield: the first entry's IP if it
/// has one, else that entry's hostname; nothing when there are no entries.
pub open spec fn spec_picked_address(cs: Seq<AddressCandidate>) -> Option<Seq<char>> {
    if cs.len() == 0 {
        None
    } else if cs[0].ip is Some {
        Some(cs[0].ip->0@)
    } else if cs[0].hostname is Some {
        Some(cs[0].hostname->0@)
    } else {
        None
    }
}

/// Pick the externally assigned address from the observed load-balancer
/// entries. An entry carrying neither an IP nor a hostname marks the
/// observation malformed; otherwise the first entry decides, preferring its
/// IP over its hostname, and no entries at all mean no address yet.
pub fn pick_address(candidates: &Vec<AddressCandidate>) -> (r: Result<Option<String>, AppError>)
    ensures
        r is Ok <==> (forall|i: int|
            0 <= i < candidates@.len() ==> !((#[trigger] candidates@[i]).ip is None
                && candidates@[i].hostname is None)),
        r is Err ==> r->Err_0 is MalformedResource,
        r is Ok ==> (r->Ok_0 is Some <==> spec_picked_address(candidates@) is Some),
        r is Ok && r->Ok_0 is Some ==> r->Ok_0->0@ == spec_picked_address(candidates@)->0,
{
    let mut k: usize = 0;
    while k < candidates.len()
        invariant
            k <= candidates@.len(),
            forall|i: int|
                0 <= i < k ==> !((#[trigger] candidates@[i]).ip is None && candidates@[i].hostname
                    is None),
        decreases candidates@.len() - k,
    {
        if candidates[k].ip.is_none() && candidates[k].hostname.is_none() {
            return Err(
                AppError::MalformedResource(
                    String::from_str("load balancer entry has neither hostname nor IP address"),
                ),
            );
        }
        k = k + 1;
    }
    if candidates.len() == 0 {
        return Ok(None);
    }
    match &candidates[0].ip {
        Some(ip) => Ok(Some(ip.clone())),
        None => match &candidates[0].hostname {
            Some(host) => Ok(Some(host.clone())),
            None => {
                proof {
                    assert(false);
                }
                Ok(None)
            },
        },
    }
}

} // verus!
