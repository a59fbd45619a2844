use vstd::prelude::*;

use crate::records::{names_model, remove_name};
use crate::resource::{contains_name, remove_key};

verus! {

/// The deletion-protection marker this operator owns on its resources.
pub open spec fn spec_finalizer_name() -> Seq<char> {
    "brave-proton.faultycloud.io/finalizer"@
}

/// The marker as a value, for patches and comparisons.
pub fn finalizer_name() -> (s: String)
    ensures
        s@ == spec_finalizer_name(),
{
    String::from_str("brave-proton.faultycloud.io/finalizer")
}

/// Whether the protection marker is present on a finalizer list.
pub fn marker_present(finalizers: &Vec<String>) -> (r: bool)
    ensures
        r == names_model(finalizers@).contains(spec_finalizer_name()),
{
    let marker = finalizer_name();
    contains_name(finalizers, &marker)
}

/// The finalizer list after idempotently adding the marker: unchanged when
/// the marker is already present, else the marker appended. Safe to apply
/// again on re-delivery of the same event.
pub fn add_marker(finalizers: &Vec<String>) -> (r: Vec<String>)
    ensures
        names_model(r@) == if names_model(finalizers@).contains(spec_finalizer_name()) {
            names_model(finalizers@)
        } else {
            names_model(finalizers@).push(spec_finalizer_name())
        },
        names_model(r@).contains(spec_finalizer_name()),
{
    let ghost fm = names_model(finalizers@);
    let mut out: Vec<String> = Vec::new();
    let mut k: usize = 0;
    while k < finalizers.len()
        invariant
            k <= finalizers@.len(),
            fm == names_model(finalizers@),
            names_model(out@) =~= fm.take(k as int),
        decreases finalizers@.len() - k,
    {
        let f = finalizers[k].clone();
        proof {
            assert(names_model(out@.push(f)) =~= names_model(out@).push(fm[k as int]));
            assert(fm.take(k as int).push(fm[k as int]) =~= fm.take(k as int + 1));
        }
        out.push(f);
        k = k + 1;
    }
    proof {
        assert(fm.take(finalizers@.len() as int) =~= fm);
    }
    let marker = finalizer_name();
    if !contains_name(&out, &marker) {
        proof {
            assert(names_model(out@.push(marker)) =~= names_model(out@).push(
                spec_finalizer_name(),
            ));
        }
        out.push(marker);
        proof {
            assert(names_model(out@)[names_model(out@).len() - 1] == spec_finalizer_name());
        }
    }
    out
}

/// The finalizer list after idempotently removing the marker: every
/// occurrence dropped, all other entries kept in order. Removing from a list
/// without the marker changes nothing.
pub fn remove_marker(finalizers: &Vec<String>) -> (r: Vec<String>)
    ensures
        names_model(r@) == remove_name(names_model(finalizers@), spec_finalizer_name()),
        !names_model(r@).contains(spec_finalizer_name()),
{
    let marker = finalizer_name();
    remove_key(finalizers, &marker)
}

} // verus!
