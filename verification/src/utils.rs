use vstd::prelude::*;

verus! {

/// Configuration shared by every reconciliation pass: the periodic resync
/// interval, in seconds.
pub struct KubernetesContext {
    pub update_seconds: u64,
}

/// The intent derived from an observed resource snapshot: establish its DNS
/// state, keep it in sync (requeueing after the given number of seconds), or
/// tear it down.
#[derive(Debug, Clone, Copy, PartialEq, Eq, Structural)]
pub enum OperatorActivities {
    Create,
    Delete,
    Update(u64),
}

} // verus!
