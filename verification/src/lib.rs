//! A reconciliation engine that keeps a DNS zone's A records synchronized
//! with the hostnames and addresses declared by ingress-like cluster
//! resources. Every pass classifies the observed resource, diffs the desired
//! records against the zone as the provider reports it, and plans the
//! mutations and marker patches to apply — guarded by a deletion-protection
//! marker so DNS cleanup is confirmed before a resource may disappear.

pub mod apply;
pub mod clouddns;
pub mod dispatch;
pub mod error;
pub mod finalizer;
pub mod policy;
pub mod records;
pub mod reconciller;
pub mod resource;
pub mod sync;
pub mod utils;
