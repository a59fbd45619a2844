use vstd::prelude::*;

use crate::error::AppError;
use crate::records::{ObservedDnsRecord, first_match, host_count, zone_model};
use crate::sync::{count_matches, find_first_match};

verus! {

/// The DNS provider handle as the library models it: the API token the
/// caller injects. The HTTP client built from it lives outside the library,
/// which only ever sees the provider's records and ids as plain values.
#[derive(Debug, Clone)]
pub struct DnsClient {
    pub api_token: String,
}

/// Build the provider handle the blocking client is made from.
pub fn create_client(api_token: &str) -> (r: Result<DnsClient, AppError>)
    ensures
        r is Ok,
        r->Ok_0.api_token@ == api_token@,
{
    Ok(DnsClient { api_token: api_token.to_owned() })
}

/// Build the provider handle the asynchronous client is made from.
pub fn create_cloudflare_client(api_token: &str) -> (r: Result<DnsClient, AppError>)
    ensures
        r is Ok,
        r->Ok_0.api_token@ == api_token@,
{
    create_client(api_token)
}

/// Whether the listed zone holds exactly one record for the hostname.
pub fn has_record(zone: &Vec<ObservedDnsRecord>, name: &String) -> (r: bool)
    ensures
        r == (host_count(zone_model(zone@), name@) == 1),
{
    count_matches(zone, name) == 1
}

/// The provider id of the first record carrying the hostname, if any does.
pub fn get_record(zone: &Vec<ObservedDnsRecord>, name: &String) -> (r: Option<String>)
    ensures
        match r {
            Some(id) => host_count(zone_model(zone@), name@) > 0 && id@ == first_match(
                zone_model(zone@),
                name@,
            ).id,
            None => host_count(zone_model(zone@), name@) == 0,
        },
{
    match find_first_match(zone, name) {
        Some(i) => Some(zone[i].id.clone()),
        None => None,
    }
}

/// The provider id for the hostname, as read from a zone listing.
pub fn get_cloud_record(zone: &Vec<ObservedDnsRecord>, name: &String) -> (r: Option<String>)
    ensures
        match r {
            Some(id) => host_count(zone_model(zone@), name@) > 0 && id@ == first_match(
                zone_model(zone@),
                name@,
            ).id,
            None => host_count(zone_model(zone@), name@) == 0,
        },
{
    get_record(zone, name)
}

} // verus!
