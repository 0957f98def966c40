//! Where a user's data lives: the homeserver named by a PKRR record, and the
//! URLs built from it.
use crate::client::z32_host;
use crate::sse::opt_text;
use crate::text::{str_contains_char, str_equals};
use vstd::prelude::*;

verus! {

/// Information about a homeserver resolved from a PKRR record.
///
/// Keys are held as their z-base-32 text.
#[derive(Debug)]
pub struct HomeserverInfo {
    /// The user whose `_pubky` record was queried (z-base-32).
    pub user_z32: String,
    /// The homeserver's z32 address (pubkey-as-host), or its domain when the record names one.
    pub homeserver_z32: String,
    /// Optional ICANN domain name for the homeserver.
    pub homeserver_domain: Option<String>,
    /// Optional port from the SVCB record.
    pub port: Option<u16>,
    /// The public key from the PKRR record (z-base-32).
    pub record_public_key: String,
}

/// The base URL of the homeserver: its domain when known, else its
/// `_pubky.` host.
pub open spec fn base_url(domain: Option<Seq<char>>, homeserver_z32: Seq<char>) -> Seq<char> {
    match domain {
        Some(d) => "https://"@ + d + "/"@,
        None => "https://_pubky."@ + homeserver_z32 + "/"@,
    }
}

/// The base URL of the homeserver that `info` describes.
pub open spec fn info_base_url(info: HomeserverInfo) -> Seq<char> {
    base_url(opt_text(info.homeserver_domain), info.homeserver_z32@)
}

/// The homeserver address that a PKRR endpoint names for `user`: the endpoint's
/// domain when it has one; otherwise the target, when it looks like a z-base-32
/// public key used as a host (not `.`, without a dot); otherwise the user's own key.
pub open spec fn endpoint_homeserver(
    user: Seq<char>,
    target: Seq<char>,
    domain: Option<Seq<char>>,
) -> Seq<char> {
    match domain {
        Some(d) => d,
        None => if target == "."@ || target.contains('.') {
            user
        } else if z32_host(target) {
            target
        } else {
            user
        },
    }
}

/// A new string holding `a` followed by `b`.
fn concat2(a: &str, b: &str) -> (r: String)
    ensures
        r@ == a@ + b@,
{
    let mut r = a.to_owned();
    r.append(b);
    r
}

/// A new string holding `a`, `b` and `c` in turn.
fn concat3(a: &str, b: &str, c: &str) -> (r: String)
    ensures
        r@ == a@ + b@ + c@,
{
    let mut r = a.to_owned();
    r.append(b);
    r.append(c);
    r
}

/// The base URL for a domain or a `_pubky.` host, ending in `/`.
fn base_url_of(domain: &Option<String>, homeserver_z32: &String) -> (r: String)
    ensures
        r@ == base_url(opt_text(*domain), homeserver_z32@),
{
    match domain {
        Some(d) => concat3("https://", d.as_str(), "/"),
        None => concat3("https://_pubky.", homeserver_z32.as_str(), "/"),
    }
}

impl HomeserverInfo {
    /// Full transport URL for a resource on this homeserver.
    pub fn resource_url(&self, path: &str) -> (r: String)
        ensures
            r@ == info_base_url(*self) + path@,
    {
        let base = base_url_of(&self.homeserver_domain, &self.homeserver_z32);
        concat2(base.as_str(), path)
    }
}

/// Build a transport URL for a resource on a given user's space:
/// `https://_pubky.{user_z32}/{path}`.
pub fn transport_url(user_z32: &str, path: &str) -> (r: String)
    ensures
        r@ == "https://_pubky."@ + user_z32@ + "/"@ + path@,
{
    let mut r = concat3("https://_pubky.", user_z32, "/");
    r.append(path);
    r
}

/// Build the homeserver base URL from resolved info.
pub fn homeserver_url(info: &HomeserverInfo) -> (r: String)
    ensures
        r@ == info_base_url(*info),
{
    base_url_of(&info.homeserver_domain, &info.homeserver_z32)
}

/// Build a full resource URL on the homeserver.
pub fn homeserver_resource(info: &HomeserverInfo, path: &str) -> (r: String)
    ensures
        r@ == info_base_url(*info) + path@,
{
    let base = homeserver_url(info);
    concat2(base.as_str(), path)
}

/// The homeserver information for `user` that a PKRR endpoint gives: its
/// target, optional domain and port, and the public key of its record.
pub fn homeserver_info_from_endpoint(
    user_z32: String,
    target: String,
    domain: Option<String>,
    port: Option<u16>,
    record_public_key: String,
) -> (info: HomeserverInfo)
    ensures
        info.user_z32@ == user_z32@,
        info.homeserver_z32@ == endpoint_homeserver(user_z32@, target@, opt_text(domain)),
        opt_text(info.homeserver_domain) == opt_text(domain),
        info.port == port,
        info.record_public_key@ == record_public_key@,
{
    let homeserver_z32 = match &domain {
        Some(d) => d.as_str().to_owned(),
        None => {
            let dotted = str_contains_char(target.as_str(), '.');
            let is_dot = str_equals(target.as_str(), ".");
            if is_dot || dotted {
                user_z32.as_str().to_owned()
            } else if crate::client::is_z32(target.as_str()) {
                target.as_str().to_owned()
            } else {
                user_z32.as_str().to_owned()
            }
        },
    };
    HomeserverInfo {
        user_z32,
        homeserver_z32,
        homeserver_domain: domain,
        port,
        record_public_key,
    }
}

/// The homeserver information for `user` when only the homeserver's key is
/// known (no endpoint record): no domain, no port, and the homeserver's key as
/// the record's key.
pub fn homeserver_info_from_key(user_z32: String, homeserver_z32: String) -> (info: HomeserverInfo)
    ensures
        info.user_z32@ == user_z32@,
        info.homeserver_z32@ == homeserver_z32@,
        info.homeserver_domain is None,
        info.port is None,
        info.record_public_key@ == homeserver_z32@,
{
    let record_public_key = homeserver_z32.as_str().to_owned();
    HomeserverInfo {
        user_z32,
        homeserver_z32,
        homeserver_domain: None,
        port: None,
        record_public_key,
    }
}

} // verus!
