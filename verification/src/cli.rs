//! The command line as values: what the user asked for, and which homeserver
//! a command is aimed at.
use crate::sse::opt_text;
use crate::text::{str_trim_end_char, trim_end_char};
use vstd::prelude::*;

verus! {

/// pubky-hs-inspect — CLI tool for inspecting Pubky homeserver instances
#[derive(Debug)]
pub struct Cli {
    /// Target homeserver URL or PKRR public key
    pub url: Option<String>,
    pub command: Option<Commands>,
}

/// The commands of the inspector.
#[derive(Debug)]
pub enum Commands {
    /// Inspect a homeserver — resolve its PKRR, show metadata and user count
    Inspect { url: String },
    /// Inspect a Pubky user — resolve their homeserver, show storage and endpoints
    InspectUser { url: String },
    /// Query PKRR records — show raw _pubky SVCB/HTTPS endpoint data
    Pkdns { url: String },
    /// Inspect public storage for a PKRR public key
    Storage { url: String },
    /// List files under a path for a user's storage
    Ls { url: String, path: String },
    /// Show tool version
    Version,
    /// Fetch and print recent file change events from a homeserver
    Events { limit: Option<u64>, rev: bool, homeserver: Option<String> },
    /// Stream events from a homeserver in real-time via the /events-stream/ endpoint
    EventsStream {
        user: Option<String>,
        limit: Option<u64>,
        reverse: bool,
        live: bool,
        homeserver: Option<String>,
    },
}

/// The homeserver an events command is aimed at: its own argument, else the
/// global URL argument, else empty text.
pub open spec fn aimed_homeserver(homeserver: Option<Seq<char>>, global_url: Option<Seq<char>>) -> Seq<char> {
    match homeserver {
        Some(h) => h,
        None => match global_url {
            Some(u) => u,
            None => Seq::<char>::empty(),
        },
    }
}

/// The homeserver an events command is aimed at: its own argument, else the
/// global URL argument, else empty text.
pub fn command_homeserver(homeserver: &Option<String>, global_url: &Option<String>) -> (r: String)
    ensures
        r@ == aimed_homeserver(opt_text(*homeserver), opt_text(*global_url)),
{
    match homeserver {
        Some(h) => h.as_str().to_owned(),
        None => match global_url {
            Some(u) => u.as_str().to_owned(),
            None => String::new(),
        },
    }
}

/// The homeserver the events stream is aimed at: none when the aimed text is
/// empty, else that text without its trailing slashes.
pub fn stream_homeserver(homeserver: &Option<String>, global_url: &Option<String>) -> (r: Option<
    String,
>)
    ensures
        r is None <==> aimed_homeserver(opt_text(*homeserver), opt_text(*global_url)).len() == 0,
        r matches Some(h) ==> h@ == trim_end_char(
            aimed_homeserver(opt_text(*homeserver), opt_text(*global_url)),
            '/',
        ),
{
    let target = command_homeserver(homeserver, global_url);
    if target.as_str().is_empty() {
        None
    } else {
        Some(str_trim_end_char(target.as_str(), '/'))
    }
}

} // verus!
