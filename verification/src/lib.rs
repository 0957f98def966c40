//! Verified core of a command-line inspector for Pubky homeservers.
//!
//! - `body`: fetched bodies shown as pretty-printed JSON;
//! - `client`: what the user typed (z-base-32 keys, `pubky<…>` keys, URLs);
//! - `homeserver`: the homeserver a PKRR record names, and its URLs;
//! - `sse`: reading batches of server-sent events;
//! - `stream`: following a stream of events as its text arrives;
//! - `shared`: identifiers, event lines and homeserver addresses used by the commands;
//! - `listing`: storage and event listings as shown;
//! - `cli`: the command line as values;
//! - `pubkey`: the calls into the `pubky` crate;
//! - `text`: character-level text operations;
//! - `laws`: properties across functions.
pub mod body;
pub mod cli;
pub mod client;
pub mod homeserver;
pub mod laws;
pub mod listing;
pub mod pubkey;
pub mod shared;
pub mod sse;
pub mod stream;
pub mod text;
