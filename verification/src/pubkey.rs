//! The calls into the `pubky` crate that the library's logic makes, with what
//! the library assumes of them.
use vstd::prelude::*;

verus! {

/// The z-base-32 text of the public key that `pubky::PublicKey::try_from`
/// reads from `text`, or `None` when it refuses the text.
pub uninterp spec fn public_key_z32(text: Seq<char>) -> Option<Seq<char>>;

/// The transport URL (as text) that `pubky::resolve_pubky` gives for an
/// identifier, or `None` when it refuses the identifier.
pub uninterp spec fn pubky_transport_url(identifier: Seq<char>) -> Option<Seq<char>>;

/// Calls `pubky::PublicKey::try_from(&str)` and renders the key it returns with
/// `PublicKey::z32`, or the error it returns as its message.
///
/// Assumed: success and the key text are `public_key_z32(text@)`, a function of
/// the text alone (the parser decodes the text; nothing else is read). Nothing
/// is stated of the error message.
#[verifier::external_body]
pub(crate) fn parse_public_key(text: &str) -> (r: Result<String, String>)
    ensures
        r is Ok <==> public_key_z32(text@) is Some,
        r matches Ok(z) ==> public_key_z32(text@) == Some(z@),
{
    match pubky::PublicKey::try_from(text) {
        Ok(key) => Ok(key.z32()),
        Err(e) => Err(e.to_string()),
    }
}

/// Calls `pubky::resolve_pubky`, rendering the URL it returns as text, or the
/// error it returns as its message.
///
/// Assumed: success and the URL are `pubky_transport_url(identifier@)`, a function
/// of the identifier alone. Nothing is stated of the error message.
#[verifier::external_body]
pub(crate) fn resolve_pubky_identifier(identifier: &str) -> (r: Result<String, String>)
    ensures
        r is Ok <==> pubky_transport_url(identifier@) is Some,
        r matches Ok(u) ==> pubky_transport_url(identifier@) == Some(u@),
{
    match pubky::resolve_pubky(identifier) {
        Ok(url) => Ok(url.to_string()),
        Err(e) => Err(e.to_string()),
    }
}

} // verus!
