//! Classifying what the user typed: z-base-32 key text, `pubky<…>` keys and URLs.
use crate::pubkey::{parse_public_key, public_key_z32, pubky_transport_url, resolve_pubky_identifier};
use crate::text::{
    byte_len, chars_of, ends_with, range_starts_with, starts_with, str_contains_char,
};
use vstd::prelude::*;

verus! {

/// The characters that the inspector accepts as z-base-32 key text:
/// `2`–`7` and the letters of `abcdefgjkmnpqrtvwxyz`.
pub open spec fn is_z32_char(c: char) -> bool {
    ||| ('2' <= c && c <= '7')
    ||| ('a' <= c && c <= 'g')
    ||| c == 'j' || c == 'k' || c == 'm' || c == 'n' || c == 'p' || c == 'q' || c == 'r'
    ||| c == 't' || c == 'v' || c == 'w' || c == 'x' || c == 'y' || c == 'z'
}

/// Non-empty text made of z-base-32 characters only.
pub open spec fn valid_z32(s: Seq<char>) -> bool {
    s.len() > 0 && forall|i: int| 0 <= i < s.len() ==> #[trigger] is_z32_char(s[i])
}

/// Text that may be a public key: 52 bytes long, without `/`.
pub open spec fn potential_key(s: Seq<char>) -> bool {
    !s.contains('/') && byte_len(s) == 52
}

/// The characters of the z-base-32 alphabet, `ybndrfg8ejkmcpqxot1uwisza345h769`,
/// in which public keys are written.
pub open spec fn is_zbase32_char(c: char) -> bool {
    ||| ('a' <= c && c <= 'k')
    ||| ('m' <= c && c <= 'u')
    ||| ('w' <= c && c <= 'z')
    ||| c == '1'
    ||| ('3' <= c && c <= '9')
}

/// A character that key text may hold: one of the z-base-32 alphabet, or one
/// that the inspector's own key check (`is_z32_char`) accepts.
pub open spec fn is_key_text_char(c: char) -> bool {
    is_zbase32_char(c) || is_z32_char(c)
}

/// Non-empty key text at least 10 bytes long: what looks like a public key
/// used as a host name.
pub open spec fn z32_host(s: Seq<char>) -> bool {
    &&& s.len() > 0
    &&& forall|i: int| 0 <= i < s.len() ==> #[trigger] is_key_text_char(s[i])
    &&& byte_len(s) >= 10
}

/// `s` with a surrounding `pubky<` … `>` removed, when it has both.
pub open spec fn unwrap_angle_key(s: Seq<char>) -> Seq<char> {
    let p = "pubky<"@;
    if starts_with(s, p) && ends_with(s.skip(p.len() as int), seq!['>']) {
        s.subrange(p.len() as int, s.len() - 1)
    } else {
        s
    }
}

/// Text that looks like a public key once a surrounding `pubky<` … `>` is
/// removed: non-empty, without `/`, 52 bytes long.
pub open spec fn looks_like_key(s: Seq<char>) -> bool {
    let k = unwrap_angle_key(s);
    k.len() > 0 && !k.contains('/') && potential_key(k)
}

/// Whether input is taken for a public key, given whether pubky's key parser
/// accepts the unwrapped text.
pub open spec fn input_is_key(input: Seq<char>, accepted: bool) -> bool {
    let k = unwrap_angle_key(input);
    k.len() > 0 && potential_key(k) && accepted
}

/// Decides `is_z32_char`.
pub fn z32_char(c: char) -> (r: bool)
    ensures
        r == is_z32_char(c),
{
    ('2' <= c && c <= '7') || ('a' <= c && c <= 'g') || c == 'j' || c == 'k' || c == 'm'
        || c == 'n' || c == 'p' || c == 'q' || c == 'r' || c == 't' || c == 'v' || c == 'w'
        || c == 'x' || c == 'y' || c == 'z'
}

/// Whether `s` is non-empty and made of z-base-32 characters only.
pub fn is_valid_z32(s: &str) -> (r: bool)
    ensures
        r == valid_z32(s@),
{
    if s.is_empty() {
        return false;
    }
    for c in iter: s.chars()
        invariant
            iter.seq() == s@,
            s@.len() > 0,
            forall|m: int| 0 <= m < iter.index() ==> is_z32_char(#[trigger] s@[m]),
    {
        if !z32_char(c) {
            assert(!is_z32_char(s@[iter.index() as int]));
            return false;
        }
    }
    true
}

/// Whether `s` could be a public key: 52 bytes long and without `/`
/// (checked before asking the key parser).
pub fn is_potential_key(s: &str) -> (r: bool)
    ensures
        r == potential_key(s@),
{
    !str_contains_char(s, '/') && s.as_bytes().len() == 52
}

/// Decides `is_zbase32_char`.
pub fn zbase32_char(c: char) -> (r: bool)
    ensures
        r == is_zbase32_char(c),
{
    ('a' <= c && c <= 'k') || ('m' <= c && c <= 'u') || ('w' <= c && c <= 'z') || c == '1' || (
    '3' <= c && c <= '9')
}

/// Whether `s` looks like a public key used as a host name: non-empty key
/// text (see `is_key_text_char`), at least 10 bytes long.
pub fn is_z32(s: &str) -> (r: bool)
    ensures
        r == z32_host(s@),
{
    if s.is_empty() {
        return false;
    }
    for c in iter: s.chars()
        invariant
            iter.seq() == s@,
            s@.len() > 0,
            forall|m: int| 0 <= m < iter.index() ==> is_key_text_char(#[trigger] s@[m]),
    {
        if !zbase32_char(c) && !z32_char(c) {
            assert(!is_key_text_char(s@[iter.index() as int]));
            return false;
        }
    }
    s.as_bytes().len() >= 10
}

/// `s` with a surrounding `pubky<` … `>` removed, when it has both.
pub fn unwrap_angle_key_str(s: &str) -> (r: &str)
    ensures
        r@ == unwrap_angle_key(s@),
{
    let v = chars_of(s);
    let p = chars_of("pubky<");
    let n = v.len();
    assert(v@.subrange(0, n as int) =~= v@);
    if range_starts_with(&v, 0, n, &p) && n > p.len() && v[n - 1] == '>' {
        proof {
            let rest = s@.skip(p@.len() as int);
            assert(rest.skip(rest.len() - 1) =~= seq!['>']);
        }
        s.substring_char(p.len(), n - 1)
    } else {
        proof {
            let rest = s@.skip(p@.len() as int);
            if starts_with(s@, p@) && ends_with(rest, seq!['>']) {
                assert(rest.skip(rest.len() - 1)[0] == s@[n - 1]);
            }
        }
        s
    }
}

/// Whether `s`, once a surrounding `pubky<` … `>` is removed, is non-empty,
/// has no `/` and is 52 bytes long.
pub fn looks_like_pubkey(s: &str) -> (r: bool)
    ensures
        r == looks_like_key(s@),
{
    let stripped = unwrap_angle_key_str(s);
    !stripped.is_empty() && !str_contains_char(stripped, '/') && is_potential_key(stripped)
}

/// What the user typed: a public key, or anything else (taken for a URL).
/// Either way the text is kept as it was typed.
#[derive(Clone, Debug)]
pub enum InputType {
    PublicKey(String),
    Url(String),
}

impl InputType {
    /// The text as the user typed it.
    pub open spec fn text(&self) -> Seq<char> {
        match self {
            InputType::PublicKey(s) => s@,
            InputType::Url(s) => s@,
        }
    }

    pub fn is_pubkey(&self) -> (r: bool)
        ensures
            r == (self is PublicKey),
    {
        match self {
            InputType::PublicKey(_) => true,
            InputType::Url(_) => false,
        }
    }

    pub fn is_url(&self) -> (r: bool)
        ensures
            r == (self is Url),
    {
        match self {
            InputType::PublicKey(_) => false,
            InputType::Url(_) => true,
        }
    }
}

/// Classifies `input` given `accepted`, whether pubky's key parser accepts
/// `unwrap_angle_key(input)`: a public key when the unwrapped text is non-empty,
/// may be a key and is accepted; a URL otherwise.
pub fn classify_input(input: &str, accepted: bool) -> (r: InputType)
    ensures
        (r is PublicKey) == input_is_key(input@, accepted),
        r.text() == input@,
{
    let stripped = unwrap_angle_key_str(input);
    if !stripped.is_empty() && is_potential_key(stripped) && accepted {
        InputType::PublicKey(input.to_owned())
    } else {
        InputType::Url(input.to_owned())
    }
}

/// Classifies what the user typed. Text that, once a surrounding `pubky<` … `>`
/// is removed, is non-empty, may be a key and is accepted by pubky's key parser
/// is a public key; anything else is a URL. The text is kept as typed.
pub fn parse_input(input: &str) -> (r: InputType)
    ensures
        (r is PublicKey) == input_is_key(input@, public_key_z32(unwrap_angle_key(input@)) is Some),
        r.text() == input@,
{
    let stripped = unwrap_angle_key_str(input);
    let accepted = if !stripped.is_empty() && is_potential_key(stripped) {
        parse_public_key(stripped).is_ok()
    } else {
        false
    };
    classify_input(input, accepted)
}

/// The z-base-32 text of the public key that pubky reads from `key`, or
/// pubky's reason for refusing `key`.
pub fn key_z32(key: &str) -> (r: Result<String, String>)
    ensures
        r is Ok <==> public_key_z32(key@) is Some,
        r matches Ok(z) ==> public_key_z32(key@) == Some(z@),
{
    parse_public_key(key)
}

/// A key as pubky displays it: `pubky` followed by its z-base-32 text.
pub fn key_display(z32: &str) -> (r: String)
    ensures
        r@ == "pubky"@ + z32@,
{
    let mut r = "pubky".to_owned();
    r.append(z32);
    r
}

/// The transport URL that pubky gives for a `pubky://…` or `pubky<…>/…`
/// identifier, or pubky's reason for refusing it.
pub fn resolve_pubky(identifier: &str) -> (r: Result<String, String>)
    ensures
        r is Ok <==> pubky_transport_url(identifier@) is Some,
        r matches Ok(u) ==> pubky_transport_url(identifier@) == Some(u@),
{
    resolve_pubky_identifier(identifier)
}

} // verus!
