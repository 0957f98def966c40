//! Properties that hold across the library's functions, for all inputs.
use crate::client::{
    input_is_key, is_key_text_char, is_z32_char, looks_like_key, unwrap_angle_key, valid_z32, z32_host,
};
use crate::homeserver::{base_url, endpoint_homeserver};
use crate::shared::{first_word, strip_scheme, word_end};
use crate::text::{byte_len, ends_with, is_white_space, starts_with, trim_end_char, trim_start};
use vstd::prelude::*;

verus! {

/// Input that `parse_input` takes for a public key always passes the
/// `looks_like_pubkey` check, whatever the key parser says.
pub proof fn law_key_input_looks_like_pubkey(input: Seq<char>, accepted: bool)
    requires
        input_is_key(input, accepted),
    ensures
        looks_like_key(input),
{
}

/// Key text is ASCII: its byte length is its number of characters, so the
/// byte-length checks of `is_potential_key` and `is_z32` count characters on it.
pub proof fn law_z32_text_counts_characters(s: Seq<char>)
    requires
        valid_z32(s) || forall|i: int| 0 <= i < s.len() ==> #[trigger] is_key_text_char(s[i]),
    ensures
        byte_len(s) == s.len(),
{
    assert(vstd::utf8::is_ascii_chars(s)) by {
        assert forall|i: int| 0 <= i < s.len() implies '\0' <= #[trigger] s[i] <= '\u{7f}' by {
            if valid_z32(s) {
                assert(is_z32_char(s[i]));
            } else {
                assert(is_key_text_char(s[i]));
            }
        }
    }
    vstd::utf8::is_ascii_chars_encode_utf8(s);
}

/// `pubky<k>` names `k`: both `strip_pubky_scheme` and the unwrapping done by
/// `parse_input` and `looks_like_pubkey` give back `k`.
pub proof fn law_angle_form_unwraps(k: Seq<char>)
    ensures
        strip_scheme("pubky<"@ + k + ">"@) == k,
        unwrap_angle_key("pubky<"@ + k + ">"@) == k,
{
    reveal_strlit("pubky<");
    reveal_strlit("pubky://");
    reveal_strlit(">");
    let s = "pubky<"@ + k + ">"@;
    assert(s.take(6) =~= "pubky<"@);
    assert(!starts_with(s, "pubky://"@)) by {
        if starts_with(s, "pubky://"@) {
            assert(s.take(8)[5] == "pubky://"@[5]);
        }
    }
    assert(s.skip(s.len() - 1) =~= seq!['>']);
    assert(s.skip(6).skip(s.skip(6).len() - 1) =~= seq!['>']);
    assert(s.subrange(6, s.len() - 1) =~= k);
}

/// `pubky://x` names `x`: `strip_pubky_scheme` removes the scheme and nothing else.
pub proof fn law_url_form_strips(x: Seq<char>)
    ensures
        strip_scheme("pubky://"@ + x) == x,
{
    let s = "pubky://"@ + x;
    assert(s.take("pubky://"@.len() as int) =~= "pubky://"@);
    assert(s.skip("pubky://"@.len() as int) =~= x);
}

/// A homeserver URL given directly loses all its trailing slashes and
/// nothing else: the result does not end in `/`, and the input is the result
/// followed by slashes only.
pub proof fn law_trailing_slashes_trimmed(s: Seq<char>)
    ensures
        !ends_with(trim_end_char(s, '/'), seq!['/']),
        starts_with(s, trim_end_char(s, '/')),
        forall|i: int|
            trim_end_char(s, '/').len() <= i < s.len() ==> #[trigger] s[i] == '/',
    decreases s.len(),
{
    if s.len() > 0 && s.last() == '/' {
        law_trailing_slashes_trimmed(s.drop_last());
        let t = trim_end_char(s, '/');
        assert(s.drop_last().take(t.len() as int) =~= s.take(t.len() as int));
        assert forall|i: int| t.len() <= i < s.len() implies #[trigger] s[i] == '/' by {
            if i < s.len() - 1 {
                assert(s.drop_last()[i] == s[i]);
            }
        }
    } else {
        assert(s.take(s.len() as int) =~= s);
        if s.len() > 0 {
            assert(s.skip(s.len() - 1)[0] == s.last());
        }
    }
}

/// The homeserver that a PKRR endpoint names is its domain when it has one;
/// without a domain it is the endpoint's target or the user's own key, and
/// the target only when it looks like a key used as a host.
pub proof fn law_endpoint_homeserver_choice(
    user: Seq<char>,
    target: Seq<char>,
    domain: Option<Seq<char>>,
)
    ensures
        domain matches Some(d) ==> endpoint_homeserver(user, target, domain) == d,
        domain is None ==> endpoint_homeserver(user, target, domain) == target
            || endpoint_homeserver(user, target, domain) == user,
        domain is None && endpoint_homeserver(user, target, domain) != user ==> z32_host(target),
{
}

/// Every homeserver base URL is an `https://` URL ending in `/`, so a path
/// appended to it (`resource_url`, `homeserver_resource`) lands under it.
pub proof fn law_base_url_is_https_directory(domain: Option<Seq<char>>, homeserver_z32: Seq<char>)
    ensures
        starts_with(base_url(domain, homeserver_z32), "https://"@),
        ends_with(base_url(domain, homeserver_z32), "/"@),
{
    reveal_strlit("https://");
    reveal_strlit("https://_pubky.");
    reveal_strlit("/");
    let b = base_url(domain, homeserver_z32);
    assert(b.take(8) =~= "https://"@);
    assert(b.skip(b.len() - 1) =~= "/"@);
}

/// The type read from an event line is a word: non-empty, with no white
/// space in it, taken from the line after its leading white space.
pub proof fn law_event_type_is_a_word(s: Seq<char>)
    ensures
        first_word(s) matches Some(w) ==> {
            &&& w.len() > 0
            &&& forall|i: int| 0 <= i < w.len() ==> !is_white_space(#[trigger] w[i])
            &&& starts_with(trim_start(s), w)
        },
{
    let t = trim_start(s);
    if t.len() > 0 {
        lemma_word_end_bounds(t);
        let w = t.take(word_end(t));
        assert forall|i: int| 0 <= i < w.len() implies !is_white_space(#[trigger] w[i]) by {
            lemma_word_end_prefix(t, i);
        }
        lemma_trim_start_starts(s);
    }
}

proof fn lemma_word_end_bounds(t: Seq<char>)
    ensures
        0 <= word_end(t) <= t.len(),
        t.len() > 0 && !is_white_space(t[0]) ==> word_end(t) > 0,
    decreases t.len(),
{
    if t.len() > 0 && !is_white_space(t[0]) {
        lemma_word_end_bounds(t.drop_first());
    }
}

proof fn lemma_word_end_prefix(t: Seq<char>, i: int)
    requires
        0 <= i < word_end(t),
    ensures
        !is_white_space(t[i]),
    decreases i,
{
    lemma_word_end_bounds(t);
    if i > 0 {
        lemma_word_end_prefix(t.drop_first(), i - 1);
    }
}

proof fn lemma_trim_start_starts(s: Seq<char>)
    ensures
        trim_start(s).len() > 0 ==> !is_white_space(trim_start(s)[0]),
    decreases s.len(),
{
    if s.len() > 0 && is_white_space(s[0]) {
        lemma_trim_start_starts(s.drop_first());
    }
}

} // verus!
