//! Rules shared by the commands: reading identifiers, event lines and
//! homeserver addresses.
use crate::homeserver::HomeserverInfo;
use crate::sse::opt_text;
use crate::text::{
    byte_len, chars_of, ends_with, is_white_space, range_starts_with, starts_with,
    str_equals, str_trim_end_char, string_of_range, trim, trim_end_char, trim_end_pos,
    trim_start, trim_start_pos,
};
use vstd::prelude::*;
use vstd::string::StringSliceAdditionalSpecFns;

verus! {

broadcast use vstd::utf8::encode_utf8_decode_utf8, vstd::utf8::encode_utf8_valid_utf8;

// ---------------------------------------------------------------------------
// Identifiers
// ---------------------------------------------------------------------------

/// `s` without a leading `pubky://`, or without a surrounding `pubky<` … `>`.
pub open spec fn strip_scheme(s: Seq<char>) -> Seq<char> {
    let url = "pubky://"@;
    let angle = "pubky<"@;
    if starts_with(s, url) {
        s.skip(url.len() as int)
    } else if starts_with(s, angle) && ends_with(s, seq!['>']) {
        s.subrange(angle.len() as int, s.len() - 1)
    } else {
        s
    }
}

/// The address within public storage that an identifier names: `pubky://`
/// removed from the front, or `pubky<` … `>` removed from around it.
pub fn strip_pubky_scheme(input: &str) -> (r: String)
    ensures
        r@ == strip_scheme(input@),
{
    let v = chars_of(input);
    let n = v.len();
    assert(v@.subrange(0, n as int) =~= v@);
    let url = chars_of("pubky://");
    if range_starts_with(&v, 0, n, &url) {
        assert(v@.subrange(url@.len() as int, n as int) =~= v@.skip(url@.len() as int));
        return string_of_range(&v, url.len(), n);
    }
    let angle = chars_of("pubky<");
    let opens = range_starts_with(&v, 0, n, &angle);
    if opens && n > 0 && v[n - 1] == '>' {
        proof {
            reveal_strlit("pubky<");
            assert(v@.take(6)[5] == '<');
            assert(v@.skip(n - 1) =~= seq!['>']);
        }
        string_of_range(&v, angle.len(), n - 1)
    } else {
        proof {
            if n > 0 && ends_with(v@, seq!['>']) {
                assert(v@.skip(n - 1)[0] == v@[n - 1]);
            }
        }
        input.to_owned()
    }
}

// ---------------------------------------------------------------------------
// Event lines
// ---------------------------------------------------------------------------

/// Index of the first white space character in `t`, or its length.
pub open spec fn word_end(t: Seq<char>) -> int
    decreases t.len(),
{
    if t.len() == 0 || is_white_space(t[0]) {
        0
    } else {
        1 + word_end(t.drop_first())
    }
}

/// The first white-space-separated word of `s`, if any
/// (`s.split_whitespace().next()`).
pub open spec fn first_word(s: Seq<char>) -> Option<Seq<char>> {
    let t = trim_start(s);
    if t.len() == 0 {
        None
    } else {
        Some(t.take(word_end(t)))
    }
}

/// The text of `s` from byte `k` on (`&s[k..]`).
pub open spec fn from_byte(s: Seq<char>, k: int) -> Seq<char> {
    vstd::utf8::decode_utf8(vstd::utf8::encode_utf8(s).skip(k))
}

/// The line can be cut after as many bytes as its first word has: the cut
/// falls on a character boundary.
pub open spec fn event_line_cuttable(s: Seq<char>) -> bool {
    match first_word(s) {
        Some(w) => vstd::utf8::is_char_boundary(vstd::utf8::encode_utf8(s), byte_len(w) as int),
        None => true,
    }
}

/// The kind of change that an event line reports.
#[derive(Debug, Clone, Copy, PartialEq, Eq)]
pub enum EventKind {
    Put,
    Del,
    Other,
}

/// The kind named by the first word of an event line.
pub open spec fn event_kind(w: Seq<char>) -> EventKind {
    if w == "PUT"@ {
        EventKind::Put
    } else if w == "DEL"@ {
        EventKind::Del
    } else {
        EventKind::Other
    }
}

/// An event line cut into its type and the rest.
#[derive(Debug, Clone)]
pub struct EventLine {
    pub kind: EventKind,
    /// The first word of the line.
    pub event_type: String,
    /// The line after as many bytes as the first word has, trimmed.
    pub rest: String,
}

proof fn lemma_word_end(s: Seq<char>, k: int)
    requires
        0 <= k <= s.len(),
        forall|i: int| 0 <= i < k ==> !is_white_space(#[trigger] s[i]),
        k == s.len() || is_white_space(s[k]),
    ensures
        word_end(s) == k,
    decreases k,
{
    if k > 0 {
        assert(!is_white_space(s[0]));
        assert forall|i: int| 0 <= i < k - 1 implies !is_white_space(#[trigger] s.drop_first()[i]) by {
            assert(s.drop_first()[i] == s[i + 1]);
        }
        lemma_word_end(s.drop_first(), k - 1);
    }
}

/// Where the first word of `v` lies: `None` when `v` has no word.
fn first_word_range(v: &Vec<char>) -> (r: Option<(usize, usize)>)
    ensures
        match first_word(v@) {
            None => r is None,
            Some(w) => r matches Some((i, j)) && i <= j <= v@.len() && v@.subrange(
                i as int,
                j as int,
            ) == w,
        },
{
    let n = v.len();
    assert(v@.subrange(0, n as int) =~= v@);
    let i = trim_start_pos(v, 0, n);
    if i == n {
        return None;
    }
    let mut j = i;
    while j < n && !crate::text::white_space(v[j])
        invariant
            i <= j <= n,
            n == v@.len(),
            forall|m: int| i <= m < j ==> !is_white_space(#[trigger] v@[m]),
        decreases n - j,
    {
        j = j + 1;
    }
    let ghost t = v@.subrange(i as int, n as int);
    proof {
        assert forall|m: int| 0 <= m < j - i implies !is_white_space(#[trigger] t[m]) by {
            assert(t[m] == v@[i + m]);
        }
        lemma_word_end(t, j - i);
        assert(t.take(j - i) =~= v@.subrange(i as int, j as int));
    }
    Some((i, j))
}

/// Whether `split_event_line` can cut `line`: the cut after as many bytes as
/// its first word has falls on a character boundary.
pub fn can_cut_event_line(line: &str) -> (r: bool)
    ensures
        r == event_line_cuttable(line@),
{
    let v = chars_of(line);
    match first_word_range(&v) {
        None => true,
        Some((i, j)) => {
            let word = string_of_range(&v, i, j);
            let k = word.as_str().as_bytes().len();
            line.is_char_boundary(k)
        },
    }
}

/// Cuts an event line (`<type> <path>`) into its type, the kind that type
/// names (`PUT`, `DEL`, or another) and the rest: the line after as many bytes
/// as the type has, trimmed. A line with no word gives `None`.
pub fn split_event_line(line: &str) -> (r: Option<EventLine>)
    requires
        event_line_cuttable(line@),
    ensures
        match first_word(line@) {
            None => r is None,
            Some(w) => r matches Some(el) && el.event_type@ == w && el.kind == event_kind(w)
                && el.rest@ == trim(from_byte(line@, byte_len(w) as int)),
        },
{
    let v = chars_of(line);
    let (i, j) = match first_word_range(&v) {
        None => {
            return None;
        },
        Some(range) => range,
    };
    let word = string_of_range(&v, i, j);
    let k = word.as_str().as_bytes().len();
    let (_, after) = line.split_at(k);
    assert(after@ == from_byte(line@, k as int)) by {
        assert(line.spec_bytes().subrange(k as int, line.spec_bytes().len() as int)
            =~= vstd::utf8::encode_utf8(line@).skip(k as int));
    }
    let w = chars_of(after);
    let m = w.len();
    let te = trim_end_pos(&w, 0, m);
    let ts = trim_start_pos(&w, 0, te);
    assert(w@.subrange(0, m as int) =~= w@);
    let rest = string_of_range(&w, ts, te);
    let kind = if str_equals(word.as_str(), "PUT") {
        EventKind::Put
    } else if str_equals(word.as_str(), "DEL") {
        EventKind::Del
    } else {
        EventKind::Other
    };
    Some(EventLine { kind, event_type: word, rest })
}

// ---------------------------------------------------------------------------
// Homeserver addresses
// ---------------------------------------------------------------------------

/// Input that is already an HTTP URL: it starts with `http://` or `https://`.
pub open spec fn is_http_url(s: Seq<char>) -> bool {
    starts_with(s, "http://"@) || starts_with(s, "https://"@)
}

/// The base URL of a homeserver named by input that is not an HTTP URL, once
/// the key lookup (when the input is a key) has given `found`: from the
/// homeserver's domain, else from its `_pubky.` host; the input taken as a
/// domain when nothing was found.
pub open spec fn looked_up_base_url(input: Seq<char>, found: Option<HomeserverInfo>) -> Seq<char> {
    match found {
        Some(info) => match opt_text(info.homeserver_domain) {
            Some(d) => "https://"@ + d,
            None => "https://_pubky."@ + info.homeserver_z32@,
        },
        None => "https://"@ + input,
    }
}

/// The base URL for input that is already an HTTP URL: the input without its
/// trailing slashes. `None` for any other input.
pub fn direct_homeserver_url(input: &str) -> (r: Option<String>)
    ensures
        is_http_url(input@) <==> r is Some,
        r matches Some(u) ==> u@ == trim_end_char(input@, '/'),
{
    if crate::text::str_starts_with(input, "http://") || crate::text::str_starts_with(
        input,
        "https://",
    ) {
        Some(str_trim_end_char(input, '/'))
    } else {
        None
    }
}

/// The base URL for input that is not an HTTP URL, given what the lookup of
/// its key found (`None` when the input is no key or nothing was found).
pub fn looked_up_homeserver_url(input: &str, found: Option<&HomeserverInfo>) -> (r: String)
    ensures
        r@ == looked_up_base_url(
            input@,
            match found {
                Some(i) => Some(*i),
                None => None,
            },
        ),
{
    match found {
        Some(info) => match &info.homeserver_domain {
            Some(d) => {
                let mut r = "https://".to_owned();
                r.append(d.as_str());
                r
            },
            None => {
                let mut r = "https://_pubky.".to_owned();
                r.append(info.homeserver_z32.as_str());
                r
            },
        },
        None => {
            let mut r = "https://".to_owned();
            r.append(input);
            r
        },
    }
}

/// The base URL shown beside resolved homeserver information: from the
/// homeserver's address with `https://` when a domain is known, else from its
/// `_pubky.` host, ending in `/`.
pub fn shown_base_url(info: &HomeserverInfo) -> (r: String)
    ensures
        r@ == (if info.homeserver_domain is Some {
            "https://"@ + info.homeserver_z32@ + "/"@
        } else {
            "https://_pubky."@ + info.homeserver_z32@ + "/"@
        }),
{
    let mut r = if info.homeserver_domain.is_some() {
        "https://".to_owned()
    } else {
        "https://_pubky.".to_owned()
    };
    r.append(info.homeserver_z32.as_str());
    r.append("/");
    r
}

/// The profile document under a base URL that ends in `/`.
pub fn profile_url(base: &str) -> (r: String)
    ensures
        r@ == base@ + "pub/pubky.app/profile.json"@,
{
    let mut r = base.to_owned();
    r.append("pub/pubky.app/profile.json");
    r
}

/// The public storage address of a user's path: `pubky://{z32}{path}`.
pub fn storage_address(user_z32: &str, path: &str) -> (r: String)
    ensures
        r@ == "pubky://"@ + user_z32@ + path@,
{
    let mut r = "pubky://".to_owned();
    r.append(user_z32);
    r.append(path);
    r
}

} // verus!
