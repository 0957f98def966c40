//! Showing a fetched body: JSON objects pretty-printed line by line.
use crate::sse::{lines_of, text_lines};
use crate::text::{looks_like_json_object, starts_with, trim_start};
use vstd::prelude::*;

verus! {

/// The pretty-printed form that serde_json gives of `text` read as a JSON
/// value, or `None` when `text` is not JSON.
pub uninterp spec fn pretty_json(text: Seq<char>) -> Option<Seq<char>>;

/// Calls `serde_json::from_str::<serde_json::Value>` on the text and
/// `serde_json::to_string_pretty` on the value it reads.
///
/// Assumed: the outcome is `pretty_json(text@)`, a function of the text alone.
/// `to_string_pretty` does not fail on a `Value` (its map keys are strings).
#[verifier::external_body]
pub(crate) fn json_pretty(text: &str) -> (r: Option<String>)
    ensures
        r is Some <==> pretty_json(text@) is Some,
        r matches Some(p) ==> pretty_json(text@) == Some(p@),
{
    match serde_json::from_str::<serde_json::Value>(text) {
        Ok(value) => serde_json::to_string_pretty(&value).ok(),
        Err(_) => None,
    }
}

/// Text that is shown as JSON: after its leading white space it starts with `{`.
pub open spec fn shown_as_json(text: Seq<char>) -> bool {
    starts_with(trim_start(text), seq!['{'])
}

/// At most `max` of `lines` (all of them without a cap), from the first.
pub open spec fn capped(lines: Seq<Seq<char>>, max: Option<usize>) -> Seq<Seq<char>> {
    match max {
        Some(m) => if m < lines.len() {
            lines.take(m as int)
        } else {
            lines
        },
        None => lines,
    }
}

/// The lines shown for a body, given `pretty`, its pretty-printed JSON form:
/// for a body shown as JSON that has that form, the form's lines (at most
/// `max` of them), each after `indent`; otherwise nothing.
pub open spec fn body_view(
    text: Seq<char>,
    pretty: Option<Seq<char>>,
    indent: Seq<char>,
    max: Option<usize>,
) -> Option<Seq<Seq<char>>> {
    match pretty {
        Some(p) => if shown_as_json(text) {
            Some(capped(lines_of(p), max).map_values(|l: Seq<char>| indent + l))
        } else {
            None
        },
        None => None,
    }
}

/// The lines shown for a body, given its pretty-printed JSON form `pretty`
/// (`None` when it is not JSON): `None` when the body is not shown as JSON.
pub fn body_lines(text: &str, pretty: Option<String>, indent: &str, max_lines: Option<usize>) -> (r:
    Option<Vec<String>>)
    ensures
        match body_view(
            text@,
            match pretty {
                Some(p) => Some(p@),
                None => None,
            },
            indent@,
            max_lines,
        ) {
            Some(ls) => r matches Some(v) && v@.map_values(|l: String| l@) == ls,
            None => r is None,
        },
{
    if !looks_like_json_object(text) {
        return None;
    }
    let p = match pretty {
        Some(p) => p,
        None => {
            return None;
        },
    };
    let all = text_lines(p.as_str());
    let n = all.len();
    let shown: usize = match max_lines {
        Some(m) => if m < n {
            m
        } else {
            n
        },
        None => n,
    };
    let ghost want = capped(all@.map_values(|l: String| l@), max_lines);
    assert(want.len() == shown);
    assert forall|i: int| 0 <= i < shown implies want[i] == #[trigger] all@[i]@ by {}
    let mut out: Vec<String> = Vec::new();
    for k in 0..shown
        invariant
            shown <= n == all@.len(),
            want.len() == shown,
            forall|i: int| 0 <= i < shown ==> want[i] == #[trigger] all@[i]@,
            out@.len() == k,
            forall|i: int| 0 <= i < k ==> #[trigger] out@[i]@ == indent@ + all@[i]@,
    {
        let mut line = indent.to_owned();
        line.append(all[k].as_str());
        out.push(line);
    }
    assert(out@.map_values(|l: String| l@) =~= want.map_values(|l: Seq<char>| indent@ + l));
    Some(out)
}

/// The lines shown for a fetched body: for a body shown as JSON that
/// serde_json reads, its pretty-printed lines (at most `max_lines` of them),
/// each after `indent`; `None` for any other body.
pub fn rendered_body(text: &str, indent: &str, max_lines: Option<usize>) -> (r: Option<Vec<String>>)
    ensures
        match body_view(text@, pretty_json(text@), indent@, max_lines) {
            Some(ls) => r matches Some(v) && v@.map_values(|l: String| l@) == ls,
            None => r is None,
        },
{
    if !looks_like_json_object(text) {
        return None;
    }
    let pretty = json_pretty(text);
    body_lines(text, pretty, indent, max_lines)
}

/// Without a cap every line is shown; with a cap `m`, the first `m` lines (all
/// of them when there are fewer). So a body shown as JSON, with pretty form
/// `p`, is shown as every line of `p`, each after the indent, when no cap is
/// asked for.
pub proof fn law_no_cap_shows_every_line(
    lines: Seq<Seq<char>>,
    m: usize,
    text: Seq<char>,
    p: Seq<char>,
    indent: Seq<char>,
)
    ensures
        capped(lines, None) == lines,
        capped(lines, Some(m)).len() == (if m < lines.len() { m as int } else { lines.len() as int }),
        capped(lines, Some(m)).is_prefix_of(lines),
        shown_as_json(text) ==> body_view(text, Some(p), indent, None) == Some(
            lines_of(p).map_values(|l: Seq<char>| indent + l),
        ),
        !shown_as_json(text) ==> body_view(text, Some(p), indent, None) is None,
{
    let c = capped(lines, Some(m));
    assert(c =~= lines.subrange(0, c.len() as int));
}

} // verus!
