//! Presenting storage listings and event listings.
use crate::sse::{decimal, decimal_string, lemma_lines_split, lines_of};
use crate::text::{
    chars_of, contains_text, ends_with, range_starts_with, starts_with, str_contains,
    str_starts_with, string_of_range,
};
use vstd::prelude::*;

verus! {

// ---------------------------------------------------------------------------
// Storage listings
// ---------------------------------------------------------------------------

/// An entry's name relative to the listed directory: the entry without the
/// directory's address in front, when it starts with it.
pub open spec fn relative_name(target: Seq<char>, entry: Seq<char>) -> Seq<char> {
    if starts_with(entry, target) {
        entry.skip(target.len() as int)
    } else {
        entry
    }
}

/// The line shown for one entry: an indent, a folder mark for names ending in
/// `/` or a file mark for the others, and the relative name.
pub open spec fn listing_line(target: Seq<char>, entry: Seq<char>) -> Seq<char> {
    let name = relative_name(target, entry);
    "   "@ + (if ends_with(name, seq!['/']) {
        "📁"@
    } else {
        "📄"@
    }) + " "@ + name
}

/// The lines shown for a storage listing of `target`, one per entry, in order.
pub fn format_list(target: &str, entries: &Vec<String>) -> (lines: Vec<String>)
    ensures
        lines@.len() == entries@.len(),
        forall|i: int|
            0 <= i < entries@.len() ==> #[trigger] lines@[i]@ == listing_line(target@, entries@[i]@),
{
    let t = chars_of(target);
    let mut lines: Vec<String> = Vec::new();
    for k in 0..entries.len()
        invariant
            t@ == target@,
            lines@.len() == k,
            forall|i: int|
                0 <= i < k ==> #[trigger] lines@[i]@ == listing_line(target@, entries@[i]@),
    {
        let e = chars_of(entries[k].as_str());
        let n = e.len();
        assert(e@.subrange(0, n as int) =~= e@);
        let start = if range_starts_with(&e, 0, n, &t) {
            t.len()
        } else {
            0
        };
        assert(e@.subrange(start as int, n as int) == relative_name(target@, entries@[k as int]@)) by {
            if start == 0 {
                assert(e@.subrange(0, n as int) =~= e@);
            } else {
                assert(e@.subrange(start as int, n as int) =~= e@.skip(t@.len() as int));
            }
        }
        let is_dir = n > start && e[n - 1] == '/';
        proof {
            let name = e@.subrange(start as int, n as int);
            if is_dir {
                assert(name.skip(name.len() - 1) =~= seq!['/']);
            } else if name.len() > 0 && ends_with(name, seq!['/']) {
                assert(name.skip(name.len() - 1)[0] == e@[n - 1]);
            }
        }
        let mut line = "   ".to_owned();
        if is_dir {
            line.append("📁");
        } else {
            line.append("📄");
        }
        line.append(" ");
        let name = string_of_range(&e, start, n);
        line.append(name.as_str());
        lines.push(line);
    }
    lines
}

// ---------------------------------------------------------------------------
// A user's public storage, as the user inspection shows it
// ---------------------------------------------------------------------------

/// The entries shown at most.
pub open spec fn preview_size() -> nat {
    10
}

/// The lines shown for a user's storage entries: the first ten, indented, and
/// a count of the others when there are more.
pub open spec fn storage_preview(entries: Seq<Seq<char>>) -> Seq<Seq<char>> {
    let n = entries.len();
    let shown = if n > preview_size() { preview_size() } else { n };
    let lines = entries.take(shown as int).map_values(|e: Seq<char>| "     "@ + e);
    if n > preview_size() {
        lines.push("     ... and "@ + decimal((n - preview_size()) as nat) + " more"@)
    } else {
        lines
    }
}

/// The text of each string.
pub open spec fn texts(v: Seq<String>) -> Seq<Seq<char>> {
    v.map_values(|s: String| s@)
}

/// The lines shown for a user's storage entries: the first ten, indented, and
/// `... and N more` when there are more.
pub fn storage_lines(entries: &Vec<String>) -> (lines: Vec<String>)
    ensures
        texts(lines@) == storage_preview(texts(entries@)),
{
    let n = entries.len();
    let shown: usize = if n > 10 {
        10
    } else {
        n
    };
    let mut lines: Vec<String> = Vec::new();
    for k in 0..shown
        invariant
            shown <= n == entries@.len(),
            shown == (if n > 10 { 10 } else { n }),
            lines@.len() == k,
            forall|i: int| 0 <= i < k ==> #[trigger] lines@[i]@ == "     "@ + entries@[i]@,
    {
        let mut line = "     ".to_owned();
        line.append(entries[k].as_str());
        lines.push(line);
    }
    let ghost shown_lines = lines@;
    let ghost want = texts(entries@).take(shown as int).map_values(|e: Seq<char>| "     "@ + e);
    assert(texts(shown_lines) =~= want);
    if n > 10 {
        let mut more = "     ... and ".to_owned();
        let count = decimal_string((n - 10) as u64);
        more.append(count.as_str());
        more.append(" more");
        lines.push(more);
        assert(texts(lines@) =~= texts(shown_lines).push(more@));
    }
    lines
}

/// What a listing of the user's storage gave.
pub enum ListOutcome {
    Listed(Vec<String>),
    Failed(String),
}

/// What the user inspection does after listing the user's storage.
#[derive(Debug, PartialEq, Eq)]
pub enum StorageAction {
    /// Show the entries.
    ShowEntries,
    /// Say that there are no public entries.
    NoEntries,
    /// Ask the homeserver's domain directly, at this URL.
    TryDirect(String),
    /// Report the listing's error.
    ReportError,
}

/// What follows a listing of the user's storage: the entries, or that there
/// are none; when the listing failed, a direct request to the homeserver's
/// domain (`https://{domain}/pub/?limit=5`) when one is known, else the error.
pub fn after_listing(outcome: &ListOutcome, domain: Option<&str>) -> (a: StorageAction)
    ensures
        match outcome {
            ListOutcome::Listed(es) => if es@.len() > 0 {
                a is ShowEntries
            } else {
                a is NoEntries
            },
            ListOutcome::Failed(_) => match domain {
                Some(d) => a matches StorageAction::TryDirect(u) && u@ == "https://"@ + d@
                    + "/pub/?limit=5"@,
                None => a is ReportError,
            },
        },
{
    match outcome {
        ListOutcome::Listed(es) => if es.len() > 0 {
            StorageAction::ShowEntries
        } else {
            StorageAction::NoEntries
        },
        ListOutcome::Failed(_) => match domain {
            Some(d) => {
                let mut u = "https://".to_owned();
                u.append(d);
                u.append("/pub/?limit=5");
                StorageAction::TryDirect(u)
            },
            None => StorageAction::ReportError,
        },
    }
}

/// Whether a body fetched directly from a homeserver looks like a listing:
/// it mentions `items` or starts with `[`.
pub fn direct_body_found(body: &str) -> (r: bool)
    ensures
        r == (contains_text(body@, "items"@) || starts_with(body@, "["@)),
{
    str_contains(body, "items") || str_starts_with(body, "[")
}

// ---------------------------------------------------------------------------
// Event listings
// ---------------------------------------------------------------------------

/// A line that reports where the listing ends: it starts with `cursor: `.
pub open spec fn is_cursor_line(l: Seq<char>) -> bool {
    starts_with(l, "cursor: "@)
}

/// The event lines of a listing's lines: the non-empty lines that are not
/// cursor lines, in order.
pub open spec fn event_lines(lines: Seq<Seq<char>>) -> Seq<Seq<char>>
    decreases lines.len(),
{
    if lines.len() == 0 {
        seq![]
    } else {
        let l = lines.last();
        let before = event_lines(lines.drop_last());
        if l.len() > 0 && !is_cursor_line(l) {
            before.push(l)
        } else {
            before
        }
    }
}

/// The cursor of a listing's lines: the rest of the last cursor line, if any.
pub open spec fn listing_cursor(lines: Seq<Seq<char>>) -> Option<Seq<char>>
    decreases lines.len(),
{
    if lines.len() == 0 {
        None
    } else if is_cursor_line(lines.last()) {
        Some(lines.last().skip("cursor: "@.len() as int))
    } else {
        listing_cursor(lines.drop_last())
    }
}

/// An event listing as the homeserver's `/events/` endpoint sends it: its
/// event lines, and the cursor to continue from.
pub struct EventListing {
    pub lines: Vec<String>,
    pub cursor: Option<String>,
}

/// Splits an event listing into its event lines and its cursor.
pub fn split_event_listing(body: &str) -> (r: EventListing)
    ensures
        r.lines@.map_values(|l: String| l@) == event_lines(lines_of(body@)),
        crate::sse::opt_text(r.cursor) == listing_cursor(lines_of(body@)),
{
    let v = chars_of(body);
    let n = v.len();
    let cp = chars_of("cursor: ");
    let mut lines: Vec<String> = Vec::new();
    let mut cursor: Option<String> = None;
    let ghost mut done: Seq<Seq<char>> = seq![];
    let mut pos: usize = 0;
    assert(v@.skip(0) =~= v@);
    assert(lines@.map_values(|l: String| l@) =~= event_lines(done));
    while pos < n
        invariant
            pos <= n,
            n == v@.len(),
            v@ == body@,
            cp@ == "cursor: "@,
            done + lines_of(v@.skip(pos as int)) == lines_of(body@),
            lines@.map_values(|l: String| l@) == event_lines(done),
            crate::sse::opt_text(cursor) == listing_cursor(done),
        decreases n - pos,
    {
        let mut e = pos;
        while e < n && v[e] != '\n'
            invariant
                pos <= e <= n,
                n == v@.len(),
                forall|i: int| pos <= i < e ==> v@[i] != '\n',
            decreases n - e,
        {
            e = e + 1;
        }
        let le = if e < n && e > pos && v[e - 1] == '\r' {
            e - 1
        } else {
            e
        };
        let ghost l = v@.subrange(pos as int, le as int);
        proof {
            lemma_lines_split(v@, pos as int, e as int);
            if e < n && e > pos && v@[e - 1] == '\r' {
                assert(v@.subrange(pos as int, e as int).drop_last() =~= l);
            }
        }
        let ghost old_done = done;
        let ghost old_lines = lines@;
        if range_starts_with(&v, pos, le, &cp) {
            assert(l.skip(cp@.len() as int) =~= v@.subrange(pos + cp@.len(), le as int));
            cursor = Some(string_of_range(&v, pos + cp.len(), le));
        } else if le > pos {
            let line = string_of_range(&v, pos, le);
            lines.push(line);
            assert(lines@.map_values(|x: String| x@) =~= old_lines.map_values(|x: String| x@).push(l));
        }
        proof {
            done = done.push(l);
            assert(done.drop_last() =~= old_done);
            if e < n {
                assert(done + lines_of(v@.skip(e + 1)) =~= old_done + lines_of(v@.skip(pos as int)));
            } else {
                assert(v@.skip(n as int) =~= Seq::<char>::empty());
                assert(done + lines_of(v@.skip(n as int)) =~= old_done + lines_of(v@.skip(pos as int)));
            }
        }
        pos = if e < n {
            e + 1
        } else {
            n
        };
    }
    assert(v@.skip(pos as int) =~= Seq::<char>::empty());
    assert(done + lines_of(Seq::<char>::empty()) =~= done);
    EventListing { lines, cursor }
}

// ---------------------------------------------------------------------------
// Event endpoints
// ---------------------------------------------------------------------------

/// Query parameters joined by `&`.
pub open spec fn join_query(parts: Seq<Seq<char>>) -> Seq<char>
    decreases parts.len(),
{
    if parts.len() == 0 {
        seq![]
    } else if parts.len() == 1 {
        parts[0]
    } else {
        join_query(parts.drop_last()) + "&"@ + parts.last()
    }
}

/// `[name + value]` when there is a value, nothing otherwise.
pub open spec fn optional_param(name: Seq<char>, value: Option<Seq<char>>) -> Seq<Seq<char>> {
    match value {
        Some(v) => seq![name + v],
        None => seq![],
    }
}

/// The query of an events request: `cursor`, `user` and `limit` when given,
/// then `reverse=true` when asked for.
pub open spec fn events_query(
    cursor: Option<Seq<char>>,
    user: Option<Seq<char>>,
    limit: Option<u64>,
    reverse: bool,
) -> Seq<Seq<char>> {
    optional_param("cursor="@, cursor) + optional_param("user="@, user) + optional_param(
        "limit="@,
        match limit {
            Some(l) => Some(decimal(l as nat)),
            None => None,
        },
    ) + if reverse {
        seq!["reverse=true"@]
    } else {
        seq![]
    }
}

/// Joins query parameters with `&`.
fn join_params(parts: &Vec<String>) -> (r: String)
    ensures
        r@ == join_query(texts(parts@)),
{
    let mut r = String::new();
    let ghost all = texts(parts@);
    assert(all.take(0) =~= Seq::<Seq<char>>::empty());
    for i in 0..parts.len()
        invariant
            all == texts(parts@),
            r@ == join_query(all.take(i as int)),
    {
        assert(all.take(i + 1).drop_last() =~= all.take(i as int));
        if i > 0 {
            r.append("&");
        } else {
            assert(r@ =~= Seq::<char>::empty());
        }
        r.append(parts[i].as_str());
        assert(r@ =~= join_query(all.take(i + 1)));
    }
    assert(all.take(parts.len() as int) =~= all);
    r
}

/// A new string holding `a` followed by `b`.
fn joined(a: &str, b: &str) -> (r: String)
    ensures
        r@ == a@ + b@,
{
    let mut r = a.to_owned();
    r.append(b);
    r
}

/// The parameters of an events request, in order.
fn events_params(cursor: Option<&str>, user: Option<&str>, limit: Option<u64>, reverse: bool) -> (r:
    Vec<String>)
    ensures
        texts(r@) == events_query(
            match cursor {
                Some(c) => Some(c@),
                None => None,
            },
            match user {
                Some(u) => Some(u@),
                None => None,
            },
            limit,
            reverse,
        ),
{
    let mut parts: Vec<String> = Vec::new();
    let ghost c = match cursor {
        Some(c) => Some(c@),
        None => None,
    };
    let ghost u = match user {
        Some(u) => Some(u@),
        None => None,
    };
    let ghost l = match limit {
        Some(l) => Some(decimal(l as nat)),
        None => None,
    };
    assert(texts(parts@) =~= Seq::<Seq<char>>::empty());
    if let Some(c) = cursor {
        parts.push(joined("cursor=", c));
    }
    assert(texts(parts@) =~= optional_param("cursor="@, c));
    let ghost p1 = texts(parts@);
    if let Some(u) = user {
        parts.push(joined("user=", u));
    }
    assert(texts(parts@) =~= p1 + optional_param("user="@, u));
    let ghost p2 = texts(parts@);
    if let Some(n) = limit {
        let digits = decimal_string(n);
        parts.push(joined("limit=", digits.as_str()));
    }
    assert(texts(parts@) =~= p2 + optional_param("limit="@, l));
    let ghost p3 = texts(parts@);
    if reverse {
        parts.push("reverse=true".to_owned());
        assert(texts(parts@) =~= p3 + seq!["reverse=true"@]);
    } else {
        assert(texts(parts@) =~= p3 + Seq::<Seq<char>>::empty());
    }
    parts
}

/// The URL of a request to the homeserver's `/events/` endpoint:
/// `{base_url}/events/?` and the query.
pub fn events_url(
    base_url: &str,
    cursor: Option<&str>,
    limit: Option<u64>,
    user: Option<&str>,
    reverse: bool,
) -> (r: String)
    ensures
        r@ == base_url@ + "/events/?"@ + join_query(
            events_query(
                match cursor {
                    Some(c) => Some(c@),
                    None => None,
                },
                match user {
                    Some(u) => Some(u@),
                    None => None,
                },
                limit,
                reverse,
            ),
        ),
{
    let parts = events_params(cursor, user, limit, reverse);
    let q = join_params(&parts);
    let mut r = joined(base_url, "/events/?");
    r.append(q.as_str());
    r
}

/// The URL of a request to the homeserver's `/events-stream/` endpoint:
/// `{base_url}/events-stream/?` and the query (`user`, `limit` when given,
/// then `reverse=true` when asked for).
pub fn events_stream_url(base_url: &str, user: Option<&str>, limit: Option<u64>, reverse: bool) -> (r:
    String)
    ensures
        r@ == base_url@ + "/events-stream/?"@ + join_query(
            events_query(
                None,
                match user {
                    Some(u) => Some(u@),
                    None => None,
                },
                limit,
                reverse,
            ),
        ),
{
    let parts = events_params(None, user, limit, reverse);
    let q = join_params(&parts);
    let mut r = joined(base_url, "/events-stream/?");
    r.append(q.as_str());
    r
}

/// Whether each parameter of an events request is in its query: the cursor,
/// the user and the limit exactly when given (the limit written in decimal),
/// `reverse=true` exactly when asked for, and nothing else.
pub proof fn law_events_query_holds_what_was_given(
    cursor: Option<Seq<char>>,
    user: Option<Seq<char>>,
    limit: Option<u64>,
    reverse: bool,
)
    ensures
        events_query(cursor, user, limit, reverse).len() == (if cursor is Some { 1int } else { 0 })
            + (if user is Some { 1int } else { 0 }) + (if limit is Some { 1int } else { 0 }) + (
        if reverse {
            1int
        } else {
            0
        }),
        cursor matches Some(c) ==> events_query(cursor, user, limit, reverse).contains(
            "cursor="@ + c,
        ),
        user matches Some(u) ==> events_query(cursor, user, limit, reverse).contains("user="@ + u),
        limit matches Some(l) ==> events_query(cursor, user, limit, reverse).contains(
            "limit="@ + decimal(l as nat),
        ),
        reverse ==> events_query(cursor, user, limit, reverse).contains("reverse=true"@),
{
    let q = events_query(cursor, user, limit, reverse);
    let a = optional_param("cursor="@, cursor);
    let b = optional_param("user="@, user);
    let lp = optional_param(
        "limit="@,
        match limit {
            Some(l) => Some(decimal(l as nat)),
            None => None,
        },
    );
    let r: Seq<Seq<char>> = if reverse {
        seq!["reverse=true"@]
    } else {
        seq![]
    };
    assert(q == a + b + lp + r);
    if let Some(c) = cursor {
        assert(q[0] == "cursor="@ + c);
    }
    if let Some(u) = user {
        assert(q[a.len() as int] == "user="@ + u);
    }
    if let Some(l) = limit {
        assert(q[(a.len() + b.len()) as int] == "limit="@ + decimal(l as nat));
    }
    if reverse {
        assert(q[(a.len() + b.len() + lp.len()) as int] == "reverse=true"@);
    }
}

/// The mark of a storage entry: the folder mark exactly when its name
/// relative to the listed directory ends in `/`, the file mark otherwise.
pub proof fn law_folder_mark_only_for_slash(target: Seq<char>, entry: Seq<char>)
    ensures
        ({
            let name = relative_name(target, entry);
            if name.len() > 0 && name.last() == '/' {
                listing_line(target, entry) == "   📁 "@ + name
            } else {
                listing_line(target, entry) == "   📄 "@ + name
            }
        }),
{
    reveal_strlit("   ");
    reveal_strlit("📁");
    reveal_strlit("📄");
    reveal_strlit(" ");
    reveal_strlit("   📁 ");
    reveal_strlit("   📄 ");
    let name = relative_name(target, entry);
    if name.len() > 0 && name.last() == '/' {
        assert(name.skip(name.len() - 1) =~= seq!['/']);
        assert("   "@ + "📁"@ + " "@ + name =~= "   📁 "@ + name);
    } else {
        assert(!ends_with(name, seq!['/'])) by {
            if ends_with(name, seq!['/']) {
                assert(name.skip(name.len() - 1)[0] == name.last());
            }
        }
        assert("   "@ + "📄"@ + " "@ + name =~= "   📄 "@ + name);
    }
}

/// An entry under the listed directory is named by what follows the
/// directory's address; any other entry keeps its whole text.
pub proof fn law_relative_name_drops_the_directory(target: Seq<char>, rest: Seq<char>, entry: Seq<char>)
    ensures
        relative_name(target, target + rest) == rest,
        !starts_with(entry, target) ==> relative_name(target, entry) == entry,
{
    assert((target + rest).take(target.len() as int) =~= target);
    assert((target + rest).skip(target.len() as int) =~= rest);
}

/// Query parameters are joined by `&`, in order: one parameter stands alone,
/// two are written with one `&` between them, and joining `p` then `x` puts
/// `&` between the join of `p` and `x`.
pub proof fn law_query_joined_by_ampersand(x: Seq<char>, y: Seq<char>, parts: Seq<Seq<char>>)
    ensures
        join_query(seq![]) == Seq::<char>::empty(),
        join_query(seq![x]) == x,
        join_query(seq![x, y]) == x + "&"@ + y,
        parts.len() > 0 ==> join_query(parts.push(x)) == join_query(parts) + "&"@ + x,
{
    assert(seq![x, y].drop_last() =~= seq![x]);
    assert(parts.push(x).drop_last() =~= parts);
}

} // verus!
