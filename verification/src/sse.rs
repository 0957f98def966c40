//! Reading batches of server-sent events from the `/events-stream/` endpoint.
//!
//! A batch is text made of lines. An event is a block of lines
//!
//! ```text
//! path: <event_type> <path>
//! cursor: <number>
//! content_hash: <base64>      (optional)
//! ```
//!
//! and a blank line ends a block; the last block needs no blank line after it.
use crate::text::{
    chars_of, is_white_space, range_starts_with, starts_with, string_of_range, trim, trim_end,
    trim_end_pos, trim_start_pos,
};
use vstd::prelude::*;

verus! {

// ---------------------------------------------------------------------------
// The model
// ---------------------------------------------------------------------------

/// A parsed event, as mathematical values.
pub struct SseEventModel {
    pub path: Seq<char>,
    pub cursor: u64,
    pub content_hash: Option<Seq<char>>,
}

/// A parsed SSE event from the `/events-stream/` endpoint.
#[derive(Debug, Clone)]
pub struct SseEvent {
    /// The event path (e.g. "PUT /pub/my-file.txt")
    pub path: String,
    /// The event cursor position
    pub cursor: u64,
    /// Optional base64-encoded content hash
    pub content_hash: Option<String>,
}

/// The text of an optional string.
pub open spec fn opt_text(o: Option<String>) -> Option<Seq<char>> {
    match o {
        Some(s) => Some(s@),
        None => None,
    }
}

impl View for SseEvent {
    type V = SseEventModel;

    open spec fn view(&self) -> SseEventModel {
        SseEventModel { path: self.path@, cursor: self.cursor, content_hash: opt_text(self.content_hash) }
    }
}

/// The models of a sequence of events.
pub open spec fn events_model(events: Seq<SseEvent>) -> Seq<SseEventModel> {
    events.map_values(|e: SseEvent| e@)
}

/// Index of the first `\n` in `text`, or its length when there is none.
pub open spec fn line_end(text: Seq<char>) -> int
    decreases text.len(),
{
    if text.len() == 0 || text[0] == '\n' {
        0
    } else {
        1 + line_end(text.drop_first())
    }
}

/// `l` without one trailing carriage return.
pub open spec fn strip_cr(l: Seq<char>) -> Seq<char> {
    if l.len() > 0 && l.last() == '\r' {
        l.drop_last()
    } else {
        l
    }
}

/// The lines of `text` as `str::lines` gives them: pieces ended by `\n` (or by
/// `\r\n`, which is removed too), and a last piece with no line ending when
/// one is left; no empty piece after a final line ending.
pub open spec fn lines_of(text: Seq<char>) -> Seq<Seq<char>>
    decreases text.len(),
{
    if text.len() == 0 {
        seq![]
    } else {
        let e = line_end(text);
        proof {
            lemma_line_end_bounds(text);
        }
        if e >= text.len() {
            seq![text]
        } else {
            seq![strip_cr(text.take(e))] + lines_of(text.skip(e + 1))
        }
    }
}

/// ASCII decimal digit.
pub open spec fn is_digit(c: char) -> bool {
    '0' <= c && c <= '9'
}

/// The number that a string of decimal digits writes.
pub open spec fn digits_value(d: Seq<char>) -> nat
    decreases d.len(),
{
    if d.len() == 0 {
        0
    } else {
        digits_value(d.drop_last()) * 10 + ((d.last() as int - '0' as int) as nat)
    }
}

/// The digits of a number: the text without one leading `+`.
pub open spec fn unsigned_digits(s: Seq<char>) -> Seq<char> {
    if s.len() > 0 && s[0] == '+' {
        s.drop_first()
    } else {
        s
    }
}

/// Every character is a decimal digit.
pub open spec fn all_digits(d: Seq<char>) -> bool {
    forall|i: int| 0 <= i < d.len() ==> #[trigger] is_digit(d[i])
}

/// What `str::parse::<u64>` gives: an optional `+`, then at least one decimal
/// digit and nothing else, writing a number that fits in 64 bits.
pub open spec fn parse_u64_text(s: Seq<char>) -> Option<u64> {
    let d = unsigned_digits(s);
    if d.len() > 0 && all_digits(d) && digits_value(d) <= u64::MAX {
        Some(digits_value(d) as u64)
    } else {
        None
    }
}

/// The reader's state between lines: the events so far and the fields of the
/// block being read.
pub struct SseState {
    pub events: Seq<SseEventModel>,
    pub path: Option<Seq<char>>,
    pub cursor: Option<u64>,
    pub hash: Option<Seq<char>>,
}

/// The state before any line.
pub open spec fn initial_state() -> SseState {
    SseState { events: seq![], path: None, cursor: None, hash: None }
}

/// The state after reading one line. Trailing white space is ignored. A blank
/// line ends the block: it emits an event when the block has a path and a
/// cursor (with the block's hash, if any), and forgets the path, the cursor and
/// the hash in any case, so that nothing of one block reaches the next. `path: ` sets the path to the rest of the line;
/// `cursor: ` sets the cursor when the rest, trimmed, is a number;
/// `content_hash: ` sets the hash to the rest, trimmed; other lines change nothing.
pub open spec fn sse_step(st: SseState, raw: Seq<char>) -> SseState {
    let line = trim_end(raw);
    let p = "path: "@;
    let c = "cursor: "@;
    let h = "content_hash: "@;
    if line.len() == 0 {
        if st.path is Some && st.cursor is Some {
            SseState {
                events: st.events.push(
                    SseEventModel {
                        path: st.path->0,
                        cursor: st.cursor->0,
                        content_hash: st.hash,
                    },
                ),
                path: None,
                cursor: None,
                hash: None,
            }
        } else {
            SseState { events: st.events, path: None, cursor: None, hash: None }
        }
    } else if starts_with(line, p) {
        SseState {
            events: st.events,
            path: Some(line.skip(p.len() as int)),
            cursor: st.cursor,
            hash: st.hash,
        }
    } else if starts_with(line, c) {
        match parse_u64_text(trim(line.skip(c.len() as int))) {
            Some(n) => SseState { events: st.events, path: st.path, cursor: Some(n), hash: st.hash },
            None => st,
        }
    } else if starts_with(line, h) {
        SseState {
            events: st.events,
            path: st.path,
            cursor: st.cursor,
            hash: Some(trim(line.skip(h.len() as int))),
        }
    } else {
        st
    }
}

/// The events once the text has ended: a block left open with a path and a
/// cursor is emitted too.
pub open spec fn sse_finish(st: SseState) -> Seq<SseEventModel> {
    if st.path is Some && st.cursor is Some {
        st.events.push(
            SseEventModel { path: st.path->0, cursor: st.cursor->0, content_hash: st.hash },
        )
    } else {
        st.events
    }
}

/// The events read from `lines`, starting in state `st`.
pub open spec fn sse_run(st: SseState, lines: Seq<Seq<char>>) -> Seq<SseEventModel>
    decreases lines.len(),
{
    if lines.len() == 0 {
        sse_finish(st)
    } else {
        sse_run(sse_step(st, lines[0]), lines.drop_first())
    }
}

/// The state after reading `lines`, starting in state `st`.
pub open spec fn sse_fold(st: SseState, lines: Seq<Seq<char>>) -> SseState
    decreases lines.len(),
{
    if lines.len() == 0 {
        st
    } else {
        sse_fold(sse_step(st, lines[0]), lines.drop_first())
    }
}

/// The events of a batch.
pub open spec fn sse_events(text: Seq<char>) -> Seq<SseEventModel> {
    sse_run(initial_state(), lines_of(text))
}

// ---------------------------------------------------------------------------
// Lemmas
// ---------------------------------------------------------------------------

/// `line_end` lies within the text.
pub proof fn lemma_line_end_bounds(s: Seq<char>)
    ensures
        0 <= line_end(s) <= s.len(),
    decreases s.len(),
{
    if s.len() > 0 && s[0] != '\n' {
        lemma_line_end_bounds(s.drop_first());
    }
}

/// `line_end` is the first `\n`, found by a scan.
proof fn lemma_line_end(s: Seq<char>, k: int)
    requires
        0 <= k <= s.len(),
        forall|i: int| 0 <= i < k ==> s[i] != '\n',
        k == s.len() || s[k] == '\n',
    ensures
        line_end(s) == k,
    decreases k,
{
    if k > 0 {
        lemma_line_end(s.drop_first(), k - 1);
    }
}

/// A longer run of digits writes at least as large a number.
proof fn lemma_digits_value_grows(d: Seq<char>, k: int)
    requires
        0 <= k <= d.len(),
        all_digits(d),
    ensures
        digits_value(d.take(k)) <= digits_value(d),
    decreases d.len() - k,
{
    if k < d.len() {
        lemma_digits_value_grows(d, k + 1);
        assert(d.take(k + 1).drop_last() =~= d.take(k));
    } else {
        assert(d.take(k) =~= d);
    }
}

// ---------------------------------------------------------------------------
// Executable reader
// ---------------------------------------------------------------------------

/// The number written by `v[lo..hi]`, as `str::parse::<u64>` reads it.
fn parse_u64_range(v: &Vec<char>, lo: usize, hi: usize) -> (r: Option<u64>)
    requires
        lo <= hi <= v@.len(),
    ensures
        r == parse_u64_text(v@.subrange(lo as int, hi as int)),
{
    let ghost s = v@.subrange(lo as int, hi as int);
    let mut start = lo;
    if lo < hi && v[lo] == '+' {
        start = lo + 1;
    }
    let ghost d = v@.subrange(start as int, hi as int);
    assert(d =~= unsigned_digits(s));
    if start == hi {
        return None;
    }
    let mut acc: u64 = 0;
    let mut i = start;
    while i < hi
        invariant
            lo <= start < hi <= v@.len(),
            start <= i <= hi,
            d == v@.subrange(start as int, hi as int),
            s == v@.subrange(lo as int, hi as int),
            d == unsigned_digits(s),
            forall|m: int| start <= m < i ==> #[trigger] is_digit(v@[m]),
            acc as nat == digits_value(v@.subrange(start as int, i as int)),
        decreases hi - i,
    {
        let c = v[i];
        if !('0' <= c && c <= '9') {
            assert(!is_digit(d[i - start]));
            assert(!all_digits(d));
            return None;
        }
        let digit = (c as u32 - '0' as u32) as u64;
        assert(v@.subrange(start as int, i + 1).drop_last() =~= v@.subrange(start as int, i as int));
        match acc.checked_mul(10) {
            Some(t) => match t.checked_add(digit) {
                Some(u) => {
                    acc = u;
                },
                None => {
                    proof {
                        assert(digits_value(v@.subrange(start as int, i + 1)) > u64::MAX);
                        if all_digits(d) {
                            lemma_digits_value_grows(d, i + 1 - start);
                            assert(d.take(i + 1 - start) =~= v@.subrange(start as int, i + 1));
                        }
                    }
                    return None;
                },
            },
            None => {
                proof {
                    assert(digits_value(v@.subrange(start as int, i + 1)) > u64::MAX);
                    if all_digits(d) {
                        lemma_digits_value_grows(d, i + 1 - start);
                        assert(d.take(i + 1 - start) =~= v@.subrange(start as int, i + 1));
                    }
                }
                return None;
            },
        }
        i = i + 1;
    }
    assert forall|m: int| 0 <= m < d.len() implies #[trigger] is_digit(d[m]) by {
        assert(d[m] == v@[start + m]);
    }
    assert(all_digits(d));
    assert(v@.subrange(start as int, i as int) =~= d);
    Some(acc)
}

/// The reader's state held in `events`, `path`, `cursor` and `hash`.
pub open spec fn state_of(
    events: Seq<SseEvent>,
    path: Option<String>,
    cursor: Option<u64>,
    hash: Option<String>,
) -> SseState {
    SseState { events: events_model(events), path: opt_text(path), cursor: cursor, hash: opt_text(hash) }
}

/// The lines of `v[pos..]`, split at the first line ending found at `e`.
pub proof fn lemma_lines_split(v: Seq<char>, pos: int, e: int)
    requires
        0 <= pos <= e <= v.len(),
        pos < v.len(),
        forall|i: int| pos <= i < e ==> v[i] != '\n',
        e == v.len() || v[e] == '\n',
    ensures
        e == v.len() ==> lines_of(v.skip(pos)) == seq![v.subrange(pos, e)],
        e < v.len() ==> lines_of(v.skip(pos)) == seq![strip_cr(v.subrange(pos, e))] + lines_of(
            v.skip(e + 1),
        ),
{
    let t = v.skip(pos);
    assert forall|i: int| 0 <= i < e - pos implies t[i] != '\n' by {
        assert(t[i] == v[pos + i]);
    }
    lemma_line_end(t, e - pos);
    assert(t.take(e - pos) =~= v.subrange(pos, e));
    if e == v.len() {
        assert(t =~= v.subrange(pos, e));
    } else {
        assert(t.skip(e - pos + 1) =~= v.skip(e + 1));
    }
}

/// The lines of `text`, as `str::lines` gives them.
pub fn text_lines(text: &str) -> (lines: Vec<String>)
    ensures
        lines@.map_values(|l: String| l@) == lines_of(text@),
{
    let v = chars_of(text);
    let n = v.len();
    let mut lines: Vec<String> = Vec::new();
    let mut pos: usize = 0;
    assert(v@.skip(0) =~= v@);
    assert(lines@.map_values(|l: String| l@) =~= Seq::<Seq<char>>::empty());
    while pos < n
        invariant
            pos <= n,
            n == v@.len(),
            v@ == text@,
            lines@.map_values(|l: String| l@) + lines_of(v@.skip(pos as int)) == lines_of(text@),
        decreases n - pos,
    {
        let mut e = pos;
        while e < n && v[e] != '\n'
            invariant
                pos <= e <= n,
                n == v@.len(),
                forall|i: int| pos <= i < e ==> v@[i] != '\n',
            decreases n - e,
        {
            e = e + 1;
        }
        proof {
            lemma_lines_split(v@, pos as int, e as int);
        }
        let le = if e < n && e > pos && v[e - 1] == '\r' {
            e - 1
        } else {
            e
        };
        assert(e < n ==> v@.subrange(pos as int, le as int) == strip_cr(v@.subrange(pos as int, e as int))) by {
            if e < n && e > pos && v@[e - 1] == '\r' {
                assert(v@.subrange(pos as int, e as int).drop_last() =~= v@.subrange(pos as int, le as int));
            }
        }
        let ghost before = lines@.map_values(|l: String| l@);
        let line = string_of_range(&v, pos, le);
        lines.push(line);
        assert(lines@.map_values(|l: String| l@) =~= before.push(v@.subrange(pos as int, le as int)));
        if e < n {
            assert(before.push(v@.subrange(pos as int, le as int)) + lines_of(v@.skip(e + 1))
                =~= before + lines_of(v@.skip(pos as int)));
            pos = e + 1;
        } else {
            assert(v@.skip(n as int) =~= Seq::<char>::empty());
            assert(before.push(v@.subrange(pos as int, le as int)) + lines_of(v@.skip(n as int))
                =~= before + lines_of(v@.skip(pos as int)));
            pos = n;
        }
    }
    assert(v@.skip(pos as int) =~= Seq::<char>::empty());
    assert(lines@.map_values(|l: String| l@) + lines_of(Seq::<char>::empty()) =~= lines@.map_values(|l: String| l@));
    lines
}

/// Reading a line first and the rest after it.
proof fn lemma_run_cons(st: SseState, l: Seq<char>, rest: Seq<Seq<char>>)
    ensures
        sse_run(st, seq![l] + rest) == sse_run(sse_step(st, l), rest),
{
    assert((seq![l] + rest).drop_first() =~= rest);
}

/// Reading a line first and the rest after it, without the end of the text.
proof fn lemma_fold_cons(st: SseState, l: Seq<char>, rest: Seq<Seq<char>>)
    ensures
        sse_fold(st, seq![l] + rest) == sse_fold(sse_step(st, l), rest),
{
    assert((seq![l] + rest).drop_first() =~= rest);
}

/// Reading to the end of the text is reading all lines, then ending.
pub proof fn lemma_run_is_finish_fold(st: SseState, lines: Seq<Seq<char>>)
    ensures
        sse_run(st, lines) == sse_finish(sse_fold(st, lines)),
    decreases lines.len(),
{
    if lines.len() > 0 {
        lemma_run_is_finish_fold(sse_step(st, lines[0]), lines.drop_first());
    }
}

/// Reads one line, `v[lo..hi]`, into the state.
fn read_line(
    v: &Vec<char>,
    lo: usize,
    hi: usize,
    events: &mut Vec<SseEvent>,
    path: &mut Option<String>,
    cursor: &mut Option<u64>,
    hash: &mut Option<String>,
)
    requires
        lo <= hi <= v@.len(),
    ensures
        state_of(final(events)@, *final(path), *final(cursor), *final(hash)) == sse_step(
            state_of(old(events)@, *old(path), *old(cursor), *old(hash)),
            v@.subrange(lo as int, hi as int),
        ),
{
    let ghost st = state_of(events@, *path, *cursor, *hash);
    let te = trim_end_pos(v, lo, hi);
    let ghost line = v@.subrange(lo as int, te as int);
    if te == lo {
        let p = path.take();
        let c = cursor.take();
        let h = hash.take();
        match (p, c) {
            (Some(p), Some(c)) => {
                let ghost old_events = events@;
                events.push(SseEvent { path: p, cursor: c, content_hash: h });
                assert(events_model(events@) =~= events_model(old_events).push(
                    SseEventModel { path: st.path->0, cursor: st.cursor->0, content_hash: st.hash },
                ));
            },
            _ => {},
        }
        return ;
    }
    let pp = chars_of("path: ");
    let cp = chars_of("cursor: ");
    let hp = chars_of("content_hash: ");
    if range_starts_with(v, lo, te, &pp) {
        assert(line.skip(pp@.len() as int) =~= v@.subrange(lo + pp@.len(), te as int));
        *path = Some(string_of_range(v, lo + pp.len(), te));
    } else if range_starts_with(v, lo, te, &cp) {
        let a = lo + cp.len();
        assert(line.skip(cp@.len() as int) =~= v@.subrange(a as int, te as int));
        let b = trim_end_pos(v, a, te);
        let c0 = trim_start_pos(v, a, b);
        match parse_u64_range(v, c0, b) {
            Some(n) => {
                *cursor = Some(n);
            },
            None => {},
        }
    } else if range_starts_with(v, lo, te, &hp) {
        let a = lo + hp.len();
        assert(line.skip(hp@.len() as int) =~= v@.subrange(a as int, te as int));
        let b = trim_end_pos(v, a, te);
        let c0 = trim_start_pos(v, a, b);
        *hash = Some(string_of_range(v, c0, b));
    }
}

/// Reads the lines of `v`: the state after the last of them.
fn fold_lines(v: &Vec<char>) -> (r: (Vec<SseEvent>, Option<String>, Option<u64>, Option<String>))
    ensures
        state_of(r.0@, r.1, r.2, r.3) == sse_fold(initial_state(), lines_of(v@)),
{
    let n = v.len();
    let mut events: Vec<SseEvent> = Vec::new();
    let mut path: Option<String> = None;
    let mut cursor: Option<u64> = None;
    let mut hash: Option<String> = None;
    let mut pos: usize = 0;
    assert(v@.skip(0) =~= v@);
    assert(events_model(events@) =~= Seq::<SseEventModel>::empty());
    while pos < n
        invariant
            pos <= n,
            n == v@.len(),
            sse_fold(state_of(events@, path, cursor, hash), lines_of(v@.skip(pos as int)))
                == sse_fold(initial_state(), lines_of(v@)),
        decreases n - pos,
    {
        let mut e = pos;
        while e < n && v[e] != '\n'
            invariant
                pos <= e <= n,
                n == v@.len(),
                forall|i: int| pos <= i < e ==> v@[i] != '\n',
            decreases n - e,
        {
            e = e + 1;
        }
        proof {
            lemma_lines_split(v@, pos as int, e as int);
        }
        let ghost st = state_of(events@, path, cursor, hash);
        if e < n {
            let le = if e > pos && v[e - 1] == '\r' {
                e - 1
            } else {
                e
            };
            assert(v@.subrange(pos as int, le as int) == strip_cr(v@.subrange(pos as int, e as int))) by {
                if e > pos && v@[e - 1] == '\r' {
                    assert(v@.subrange(pos as int, e as int).drop_last() =~= v@.subrange(pos as int, le as int));
                }
            }
            read_line(v, pos, le, &mut events, &mut path, &mut cursor, &mut hash);
            proof {
                lemma_fold_cons(st, v@.subrange(pos as int, le as int), lines_of(v@.skip(e + 1)));
            }
            pos = e + 1;
        } else {
            read_line(v, pos, e, &mut events, &mut path, &mut cursor, &mut hash);
            proof {
                lemma_fold_cons(st, v@.subrange(pos as int, e as int), seq![]);
                assert(seq![v@.subrange(pos as int, e as int)] + Seq::<Seq<char>>::empty() =~= seq![v@.subrange(pos as int, e as int)]);
                assert(v@.skip(n as int) =~= Seq::<char>::empty());
            }
            pos = n;
        }
    }
    assert(v@.skip(pos as int) =~= Seq::<char>::empty());
    (events, path, cursor, hash)
}

/// Parse a batch of SSE lines into a vector of parsed events.
/// Format per event:
///   path: <event_type> <path>
///   cursor: <number>
///   content_hash: <base64>  (optional)
///   <blank line separates events>
pub fn parse_sse_batch(text: &str) -> (events: Vec<SseEvent>)
    ensures
        events_model(events@) == sse_events(text@),
{
    let v = chars_of(text);
    let (mut events, path, cursor, hash) = fold_lines(&v);
    proof {
        lemma_run_is_finish_fold(initial_state(), lines_of(text@));
    }
    match (path, cursor) {
        (Some(p), Some(c)) => {
            let ghost old_events = events@;
            let ghost h = opt_text(hash);
            events.push(SseEvent { path: p, cursor: c, content_hash: hash });
            assert(events_model(events@) =~= events_model(old_events).push(
                SseEventModel { path: p@, cursor: c, content_hash: h },
            ));
        },
        _ => {},
    }
    events
}

// ---------------------------------------------------------------------------
// Writing events, and reading back what was written
// ---------------------------------------------------------------------------

/// The decimal digit character for `d < 10`.
pub open spec fn digit_char(d: nat) -> char {
    ('0' as int + d) as char
}

/// The decimal writing of `n`, without leading zeros.
pub open spec fn decimal(n: nat) -> Seq<char>
    decreases n,
{
    if n < 10 {
        seq![digit_char(n)]
    } else {
        decimal(n / 10).push(digit_char(n % 10))
    }
}

/// The decimal writing of `n` (what `u64::to_string` gives).
pub fn decimal_string(n: u64) -> (r: String)
    ensures
        r@ == decimal(n as nat),
    decreases n,
{
    let d = (n % 10) as u8;
    let c = (48u8 + d) as char;
    assert(c == digit_char((n % 10) as nat));
    let mut r = if n < 10 {
        String::new()
    } else {
        decimal_string(n / 10)
    };
    crate::text::push_char(&mut r, c);
    r
}

/// The block of lines that writes one event, with the blank line that ends it.
pub open spec fn render_event(e: SseEventModel) -> Seq<char> {
    let nl = seq!['\n'];
    "path: "@ + e.path + nl + "cursor: "@ + decimal(e.cursor as nat) + nl + match e.content_hash {
        Some(h) => "content_hash: "@ + h + nl,
        None => Seq::<char>::empty(),
    } + nl
}

/// The blocks of `events`, one after the other.
pub open spec fn render_events(events: Seq<SseEventModel>) -> Seq<char>
    decreases events.len(),
{
    if events.len() == 0 {
        Seq::<char>::empty()
    } else {
        render_event(events[0]) + render_events(events.drop_first())
    }
}

/// A line of text that survives a trip through a block: non-empty, without a
/// line ending, and not ending in white space.
pub open spec fn line_value(s: Seq<char>) -> bool {
    s.len() > 0 && !s.contains('\n') && !is_white_space(s.last())
}

/// An event that a block can carry: its path and its hash are line values,
/// and the hash does not start with white space either.
pub open spec fn writable_event(e: SseEventModel) -> bool {
    &&& line_value(e.path)
    &&& match e.content_hash {
        Some(h) => line_value(h) && !is_white_space(h[0]),
        None => true,
    }
}

proof fn lemma_decimal(n: nat)
    ensures
        decimal(n).len() > 0,
        all_digits(decimal(n)),
        digits_value(decimal(n)) == n,
    decreases n,
{
    assert(digit_char(n % 10) as int == '0' as int + n % 10);
    if n >= 10 {
        assert(n == (n / 10) * 10 + n % 10);
        lemma_decimal(n / 10);
        let d = decimal(n);
        assert(d.drop_last() =~= decimal(n / 10));
        assert forall|i: int| 0 <= i < d.len() implies #[trigger] is_digit(d[i]) by {
            if i < d.len() - 1 {
                assert(d[i] == decimal(n / 10)[i]);
            }
        }
        assert(d.last() == digit_char(n % 10));
        assert(((d.last() as int - '0' as int) as nat) == n % 10);
        assert(digits_value(d) == digits_value(decimal(n / 10)) * 10 + n % 10);
    } else {
        let d = decimal(n);
        assert(d.drop_last() =~= Seq::<char>::empty());
        assert(d.last() == digit_char(n));
        assert(((d.last() as int - '0' as int) as nat) == n);
        assert(digits_value(d) == digits_value(d.drop_last()) * 10 + n);
    }
}

/// Text whose last character is not white space has no trailing white space.
proof fn lemma_trim_end_kept(s: Seq<char>)
    requires
        s.len() > 0,
        !is_white_space(s.last()),
    ensures
        trim_end(s) == s,
{
}

/// Text without white space at either end is its own trim.
proof fn lemma_trim_kept(s: Seq<char>)
    requires
        s.len() > 0,
        !is_white_space(s.last()),
        !is_white_space(s[0]),
    ensures
        trim(s) == s,
{
    lemma_trim_end_kept(s);
}

/// The lines of a text that starts with a line `x` ended by `\n`.
proof fn lemma_lines_cons(x: Seq<char>, rest: Seq<char>)
    requires
        !x.contains('\n'),
    ensures
        lines_of(x + seq!['\n'] + rest) == seq![strip_cr(x)] + lines_of(rest),
{
    let t = x + seq!['\n'] + rest;
    assert forall|i: int| 0 <= i < x.len() implies t[i] != '\n' by {
        assert(t[i] == x[i]);
    }
    lemma_line_end(t, x.len() as int);
    assert(t.take(x.len() as int) =~= x);
    assert(t.skip(x.len() as int + 1) =~= rest);
}

/// `p + s` does not contain `\n` when neither part does.
proof fn lemma_no_newline(p: Seq<char>, s: Seq<char>)
    requires
        !p.contains('\n'),
        !s.contains('\n'),
    ensures
        !(p + s).contains('\n'),
{
    if (p + s).contains('\n') {
        let i = choose|i: int| 0 <= i < (p + s).len() && (p + s)[i] == '\n';
        if i < p.len() {
            assert(p[i] == '\n');
        } else {
            assert(s[i - p.len()] == '\n');
        }
    }
}

/// The state holding `acc` and nothing of an open block.
pub open spec fn clean_state(acc: Seq<SseEventModel>) -> SseState {
    SseState { events: acc, path: None, cursor: None, hash: None }
}

/// Reading one written block from a clean state emits its event.
proof fn lemma_read_block(acc: Seq<SseEventModel>, e: SseEventModel, rest: Seq<char>)
    requires
        writable_event(e),
    ensures
        sse_run(clean_state(acc), lines_of(render_event(e) + rest)) == sse_run(
            clean_state(acc.push(e)),
            lines_of(rest),
        ),
{
    reveal_strlit("path: ");
    reveal_strlit("cursor: ");
    reveal_strlit("content_hash: ");
    let nl = seq!['\n'];
    let pp = "path: "@;
    let cp = "cursor: "@;
    let hp = "content_hash: "@;
    let dec = decimal(e.cursor as nat);
    lemma_decimal(e.cursor as nat);
    let l1 = pp + e.path;
    let l2 = cp + dec;
    let hash_lines = match e.content_hash {
        Some(h) => hp + h + nl,
        None => Seq::<char>::empty(),
    };
    let tail = nl + rest;
    assert(render_event(e) + rest =~= l1 + nl + (l2 + nl + (hash_lines + tail)));

    // Line values: none holds a line ending; the last character is not white space.
    assert(!pp.contains('\n')) by {
        if pp.contains('\n') {
            let i = choose|i: int| 0 <= i < pp.len() && pp[i] == '\n';
        }
    }
    assert(!cp.contains('\n')) by {
        if cp.contains('\n') {
            let i = choose|i: int| 0 <= i < cp.len() && cp[i] == '\n';
        }
    }
    assert(!hp.contains('\n')) by {
        if hp.contains('\n') {
            let i = choose|i: int| 0 <= i < hp.len() && hp[i] == '\n';
        }
    }
    assert(!dec.contains('\n')) by {
        if dec.contains('\n') {
            let i = choose|i: int| 0 <= i < dec.len() && dec[i] == '\n';
            assert(is_digit(dec[i]));
        }
    }
    lemma_no_newline(pp, e.path);
    lemma_no_newline(cp, dec);
    assert(is_digit(dec.last()));

    // The first line sets the path.
    lemma_lines_cons(l1, l2 + nl + (hash_lines + tail));
    assert(l1.last() == e.path.last());
    assert(strip_cr(l1) == l1);
    lemma_trim_end_kept(l1);
    assert(l1.take(pp.len() as int) =~= pp);
    assert(l1.skip(pp.len() as int) =~= e.path);
    let s1 = SseState { events: acc, path: Some(e.path), cursor: None, hash: None };
    assert(sse_step(clean_state(acc), l1) == s1);
    lemma_run_cons(clean_state(acc), l1, lines_of(l2 + nl + (hash_lines + tail)));

    // The second line sets the cursor.
    lemma_lines_cons(l2, hash_lines + tail);
    assert(l2.last() == dec.last());
    assert(strip_cr(l2) == l2);
    lemma_trim_end_kept(l2);
    assert(l2.take(cp.len() as int) =~= cp);
    assert(l2.skip(cp.len() as int) =~= dec);
    assert(!starts_with(l2, pp)) by {
        assert(l2[0] == 'c');
        assert(pp[0] == 'p');
        if starts_with(l2, pp) {
            assert(l2.take(pp.len() as int)[0] == pp[0]);
        }
    }
    assert(is_digit(dec[0]));
    lemma_trim_kept(dec);
    assert(unsigned_digits(dec) == dec);
    let s2 = SseState { events: acc, path: Some(e.path), cursor: Some(e.cursor), hash: None };
    assert(parse_u64_text(dec) == Some(e.cursor));
    assert(sse_step(s1, l2) == s2);
    lemma_run_cons(s1, l2, lines_of(hash_lines + tail));

    // The optional third line sets the hash.
    let s3 = SseState { events: acc, path: Some(e.path), cursor: Some(e.cursor), hash: e.content_hash };
    match e.content_hash {
        Some(h) => {
            let l3 = hp + h;
            lemma_no_newline(hp, h);
            assert(hash_lines + tail =~= l3 + nl + tail);
            lemma_lines_cons(l3, tail);
            assert(l3.last() == h.last());
            assert(strip_cr(l3) == l3);
            lemma_trim_end_kept(l3);
            assert(l3.take(hp.len() as int) =~= hp);
            assert(l3.skip(hp.len() as int) =~= h);
            assert(!starts_with(l3, pp)) by {
                if starts_with(l3, pp) {
                    assert(l3.take(pp.len() as int)[0] == pp[0]);
                }
            }
            assert(!starts_with(l3, cp)) by {
                if starts_with(l3, cp) {
                    assert(l3.take(cp.len() as int)[1] == cp[1]);
                }
            }
            lemma_trim_kept(h);
            assert(sse_step(s2, l3) == s3);
            lemma_run_cons(s2, l3, lines_of(tail));
        },
        None => {
            assert(hash_lines + tail =~= tail);
            assert(s2 == s3);
        },
    }

    // The blank line ends the block.
    assert(tail =~= Seq::<char>::empty() + nl + rest);
    lemma_lines_cons(Seq::<char>::empty(), rest);
    assert(strip_cr(Seq::<char>::empty()) == Seq::<char>::empty());
    assert(trim_end(Seq::<char>::empty()) == Seq::<char>::empty());
    assert(sse_step(s3, Seq::<char>::empty()) == clean_state(acc.push(e)));
    lemma_run_cons(s3, Seq::<char>::empty(), lines_of(rest));
}

/// Reading written blocks from a clean state emits their events after `acc`.
proof fn lemma_read_blocks(acc: Seq<SseEventModel>, events: Seq<SseEventModel>)
    requires
        forall|i: int| 0 <= i < events.len() ==> writable_event(#[trigger] events[i]),
    ensures
        sse_run(clean_state(acc), lines_of(render_events(events))) == acc + events,
    decreases events.len(),
{
    if events.len() == 0 {
        assert(lines_of(Seq::<char>::empty()) =~= Seq::<Seq<char>>::empty());
        assert(acc + events =~= acc);
    } else {
        assert(writable_event(events[0]));
        lemma_read_block(acc, events[0], render_events(events.drop_first()));
        lemma_read_blocks(acc.push(events[0]), events.drop_first());
        assert(acc.push(events[0]) + events.drop_first() =~= acc + events);
    }
}

/// Reading back written events: a batch that writes each event as a block
/// (`path:` line, `cursor:` line, optional `content_hash:` line, blank line)
/// parses to exactly those events, in order, provided each path and hash is a
/// single line that does not end in white space (and each hash does not start
/// with white space).
pub proof fn law_read_back_written_events(events: Seq<SseEventModel>)
    requires
        forall|i: int| 0 <= i < events.len() ==> writable_event(#[trigger] events[i]),
    ensures
        sse_events(render_events(events)) == events,
{
    lemma_read_blocks(seq![], events);
    assert(Seq::<SseEventModel>::empty() + events =~= events);
    assert(initial_state() == clean_state(seq![]));
}

// ---------------------------------------------------------------------------
// Batches read one after the other
// ---------------------------------------------------------------------------

/// A line read without its trailing carriage return is read the same.
proof fn lemma_step_strip_cr(st: SseState, l: Seq<char>)
    ensures
        sse_step(st, strip_cr(l)) == sse_step(st, l),
{
    if l.len() > 0 && l.last() == '\r' {
        assert(trim_end(l) == trim_end(l.drop_last()));
    }
}

/// A blank line closes the open block: what follows starts clean, after the
/// events that the text would have had, had it ended there.
proof fn lemma_blank_step(st: SseState)
    ensures
        sse_step(st, Seq::<char>::empty()) == clean_state(sse_finish(st)),
{
    assert(trim_end(Seq::<char>::empty()) == Seq::<char>::empty());
}

/// Reading two runs of lines one after the other.
proof fn lemma_fold_append(st: SseState, l1: Seq<Seq<char>>, l2: Seq<Seq<char>>)
    ensures
        sse_fold(st, l1 + l2) == sse_fold(sse_fold(st, l1), l2),
        sse_run(st, l1 + l2) == sse_run(sse_fold(st, l1), l2),
    decreases l1.len(),
{
    if l1.len() == 0 {
        assert(l1 + l2 =~= l2);
    } else {
        lemma_fold_append(sse_step(st, l1[0]), l1.drop_first(), l2);
        assert((l1 + l2).drop_first() =~= l1.drop_first() + l2);
    }
}

/// The lines of a text cut just after a line ending: those before the cut,
/// then those after it.
proof fn lemma_lines_append(a: Seq<char>, r: Seq<char>)
    ensures
        lines_of(a + seq!['\n'] + r) == lines_of(a + seq!['\n']) + lines_of(r),
    decreases a.len(),
{
    let e = line_end(a);
    lemma_line_end_bounds(a);
    let x = a.take(e);
    assert(!x.contains('\n')) by {
        if x.contains('\n') {
            let i = choose|i: int| 0 <= i < x.len() && x[i] == '\n';
            lemma_line_end_before(a, i);
        }
    }
    if e == a.len() {
        assert(x =~= a);
        lemma_lines_cons(a, r);
        lemma_lines_cons(a, Seq::<char>::empty());
        assert(a + seq!['\n'] + Seq::<char>::empty() =~= a + seq!['\n']);
        assert(lines_of(Seq::<char>::empty()) =~= Seq::<Seq<char>>::empty());
        assert(seq![strip_cr(a)] + Seq::<Seq<char>>::empty() =~= seq![strip_cr(a)]);
    } else {
        let rest = a.skip(e + 1);
        lemma_line_end_at(a);
        assert(a =~= x + seq!['\n'] + rest);
        lemma_lines_append(rest, r);
        assert(a + seq!['\n'] + r =~= x + seq!['\n'] + (rest + seq!['\n'] + r));
        assert(a + seq!['\n'] =~= x + seq!['\n'] + (rest + seq!['\n']));
        lemma_lines_cons(x, rest + seq!['\n'] + r);
        lemma_lines_cons(x, rest + seq!['\n']);
        assert(seq![strip_cr(x)] + (lines_of(rest + seq!['\n']) + lines_of(r))
            =~= seq![strip_cr(x)] + lines_of(rest + seq!['\n']) + lines_of(r));
    }
}

/// No line ending comes before `line_end`.
proof fn lemma_line_end_before(s: Seq<char>, i: int)
    requires
        0 <= i < line_end(s),
    ensures
        s[i] != '\n',
    decreases s.len(),
{
    lemma_line_end_bounds(s);
    if i > 0 {
        lemma_line_end_before(s.drop_first(), i - 1);
        assert(s.drop_first()[i - 1] == s[i]);
    }
}

/// Where `line_end` falls inside the text, a line ending stands there.
proof fn lemma_line_end_at(s: Seq<char>)
    ensures
        line_end(s) < s.len() ==> s[line_end(s)] == '\n',
    decreases s.len(),
{
    if s.len() > 0 && s[0] != '\n' {
        let t = s.drop_first();
        lemma_line_end_at(t);
        lemma_line_end_bounds(t);
        if line_end(t) < t.len() {
            assert(t[line_end(t)] == s[line_end(s)]);
        }
    }
}

/// Reading a text followed by a line ending: the line ending closes the last
/// line, and where the text was empty or already ended by a line ending, it is
/// a blank line of its own.
proof fn lemma_fold_newline(st: SseState, a: Seq<char>)
    ensures
        sse_fold(st, lines_of(a + seq!['\n'])) == (if a.len() == 0 || a.last() == '\n' {
            sse_step(sse_fold(st, lines_of(a)), Seq::<char>::empty())
        } else {
            sse_fold(st, lines_of(a))
        }),
    decreases a.len(),
{
    let e = line_end(a);
    lemma_line_end_bounds(a);
    let x = a.take(e);
    assert(!x.contains('\n')) by {
        if x.contains('\n') {
            let i = choose|i: int| 0 <= i < x.len() && x[i] == '\n';
            lemma_line_end_before(a, i);
        }
    }
    if e == a.len() {
        assert(x =~= a);
        lemma_lines_cons(a, Seq::<char>::empty());
        assert(a + seq!['\n'] + Seq::<char>::empty() =~= a + seq!['\n']);
        assert(lines_of(Seq::<char>::empty()) =~= Seq::<Seq<char>>::empty());
        lemma_fold_cons(st, strip_cr(a), Seq::<Seq<char>>::empty());
        assert(seq![strip_cr(a)] + Seq::<Seq<char>>::empty() =~= seq![strip_cr(a)]);
        if a.len() == 0 {
            assert(strip_cr(a) =~= Seq::<char>::empty());
        } else {
            lemma_step_strip_cr(st, a);
            assert(a.last() != '\n') by {
                lemma_line_end_before(a, a.len() - 1);
            }
            assert(lines_of(a) == seq![a]);
            lemma_fold_cons(st, a, Seq::<Seq<char>>::empty());
            assert(seq![a] + Seq::<Seq<char>>::empty() =~= seq![a]);
        }
    } else {
        let rest = a.skip(e + 1);
        lemma_line_end_at(a);
        assert(a =~= x + seq!['\n'] + rest);
        assert(a + seq!['\n'] =~= x + seq!['\n'] + (rest + seq!['\n']));
        lemma_lines_cons(x, rest + seq!['\n']);
        lemma_lines_cons(x, rest);
        let st1 = sse_step(st, strip_cr(x));
        lemma_fold_cons(st, strip_cr(x), lines_of(rest + seq!['\n']));
        lemma_fold_cons(st, strip_cr(x), lines_of(rest));
        lemma_fold_newline(st1, rest);
        if rest.len() > 0 {
            assert(a.last() == rest.last());
        }
    }
}

/// Reading from a state whose events start with `acc` gives `acc`, then what
/// the same state without them gives.
proof fn lemma_run_shift(st: SseState, acc: Seq<SseEventModel>, lines: Seq<Seq<char>>)
    ensures
        sse_run(SseState { events: acc + st.events, ..st }, lines) == acc + sse_run(st, lines),
    decreases lines.len(),
{
    let sh = SseState { events: acc + st.events, ..st };
    if lines.len() == 0 {
        if st.path is Some && st.cursor is Some {
            assert((acc + st.events).push(
                SseEventModel { path: st.path->0, cursor: st.cursor->0, content_hash: st.hash },
            ) =~= acc + st.events.push(
                SseEventModel { path: st.path->0, cursor: st.cursor->0, content_hash: st.hash },
            ));
        }
    } else {
        let l = lines[0];
        let nx = sse_step(st, l);
        assert(sse_step(sh, l) == SseState { events: acc + nx.events, ..nx }) by {
            if trim_end(l).len() == 0 && st.path is Some && st.cursor is Some {
                assert((acc + st.events).push(
                    SseEventModel { path: st.path->0, cursor: st.cursor->0, content_hash: st.hash },
                ) =~= acc + st.events.push(
                    SseEventModel { path: st.path->0, cursor: st.cursor->0, content_hash: st.hash },
                ));
            }
        }
        lemma_run_shift(nx, acc, lines.drop_first());
    }
}

/// Two batches joined by a blank line: the events of the joined text are
/// those of the first batch followed by those of the second. The blank line
/// closes whatever block the first batch left open, so nothing of the first
/// batch (no path, cursor or hash) reaches the events of the second.
pub proof fn law_batches_concatenate(a: Seq<char>, b: Seq<char>)
    ensures
        sse_events(a + seq!['\n', '\n'] + b) == sse_events(a) + sse_events(b),
{
    let nl = seq!['\n'];
    assert(a + seq!['\n', '\n'] + b =~= a + nl + (nl + b));
    lemma_lines_append(a, nl + b);
    lemma_lines_cons(Seq::<char>::empty(), b);
    assert(Seq::<char>::empty() + nl + b =~= nl + b);
    assert(strip_cr(Seq::<char>::empty()) =~= Seq::<char>::empty());
    let la = lines_of(a + nl);
    let lb = lines_of(b);
    assert(lines_of(a + nl + (nl + b)) =~= la + (seq![Seq::<char>::empty()] + lb));
    lemma_fold_append(initial_state(), la, seq![Seq::<char>::empty()] + lb);
    let f1 = sse_fold(initial_state(), la);
    lemma_run_cons(f1, Seq::<char>::empty(), lb);
    let f = sse_fold(initial_state(), lines_of(a));
    lemma_fold_newline(initial_state(), a);
    lemma_run_is_finish_fold(initial_state(), lines_of(a));
    lemma_blank_step(f);
    lemma_blank_step(f1);
    if a.len() == 0 || a.last() == '\n' {
        lemma_blank_step(clean_state(sse_finish(f)));
    }
    assert(sse_step(f1, Seq::<char>::empty()) == clean_state(sse_events(a)));
    lemma_run_shift(initial_state(), sse_events(a), lb);
    assert(sse_events(a) + Seq::<SseEventModel>::empty() =~= sse_events(a));
    assert(SseState { events: sse_events(a) + initial_state().events, ..initial_state() }
        == clean_state(sse_events(a)));
}

// ---------------------------------------------------------------------------
// Text that is still arriving
// ---------------------------------------------------------------------------

/// Length of the part of `t` up to and including its last line ending (0 when
/// it has none): the lines there are complete.
pub open spec fn closed_len(t: Seq<char>) -> nat
    decreases t.len(),
{
    if t.len() == 0 {
        0
    } else if t.last() == '\n' {
        t.len()
    } else {
        closed_len(t.drop_last())
    }
}

/// The events that the complete lines of `t` have closed with a blank line.
/// Text that arrives after `t` cannot change them (see
/// `law_ready_events_are_final`).
pub open spec fn ready_events(t: Seq<char>) -> Seq<SseEventModel> {
    sse_fold(initial_state(), lines_of(t.take(closed_len(t) as int))).events
}

/// Where the complete lines end.
proof fn lemma_closed_len(t: Seq<char>)
    ensures
        closed_len(t) <= t.len(),
        closed_len(t) > 0 ==> t[closed_len(t) - 1] == '\n',
    decreases t.len(),
{
    if t.len() > 0 && t.last() != '\n' {
        lemma_closed_len(t.drop_last());
    }
}

/// More text never moves the end of the complete lines back.
proof fn lemma_closed_len_grows(t: Seq<char>, m: Seq<char>)
    ensures
        closed_len(t) <= closed_len(t + m),
    decreases m.len(),
{
    lemma_closed_len(t);
    if m.len() == 0 {
        assert(t + m =~= t);
    } else if m.last() != '\n' {
        lemma_closed_len_grows(t, m.drop_last());
        assert((t + m).drop_last() =~= t + m.drop_last());
    }
}

/// Reading more lines only adds events after those there were.
proof fn lemma_fold_events_grow(st: SseState, lines: Seq<Seq<char>>)
    ensures
        st.events.is_prefix_of(sse_fold(st, lines).events),
        st.events.is_prefix_of(sse_run(st, lines)),
    decreases lines.len(),
{
    if lines.len() == 0 {
        assert(st.events =~= st.events.subrange(0, st.events.len() as int));
        assert(st.events =~= sse_finish(st).subrange(0, st.events.len() as int));
    } else {
        let nx = sse_step(st, lines[0]);
        lemma_fold_events_grow(nx, lines.drop_first());
        assert(st.events.is_prefix_of(nx.events)) by {
            assert(st.events =~= nx.events.subrange(0, st.events.len() as int));
        }
        let f = sse_fold(nx, lines.drop_first()).events;
        let r = sse_run(nx, lines.drop_first());
        assert(st.events =~= f.subrange(0, st.events.len() as int)) by {
            assert forall|i: int| 0 <= i < st.events.len() implies st.events[i] == f[i] by {
                assert(nx.events[i] == f[i]);
            }
        }
        assert(st.events =~= r.subrange(0, st.events.len() as int)) by {
            assert forall|i: int| 0 <= i < st.events.len() implies st.events[i] == r[i] by {
                assert(nx.events[i] == r[i]);
            }
        }
    }
}

/// The lines of a text whose first part ends with a line ending.
proof fn lemma_lines_after_newline(p: Seq<char>, y: Seq<char>)
    requires
        p.len() > 0,
        p.last() == '\n',
    ensures
        lines_of(p + y) == lines_of(p) + lines_of(y),
{
    let a = p.drop_last();
    assert(a + seq!['\n'] =~= p);
    assert(a + seq!['\n'] + y =~= p + y);
    lemma_lines_append(a, y);
}

/// Events that the complete lines have closed are final: whatever text
/// arrives after them, they stay the first events of the complete lines, and
/// the first events of the whole text once it has ended.
pub proof fn law_ready_events_are_final(t: Seq<char>, m: Seq<char>)
    ensures
        ready_events(t).is_prefix_of(ready_events(t + m)),
        ready_events(t).is_prefix_of(sse_events(t + m)),
{
    let c = closed_len(t);
    let c2 = closed_len(t + m);
    lemma_closed_len(t);
    lemma_closed_len(t + m);
    lemma_closed_len_grows(t, m);
    let p = t.take(c as int);
    let init = initial_state();
    if c == 0 {
        assert(p =~= Seq::<char>::empty());
        assert(lines_of(p) =~= Seq::<Seq<char>>::empty());
        assert(ready_events(t) =~= Seq::<SseEventModel>::empty());
        lemma_fold_events_grow(init, lines_of((t + m).take(c2 as int)));
        lemma_fold_events_grow(init, lines_of(t + m));
    } else {
        assert(p.last() == '\n');
        let q = (t + m).take(c2 as int);
        let y = (t + m).subrange(c as int, c2 as int);
        let z = (t + m).skip(c as int);
        assert(q =~= p + y);
        assert(t + m =~= p + z);
        lemma_lines_after_newline(p, y);
        lemma_lines_after_newline(p, z);
        lemma_fold_append(init, lines_of(p), lines_of(y));
        lemma_fold_append(init, lines_of(p), lines_of(z));
        let f = sse_fold(init, lines_of(p));
        lemma_fold_events_grow(f, lines_of(y));
        lemma_fold_events_grow(f, lines_of(z));
    }
}

/// The events that the complete lines of `text` have closed.
pub fn ready_sse_events(text: &str) -> (events: Vec<SseEvent>)
    ensures
        events_model(events@) == ready_events(text@),
{
    let mut v = chars_of(text);
    let mut k = v.len();
    assert(v@.take(k as int) =~= v@);
    while k > 0 && v[k - 1] != '\n'
        invariant
            k <= v@.len(),
            v@ == text@,
            closed_len(v@.take(k as int)) == closed_len(text@),
        decreases k,
    {
        assert(v@.take(k as int).drop_last() =~= v@.take(k - 1));
        k = k - 1;
    }
    assert(closed_len(v@.take(k as int)) == k) by {
        if k == 0 {
            assert(v@.take(0) =~= Seq::<char>::empty());
        }
    }
    v.truncate(k);
    let (events, _path, _cursor, _hash) = fold_lines(&v);
    events
}

// ---------------------------------------------------------------------------
// Lines that the reader does not know
// ---------------------------------------------------------------------------

/// `trim_end(s)` is `s` up to its trailing white space.
proof fn lemma_trim_end_is_prefix(s: Seq<char>)
    ensures
        trim_end(s).len() <= s.len(),
        trim_end(s) == s.take(trim_end(s).len() as int),
        forall|i: int| trim_end(s).len() <= i < s.len() ==> is_white_space(#[trigger] s[i]),
    decreases s.len(),
{
    if s.len() > 0 && is_white_space(s.last()) {
        let d = s.drop_last();
        lemma_trim_end_is_prefix(d);
        assert(d.take(trim_end(d).len() as int) =~= s.take(trim_end(d).len() as int));
        assert forall|i: int| trim_end(s).len() <= i < s.len() implies is_white_space(#[trigger] s[i]) by {
            if i < d.len() {
                assert(d[i] == s[i]);
            }
        }
    } else {
        assert(s.take(s.len() as int) =~= s);
    }
}

/// A line that holds something besides white space and starts with none of
/// `path: `, `cursor: ` and `content_hash: ` changes nothing: no block ends,
/// no field is set, no event is emitted.
pub proof fn law_other_lines_change_nothing(st: SseState, l: Seq<char>)
    requires
        exists|i: int| 0 <= i < l.len() && !is_white_space(#[trigger] l[i]),
        !starts_with(l, "path: "@),
        !starts_with(l, "cursor: "@),
        !starts_with(l, "content_hash: "@),
    ensures
        sse_step(st, l) == st,
{
    let t = trim_end(l);
    lemma_trim_end_is_prefix(l);
    let w = choose|i: int| 0 <= i < l.len() && !is_white_space(#[trigger] l[i]);
    assert(t.len() > 0);
    assert forall|p: Seq<char>| starts_with(t, p) implies starts_with(l, p) by {
        assert(t.take(p.len() as int) =~= l.take(p.len() as int));
    }
    assert(!starts_with(t, "path: "@));
    assert(!starts_with(t, "cursor: "@));
    assert(!starts_with(t, "content_hash: "@));
}

} // verus!
