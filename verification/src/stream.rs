//! Following a stream of server-sent events as its text arrives.
//!
//! The caller reads the stream and hands each piece of text to `stream_step`,
//! which says which events to print now and when to stop. Only events that a
//! blank line has closed within complete lines are printed before the stream
//! ends, so nothing printed is ever taken back.
use vstd::prelude::*;
use crate::sse::{
    SseEvent, events_model, ready_events, lines_of, sse_events, ready_sse_events, parse_sse_batch,
    law_ready_events_are_final,
};
use crate::text::append_str;

verus! {

/// Events printed without `--live` when no limit is given.
pub const DEFAULT_LIMIT: u64 = 20;

/// What the caller has seen of the stream so far.
pub struct StreamState {
    /// The text received so far.
    pub received: String,
    /// How many events have been printed.
    pub printed: usize,
    /// Whether the stream is followed live (no limit applies).
    pub live: bool,
    /// The limit asked for on the command line.
    pub limit: Option<u64>,
}

/// What the stream did.
pub enum StreamEvent {
    /// More text arrived.
    Chunk(String),
    /// The stream ended.
    End,
}

/// What the caller does next.
pub enum StreamAction {
    /// Print these events and read on.
    Print(Vec<SseEvent>),
    /// Print these events and stop; when `report_count` holds, then say how
    /// many events were received.
    Stop { print: Vec<SseEvent>, report_count: bool },
}

/// The most events to print: the limit (20 when none is given), or no bound
/// when following live.
pub open spec fn stream_cap(live: bool, limit: Option<u64>) -> Option<nat> {
    if live {
        None
    } else {
        match limit {
            Some(l) => Some(l as nat),
            None => Some(DEFAULT_LIMIT as nat),
        }
    }
}

/// `n`, cut at the cap.
pub open spec fn capped_count(n: nat, cap: Option<nat>) -> nat {
    match cap {
        Some(c) => if n <= c { n } else { c },
        None => n,
    }
}

/// The cap is reached at `n` printed events.
pub open spec fn cap_reached(n: nat, cap: Option<nat>) -> bool {
    match cap {
        Some(c) => n >= c,
        None => false,
    }
}

impl StreamState {
    /// What was printed is among the events that the received text has
    /// closed, and within the cap.
    pub open spec fn wf(&self) -> bool {
        &&& self.printed <= ready_events(self.received@).len()
        &&& match stream_cap(self.live, self.limit) {
            Some(c) => self.printed <= c,
            None => true,
        }
    }

    /// The state before any text.
    pub fn new(live: bool, limit: Option<u64>) -> (st: Self)
        ensures
            st.wf(),
            st.received@ == Seq::<char>::empty(),
            st.printed == 0,
            st.live == live,
            st.limit == limit,
    {
        let st = StreamState { received: String::new(), printed: 0, live, limit };
        assert(st.received@ =~= Seq::<char>::empty());
        assert(st.received@.take(0) =~= Seq::<char>::empty());
        assert(lines_of(Seq::<char>::empty()) =~= Seq::<Seq<char>>::empty());
        st
    }
}

/// The cap, as the executable code holds it.
fn cap_of(live: bool, limit: Option<u64>) -> (cap: Option<u64>)
    ensures
        match stream_cap(live, limit) {
            Some(c) => cap == Some(c as u64) && c <= u64::MAX,
            None => cap is None,
        },
{
    if live {
        None
    } else {
        match limit {
            Some(l) => Some(l),
            None => Some(DEFAULT_LIMIT),
        }
    }
}

/// `n`, cut at the cap.
fn cut_at(n: usize, cap: Option<u64>) -> (r: usize)
    ensures
        r == capped_count(
            n as nat,
            match cap {
                Some(c) => Some(c as nat),
                None => None,
            },
        ),
{
    match cap {
        Some(c) => {
            if (n as u64) <= c {
                n
            } else {
                c as usize
            }
        },
        None => n,
    }
}

/// The events `v[lo..hi]`.
fn events_between(v: Vec<SseEvent>, lo: usize, hi: usize) -> (r: Vec<SseEvent>)
    requires
        lo <= hi <= v@.len(),
    ensures
        events_model(r@) == events_model(v@).subrange(lo as int, hi as int),
{
    let mut v = v;
    let ghost all = v@;
    let mut tail = v.split_off(lo);
    tail.truncate(hi - lo);
    assert(tail@ =~= all.subrange(lo as int, hi as int));
    assert(events_model(tail@) =~= events_model(all).subrange(lo as int, hi as int));
    tail
}

/// One step of following the stream.
///
/// On more text: the text is added to what was received, and the events that
/// its complete lines have closed are printed from the first one not yet
/// printed, up to the cap; the caller stops once the cap is reached.
/// On the end of the stream: the whole text is read, the events not yet
/// printed are printed up to the cap, and the caller stops; the number of
/// events is reported when not following live and the cap was not reached.
pub fn stream_step(st: StreamState, ev: StreamEvent) -> (r: (StreamState, StreamAction))
    requires
        st.wf(),
    ensures
        r.0.live == st.live,
        r.0.limit == st.limit,
        st.printed <= r.0.printed,
        match ev {
            StreamEvent::Chunk(c) => {
                &&& r.0.received@ == st.received@ + c@
                &&& r.0.wf()
                &&& r.0.printed == capped_count(
                    ready_events(r.0.received@).len(),
                    stream_cap(st.live, st.limit),
                )
                &&& match r.1 {
                    StreamAction::Print(p) => {
                        &&& events_model(p@) == ready_events(r.0.received@).subrange(
                            st.printed as int,
                            r.0.printed as int,
                        )
                        &&& !cap_reached(r.0.printed as nat, stream_cap(st.live, st.limit))
                    },
                    StreamAction::Stop { print, report_count } => {
                        &&& events_model(print@) == ready_events(r.0.received@).subrange(
                            st.printed as int,
                            r.0.printed as int,
                        )
                        &&& cap_reached(r.0.printed as nat, stream_cap(st.live, st.limit))
                        &&& !report_count
                    },
                }
            },
            StreamEvent::End => {
                &&& r.0.received@ == st.received@
                &&& r.0.printed == capped_count(
                    sse_events(st.received@).len(),
                    stream_cap(st.live, st.limit),
                )
                &&& match r.1 {
                    StreamAction::Print(_) => false,
                    StreamAction::Stop { print, report_count } => {
                        &&& events_model(print@) == sse_events(st.received@).subrange(
                            st.printed as int,
                            r.0.printed as int,
                        )
                        &&& report_count == (!st.live && !cap_reached(
                            r.0.printed as nat,
                            stream_cap(st.live, st.limit),
                        ))
                    },
                }
            },
        },
{
    let ghost old_text = st.received@;
    let StreamState { received, printed, live, limit } = st;
    let cap = cap_of(live, limit);
    match ev {
        StreamEvent::Chunk(c) => {
            let mut received = received;
            append_str(&mut received, c.as_str());
            let ready = ready_sse_events(received.as_str());
            proof {
                law_ready_events_are_final(old_text, c@);
            }
            let n = ready.len();
            let end = cut_at(n, cap);
            let print = events_between(ready, printed, end);
            let stop = match cap {
                Some(k) => (end as u64) >= k,
                None => false,
            };
            let next = StreamState { received, printed: end, live, limit };
            if stop {
                (next, StreamAction::Stop { print, report_count: false })
            } else {
                (next, StreamAction::Print(print))
            }
        },
        StreamEvent::End => {
            let all = parse_sse_batch(received.as_str());
            proof {
                law_ready_events_are_final(old_text, Seq::<char>::empty());
                assert(old_text + Seq::<char>::empty() =~= old_text);
            }
            let n = all.len();
            let end = cut_at(n, cap);
            let print = events_between(all, printed, end);
            let reached = match cap {
                Some(k) => (end as u64) >= k,
                None => false,
            };
            let next = StreamState { received, printed: end, live, limit };
            (next, StreamAction::Stop { print, report_count: !live && !reached })
        },
    }
}

/// What a followed stream has printed stays at the front: whatever text is
/// still to come, the events printed so far are the first events of the whole
/// stream, and (without `--live`) no more of them than the cap.
pub proof fn law_printed_events_come_first(st: StreamState, m: Seq<char>)
    requires
        st.wf(),
    ensures
        ready_events(st.received@).take(st.printed as int).is_prefix_of(
            sse_events(st.received@ + m),
        ),
        !st.live ==> st.printed <= stream_cap(st.live, st.limit)->0,
{
    let r = ready_events(st.received@);
    law_ready_events_are_final(st.received@, m);
    assert(r.take(st.printed as int) =~= sse_events(st.received@ + m).subrange(0, st.printed as int)) by {
        assert forall|i: int| 0 <= i < st.printed implies r[i] == sse_events(st.received@ + m)[i] by {
            assert(r[i] == sse_events(st.received@ + m).subrange(0, r.len() as int)[i]);
        }
    }
}

/// The cap is the limit asked for: without `--live`, a given limit `l` caps
/// the events printed at exactly `l` (never fewer when that many are closed),
/// with no limit at 20, and with `--live` nothing is capped.
pub proof fn law_limit_is_the_cap(l: u64, n: nat)
    ensures
        stream_cap(false, Some(l)) == Some(l as nat),
        stream_cap(false, None) == Some(20nat),
        stream_cap(true, Some(l)) is None,
        stream_cap(true, None) is None,
        capped_count(n, Some(l as nat)) == (if n <= l { n } else { l as nat }),
        capped_count(n, None) == n,
        cap_reached(n, Some(l as nat)) <==> n >= l,
        !cap_reached(n, None),
{
}

} // verus!
