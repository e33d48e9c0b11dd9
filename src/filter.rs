//! Trimming of the frames that belong to capture, panic dispatch and
//! runtime start-up rather than to the program being traced.
use crate::frame::{Frame, SymbolView, trace_view};
use crate::text::{contains, contains_text, same_text, starts_with};
use vstd::prelude::*;

verus! {

/// The panic formatting entry point.
pub const PANIC_FMT: &'static str = "panic_fmt";

/// The namespace of the standard library's panic machinery.
pub const PANICKING_PREFIX: &'static str = "std::panicking";

/// The symbol through which test and thread harnesses enter user code.
pub const SHORT_BACKTRACE_MARKER: &'static str = "__rust_begin_short_backtrace";

/// How many of the innermost frames are searched for the start boundary.
pub const START_WINDOW: usize = 10;

/// The two ends of the trace that are trimmed.
#[derive(Clone, Copy, PartialEq, Eq, Structural)]
pub enum Boundary {
    /// Capture and panic dispatch, at the innermost end.
    Start,
    /// Process and thread start-up, at the outermost end.
    End,
}

/// Whether a readable symbol name marks the boundary `b`.
pub open spec fn marks(b: Boundary, name: Seq<char>) -> bool {
    match b {
        Boundary::Start => name == PANIC_FMT@ || PANICKING_PREFIX@.is_prefix_of(name)
            || contains_text(name, SHORT_BACKTRACE_MARKER@),
        Boundary::End => contains_text(name, SHORT_BACKTRACE_MARKER@),
    }
}

/// Whether the symbol has a name and it marks the boundary `b`.
pub open spec fn symbol_marks(b: Boundary, s: SymbolView) -> bool {
    match s.name {
        Some(n) => marks(b, n),
        None => false,
    }
}

/// Whether some symbol of the frame marks the boundary `b`.
pub open spec fn frame_marks(b: Boundary, f: Seq<SymbolView>) -> bool {
    exists|j: int| 0 <= j < f.len() && symbol_marks(b, #[trigger] f[j])
}

/// The highest index below `n` of a frame that marks `b`.
pub open spec fn last_marked(b: Boundary, t: Seq<Seq<SymbolView>>, n: int) -> Option<int>
    decreases n,
{
    if n <= 0 {
        None
    } else if frame_marks(b, t[n - 1]) {
        Some(n - 1)
    } else {
        last_marked(b, t, n - 1)
    }
}

/// The start boundary: the last marked frame among the innermost ones.
pub open spec fn start_boundary(t: Seq<Seq<SymbolView>>) -> Option<int> {
    let window = if t.len() < START_WINDOW {
        t.len() as int
    } else {
        START_WINDOW as int
    };
    last_marked(Boundary::Start, t, window)
}

/// The end boundary: the last marked frame of the whole trace.
pub open spec fn end_boundary(t: Seq<Seq<SymbolView>>) -> Option<int> {
    last_marked(Boundary::End, t, t.len() as int)
}

/// The range of frames kept, `(start, end)`, end excluded: the frames
/// strictly between the two boundaries. A start boundary at or after the
/// end boundary is ignored.
pub open spec fn kept_range(t: Seq<Seq<SymbolView>>) -> (int, int) {
    let end = match end_boundary(t) {
        Some(e) => e,
        None => t.len() as int,
    };
    let start = match start_boundary(t) {
        Some(s) => if end_boundary(t) is Some && s >= end {
            0
        } else {
            s + 1
        },
        None => 0,
    };
    (start, end)
}

/// The frames kept, in their order.
pub open spec fn kept_frames(t: Seq<Seq<SymbolView>>) -> Seq<Seq<SymbolView>> {
    t.subrange(kept_range(t).0, kept_range(t).1)
}

/// Whether a readable symbol name marks the boundary `b`.
pub fn name_marks(b: Boundary, name: &str) -> (r: bool)
    ensures
        r == marks(b, name@),
{
    match b {
        Boundary::Start => same_text(name, PANIC_FMT) || starts_with(name, PANICKING_PREFIX)
            || contains(name, SHORT_BACKTRACE_MARKER),
        Boundary::End => contains(name, SHORT_BACKTRACE_MARKER),
    }
}

/// Whether some named symbol of the frame marks the boundary `b`; the
/// frame's names are taken as already readable.
pub fn frame_contains_symbol(frame: &Frame, b: Boundary) -> (r: bool)
    ensures
        r == frame_marks(b, frame@),
{
    let mut j: usize = 0;
    while j < frame.symbols.len()
        invariant
            j <= frame.symbols@.len(),
            forall|i: int| 0 <= i < j ==> !symbol_marks(b, #[trigger] frame@[i]),
        decreases frame.symbols@.len() - j,
    {
        let hit = match &frame.symbols[j].name {
            Some(n) => name_marks(b, n.as_str()),
            None => false,
        };
        if hit {
            assert(frame@[j as int] == frame.symbols@[j as int]@);
            return true;
        }
        j += 1;
    }
    false
}

/// The highest index below `n` of a frame that marks `b`.
fn last_marked_below(frames: &Vec<Frame>, b: Boundary, n: usize) -> (r: Option<usize>)
    requires
        n <= frames@.len(),
    ensures
        match r {
            Some(k) => last_marked(b, trace_view(frames@), n as int) == Some(k as int),
            None => last_marked(b, trace_view(frames@), n as int) is None,
        },
{
    let ghost t = trace_view(frames@);
    let mut i = n;
    while i > 0
        invariant
            i <= n <= frames@.len(),
            t == trace_view(frames@),
            last_marked(b, t, n as int) == last_marked(b, t, i as int),
        decreases i,
    {
        let hit = frame_contains_symbol(&frames[i - 1], b);
        assert(t[i - 1] == frames@[i - 1]@);
        if hit {
            return Some(i - 1);
        }
        i -= 1;
    }
    None
}

/// Selects the frames that belong to the traced program: the range
/// `(start, end)`, end excluded, of the frames to keep.
///
/// Among the innermost frames, the last one with a panic machinery symbol
/// marks the start; the last frame of the whole trace that enters user code
/// from a harness marks the end. Frames at or before the start and at or
/// after the end are dropped. Where no boundary is found nothing is dropped
/// on that side. The frames' names are taken as already readable.
pub fn filter_frames(frames: &Vec<Frame>) -> (r: (usize, usize))
    ensures
        r.0 as int == kept_range(trace_view(frames@)).0,
        r.1 as int == kept_range(trace_view(frames@)).1,
{
    let len = frames.len();
    let window = if len < START_WINDOW {
        len
    } else {
        START_WINDOW
    };
    let start = last_marked_below(frames, Boundary::Start, window);
    let end = last_marked_below(frames, Boundary::End, len);
    let end_index = match end {
        Some(e) => e,
        None => len,
    };
    let start_index = match start {
        Some(s) => if end.is_some() && s >= end_index {
            0
        } else {
            proof {
                lemma_last_marked_range(Boundary::Start, trace_view(frames@), window as int);
            }
            s + 1
        },
        None => 0,
    };
    (start_index, end_index)
}

proof fn lemma_last_marked_range(b: Boundary, t: Seq<Seq<SymbolView>>, n: int)
    ensures
        last_marked(b, t, n) matches Some(k) ==> 0 <= k < n && frame_marks(b, t[k]),
        last_marked(b, t, n) is None ==> forall|i: int|
            0 <= i < n ==> !frame_marks(b, #[trigger] t[i]),
    decreases n,
{
    if n > 0 {
        lemma_last_marked_range(b, t, n - 1);
    }
}

/// The kept frames are one contiguous run of the trace, in the trace's
/// order: the `i`-th kept frame is the frame at `start + i`, so none is
/// reordered or repeated.
pub proof fn lemma_kept_contiguous(t: Seq<Seq<SymbolView>>)
    ensures
        0 <= kept_range(t).0 <= kept_range(t).1 <= t.len(),
        kept_frames(t).len() == kept_range(t).1 - kept_range(t).0,
        forall|i: int|
            0 <= i < kept_frames(t).len() ==> #[trigger] kept_frames(t)[i] == t[kept_range(t).0
                + i],
{
    lemma_kept_ordered(t);
}

/// A trace in which no frame marks either boundary is kept whole.
pub proof fn lemma_no_markers_keeps_all(t: Seq<Seq<SymbolView>>)
    requires
        forall|i: int|
            0 <= i < t.len() ==> !frame_marks(Boundary::Start, #[trigger] t[i]) && !frame_marks(
                Boundary::End,
                t[i],
            ),
    ensures
        kept_range(t) == (0int, t.len() as int),
        kept_frames(t) == t,
{
    lemma_none_marked(Boundary::Start, t, if t.len() < START_WINDOW {
        t.len() as int
    } else {
        START_WINDOW as int
    });
    lemma_none_marked(Boundary::End, t, t.len() as int);
    assert(t.subrange(0, t.len() as int) =~= t);
}

proof fn lemma_none_marked(b: Boundary, t: Seq<Seq<SymbolView>>, n: int)
    requires
        n <= t.len(),
        forall|i: int| 0 <= i < n ==> !frame_marks(b, #[trigger] t[i]),
    ensures
        last_marked(b, t, n) is None,
    decreases n,
{
    if n > 0 {
        lemma_none_marked(b, t, n - 1);
    }
}

/// The kept range never runs backwards; where the start boundary is not
/// before the end boundary, it is ignored and the range starts at the first
/// frame.
pub proof fn lemma_kept_ordered(t: Seq<Seq<SymbolView>>)
    ensures
        0 <= kept_range(t).0 <= kept_range(t).1 <= t.len(),
        start_boundary(t) matches Some(s) ==> end_boundary(t) matches Some(e) ==> s >= e
            ==> kept_range(t) == (0int, e),
{
    let window = if t.len() < START_WINDOW {
        t.len() as int
    } else {
        START_WINDOW as int
    };
    lemma_last_marked_range(Boundary::Start, t, window);
    lemma_last_marked_range(Boundary::End, t, t.len() as int);
}

} // verus!
