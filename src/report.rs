//! Assembly of the whole report.
use crate::filter::{filter_frames, kept_frames, kept_range};
use crate::frame::{Frame, SymbolView, demangle_trace, readable_trace, trace_view};
use crate::render::{format_frame_into, frame_text};
use vstd::prelude::*;

verus! {

/// Every report starts on a line of its own.
pub const REPORT_START: &'static str = "\n";

/// The texts of the first `n` frames, each shown at its position.
pub open spec fn frames_text(fs: Seq<Seq<SymbolView>>, n: int) -> Seq<char>
    decreases n,
{
    if n <= 0 {
        Seq::empty()
    } else {
        frames_text(fs, n - 1) + frame_text((n - 1) as nat, fs[n - 1])
    }
}

/// The report on a trace whose names are readable: a leading newline, then
/// the kept frames numbered from zero.
pub open spec fn report(t: Seq<Seq<SymbolView>>) -> Seq<char> {
    REPORT_START@ + frames_text(kept_frames(t), kept_frames(t).len() as int)
}

/// The report on frames whose names are already readable.
pub fn format_readable(frames: &Vec<Frame>) -> (r: String)
    ensures
        r@ == report(trace_view(frames@)),
{
    let ghost t = trace_view(frames@);
    let (start, end) = filter_frames(frames);
    proof {
        crate::filter::lemma_kept_ordered(t);
    }
    let mut out = String::from_str(REPORT_START);
    let mut i: usize = start;
    while i < end
        invariant
            0 <= start <= i <= end <= frames@.len(),
            t == trace_view(frames@),
            start as int == kept_range(t).0,
            end as int == kept_range(t).1,
            out@ == REPORT_START@ + frames_text(kept_frames(t), i - start),
        decreases end - i,
    {
        format_frame_into(&mut out, i - start, &frames[i]);
        assert(kept_frames(t)[i - start] == frames@[i as int]@);
        i += 1;
    }
    assert(kept_frames(t).len() == end - start);
    out
}

/// Formats a resolved trace as a readable report: names are demangled, the
/// capture and start-up frames at both ends are dropped, and the remaining
/// frames are numbered from zero, one block each, after a leading newline.
pub fn format_frames(frames: &Vec<Frame>) -> (r: String)
    ensures
        r@ == report(readable_trace(trace_view(frames@))),
{
    let readable = demangle_trace(frames);
    format_readable(&readable)
}

/// A trace of which no frame is kept gives a report that is one newline.
pub proof fn lemma_nothing_kept(t: Seq<Seq<SymbolView>>)
    requires
        kept_frames(t).len() == 0,
    ensures
        report(t) == REPORT_START@,
{
    assert(report(t) =~= REPORT_START@);
}

} // verus!
