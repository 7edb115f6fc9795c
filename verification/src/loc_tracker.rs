//! Abstract tracker for calculating total lines of code (LoC)
//! in a sequence of code blocks.
//!
//! Code blocks are added through the interface add(start, end) with the start and
//! end lines of each block.
//!
//! Important note:
//! - The "length" of each block is defined to be the end line, minus the start line,
//!   plus one if the excerpt starts and ends on the same line.
use vstd::prelude::*;

use crate::effect::{csv_sep, push_decimal};
use crate::text::{decimal, push_str};

verus! {

/// Abstract view of a tracker: blocks added, lines of multi-line blocks, single-line blocks.
pub struct LoCTrackerView {
    pub instances: nat,
    pub lines: nat,
    pub zero_size_lines: nat,
}

/// Lines of Code tracker
#[derive(Debug)]
pub struct LoCTracker {
    instances: usize,
    lines: usize,
    zero_size_lines: usize,
}

impl View for LoCTracker {
    type V = LoCTrackerView;

    closed spec fn view(&self) -> LoCTrackerView {
        LoCTrackerView {
            instances: self.instances as nat,
            lines: self.lines as nat,
            zero_size_lines: self.zero_size_lines as nat,
        }
    }
}

/// The lines of code a tracker counts.
pub open spec fn tracker_loc(t: LoCTrackerView) -> nat {
    t.lines + t.zero_size_lines
}

impl Default for LoCTracker {
    fn default() -> (r: Self)
        ensures
            r@ == (LoCTrackerView { instances: 0, lines: 0, zero_size_lines: 0 }),
    {
        LoCTracker { instances: 0, lines: 0, zero_size_lines: 0 }
    }
}

impl Clone for LoCTracker {
    fn clone(&self) -> (r: Self)
        ensures
            r@ == self@,
    {
        LoCTracker {
            instances: self.instances,
            lines: self.lines,
            zero_size_lines: self.zero_size_lines,
        }
    }
}

impl LoCTracker {
    /// Create an empty tracker
    pub fn new() -> (r: Self)
        ensures
            r@ == (LoCTrackerView { instances: 0, lines: 0, zero_size_lines: 0 }),
    {
        Self::default()
    }

    /// Add a block spanning the lines `start..=end`
    pub fn add(&mut self, start: usize, end: usize)
        requires
            start <= end,
            old(self)@.instances < usize::MAX,
            old(self)@.zero_size_lines < usize::MAX,
            old(self)@.lines + (end - start) <= usize::MAX,
        ensures
            final(self)@ == add_span(old(self)@, start as nat, end as nat),
            final(self)@.instances == old(self)@.instances + 1,
            start == end ==> final(self)@.zero_size_lines == old(self)@.zero_size_lines + 1
                && final(self)@.lines == old(self)@.lines,
            start != end ==> final(self)@.lines == old(self)@.lines + (end - start)
                && final(self)@.zero_size_lines == old(self)@.zero_size_lines,
    {
        self.instances = self.instances + 1;
        if start == end {
            self.zero_size_lines = self.zero_size_lines + 1;
        } else {
            // Could add 1 here, but we choose to instead
            // track zero-sized lines separately
            self.lines = self.lines + (end - start);
        }
    }

    /// Return true if no spans were added
    pub fn is_empty(&self) -> (r: bool)
        ensures
            r == (self@.instances == 0),
    {
        self.instances == 0
    }

    /// Get number of instances added
    pub fn get_instances(&self) -> (r: usize)
        ensures
            r == self@.instances,
    {
        self.instances
    }

    /// Get total lines of code added
    pub fn get_loc(&self) -> (r: usize)
        requires
            tracker_loc(self@) <= usize::MAX,
        ensures
            r == tracker_loc(self@),
    {
        self.lines + self.zero_size_lines
    }

    /// Summary as a CSV
    pub fn as_csv(&self) -> (r: String)
        requires
            tracker_loc(self@) <= usize::MAX,
        ensures
            r@ == decimal(self@.instances) + csv_sep() + decimal(tracker_loc(self@)),
    {
        let mut s = String::new();
        push_decimal(&mut s, self.get_instances() as u64);
        push_str(&mut s, ", ");
        push_decimal(&mut s, self.get_loc() as u64);
        proof {
            reveal_strlit(", ");
        }
        assert(s@ =~= decimal(self@.instances) + csv_sep() + decimal(tracker_loc(self@)));
        s
    }
}


/// The length of a block from line `start` to line `end`: one for a block on a
/// single line, else the difference of the lines.
pub open spec fn span_lines(start: nat, end: nat) -> nat {
    if start == end {
        1
    } else {
        (end - start) as nat
    }
}

/// A tracker after a block from line `start` to line `end` was added.
pub open spec fn add_span(t: LoCTrackerView, start: nat, end: nat) -> LoCTrackerView {
    if start == end {
        LoCTrackerView { instances: t.instances + 1, lines: t.lines, zero_size_lines: t.zero_size_lines + 1 }
    } else {
        LoCTrackerView { instances: t.instances + 1, lines: (t.lines + (end - start)) as nat, zero_size_lines: t.zero_size_lines }
    }
}

/// A new tracker after the blocks `spans` were added in order.
pub open spec fn after_spans(spans: Seq<(nat, nat)>) -> LoCTrackerView
    decreases spans.len(),
{
    if spans.len() == 0 {
        LoCTrackerView { instances: 0, lines: 0, zero_size_lines: 0 }
    } else {
        add_span(after_spans(spans.drop_last()), spans.last().0, spans.last().1)
    }
}

/// The summed length of the blocks.
pub open spec fn spans_lines(spans: Seq<(nat, nat)>) -> nat
    decreases spans.len(),
{
    if spans.len() == 0 {
        0
    } else {
        spans_lines(spans.drop_last()) + span_lines(spans.last().0, spans.last().1)
    }
}

/// A new tracker that was given the blocks `spans` counts one instance per
/// block and, as lines of code, the sum of their lengths; it is empty exactly
/// when no block was added.
pub proof fn law_tracker_counts_spans(spans: Seq<(nat, nat)>)
    requires
        forall|k: int| 0 <= k < spans.len() ==> (#[trigger] spans[k]).0 <= spans[k].1,
    ensures
        after_spans(spans).instances == spans.len(),
        tracker_loc(after_spans(spans)) == spans_lines(spans),
        (after_spans(spans).instances == 0) <==> spans.len() == 0,
    decreases spans.len(),
{
    if spans.len() > 0 {
        let d = spans.drop_last();
        assert forall|k: int| 0 <= k < d.len() implies (#[trigger] d[k]).0 <= d[k].1 by {
            assert(d[k] == spans[k]);
        }
        law_tracker_counts_spans(d);
        assert(spans.last() == spans[spans.len() - 1]);
    }
}
} // verus!
