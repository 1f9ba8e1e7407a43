//! The call-depth register that instrumented code reads and updates.

use vstd::prelude::*;

verus! {

/// The number of marker characters by which one level of nesting indents a trace line.
pub const INDENT_STEP: usize = 4;

/// A register holding the current call nesting depth of one thread.
///
/// It starts at zero and only ever moves by saturating steps of one.
#[derive(Clone, Copy, Debug, PartialEq, Eq)]
pub struct DepthCounter {
    pub level: usize,
}

impl View for DepthCounter {
    type V = nat;

    open spec fn view(&self) -> nat {
        self.level as nat
    }
}

/// The depth after one saturating increment of `depth`.
pub open spec fn incremented(depth: nat) -> nat {
    if depth < usize::MAX {
        depth + 1
    } else {
        depth
    }
}

/// The depth after one saturating decrement of `depth`.
pub open spec fn decremented(depth: nat) -> nat {
    if depth > 0 {
        (depth - 1) as nat
    } else {
        depth
    }
}

impl DepthCounter {
    /// A counter at depth zero.
    pub fn new() -> (counter: DepthCounter)
        ensures
            counter@ == 0,
    {
        DepthCounter { level: 0 }
    }

    /// The current depth.
    pub fn read(&self) -> (level: usize)
        ensures
            level == self@,
    {
        self.level
    }

    /// Moves one level deeper; at the largest representable depth the counter stays put.
    pub fn increment(&mut self)
        ensures
            final(self)@ == incremented(old(self)@),
    {
        if self.level < usize::MAX {
            self.level = self.level + 1;
        }
    }

    /// Moves one level up; at depth zero the counter stays put.
    pub fn decrement(&mut self)
        ensures
            final(self)@ == decremented(old(self)@),
    {
        if self.level > 0 {
            self.level = self.level - 1;
        }
    }
    /// What an entry does to the register: the counter moves one level deeper, and the depth
    /// reached, at which the entry is traced, is returned.
    pub fn enter(&mut self) -> (level: usize)
        ensures
            final(self)@ == incremented(old(self)@),
            level == final(self)@,
    {
        self.increment();
        self.read()
    }

    /// What an exit does to the register: the current depth, at which the exit is traced, is
    /// returned, and the counter moves one level up.
    pub fn exit(&mut self) -> (level: usize)
        ensures
            level == old(self)@,
            final(self)@ == decremented(old(self)@),
    {
        let level = self.read();
        self.decrement();
        level
    }
}

/// The number of marker characters that indent a trace line at `depth`.
pub open spec fn indent_width(depth: nat) -> nat {
    depth * INDENT_STEP as nat
}

/// The number of marker characters that indent a trace line at depth `level`; `None` where
/// that number is too large to be represented.
pub fn indent_width_at(level: usize) -> (width: Option<usize>)
    ensures
        match width {
            Some(width) => width == indent_width(level as nat),
            None => indent_width(level as nat) > usize::MAX,
        },
{
    level.checked_mul(INDENT_STEP)
}

/// Trusted: `String::push` of std, which appends the character to the end of the string.
pub assume_specification[ String::push ](text: &mut String, c: char)
    ensures
        final(text)@ == old(text)@.push(c),
;

/// The indentation of a trace line at depth `depth`: `marker`, `INDENT_STEP` times for each
/// level.
pub open spec fn indent_of(marker: char, depth: nat) -> Seq<char> {
    Seq::new(indent_width(depth), |i: int| marker)
}

/// The indentation of a trace line at depth `level`; `None` where its width is too large to be
/// represented.
pub fn indentation(marker: char, level: usize) -> (indent: Option<String>)
    ensures
        match indent {
            Some(indent) => indent@ == indent_of(marker, level as nat),
            None => indent_width(level as nat) > usize::MAX,
        },
{
    let width = match indent_width_at(level) {
        Some(width) => width,
        None => {
            return None;
        },
    };
    let mut indent = String::new();
    let mut i: usize = 0;
    while i < width
        invariant
            0 <= i <= width,
            indent@ == Seq::new(i as nat, |k: int| marker),
        decreases width - i,
    {
        indent.push(marker);
        assert(indent@ =~= Seq::new((i + 1) as nat, |k: int| marker));
        i = i + 1;
    }
    Some(indent)
}

/// A depth at its largest value stays there when incremented, and a depth of zero stays there
/// when decremented.
pub proof fn lemma_depth_saturates()
    ensures
        incremented(usize::MAX as nat) == usize::MAX,
        decremented(0) == 0,
{
}

/// One call of an instrumented function, with the calls of instrumented functions that it makes
/// on the same thread before it returns, in order.
pub ghost struct Call {
    pub calls: Seq<Call>,
}

/// A trace event, with the depth that its indentation was computed from.
pub ghost enum TraceEvent {
    Enter(nat),
    Exit(nat),
}

/// How many calls deep `call` nests, itself counted.
pub open spec fn height(call: Call) -> nat
    decreases call,
{
    1 + max_height(call.calls)
}

/// How many calls deep the deepest of `calls` nests.
pub open spec fn max_height(calls: Seq<Call>) -> nat
    decreases calls,
{
    if calls.len() == 0 {
        0
    } else {
        let first = height(calls[0]);
        let rest = max_height(calls.drop_first());
        if first >= rest {
            first
        } else {
            rest
        }
    }
}

/// The events that `call` emits when it starts at `depth`, and the depth it leaves behind.
///
/// The call moves one level deeper, traces its entry at the depth reached, makes its own calls,
/// traces its exit at the depth it then finds, and moves one level up.
pub open spec fn trace_of(call: Call, depth: nat) -> (Seq<TraceEvent>, nat)
    decreases call,
{
    let entered = incremented(depth);
    let (inner, found) = trace_of_all(call.calls, entered);
    (seq![TraceEvent::Enter(entered)] + inner + seq![TraceEvent::Exit(found)], decremented(found))
}

/// The events that `calls` emit one after the other, the first starting at `depth`, and the
/// depth that the last leaves behind.
pub open spec fn trace_of_all(calls: Seq<Call>, depth: nat) -> (Seq<TraceEvent>, nat)
    decreases calls,
{
    if calls.len() == 0 {
        (Seq::empty(), depth)
    } else {
        let (first, next) = trace_of(calls[0], depth);
        let (rest, last) = trace_of_all(calls.drop_first(), next);
        (first + rest, last)
    }
}

/// The depths of the entries that are still without their exit after `events`, where those of
/// `open` were without one before; `None` where an exit does not match the latest such entry
/// in depth, or has no entry before it.
pub open spec fn open_after(events: Seq<TraceEvent>, open: Seq<nat>) -> Option<Seq<nat>>
    decreases events.len(),
{
    if events.len() == 0 {
        Some(open)
    } else {
        match events[0] {
            TraceEvent::Enter(depth) => open_after(events.drop_first(), open.push(depth)),
            TraceEvent::Exit(depth) => if open.len() > 0 && open.last() == depth {
                open_after(events.drop_first(), open.drop_last())
            } else {
                None
            },
        }
    }
}

/// Every entry of `events` has exactly one exit behind it that matches it, at the same depth
/// and so with the same indentation, and every exit has its entry.
pub open spec fn balanced(events: Seq<TraceEvent>) -> bool {
    open_after(events, Seq::empty()) == Some(Seq::<nat>::empty())
}

/// Events read one sequence after the other leave open what the second leaves open after the
/// first.
proof fn lemma_open_after_concat(first: Seq<TraceEvent>, second: Seq<TraceEvent>, open: Seq<nat>)
    ensures
        open_after(first + second, open) == match open_after(first, open) {
            Some(still) => open_after(second, still),
            None => None,
        },
    decreases first.len(),
{
    if first.len() == 0 {
        assert(first + second =~= second);
    } else {
        assert((first + second).drop_first() =~= first.drop_first() + second);
        match first[0] {
            TraceEvent::Enter(depth) => {
                lemma_open_after_concat(first.drop_first(), second, open.push(depth));
            },
            TraceEvent::Exit(depth) => {
                if open.len() > 0 && open.last() == depth {
                    lemma_open_after_concat(first.drop_first(), second, open.drop_last());
                }
            },
        }
    }
}

/// What a single entry or exit leaves open.
proof fn lemma_open_after_one(event: TraceEvent, open: Seq<nat>)
    ensures
        open_after(seq![event], open) == match event {
            TraceEvent::Enter(depth) => Some(open.push(depth)),
            TraceEvent::Exit(depth) => if open.len() > 0 && open.last() == depth {
                Some(open.drop_last())
            } else {
                None
            },
        },
{
    reveal_with_fuel(open_after, 2);
    assert(seq![event].drop_first() =~= Seq::empty());
}

/// A call that never reaches the largest depth leaves the depth as it found it, and all its
/// events are matched among themselves.
proof fn lemma_call_is_bracketed(call: Call, depth: nat, open: Seq<nat>)
    requires
        depth + height(call) <= usize::MAX,
    ensures
        trace_of(call, depth).1 == depth,
        open_after(trace_of(call, depth).0, open) == Some(open),
    decreases call, 1nat,
{
    let entered = incremented(depth);
    let (inner, found) = trace_of_all(call.calls, entered);
    lemma_calls_are_bracketed(call.calls, entered, open.push(entered));
    let enter = seq![TraceEvent::Enter(entered)];
    let exit = seq![TraceEvent::Exit(found)];
    lemma_open_after_concat(enter + inner, exit, open);
    lemma_open_after_concat(enter, inner, open);
    lemma_open_after_one(TraceEvent::Enter(entered), open);
    lemma_open_after_one(TraceEvent::Exit(found), open.push(entered));
    assert(open.push(entered).drop_last() =~= open);
}

/// Calls that never reach the largest depth leave the depth as they found it, and all their
/// events are matched among themselves.
proof fn lemma_calls_are_bracketed(calls: Seq<Call>, depth: nat, open: Seq<nat>)
    requires
        depth + max_height(calls) <= usize::MAX,
    ensures
        trace_of_all(calls, depth).1 == depth,
        open_after(trace_of_all(calls, depth).0, open) == Some(open),
    decreases calls, 0nat,
{
    if calls.len() > 0 {
        lemma_call_is_bracketed(calls[0], depth, open);
        lemma_calls_are_bracketed(calls.drop_first(), depth, open);
        lemma_open_after_concat(
            trace_of(calls[0], depth).0,
            trace_of_all(calls.drop_first(), depth).0,
            open,
        );
    }
}

/// Balanced bracketing: the events of a call are balanced, each entry matched by one later exit
/// at the same depth, provided that the depth does not saturate under a call that makes calls
/// of its own. A call that makes none is balanced at any depth.
pub proof fn lemma_trace_is_balanced(call: Call, depth: nat)
    requires
        depth <= usize::MAX,
        height(call) == 1 || depth + height(call) <= usize::MAX,
    ensures
        balanced(trace_of(call, depth).0),
{
    let open = Seq::<nat>::empty();
    if depth + height(call) <= usize::MAX {
        lemma_call_is_bracketed(call, depth, open);
    } else {
        assert(call.calls.len() == 0) by {
            if call.calls.len() > 0 {
                assert(height(call.calls[0]) >= 1);
            }
        }
        let entered = incremented(depth);
        let enter = seq![TraceEvent::Enter(entered)];
        let exit = seq![TraceEvent::Exit(entered)];
        assert(trace_of(call, depth).0 =~= enter + exit);
        lemma_open_after_concat(enter, exit, open);
        lemma_open_after_one(TraceEvent::Enter(entered), open);
        lemma_open_after_one(TraceEvent::Exit(entered), open.push(entered));
        assert(open.push(entered).drop_last() =~= open);
    }
}

} // verus!
