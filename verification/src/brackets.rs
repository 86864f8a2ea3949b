//! Bracket nesting: what it means for a `[` and a `]` to belong together.

use crate::instruction::{LOOP_CLOSE, LOOP_OPEN};
use vstd::prelude::*;

verus! {

/// What a single program byte adds to the nesting depth.
pub open spec fn weight(c: u8) -> int {
    if c == LOOP_OPEN {
        1
    } else if c == LOOP_CLOSE {
        -1
    } else {
        0
    }
}

/// Net nesting depth of `code[from..to)`: the number of `[` in that range
/// minus the number of `]`.
pub open spec fn depth(code: Seq<u8>, from: int, to: int) -> int
    decreases to - from,
{
    if to <= from {
        0
    } else {
        depth(code, from, to - 1) + weight(code[to - 1])
    }
}

/// `code[from..to)` is well nested: every `]` in it closes a `[` of the range,
/// and no `[` of the range is left open.
pub open spec fn balanced(code: Seq<u8>, from: int, to: int) -> bool {
    &&& depth(code, from, to) == 0
    &&& forall|k: int| from <= k <= to ==> depth(code, from, k) >= 0
}

/// Scanning forward from just behind `open`, the bracket that brings the
/// nesting back to where it was is the `]` at `close`.
pub open spec fn closes(code: Seq<u8>, open: int, close: int) -> bool {
    &&& 0 <= open < close < code.len()
    &&& code[close] == LOOP_CLOSE
    &&& balanced(code, open + 1, close)
}

/// Scanning backward from just before `close`, the bracket that brings the
/// nesting back to where it was is the `[` at `open`.
pub open spec fn opens(code: Seq<u8>, close: int, open: int) -> bool {
    &&& 0 <= open < close < code.len()
    &&& code[open] == LOOP_OPEN
    &&& balanced(code, open + 1, close)
}

/// The position of the `]` that a forward scan from `open` stops at, if the
/// program has one.
pub open spec fn matching_close(code: Seq<u8>, open: int) -> Option<int> {
    if exists|close: int| closes(code, open, close) {
        Some(choose|close: int| closes(code, open, close))
    } else {
        None
    }
}

/// The position of the `[` that a backward scan from `close` stops at, if the
/// program has one.
pub open spec fn matching_open(code: Seq<u8>, close: int) -> Option<int> {
    if exists|open: int| opens(code, close, open) {
        Some(choose|open: int| opens(code, close, open))
    } else {
        None
    }
}

/// The depth of a range is the sum of the depths of its two parts.
pub proof fn lemma_depth_split(code: Seq<u8>, from: int, mid: int, to: int)
    requires
        from <= mid <= to,
    ensures
        depth(code, from, to) == depth(code, from, mid) + depth(code, mid, to),
    decreases to - mid,
{
    if mid < to {
        lemma_depth_split(code, from, mid, to - 1);
    }
}

/// A range can be peeled from its left end as well as from its right end.
pub proof fn lemma_depth_first(code: Seq<u8>, from: int, to: int)
    requires
        from < to,
    ensures
        depth(code, from, to) == weight(code[from]) + depth(code, from + 1, to),
{
    lemma_depth_split(code, from, from + 1, to);
    assert(depth(code, from, from + 1) == depth(code, from, from) + weight(code[from]));
}

/// The depth of a range is at most its length, in either direction.
pub proof fn lemma_depth_bounds(code: Seq<u8>, from: int, to: int)
    requires
        from <= to,
    ensures
        from - to <= depth(code, from, to) <= to - from,
    decreases to - from,
{
    if from < to {
        lemma_depth_bounds(code, from, to - 1);
    }
}

/// A forward scan has at most one place to stop.
pub proof fn lemma_closes_unique(code: Seq<u8>, open: int, c1: int, c2: int)
    requires
        closes(code, open, c1),
        closes(code, open, c2),
    ensures
        c1 == c2,
{
    if c1 < c2 {
        assert(depth(code, open + 1, c1 + 1) == depth(code, open + 1, c1) + weight(code[c1]));
    } else if c2 < c1 {
        assert(depth(code, open + 1, c2 + 1) == depth(code, open + 1, c2) + weight(code[c2]));
    }
}

/// A backward scan has at most one place to stop.
pub proof fn lemma_opens_unique(code: Seq<u8>, close: int, o1: int, o2: int)
    requires
        opens(code, close, o1),
        opens(code, close, o2),
    ensures
        o1 == o2,
{
    if o1 < o2 {
        lemma_depth_split(code, o1 + 1, o2, close);
        lemma_depth_first(code, o2, close);
    } else if o2 < o1 {
        lemma_depth_split(code, o2 + 1, o1, close);
        lemma_depth_first(code, o1, close);
    }
}

/// What `matching_close` returns is the one place where a forward scan stops.
pub proof fn lemma_matching_close(code: Seq<u8>, open: int, close: int)
    requires
        closes(code, open, close),
    ensures
        matching_close(code, open) == Some(close),
{
    let chosen = choose|c: int| closes(code, open, c);
    lemma_closes_unique(code, open, chosen, close);
}

/// What `matching_open` returns is the one place where a backward scan stops.
pub proof fn lemma_matching_open(code: Seq<u8>, close: int, open: int)
    requires
        opens(code, close, open),
    ensures
        matching_open(code, close) == Some(open),
{
    let chosen = choose|o: int| opens(code, close, o);
    lemma_opens_unique(code, close, chosen, open);
}

/// Brackets pair up: the `]` found from a `[` leads back to that same `[`,
/// and the `[` found from a `]` leads forward to that same `]`.
pub proof fn lemma_match_is_mutual(code: Seq<u8>, open: int, close: int)
    requires
        0 <= open < close < code.len(),
        code[open] == LOOP_OPEN,
        code[close] == LOOP_CLOSE,
    ensures
        matching_close(code, open) == Some(close) <==> matching_open(code, close) == Some(open),
{
    if matching_close(code, open) == Some(close) {
        lemma_matching_open(code, close, open);
    }
    if matching_open(code, close) == Some(open) {
        lemma_matching_close(code, open, close);
    }
}

} // verus!
