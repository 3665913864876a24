//! The range evaluator: from the two bounds to the ascending indices.

use crate::diagnostic::{Diagnostic, ErrorKind, Place};
use crate::header::ExpansionSpec;
use crate::token::Position;
use vstd::prelude::*;

verus! {

/// The ascending indices from `start` up to `end`, with `end` itself where `inclusive`.
/// Empty where `start` lies beyond `end`.
pub open spec fn indices(start: nat, end: nat, inclusive: bool) -> Seq<nat> {
    let n = if start > end {
        0
    } else if inclusive {
        end - start + 1
    } else {
        end - start
    };
    Seq::new(n as nat, |k: int| (start + k) as nat)
}

/// The indices of one expansion, described by their bounds. Nothing is materialized:
/// members are computed on demand, as often as wanted.
#[derive(Clone, Copy, Debug, PartialEq, Eq, Structural)]
pub struct IndexRange {
    pub start: usize,
    pub end: usize,
    pub inclusive: bool,
}

impl View for IndexRange {
    type V = Seq<nat>;

    open spec fn view(&self) -> Seq<nat> {
        indices(self.start as nat, self.end as nat, self.inclusive)
    }
}

impl IndexRange {
    /// Whether the range holds no index.
    pub fn is_empty(&self) -> (b: bool)
        ensures
            b == (self@.len() == 0),
    {
        self.start > self.end || (self.start == self.end && !self.inclusive)
    }

    /// The member at place `k`, counted from zero; `None` behind the last member.
    pub fn get(&self, k: usize) -> (r: Option<usize>)
        ensures
            match r {
                Some(i) => k < self@.len() && self@[k as int] == i,
                None => k >= self@.len(),
            },
    {
        if self.start > self.end {
            None
        } else {
            let span = self.end - self.start;
            if k < span || (k == span && self.inclusive) {
                Some(self.start + k)
            } else {
                None
            }
        }
    }
}

/// What the evaluator answers for two bounds with the values `start` and `end`.
///
/// A bound without a value is a range error at that bound, the start first. A start
/// beyond the end is a range error at the end bound, with `..` and with `..=` alike.
pub open spec fn evaluated(
    start: Option<usize>,
    end: Option<usize>,
    inclusive: bool,
    start_pos: Position,
    end_pos: Position,
) -> Result<IndexRange, Diagnostic> {
    match (start, end) {
        (None, _) => Err(Diagnostic { kind: ErrorKind::Range, place: Place::At(start_pos) }),
        (Some(_), None) => Err(Diagnostic { kind: ErrorKind::Range, place: Place::At(end_pos) }),
        (Some(a), Some(b)) => if a > b {
            Err(Diagnostic { kind: ErrorKind::Range, place: Place::At(end_pos) })
        } else {
            Ok(IndexRange { start: a, end: b, inclusive })
        },
    }
}

/// Checks the values of two bounds and describes the indices between them.
pub fn evaluate_range(
    start: Option<usize>,
    end: Option<usize>,
    inclusive: bool,
    start_pos: Position,
    end_pos: Position,
) -> (r: Result<IndexRange, Diagnostic>)
    ensures
        r == evaluated(start, end, inclusive, start_pos, end_pos),
{
    match start {
        None => Err(Diagnostic::at(ErrorKind::Range, start_pos)),
        Some(a) => match end {
            None => Err(Diagnostic::at(ErrorKind::Range, end_pos)),
            Some(b) => if a > b {
                Err(Diagnostic::at(ErrorKind::Range, end_pos))
            } else {
                Ok(IndexRange { start: a, end: b, inclusive })
            },
        },
    }
}

impl ExpansionSpec {
    /// The indices of this invocation: checks the two bounds and describes the indices
    /// between them.
    pub fn range(&self) -> (r: Result<IndexRange, Diagnostic>)
        ensures
            r == evaluated(
                self.start.value,
                self.end.value,
                self.inclusive,
                self.start.pos,
                self.end.pos,
            ),
    {
        evaluate_range(
            self.start.value,
            self.end.value,
            self.inclusive,
            self.start.pos,
            self.end.pos,
        )
    }
}

/// The number of indices is `end - start`, and one more where the end is included; a
/// range whose bounds are equal and whose end is left out holds none.
pub proof fn lemma_index_count(start: nat, end: nat, inclusive: bool)
    requires
        start <= end,
    ensures
        indices(start, end, inclusive).len() == end - start + (if inclusive {
            1int
        } else {
            0int
        }),
        start == end && !inclusive ==> indices(start, end, inclusive).len() == 0,
{
}

/// The indices ascend by one from `start`.
pub proof fn lemma_index_at(start: nat, end: nat, inclusive: bool, k: int)
    requires
        0 <= k < indices(start, end, inclusive).len(),
    ensures
        indices(start, end, inclusive)[k] == start + k,
        start + k <= end,
        !inclusive ==> start + k < end,
{
}

} // verus!
