use vstd::prelude::*;
use vstd::string::StringSliceAdditionalSpecFns;
use vstd::utf8::{
    encode_utf8_valid_utf8, is_char_boundary, is_char_boundary_iff_not_is_continuation_byte,
    is_char_boundary_start_end_of_seq, is_continuation_byte, valid_utf8, valid_utf8_split,
};

use crate::position::Position;

verus! {

/// Where a span lies with respect to another span over the same input.
#[derive(Debug, Clone, Copy, PartialEq, Eq, Structural)]
pub enum RelativeLocation {
    Before,
    After,
    /// The span is completely contained inside the region of text, or both
    /// spans cover the same regions.
    Within,
    /// The span completely encompasses the other span.
    Encompasses,
}

/// Why two positions or spans could not be related.
#[derive(Debug, Clone, Copy, PartialEq, Eq, Structural)]
pub enum SpanError {
    /// The two operands are over different inputs.
    DifferentInputs,
    /// The start offset lies after the end offset.
    Reversed,
    /// The two spans overlap without one containing the other.
    PartialOverlap,
}

/// The location of `[a_start, a_end)` relative to `[b_start, b_end)`; `None`
/// when the two regions partially overlap.
pub open spec fn location_of(a_start: int, a_end: int, b_start: int, b_end: int) -> Option<
    RelativeLocation,
> {
    if a_start <= b_start && a_end <= b_start {
        Some(RelativeLocation::Before)
    } else if a_start >= b_end {
        Some(RelativeLocation::After)
    } else if a_start >= b_start && a_end <= b_end {
        Some(RelativeLocation::Within)
    } else if a_start <= b_start && a_end >= b_end {
        Some(RelativeLocation::Encompasses)
    } else {
        None
    }
}

/// Two well-ordered regions overlap without either containing the other.
pub open spec fn partially_overlap(a_start: int, a_end: int, b_start: int, b_end: int) -> bool {
    (a_start < b_start < a_end < b_end) || (b_start < a_start < b_end < a_end)
}

/// A region `[start, end)` of byte offsets over an input string.
#[derive(Debug, Clone, Copy)]
pub struct Span<'a> {
    s: &'a str,
    start: usize,
    end: usize,
}

impl<'a> Span<'a> {
    #[verifier::type_invariant]
    spec fn inv(&self) -> bool {
        self.start <= self.end <= self.s.spec_bytes().len()
    }

    /// The input the span lies over.
    pub closed spec fn text(&self) -> &'a str {
        self.s
    }

    pub open spec fn bytes(&self) -> Seq<u8> {
        self.text().spec_bytes()
    }

    pub closed spec fn start_offset(&self) -> nat {
        self.start as nat
    }

    pub closed spec fn end_offset(&self) -> nat {
        self.end as nat
    }

    /// The bytes the span covers.
    pub open spec fn covered(&self) -> Seq<u8> {
        self.bytes().subrange(self.start_offset() as int, self.end_offset() as int)
    }

    /// Both ends of the span fall on character boundaries of its input.
    pub open spec fn on_boundaries(&self) -> bool {
        &&& is_char_boundary(self.bytes(), self.start_offset() as int)
        &&& is_char_boundary(self.bytes(), self.end_offset() as int)
    }

    /// The span from cursor `start` to cursor `end`; fails when the cursors are
    /// over different inputs or `start` lies after `end`.
    pub fn from_positions(start: &Position<'a>, end: &Position<'a>) -> (r: Result<Span<'a>, SpanError>)
        requires
            start.wf(),
            end.wf(),
        ensures
            r is Ok <==> (start.bytes() == end.bytes() && start.offset() <= end.offset()),
            r is Ok ==> r->Ok_0.text() == start.text() && r->Ok_0.start_offset() == start.offset()
                && r->Ok_0.end_offset() == end.offset(),
            r is Err ==> (r->Err_0 == SpanError::DifferentInputs <==> start.bytes() != end.bytes()),
            r is Err && start.bytes() == end.bytes() ==> r->Err_0 == SpanError::Reversed,
    {
        proof {
            start.lemma_bounds();
            end.lemma_bounds();
        }
        if !same_bytes(start.input().as_bytes(), end.input().as_bytes()) {
            Err(SpanError::DifferentInputs)
        } else if start.idx() > end.idx() {
            Err(SpanError::Reversed)
        } else {
            Ok(Span { s: start.input(), start: start.idx(), end: end.idx() })
        }
    }

    /// The span between two cursors over the same input.
    pub(crate) fn between(start: &Position<'a>, end: &Position<'a>) -> (r: Span<'a>)
        requires
            start.wf(),
            end.wf(),
            start.text() == end.text(),
            start.offset() <= end.offset(),
        ensures
            r.text() == start.text(),
            r.start_offset() == start.offset(),
            r.end_offset() == end.offset(),
    {
        proof {
            start.lemma_bounds();
            end.lemma_bounds();
        }
        Span { s: start.input(), start: start.idx(), end: end.idx() }
    }

    /// The input the span lies over.
    pub fn input(&self) -> (r: &'a str)
        ensures
            r == self.text(),
    {
        self.s
    }

    /// The byte offset where the span starts.
    pub fn start(&self) -> (r: usize)
        ensures
            r == self.start_offset(),
            self.start_offset() <= self.end_offset() <= self.bytes().len(),
    {
        proof {
            use_type_invariant(self);
        }
        self.start
    }

    /// The byte offset just past the end of the span.
    pub fn end(&self) -> (r: usize)
        ensures
            r == self.end_offset(),
            self.start_offset() <= self.end_offset() <= self.bytes().len(),
    {
        proof {
            use_type_invariant(self);
        }
        self.end
    }

    /// The text the span covers.
    pub fn as_str(&self) -> (r: &'a str)
        requires
            self.on_boundaries(),
        ensures
            r.spec_bytes() == self.covered(),
    {
        proof {
            use_type_invariant(self);
        }
        let bytes = Ghost(self.s.spec_bytes());
        proof {
            encode_utf8_valid_utf8(self.s@);
        }
        let (_, tail) = self.s.split_at(self.start);
        let n = self.end - self.start;
        proof {
            let t = tail.spec_bytes();
            assert(t =~= bytes@.subrange(self.start as int, bytes@.len() as int));
            valid_utf8_split(bytes@, self.start as int);
            if n < t.len() {
                is_char_boundary_iff_not_is_continuation_byte(bytes@, self.end as int);
                is_char_boundary_iff_not_is_continuation_byte(t, n as int);
                assert(t[n as int] == bytes@[self.end as int]);
            } else {
                is_char_boundary_start_end_of_seq(t);
            }
        }
        let (mid, _) = tail.split_at(n);
        proof {
            assert(mid.spec_bytes() =~= self.covered());
        }
        mid
    }

    /// Whether this span covers the whole of `other`; fails when the spans are
    /// over different inputs.
    pub fn contains(&self, other: &Span<'a>) -> (r: Result<bool, SpanError>)
        ensures
            r is Ok <==> self.bytes() == other.bytes(),
            r is Err ==> r->Err_0 == SpanError::DifferentInputs,
            r is Ok ==> r->Ok_0 == (self.start_offset() <= other.start_offset()
                && self.end_offset() >= other.end_offset()),
    {
        if !same_bytes(self.s.as_bytes(), other.s.as_bytes()) {
            return Err(SpanError::DifferentInputs);
        }
        Ok(self.start <= other.start && self.end >= other.end)
    }

    /// Where this span lies with respect to `other`. Fails when the spans are
    /// over different inputs or partially overlap.
    pub fn relative_location(&self, other: &Span<'a>) -> (r: Result<RelativeLocation, SpanError>)
        ensures
            self.bytes() != other.bytes() ==> r == Err::<RelativeLocation, SpanError>(
                SpanError::DifferentInputs,
            ),
            self.bytes() == other.bytes() ==> match location_of(
                self.start_offset() as int,
                self.end_offset() as int,
                other.start_offset() as int,
                other.end_offset() as int,
            ) {
                Some(loc) => r == Ok::<RelativeLocation, SpanError>(loc),
                None => r == Err::<RelativeLocation, SpanError>(SpanError::PartialOverlap),
            },
    {
        if !same_bytes(self.s.as_bytes(), other.s.as_bytes()) {
            return Err(SpanError::DifferentInputs);
        }
        if self.start <= other.start && self.end <= other.start {
            Ok(RelativeLocation::Before)
        } else if self.start >= other.end {
            Ok(RelativeLocation::After)
        } else if self.start >= other.start && self.end <= other.end {
            Ok(RelativeLocation::Within)
        } else if self.start <= other.start && self.end >= other.end {
            Ok(RelativeLocation::Encompasses)
        } else {
            Err(SpanError::PartialOverlap)
        }
    }
}

/// Two spans are equal when the texts they cover are equal.
impl<'a> PartialEq for Span<'a> {
    fn eq(&self, other: &Span<'a>) -> (r: bool)
        ensures
            r == (self.covered() == other.covered()),
    {
        proof {
            use_type_invariant(self);
            use_type_invariant(other);
        }
        let a = self.s.as_bytes();
        let b = other.s.as_bytes();
        let n = self.end - self.start;
        if n != other.end - other.start {
            assert(self.covered().len() != other.covered().len());
            return false;
        }
        let mut k: usize = 0;
        while k < n
            invariant
                a@ == self.bytes(),
                b@ == other.bytes(),
                self.start <= self.end <= a@.len(),
                other.start <= other.end <= b@.len(),
                n == self.end - self.start,
                n == other.end - other.start,
                k <= n,
                forall|j: int| 0 <= j < k ==> #[trigger] a@[self.start + j] == b@[other.start + j],
            decreases n - k,
        {
            if a[self.start + k] != b[other.start + k] {
                assert(self.covered()[k as int] != other.covered()[k as int]);
                return false;
            }
            k = k + 1;
        }
        assert forall|j: int| 0 <= j < n implies self.covered()[j] == other.covered()[j] by {
            assert(a@[self.start + j] == b@[other.start + j]);
        }
        assert(self.covered() =~= other.covered());
        true
    }
}

impl<'a> vstd::std_specs::cmp::PartialEqSpecImpl for Span<'a> {
    open spec fn obeys_eq_spec() -> bool {
        true
    }

    open spec fn eq_spec(&self, other: &Span<'a>) -> bool {
        self.covered() == other.covered()
    }
}

/// Whether two byte slices hold the same bytes.
pub(crate) fn same_bytes(a: &[u8], b: &[u8]) -> (r: bool)
    ensures
        r == (a@ == b@),
{
    if a.len() != b.len() {
        return false;
    }
    let mut k: usize = 0;
    while k < a.len()
        invariant
            a@.len() == b@.len(),
            k <= a@.len(),
            forall|j: int| 0 <= j < k ==> a@[j] == b@[j],
        decreases a@.len() - k,
    {
        if a[k] != b[k] {
            return false;
        }
        k = k + 1;
    }
    assert(a@ =~= b@);
    true
}

/// A region is located relative to another exactly when the two do not
/// partially overlap.
pub proof fn lemma_location_total(a_start: int, a_end: int, b_start: int, b_end: int)
    requires
        a_start <= a_end,
        b_start <= b_end,
    ensures
        location_of(a_start, a_end, b_start, b_end) is Some <==> !partially_overlap(
            a_start,
            a_end,
            b_start,
            b_end,
        ),
{
}

/// Of two different regions, one encompasses the other exactly when the other
/// lies within it. (Two equal regions each lie within the other.)
pub proof fn lemma_location_symmetric(a_start: int, a_end: int, b_start: int, b_end: int)
    requires
        a_start <= a_end,
        b_start <= b_end,
        a_start != b_start || a_end != b_end,
    ensures
        location_of(a_start, a_end, b_start, b_end) == Some(RelativeLocation::Encompasses)
            <==> location_of(b_start, b_end, a_start, a_end) == Some(RelativeLocation::Within),
{
}

} // verus!
