use vstd::prelude::*;
use vstd::string::StringSliceAdditionalSpecFns;

verus! {

/// True when the bytes of `pat` occur in `input` starting at byte offset `idx`,
/// and both ends of that region fall on character boundaries.
pub open spec fn matches_at(input: Seq<u8>, idx: int, pat: Seq<u8>) -> bool {
    &&& 0 <= idx
    &&& idx + pat.len() <= input.len()
    &&& input.subrange(idx, idx + pat.len()) == pat
    &&& vstd::utf8::is_char_boundary(input, idx)
    &&& vstd::utf8::is_char_boundary(input, idx + pat.len())
}

/// A cursor over a string: a byte offset that never passes the end of the input.
#[derive(Debug, Clone, Copy)]
pub struct Position<'a> {
    input: &'a str,
    idx: usize,
}

impl<'a> Position<'a> {
    /// The input this cursor walks over.
    pub closed spec fn text(&self) -> &'a str {
        self.input
    }

    /// The bytes of the input.
    pub open spec fn bytes(&self) -> Seq<u8> {
        self.text().spec_bytes()
    }

    /// The byte offset of the cursor.
    pub closed spec fn offset(&self) -> nat {
        self.idx as nat
    }

    pub closed spec fn wf(&self) -> bool {
        self.idx <= self.input.spec_bytes().len()
    }

    pub proof fn lemma_bounds(&self)
        requires
            self.wf(),
        ensures
            self.offset() <= self.bytes().len(),
    {
    }

    /// Creates a cursor at byte offset `start`; fails when `start` lies past the end.
    pub fn new(input: &'a str, start: usize) -> (r: Result<Position<'a>, PositionError>)
        ensures
            start <= input.spec_bytes().len() <==> r is Ok,
            r is Ok ==> r->Ok_0.wf() && r->Ok_0.text() == input && r->Ok_0.offset() == start,
            r is Err ==> r->Err_0 == (PositionError::OutOfRange { start, len: input.spec_bytes().len() as usize }),
    {
        let len = input.as_bytes().len();
        if start <= len {
            Ok(Position { input, idx: start })
        } else {
            Err(PositionError::OutOfRange { start, len })
        }
    }

    /// The input this cursor walks over.
    pub fn input(&self) -> (r: &'a str)
        ensures
            r == self.text(),
    {
        self.input
    }

    /// The byte offset of the cursor.
    pub fn idx(&self) -> (r: usize)
        ensures
            r == self.offset(),
    {
        self.idx
    }

    /// Moves the cursor forward by `n` bytes when it then stays strictly
    /// inside the input; otherwise leaves it where it is.
    pub fn skip(&mut self, n: usize) -> (r: bool)
        requires
            old(self).wf(),
        ensures
            final(self).wf(),
            final(self).text() == old(self).text(),
            r == (old(self).offset() + n < old(self).bytes().len()),
            r ==> final(self).offset() == old(self).offset() + n,
            !r ==> *final(self) == *old(self),
    {
        let len = self.input.as_bytes().len();
        if n < len - self.idx {
            self.idx = self.idx + n;
            true
        } else {
            false
        }
    }

    /// Advances past `s` when the input holds `s` at the cursor; otherwise
    /// leaves the cursor where it is.
    pub fn match_str(&mut self, s: &str) -> (r: bool)
        requires
            old(self).wf(),
        ensures
            final(self).wf(),
            final(self).text() == old(self).text(),
            r == matches_at(old(self).bytes(), old(self).offset() as int, s.spec_bytes()),
            r ==> final(self).offset() == old(self).offset() + s.spec_bytes().len(),
            !r ==> *final(self) == *old(self),
    {
        let input = self.input.as_bytes();
        let pat = s.as_bytes();
        let idx = self.idx;
        if pat.len() > input.len() - idx {
            return false;
        }
        let end = idx + pat.len();
        let mut k: usize = 0;
        while k < pat.len()
            invariant
                *self == *old(self),
                idx == self.idx,
                input@ == self.input.spec_bytes(),
                pat@ == s.spec_bytes(),
                idx + pat@.len() <= input@.len(),
                end == idx + pat@.len(),
                k <= pat@.len(),
                forall|j: int| 0 <= j < k ==> input@[idx + j] == pat@[j],
            decreases pat@.len() - k,
        {
            if input[idx + k] != pat[k] {
                assert(input@.subrange(idx as int, end as int)[k as int] != pat@[k as int]);
                return false;
            }
            k = k + 1;
        }
        assert(input@.subrange(idx as int, end as int) =~= pat@);
        if self.input.is_char_boundary(idx) && self.input.is_char_boundary(end) {
            self.idx = end;
            true
        } else {
            false
        }
    }
}

/// Why a cursor could not be created.
#[derive(Debug, Clone, Copy, PartialEq, Eq)]
pub enum PositionError {
    /// The requested offset lies past the end of the input.
    OutOfRange { start: usize, len: usize },
}

} // verus!
