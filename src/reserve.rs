use vstd::prelude::*;

verus! {

/// The values of `slots` in slot order, skipping the slots still reserved.
pub open spec fn values<T>(slots: Seq<Option<T>>) -> Seq<T>
    decreases slots.len(),
{
    if slots.len() == 0 {
        Seq::empty()
    } else {
        let rest = values(slots.drop_last());
        match slots.last() {
            Some(v) => rest.push(v),
            None => rest,
        }
    }
}

/// When no slot is reserved, the values are the slots' contents, one for one.
pub proof fn lemma_values_all_filled<T>(slots: Seq<Option<T>>)
    requires
        forall|i: int| 0 <= i < slots.len() ==> (#[trigger] slots[i]) is Some,
    ensures
        values(slots).len() == slots.len(),
        forall|i: int| 0 <= i < slots.len() ==> Some(#[trigger] values(slots)[i]) == slots[i],
    decreases slots.len(),
{
    if slots.len() > 0 {
        let rest = slots.drop_last();
        assert forall|i: int| 0 <= i < rest.len() implies (#[trigger] rest[i]) is Some by {
            assert(rest[i] == slots[i]);
        }
        lemma_values_all_filled(rest);
        assert(slots.last() == slots[slots.len() - 1]);
        assert forall|i: int| 0 <= i < slots.len() implies Some(#[trigger] values(slots)[i])
            == slots[i] by {
            if i < slots.len() - 1 {
                assert(values(slots)[i] == values(rest)[i]);
                assert(rest[i] == slots[i]);
            }
        }
    }
}

/// A handle on a slot reserved in a `ReserveVec`.
pub struct ReservePos(usize);

impl ReservePos {
    pub closed spec fn index(&self) -> nat {
        self.0 as nat
    }
}

/// A vector in which a slot can be reserved now and filled later, so that a
/// value may be placed before values pushed after the reservation.
#[derive(Debug)]
pub struct ReserveVec<T> {
    vec: Vec<Option<T>>,
}

impl<T> View for ReserveVec<T> {
    /// Each slot holds a value, or `None` while it is reserved.
    type V = Seq<Option<T>>;

    closed spec fn view(&self) -> Seq<Option<T>> {
        self.vec@
    }
}

impl<T> ReserveVec<T> {
    pub fn new() -> (r: ReserveVec<T>)
        ensures
            r@ == Seq::<Option<T>>::empty(),
    {
        ReserveVec { vec: Vec::new() }
    }

    /// The number of slots, reserved or filled.
    pub fn len(&self) -> (r: usize)
        ensures
            r == self@.len(),
    {
        self.vec.len()
    }

    /// Appends a value.
    pub fn push(&mut self, value: T)
        ensures
            final(self)@ == old(self)@.push(Some(value)),
    {
        self.vec.push(Some(value));
    }

    /// Reserves the next slot.
    pub fn reserve_next(&mut self) -> (r: ReservePos)
        ensures
            final(self)@ == old(self)@.push(None),
            r.index() == old(self)@.len(),
    {
        let idx = self.vec.len();
        self.vec.push(None);
        ReservePos(idx)
    }

    /// Fills a slot reserved earlier.
    pub fn insert_at_reserved(&mut self, pos: ReservePos, value: T)
        requires
            pos.index() < old(self)@.len(),
        ensures
            final(self)@ == old(self)@.update(pos.index() as int, Some(value)),
    {
        self.vec.set(pos.0, Some(value));
    }

    /// Drops every slot from `len` on.
    pub(crate) fn truncate(&mut self, len: usize)
        requires
            len <= old(self)@.len(),
        ensures
            final(self)@ == old(self)@.subrange(0, len as int),
    {
        self.vec.truncate(len);
    }

    /// The values in slot order; slots never filled are left out.
    pub fn into_vec(self) -> (r: Vec<T>)
        ensures
            r@ == values(self@),
    {
        let ghost orig = self.vec@;
        let n = self.vec.len();
        let mut vec = self.vec;
        let mut rev: Vec<Option<T>> = Vec::new();
        while vec.len() > 0
            invariant
                n == orig.len(),
                vec@ == orig.subrange(0, vec@.len() as int),
                rev@.len() + vec@.len() == n,
                forall|i: int| 0 <= i < rev@.len() ==> #[trigger] rev@[i] == orig[n - 1 - i],
            decreases vec@.len(),
        {
            let item = vec.pop().unwrap();
            rev.push(item);
        }
        let mut out: Vec<T> = Vec::new();
        let mut j: usize = 0;
        while rev.len() > 0
            invariant
                n == orig.len(),
                j + rev@.len() == n,
                forall|i: int| 0 <= i < rev@.len() ==> #[trigger] rev@[i] == orig[n - 1 - i],
                out@ == values(orig.subrange(0, j as int)),
            decreases rev@.len(),
        {
            let item = rev.pop().unwrap();
            proof {
                assert(item == orig[j as int]);
                assert(orig.subrange(0, j + 1).drop_last() =~= orig.subrange(0, j as int));
            }
            match item {
                Some(v) => out.push(v),
                None => {},
            }
            j = j + 1;
        }
        assert(orig.subrange(0, n as int) =~= orig);
        out
    }
}

impl<T> From<ReserveVec<T>> for Vec<T> {
    fn from(r: ReserveVec<T>) -> (v: Vec<T>)
        ensures
            v@ == values(r@),
    {
        r.into_vec()
    }
}

impl<T> vstd::std_specs::convert::FromSpecImpl<ReserveVec<T>> for Vec<T> {
    /// Only the view of the result is pinned down, by `from`'s own `ensures`.
    open spec fn obeys_from_spec() -> bool {
        false
    }

    open spec fn from_spec(v: ReserveVec<T>) -> Vec<T> {
        arbitrary()
    }
}

/// Pushing `a`, reserving, pushing `b`, reserving, then filling the second
/// reservation with `d` and the first with `c` yields `a, c, b, d`.
pub proof fn lemma_reserve_order<T>(a: T, b: T, c: T, d: T)
    ensures
        ({
            let s0 = Seq::<Option<T>>::empty().push(Some(a));
            let r1 = s0.len();
            let s1 = s0.push(None).push(Some(b));
            let r2 = s1.len();
            let s2 = s1.push(None);
            let s3 = s2.update(r2 as int, Some(d)).update(r1 as int, Some(c));
            values(s3) == seq![a, c, b, d]
        }),
{
    let s0 = Seq::<Option<T>>::empty().push(Some(a));
    let s1 = s0.push(None).push(Some(b));
    let s2 = s1.push(None);
    let s3 = s2.update(3, Some(d)).update(1, Some(c));
    assert(s3 =~= seq![Some(a), Some(c), Some(b), Some(d)]);
    reveal_with_fuel(values, 5);
    assert(s3.drop_last() =~= seq![Some(a), Some(c), Some(b)]);
    assert(s3.drop_last().drop_last() =~= seq![Some(a), Some(c)]);
    assert(s3.drop_last().drop_last().drop_last() =~= seq![Some(a)]);
    assert(s3.drop_last().drop_last().drop_last().drop_last() =~= Seq::<Option<T>>::empty());
    assert(values(s3) =~= seq![a, c, b, d]);
}

} // verus!
