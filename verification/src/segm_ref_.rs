use vstd::prelude::*;

use crate::demand_::{spec_take_count, Demand};
use crate::reclaim_::{NoReclaim, TrReclaim};

verus! {

/// A slice borrowed from a buffer, consumed from the front, together with
/// the reclaimer that is told, on release, how many items the slice held.
pub struct SegmRef<'b, T, R: TrReclaim> {
    offset_: usize,
    reclaim_: Option<R>,
    buffer_: &'b [T],
}

impl<'b, T, R: TrReclaim> View for SegmRef<'b, T, R> {
    /// The items not yet consumed.
    type V = Seq<T>;

    open spec fn view(&self) -> Seq<T> {
        self.spec_buffer().subrange(self.spec_offset() as int, self.spec_buffer().len() as int)
    }
}

impl<'b, T, R: TrReclaim> SegmRef<'b, T, R> {
    /// How many items from the front have been consumed.
    pub closed spec fn spec_offset(&self) -> nat {
        self.offset_ as nat
    }

    /// The whole borrowed slice.
    pub closed spec fn spec_buffer(&self) -> Seq<T> {
        self.buffer_@
    }

    /// The reclaimer, if any.
    pub closed spec fn spec_reclaim(&self) -> Option<R> {
        self.reclaim_
    }

    /// The consumed prefix lies within the slice.
    pub open spec fn wf(&self) -> bool {
        self.spec_offset() <= self.spec_buffer().len()
    }

    /// Wraps `slice`, with nothing consumed, and the reclaimer that is to be
    /// told its length on release.
    pub fn new(slice: &'b [T], reclaim: Option<R>) -> (s: Self)
        ensures
            s.wf(),
            s.spec_offset() == 0,
            s.spec_buffer() == slice@,
            s.spec_reclaim() == reclaim,
            s@ == slice@,
    {
        let s = SegmRef { offset_: 0usize, reclaim_: reclaim, buffer_: slice };
        assert(s@ =~= slice@);
        s
    }

    /// Whether every item has been consumed.
    pub fn is_empty(&self) -> (b: bool)
        requires
            self.wf(),
        ensures
            b == (self@.len() == 0),
            b == (self.spec_offset() == self.spec_buffer().len()),
    {
        self.capacity() == self.offset_
    }

    /// How many items are left to consume.
    pub fn least_count(&self) -> (n: usize)
        requires
            self.wf(),
        ensures
            n == self@.len(),
            n == self.spec_buffer().len() - self.spec_offset(),
    {
        self.capacity() - self.offset_
    }

    /// The length of the whole borrowed slice, consumed or not.
    pub fn capacity(&self) -> (n: usize)
        ensures
            n == self.spec_buffer().len(),
    {
        self.buffer_.len()
    }

    /// The items not yet consumed.
    pub fn as_slice(&self) -> (s: &'b [T])
        requires
            self.wf(),
        ensures
            s@ == self@,
    {
        let (_, tail) = self.buffer_.split_at(self.offset_);
        tail
    }

    /// The items not yet consumed, as one slice, or `None` when there are none.
    pub fn iter_slices(&self) -> (r: Option<&'b [T]>)
        requires
            self.wf(),
        ensures
            r is None <==> self@.len() == 0,
            r matches Some(s) ==> s@ == self@,
    {
        if self.is_empty() {
            Option::None
        } else {
            Option::Some(self.as_slice())
        }
    }

    /// Lends the front of what is left, as many items as `demand` and what is
    /// left agree on, to a child segment, and counts them as consumed here:
    /// while the child lives this segment stays borrowed, and once the child
    /// is gone this segment stands past the lent items. `None` when nothing is
    /// left or `demand` asks for more than is left; this segment is then
    /// unchanged.
    pub fn take_segm_ref<'a>(&'a mut self, demand: &Demand) -> (r: Option<SegmRef<'a, T, NoReclaim>>)
        requires
            old(self).wf(),
        ensures
            final(self).wf(),
            final(self).spec_buffer() == old(self).spec_buffer(),
            final(self).spec_reclaim() == old(self).spec_reclaim(),
            r is None <==> spec_take_count(demand@, old(self)@.len()) is None,
            r is None ==> final(self).spec_offset() == old(self).spec_offset(),
            r matches Some(c) ==> {
                let n = spec_take_count(demand@, old(self)@.len()).unwrap();
                &&& c.wf()
                &&& c.spec_offset() == 0
                &&& c.spec_buffer() == old(self)@.take(n as int)
                &&& c@ == old(self)@.take(n as int)
                &&& c.spec_reclaim() is None
                &&& final(self).spec_offset() == old(self).spec_offset() + n
                &&& final(self)@ == old(self)@.skip(n as int)
            },
    {
        if self.is_empty() {
            return Option::None;
        }
        let capacity = self.capacity();
        let rest = self.as_slice();
        let available = Demand::less_than(capacity - self.offset_);
        let compromised = match demand.compromise(&available) {
            Option::Some(c) => c,
            Option::None => return Option::None,
        };
        let len = compromised.len();
        let (dst, _) = rest.split_at(len);
        self.offset_ = self.offset_ + len;
        proof {
            assert(self@ =~= old(self)@.skip(len as int));
        }
        Option::Some(SegmRef::new(dst, Option::None))
    }

    /// Releases the segment: its reclaimer, if any, is told the segment's
    /// capacity.
    pub fn release(self)
        requires
            self.spec_reclaim() matches Some(r) ==> r.can_reclaim(self.spec_buffer().len() as usize),
        ensures
            self.spec_reclaim() matches Some(r) ==> exists|after: R|
                #[trigger] r.reclaim_spec(self.spec_buffer().len() as usize, after),
    {
        let cap = self.capacity();
        match self.reclaim_ {
            Option::Some(mut r) => r.reclaim(cap),
            Option::None => {},
        }
    }
}

impl<'b, T> SegmRef<'b, T, NoReclaim> {
    /// Wraps `slice`, with nothing consumed and no reclaimer.
    pub fn no_reclaim(slice: &'b [T]) -> (s: Self)
        ensures
            s.wf(),
            s.spec_offset() == 0,
            s.spec_buffer() == slice@,
            s.spec_reclaim() is None,
            s@ == slice@,
    {
        SegmRef::new(slice, Option::None)
    }
}

impl<'b, T, R: TrReclaim> SegmRef<'b, T, R> {
    /// The items not yet consumed, for the slice views below, which cannot
    /// require `wf`: on a value that is not well formed (none that this
    /// module builds) it gives the empty tail.
    fn unconsumed(&self) -> (s: &'b [T])
        ensures
            self.wf() ==> s@ == self@,
    {
        let n = self.buffer_.len();
        let offset = if self.offset_ <= n { self.offset_ } else { n };
        let (_, tail) = self.buffer_.split_at(offset);
        tail
    }
}

impl<'b, T, R: TrReclaim> core::ops::Deref for SegmRef<'b, T, R> {
    type Target = [T];

    /// The items not yet consumed, as `as_slice` gives them.
    fn deref(&self) -> (s: &[T])
        ensures
            self.wf() ==> s@ == self@,
    {
        self.unconsumed()
    }
}

impl<'b, T, R: TrReclaim> core::convert::AsRef<[T]> for SegmRef<'b, T, R> {
    /// The items not yet consumed, as `as_slice` gives them.
    fn as_ref(&self) -> (s: &[T])
        ensures
            self.wf() ==> s@ == self@,
    {
        self.unconsumed()
    }
}

impl<'b, T, R: TrReclaim> core::borrow::Borrow<[T]> for SegmRef<'b, T, R> {
    /// The items not yet consumed, as `as_slice` gives them.
    fn borrow(&self) -> (s: &[T])
        ensures
            self.wf() ==> <[T] as View>::view(s) == self@,
    {
        self.unconsumed()
    }
}

/// Taking items leaves the parent, once the child is gone (whatever was done
/// with the child meanwhile), with what followed them: the taken items and the
/// parent's remaining items, in that order, are the items the parent had
/// before, the capacity is unchanged, and the parent stays well formed, so
/// `least_count` never exceeds `capacity` however many takes follow one
/// another.
pub proof fn law_take_consumes<'b, T, R: TrReclaim>(
    before: SegmRef<'b, T, R>,
    taken: Seq<T>,
    after: SegmRef<'b, T, R>,
)
    requires
        before.wf(),
        taken.len() <= before@.len(),
        taken == before@.take(taken.len() as int),
        after.spec_buffer() == before.spec_buffer(),
        after.spec_offset() == before.spec_offset() + taken.len(),
    ensures
        after.wf(),
        after.spec_buffer().len() == before.spec_buffer().len(),
        after@ == before@.skip(taken.len() as int),
        taken + after@ == before@,
        after@.len() + taken.len() == before@.len(),
{
    assert(after@ =~= before@.skip(taken.len() as int));
    assert(taken + after@ =~= before@);
}

} // verus!
