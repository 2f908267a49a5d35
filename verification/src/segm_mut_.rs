use vstd::prelude::*;

use crate::demand_::{spec_take_count, Demand};
use crate::reclaim_::{NoReclaim, TrReclaim};

verus! {

/// A mutable slice borrowed from a buffer, filled or consumed from the front,
/// together with the reclaimer that is told, on `release`, how many items the
/// slice held.
pub struct SegmMut<'b, T, R: TrReclaim> {
    offset_: usize,
    reclaim_: Option<R>,
    buffer_: &'b mut [T],
}

impl<'b, T, R: TrReclaim> View for SegmMut<'b, T, R> {
    /// The items not yet consumed.
    type V = Seq<T>;

    open spec fn view(&self) -> Seq<T> {
        self.spec_buffer().subrange(self.spec_offset() as int, self.spec_buffer().len() as int)
    }
}

impl<'b, T, R: TrReclaim> SegmMut<'b, T, R> {
    /// How many items from the front have been consumed.
    pub closed spec fn spec_offset(&self) -> nat {
        self.offset_ as nat
    }

    /// The borrowed slice, as it stands now.
    pub closed spec fn spec_buffer(&self) -> Seq<T> {
        self.buffer_@
    }

    /// The borrow of the slice; its final value is what the lender gets back.
    pub closed spec fn spec_borrow(&self) -> &'b mut [T] {
        self.buffer_
    }

    /// The reclaimer, if any.
    pub closed spec fn spec_reclaim(&self) -> Option<R> {
        self.reclaim_
    }

    /// The consumed prefix lies within the slice.
    pub open spec fn wf(&self) -> bool {
        self.spec_offset() <= self.spec_buffer().len()
    }

    /// Wraps `buffer`, with nothing consumed, and the reclaimer that is to be
    /// told its length on release.
    pub fn new(buffer: &'b mut [T], reclaim: Option<R>) -> (s: Self)
        ensures
            s.wf(),
            s.spec_offset() == 0,
            s.spec_buffer() == old(buffer)@,
            s@ == old(buffer)@,
            final(buffer)@ == final(s.spec_borrow())@,
            s.spec_reclaim() == reclaim,
    {
        let s = SegmMut { offset_: 0usize, reclaim_: reclaim, buffer_: buffer };
        assert(s@ =~= s.spec_buffer());
        s
    }

    /// Whether every item has been consumed.
    pub fn is_empty(&self) -> (b: bool)
        requires
            self.wf(),
        ensures
            b == (self@.len() == 0),
            b == (self.spec_offset() == self.spec_buffer().len()),
    {
        self.capacity() == self.offset_
    }

    /// How many items are left to consume.
    pub fn least_count(&self) -> (n: usize)
        requires
            self.wf(),
        ensures
            n == self@.len(),
            n == self.spec_buffer().len() - self.spec_offset(),
    {
        self.capacity() - self.offset_
    }

    /// The length of the whole borrowed slice, consumed or not.
    pub fn capacity(&self) -> (n: usize)
        ensures
            n == self.spec_buffer().len(),
    {
        self.buffer_.len()
    }

    /// The items not yet consumed.
    pub fn as_slice(&self) -> (s: &[T])
        requires
            self.wf(),
        ensures
            s@ == self@,
    {
        let (_, tail) = self.buffer_.split_at(self.offset_);
        tail
    }

    /// The items not yet consumed, to be written in place: what is written
    /// there is what the segment holds afterwards.
    pub fn as_slice_mut(&mut self) -> (s: &mut [T])
        requires
            old(self).wf(),
        ensures
            s@ == old(self)@,
            final(self).wf(),
            final(self).spec_offset() == old(self).spec_offset(),
            final(self).spec_reclaim() == old(self).spec_reclaim(),
            final(self).spec_buffer() == old(self).spec_buffer().take(old(self).spec_offset() as int)
                + final(s)@,
            final(self)@ == final(s)@,
            final(final(self).spec_borrow())@ == final(old(self).spec_borrow())@,
    {
        let off = self.offset_;
        let (_, tail) = self.buffer_.split_at_mut(off);
        tail
    }

    /// The items not yet consumed, as one slice, or `None` when there are none.
    pub fn iter_slices(&self) -> (r: Option<&[T]>)
        requires
            self.wf(),
        ensures
            r is None <==> self@.len() == 0,
            r matches Some(s) ==> s@ == self@,
    {
        if self.is_empty() {
            Option::None
        } else {
            Option::Some(self.as_slice())
        }
    }

    /// The items not yet consumed, to be written in place, or `None` when
    /// there are none (the segment is then unchanged).
    pub fn iter_slices_mut(&mut self) -> (r: Option<&mut [T]>)
        requires
            old(self).wf(),
        ensures
            r is None <==> old(self)@.len() == 0,
            r is None ==> *final(self) == *old(self),
            final(self).wf(),
            final(self).spec_offset() == old(self).spec_offset(),
            final(self).spec_reclaim() == old(self).spec_reclaim(),
            final(final(self).spec_borrow())@ == final(old(self).spec_borrow())@,
            r matches Some(s) ==> {
                &&& s@ == old(self)@
                &&& final(self).spec_buffer() == old(self).spec_buffer().take(
                    old(self).spec_offset() as int,
                ) + final(s)@
            },
    {
        if self.is_empty() {
            Option::None
        } else {
            Option::Some(self.as_slice_mut())
        }
    }

    /// Lends the front of what is left, as many items as `demand` and what is
    /// left agree on, to a child segment that writes in place, and counts them
    /// as consumed here: while the child lives this segment stays borrowed,
    /// and once the child is gone this segment stands past the lent items,
    /// which hold whatever the child left in them. `None` when nothing is left
    /// or `demand` asks for more than is left; this segment is then unchanged.
    pub fn take_segm_mut<'a>(&'a mut self, demand: &Demand) -> (r: Option<SegmMut<'a, T, NoReclaim>>)
        requires
            old(self).wf(),
        ensures
            final(self).spec_reclaim() == old(self).spec_reclaim(),
            final(final(self).spec_borrow())@ == final(old(self).spec_borrow())@,
            r is None <==> spec_take_count(demand@, old(self)@.len()) is None,
            r is None ==> *final(self) == *old(self),
            r matches Some(c) ==> {
                let off = old(self).spec_offset() as int;
                let n = spec_take_count(demand@, old(self)@.len()).unwrap() as int;
                &&& c.wf()
                &&& c.spec_offset() == 0
                &&& c.spec_buffer() == old(self)@.take(n)
                &&& c@ == old(self)@.take(n)
                &&& c.spec_reclaim() is None
                &&& final(self).spec_offset() == off + n
                &&& final(self).spec_buffer() == old(self).spec_buffer().take(off)
                    + final(c.spec_borrow())@ + old(self).spec_buffer().skip(off + n)
            },
    {
        if self.is_empty() {
            return Option::None;
        }
        let capacity = self.capacity();
        let available = Demand::less_than(capacity - self.offset_);
        let compromised = match demand.compromise(&available) {
            Option::Some(c) => c,
            Option::None => return Option::None,
        };
        let len = compromised.len();
        let off = self.offset_;
        let (_, rest) = self.buffer_.split_at_mut(off);
        let (dst, _) = rest.split_at_mut(len);
        self.offset_ = off + len;
        Option::Some(SegmMut::new(dst, Option::None))
    }

    /// Releases the segment: its reclaimer, if any, is told the segment's
    /// capacity. The lender gets the slice back as it stands.
    pub fn release(self)
        requires
            self.spec_reclaim() matches Some(r) ==> r.can_reclaim(self.spec_buffer().len() as usize),
        ensures
            self.spec_reclaim() matches Some(r) ==> exists|after: R|
                #[trigger] r.reclaim_spec(self.spec_buffer().len() as usize, after),
            final(self.spec_borrow())@ == self.spec_buffer(),
    {
        let cap = self.capacity();
        match self.reclaim_ {
            Option::Some(mut r) => r.reclaim(cap),
            Option::None => {},
        }
    }
}

impl<'b, T: Copy, R: TrReclaim> SegmMut<'b, T, R> {
    /// Copies `src` over the items not yet consumed; `src` must be exactly
    /// as long as what is left.
    pub fn copy_from_slice(&mut self, src: &[T])
        requires
            old(self).wf(),
            src@.len() == old(self)@.len(),
        ensures
            final(self).wf(),
            final(self)@ == src@,
            final(self).spec_buffer() == old(self).spec_buffer().take(
                old(self).spec_offset() as int,
            ) + src@,
            final(self).spec_offset() == old(self).spec_offset(),
            final(self).spec_reclaim() == old(self).spec_reclaim(),
            final(final(self).spec_borrow())@ == final(old(self).spec_borrow())@,
    {
        let dst = self.as_slice_mut();
        let n = src.len();
        let mut i: usize = 0;
        while i < n
            invariant
                i <= n,
                n == src@.len(),
                dst@.len() == n,
                forall|j: int| 0 <= j < i ==> dst@[j] == src@[j],
            decreases n - i,
        {
            dst[i] = src[i];
            i = i + 1;
        }
        assert(dst@ =~= src@);
    }
}

impl<'b, T> SegmMut<'b, T, NoReclaim> {
    /// Wraps `buffer`, with nothing consumed and no reclaimer.
    pub fn no_reclaim(buffer: &'b mut [T]) -> (s: Self)
        ensures
            s.wf(),
            s.spec_offset() == 0,
            s.spec_buffer() == old(buffer)@,
            s@ == old(buffer)@,
            final(buffer)@ == final(s.spec_borrow())@,
            s.spec_reclaim() is None,
    {
        SegmMut::new(buffer, Option::None)
    }
}

impl<'b, T, R: TrReclaim> SegmMut<'b, T, R> {
    /// The items not yet consumed, for the slice views below, which cannot
    /// require `wf`: on a value that is not well formed (none that this
    /// module builds) it gives the empty tail.
    fn unconsumed(&self) -> (s: &[T])
        ensures
            self.wf() ==> s@ == self@,
    {
        let n = self.buffer_.len();
        let offset = if self.offset_ <= n { self.offset_ } else { n };
        let (_, tail) = self.buffer_.split_at(offset);
        tail
    }

    /// The items not yet consumed, to be written in place, for the slice
    /// views below; on a value that is not well formed (none that this module
    /// builds) it gives the empty tail.
    fn unconsumed_mut(&mut self) -> (s: &mut [T])
        ensures
            old(self).wf() ==> {
                &&& s@ == old(self)@
                &&& final(self).spec_buffer() == old(self).spec_buffer().take(
                    old(self).spec_offset() as int,
                ) + final(s)@
            },
            final(self).spec_offset() == old(self).spec_offset(),
            final(self).spec_reclaim() == old(self).spec_reclaim(),
            final(final(self).spec_borrow())@ == final(old(self).spec_borrow())@,
    {
        let n = self.buffer_.len();
        let offset = if self.offset_ <= n { self.offset_ } else { n };
        let (_, tail) = self.buffer_.split_at_mut(offset);
        tail
    }
}

impl<'b, T, R: TrReclaim> core::ops::Deref for SegmMut<'b, T, R> {
    type Target = [T];

    /// The items not yet consumed, as `as_slice` gives them.
    fn deref(&self) -> (s: &[T])
        ensures
            self.wf() ==> s@ == self@,
    {
        self.unconsumed()
    }
}

impl<'b, T, R: TrReclaim> core::ops::DerefMut for SegmMut<'b, T, R> {
    /// The items not yet consumed, to be written in place, as `as_slice_mut`
    /// gives them.
    fn deref_mut(&mut self) -> (s: &mut [T])
        ensures
            old(self).wf() ==> {
                &&& s@ == old(self)@
                &&& final(self).spec_buffer() == old(self).spec_buffer().take(
                    old(self).spec_offset() as int,
                ) + final(s)@
            },
            final(self).spec_offset() == old(self).spec_offset(),
            final(self).spec_reclaim() == old(self).spec_reclaim(),
            final(final(self).spec_borrow())@ == final(old(self).spec_borrow())@,
    {
        self.unconsumed_mut()
    }
}

impl<'b, T, R: TrReclaim> core::convert::AsRef<[T]> for SegmMut<'b, T, R> {
    /// The items not yet consumed, as `as_slice` gives them.
    fn as_ref(&self) -> (s: &[T])
        ensures
            self.wf() ==> s@ == self@,
    {
        self.unconsumed()
    }
}

impl<'b, T, R: TrReclaim> core::convert::AsMut<[T]> for SegmMut<'b, T, R> {
    /// The items not yet consumed, to be written in place, as `as_slice_mut`
    /// gives them.
    fn as_mut(&mut self) -> (s: &mut [T])
        ensures
            old(self).wf() ==> {
                &&& s@ == old(self)@
                &&& final(self).spec_buffer() == old(self).spec_buffer().take(
                    old(self).spec_offset() as int,
                ) + final(s)@
            },
            final(self).spec_offset() == old(self).spec_offset(),
            final(self).spec_reclaim() == old(self).spec_reclaim(),
            final(final(self).spec_borrow())@ == final(old(self).spec_borrow())@,
    {
        self.unconsumed_mut()
    }
}

impl<'b, T, R: TrReclaim> core::borrow::Borrow<[T]> for SegmMut<'b, T, R> {
    /// The items not yet consumed, as `as_slice` gives them.
    fn borrow(&self) -> (s: &[T])
        ensures
            self.wf() ==> <[T] as View>::view(s) == self@,
    {
        self.unconsumed()
    }
}

impl<'b, T, R: TrReclaim> core::borrow::BorrowMut<[T]> for SegmMut<'b, T, R> {
    /// The items not yet consumed, to be written in place, as `as_slice_mut`
    /// gives them.
    fn borrow_mut(&mut self) -> (s: &mut [T])
        ensures
            old(self).wf() ==> {
                &&& <[T] as View>::view(s) == old(self)@
                &&& final(self).spec_buffer() == old(self).spec_buffer().take(
                    old(self).spec_offset() as int,
                ) + <[T] as View>::view(final(s))
            },
            final(self).spec_offset() == old(self).spec_offset(),
            final(self).spec_reclaim() == old(self).spec_reclaim(),
            final(final(self).spec_borrow())@ == final(old(self).spec_borrow())@,
    {
        self.unconsumed_mut()
    }
}

/// A segment that is gone (dropped, with nothing borrowed from it any more)
/// leaves its lender the slice as it stood: a child taken with
/// `take_segm_mut` hands its parent what it last held.
pub proof fn lemma_dropped_hands_back<'b, T, R: TrReclaim>(segm: SegmMut<'b, T, R>)
    requires
        has_resolved(segm),
    ensures
        final(segm.spec_borrow())@ == segm.spec_buffer(),
{
}

/// Writing in place over what is left (through `as_slice_mut`,
/// `iter_slices_mut`, `deref_mut`, `as_mut` or `copy_from_slice`), leaving as
/// many items as there were, keeps the segment well formed with the same
/// capacity, offset and consumed prefix, and what is left is what was written.
pub proof fn law_write_in_place<'b, T, R: TrReclaim>(
    before: SegmMut<'b, T, R>,
    written: Seq<T>,
    after: SegmMut<'b, T, R>,
)
    requires
        before.wf(),
        written.len() == before@.len(),
        after.spec_buffer() == before.spec_buffer().take(before.spec_offset() as int) + written,
        after.spec_offset() == before.spec_offset(),
    ensures
        after.wf(),
        after.spec_buffer().len() == before.spec_buffer().len(),
        after@ == written,
        after.spec_buffer().take(before.spec_offset() as int) == before.spec_buffer().take(
            before.spec_offset() as int,
        ),
{
    let off = before.spec_offset() as int;
    assert(after.spec_buffer().take(off) =~= before.spec_buffer().take(off));
    assert(after@ =~= written);
}

/// Taking `written.len()` items and leaving `written` in the child when it
/// is gone (whatever was done with the child meanwhile, its own takes
/// included) leaves the parent well formed, past those items, holding
/// `written` in their place and everything else as it was.
pub proof fn law_write_through_child<'b, T, R: TrReclaim>(
    before: SegmMut<'b, T, R>,
    written: Seq<T>,
    after: SegmMut<'b, T, R>,
)
    requires
        before.wf(),
        written.len() <= before@.len(),
        after.spec_buffer() == before.spec_buffer().take(before.spec_offset() as int) + written
            + before.spec_buffer().skip((before.spec_offset() + written.len()) as int),
        after.spec_offset() == before.spec_offset() + written.len(),
    ensures
        after.wf(),
        after.spec_buffer().len() == before.spec_buffer().len(),
        after@ == before@.skip(written.len() as int),
        after.spec_buffer().take(before.spec_offset() as int) == before.spec_buffer().take(
            before.spec_offset() as int,
        ),
        after.spec_buffer().subrange(before.spec_offset() as int, after.spec_offset() as int)
            == written,
{
    let off = before.spec_offset() as int;
    let n = written.len() as int;
    let b = before.spec_buffer();
    let a = after.spec_buffer();
    assert(a.take(off) =~= b.take(off));
    assert(a.subrange(off, off + n) =~= written);
    assert(after@ =~= before@.skip(n));
}

} // verus!
