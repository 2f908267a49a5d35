use vstd::prelude::*;

verus! {

/// What a segment does with its items when it is released: hands their
/// count back to whoever lent them.
pub trait TrReclaim: Sized {
    /// Whether `reclaim(amount)` may be called in this state.
    spec fn can_reclaim(&self, amount: usize) -> bool;

    /// How taking back `amount` items turns this reclaimer into `after`.
    spec fn reclaim_spec(&self, amount: usize, after: Self) -> bool;

    /// Takes back `amount` items.
    fn reclaim(&mut self, amount: usize)
        requires
            old(self).can_reclaim(amount),
        ensures
            old(self).reclaim_spec(amount, *final(self)),
    ;
}

/// A reclaimer that does nothing.
#[derive(Clone, Copy, Debug, Default)]
pub struct NoReclaim;

impl TrReclaim for NoReclaim {
    open spec fn can_reclaim(&self, amount: usize) -> bool {
        true
    }

    open spec fn reclaim_spec(&self, amount: usize, after: Self) -> bool {
        after == *self
    }

    fn reclaim(&mut self, amount: usize)
        ensures
            *final(self) == *old(self),
    {
        let _ = amount;
    }
}

/// A reclaimer that advances an offset, or any count it borrows, by each
/// amount it takes back.
pub struct SegmSelfReclaim<'a>(pub &'a mut usize);

impl<'a> SegmSelfReclaim<'a> {
    /// Wraps the offset it is to advance.
    pub fn new(offset: &'a mut usize) -> (r: Self)
        ensures
            *r.0 == *old(offset),
            *final(r.0) == *final(offset),
    {
        SegmSelfReclaim(offset)
    }
}

impl<'a> TrReclaim for SegmSelfReclaim<'a> {
    open spec fn can_reclaim(&self, amount: usize) -> bool {
        *self.0 + amount <= usize::MAX
    }

    open spec fn reclaim_spec(&self, amount: usize, after: Self) -> bool {
        *after.0 == *self.0 + amount
    }

    fn reclaim(&mut self, amount: usize)
        ensures
            *final(self).0 == *old(self).0 + amount,
            *final(final(self).0) == *final(old(self).0),
    {
        *self.0 = *self.0 + amount;
    }
}

} // verus!
