use vstd::prelude::*;

verus! {

/// What a consumer does, once, with the count of items it consumed.
pub trait TrForward: Sized {
    /// Whether `forward(consumed)` may be called on this value.
    spec fn can_forward(&self, consumed: usize) -> bool;

    /// Passes on the count of consumed items.
    fn forward(self, consumed: usize)
        requires
            self.can_forward(consumed),
    ;
}

/// A forwarder that drops the count.
#[derive(Clone, Copy, Debug, Default)]
pub struct NoForward;

impl NoForward {
    pub fn new() -> (f: Self)
        ensures
            f == NoForward,
    {
        NoForward
    }
}

impl TrForward for NoForward {
    open spec fn can_forward(&self, consumed: usize) -> bool {
        true
    }

    fn forward(self, consumed: usize) {
        let _ = consumed;
    }
}

/// A forwarder that adds the count to a counter of consumed items.
pub struct IncrConsumed<'a>(pub &'a mut usize);

impl<'a> IncrConsumed<'a> {
    /// Wraps the counter it is to advance.
    pub fn new(consumed: &'a mut usize) -> (f: Self)
        ensures
            *f.0 == *old(consumed),
            *final(f.0) == *final(consumed),
    {
        IncrConsumed(consumed)
    }
}

impl<'a> TrForward for IncrConsumed<'a> {
    open spec fn can_forward(&self, consumed: usize) -> bool {
        *self.0 + consumed <= usize::MAX
    }

    fn forward(self, consumed: usize)
        ensures
            *final(self.0) == *old(self.0) + consumed,
    {
        let c = self.0;
        *c = *c + consumed;
    }
}

} // verus!
