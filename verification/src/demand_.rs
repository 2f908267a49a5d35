use vstd::prelude::*;

verus! {

/// The smaller of two naturals.
pub open spec fn min_nat(a: nat, b: nat) -> nat {
    if a <= b { a } else { b }
}

/// The larger of two naturals.
pub open spec fn max_nat(a: nat, b: nat) -> nat {
    if a <= b { b } else { a }
}

/// What two demands agree on: the lengths that both accept, when there is any.
pub open spec fn spec_compromise(a: (nat, nat), b: (nat, nat)) -> Option<(nat, nat)> {
    let lo = max_nat(a.0, b.0);
    let hi = min_nat(a.1, b.1);
    if lo <= hi { Some((lo, hi)) } else { None }
}

/// How many items a taker hands out to a `demand` when `available` items
/// remain: `None` when nothing remains or the demand asks for more than
/// remains, else the largest count both accept.
pub open spec fn spec_take_count(demand: (nat, nat), available: nat) -> Option<nat> {
    if available == 0 {
        None
    } else {
        match spec_compromise(demand, (0, available)) {
            Some(c) => Some(c.1),
            None => None,
        }
    }
}

/// A request for a number of items: any count from `min` to `max`, both
/// included. The largest acceptable count is what a taker hands out.
pub struct Demand {
    min_: usize,
    max_: usize,
}

impl View for Demand {
    /// The accepted range as `(min, max)`.
    type V = (nat, nat);

    closed spec fn view(&self) -> (nat, nat) {
        (self.min_ as nat, self.max_ as nat)
    }
}

impl Demand {
    #[verifier::type_invariant]
    closed spec fn inv(self) -> bool {
        self.min_ <= self.max_
    }

    /// A demand for at most `n` items (and possibly none).
    pub fn less_than(n: usize) -> (d: Demand)
        ensures
            d@ == (0nat, n as nat),
    {
        Demand { min_: 0, max_: n }
    }

    /// A demand for any count from `min` to `max`; `None` when `min > max`.
    pub fn new(min: usize, max: usize) -> (d: Option<Demand>)
        ensures
            d is Some <==> min <= max,
            d matches Some(d) ==> d@ == (min as nat, max as nat),
    {
        if min <= max {
            Some(Demand { min_: min, max_: max })
        } else {
            None
        }
    }

    /// The largest count the demand accepts.
    pub fn len(&self) -> (n: usize)
        ensures
            n == self@.1,
            self@.0 <= self@.1,
    {
        proof {
            use_type_invariant(self);
        }
        self.max_
    }

    /// The lengths accepted by both `self` and `other`, or `None` when they
    /// share none.
    pub fn compromise(&self, other: &Demand) -> (d: Option<Demand>)
        ensures
            d matches Some(d) ==> spec_compromise(self@, other@) == Some(d@),
            d is None ==> spec_compromise(self@, other@) is None,
            d is None <==> (self@.0 > other@.1 || other@.0 > self@.1 || self@.0 > self@.1
                || other@.0 > other@.1),
            d matches Some(d) ==> {
                &&& d@.0 == (if self@.0 <= other@.0 { other@.0 } else { self@.0 })
                &&& d@.1 == (if self@.1 <= other@.1 { self@.1 } else { other@.1 })
            },
    {
        proof {
            use_type_invariant(self);
            use_type_invariant(other);
        }
        let lo = if self.min_ <= other.min_ { other.min_ } else { self.min_ };
        let hi = if self.max_ <= other.max_ { self.max_ } else { other.max_ };
        if lo <= hi {
            Some(Demand { min_: lo, max_: hi })
        } else {
            None
        }
    }
}

/// Compromising is symmetric: the order of the two demands does not matter.
pub proof fn law_compromise_symmetric(a: (nat, nat), b: (nat, nat))
    ensures
        spec_compromise(a, b) == spec_compromise(b, a),
{
}

/// A demand compromises with itself to itself.
pub proof fn law_compromise_idempotent(a: (nat, nat))
    requires
        a.0 <= a.1,
    ensures
        spec_compromise(a, a) == Some(a),
{
}

/// What a compromise accepts is accepted by both demands.
pub proof fn law_compromise_within(a: (nat, nat), b: (nat, nat), n: nat)
    requires
        spec_compromise(a, b) matches Some(c) && c.0 <= n <= c.1,
    ensures
        a.0 <= n <= a.1,
        b.0 <= n <= b.1,
{
}

/// The compromise of two demands accepts exactly the counts that both accept:
/// a count lies within the compromise if and only if it lies within each
/// demand. Its bounds are bounds of the demands, and its largest count (what a
/// taker hands out) is accepted by both and is the largest count that is.
pub proof fn law_compromise_is_intersection(a: (nat, nat), b: (nat, nat), n: nat)
    ensures
        (a.0 <= n <= a.1 && b.0 <= n <= b.1) <==> (spec_compromise(a, b) matches Some(c)
            && c.0 <= n <= c.1),
        spec_compromise(a, b) matches Some(c) ==> {
            &&& a.0 <= c.1 <= a.1 && b.0 <= c.1 <= b.1
            &&& (a.0 <= n <= a.1 && b.0 <= n <= b.1) ==> n <= c.1
            &&& c.1 == a.1 || c.1 == b.1
            &&& c.0 == a.0 || c.0 == b.0
        },
{
}

/// Two demands fail to compromise exactly when one asks for more than the
/// other can accept.
pub proof fn law_compromise_fails(a: (nat, nat), b: (nat, nat))
    requires
        a.0 <= a.1,
        b.0 <= b.1,
    ensures
        spec_compromise(a, b) is None <==> (a.0 > b.1 || b.0 > a.1),
{
}

/// A take hands out nothing exactly when nothing remains or the demand asks
/// for more than remains; otherwise it hands out the most the demand accepts
/// that remains, which the demand accepts and which does not exceed what
/// remains.
pub proof fn law_take_count(demand: (nat, nat), available: nat)
    requires
        demand.0 <= demand.1,
    ensures
        spec_take_count(demand, available) is None <==> (available == 0 || demand.0 > available),
        spec_take_count(demand, available) matches Some(n) ==> {
            &&& n == min_nat(demand.1, available)
            &&& demand.0 <= n <= demand.1
            &&& 0 < n <= available || (n == 0 && demand.1 == 0)
        },
{
}

} // verus!
