use vstd::prelude::*;

use crate::forward_::TrForward;

verus! {

/// The summed length of a sequence of slices.
pub open spec fn total_len<T>(ss: Seq<Seq<T>>) -> nat
    decreases ss.len(),
{
    if ss.len() == 0 {
        0
    } else {
        total_len(ss.drop_last()) + ss.last().len()
    }
}

/// The items of a sequence of slices, one slice after another.
pub open spec fn flatten<T>(ss: Seq<Seq<T>>) -> Seq<T>
    decreases ss.len(),
{
    if ss.len() == 0 {
        Seq::empty()
    } else {
        flatten(ss.drop_last()) + ss.last()
    }
}

/// The flattened slices hold as many items as their summed length.
pub proof fn lemma_flatten_len<T>(ss: Seq<Seq<T>>)
    ensures
        flatten(ss).len() == total_len(ss),
    decreases ss.len(),
{
    if ss.len() > 0 {
        lemma_flatten_len(ss.drop_last());
    }
}

/// A single slice flattens to itself.
pub proof fn lemma_flatten_single<T>(x: Seq<T>)
    ensures
        flatten(seq![x]) == x,
{
    let ss = seq![x];
    assert(ss.len() == 1);
    assert(ss.drop_last() =~= Seq::<Seq<T>>::empty());
    assert(ss.last() == x);
    assert(flatten(Seq::<Seq<T>>::empty()) == Seq::<T>::empty());
    assert(flatten(ss) =~= x);
}

/// Flattening two runs of slices one after the other is flattening each.
pub proof fn lemma_flatten_concat<T>(a: Seq<Seq<T>>, b: Seq<Seq<T>>)
    ensures
        flatten(a + b) == flatten(a) + flatten(b),
    decreases b.len(),
{
    if b.len() == 0 {
        assert(a + b =~= a);
        assert(flatten(a) + flatten(b) =~= flatten(a));
    } else {
        lemma_flatten_concat(a, b.drop_last());
        assert((a + b).drop_last() =~= a + b.drop_last());
        assert((a + b).last() == b.last());
        assert(flatten(a + b) =~= flatten(a) + flatten(b));
    }
}

/// Adding slices never shortens the total: the first `i` slices hold no more
/// items than the first `j`, for `i <= j`.
pub proof fn lemma_total_len_prefix_mono<T>(ss: Seq<Seq<T>>, i: int, j: int)
    requires
        0 <= i <= j <= ss.len(),
    ensures
        total_len(ss.take(i)) <= total_len(ss.take(j)),
    decreases j - i,
{
    if i < j {
        lemma_total_len_prefix_mono(ss, i, j - 1);
        assert(ss.take(j).drop_last() =~= ss.take(j - 1));
    }
}

/// The first `i + 1` slices hold the first `i` and slice `i`.
pub proof fn lemma_total_len_step<T>(ss: Seq<Seq<T>>, i: int)
    requires
        0 <= i < ss.len(),
    ensures
        total_len(ss.take(i + 1)) == total_len(ss.take(i)) + ss[i].len(),
{
    assert(ss.take(i + 1).drop_last() =~= ss.take(i));
}

/// A sequence of borrowed slices read as one segment, from slice `index` at
/// item `offset` on, with a forwarder for the count of consumed items.
pub struct SegmSeq<'s, T, F: TrForward> {
    source_: &'s [&'s [T]],
    index_: usize,
    offset_: usize,
    capacity_: usize,
    forward_: F,
}

impl<'s, T, F: TrForward> SegmSeq<'s, T, F> {
    /// The slices, by their contents.
    pub closed spec fn spec_slices(&self) -> Seq<Seq<T>> {
        self.source_@.map_values(|s: &'s [T]| s@)
    }

    /// The slice at which reading stands.
    pub closed spec fn spec_index(&self) -> nat {
        self.index_ as nat
    }

    /// The item within that slice at which reading stands.
    pub closed spec fn spec_offset(&self) -> nat {
        self.offset_ as nat
    }

    /// The capacity recorded at construction.
    pub closed spec fn spec_capacity(&self) -> nat {
        self.capacity_ as nat
    }

    /// The forwarder.
    pub closed spec fn spec_forward(&self) -> F {
        self.forward_
    }

    /// The recorded capacity is the summed length of the slices, and the
    /// reading position lies within them.
    pub open spec fn wf(&self) -> bool {
        &&& self.spec_capacity() == total_len(self.spec_slices())
        &&& self.spec_index() <= self.spec_slices().len()
        &&& self.spec_index() < self.spec_slices().len() ==> self.spec_offset()
            <= self.spec_slices()[self.spec_index() as int].len()
    }

    /// What `is_empty` reports: there are no slices, or reading stands at the
    /// end of the last one.
    pub open spec fn spec_is_empty(&self) -> bool {
        self.spec_slices().len() == 0 || (self.spec_index() + 1 == self.spec_slices().len()
            && self.spec_offset() == self.spec_slices()[self.spec_index() as int].len())
    }

    /// What `len` reports: the capacity less the lengths of the slices before
    /// the one at which reading stands.
    pub open spec fn spec_len(&self) -> int {
        self.spec_capacity() - total_len(self.spec_slices().take(self.spec_index() as int))
    }

    /// Reads `source` as one segment from its start. The caller keeps the
    /// slices apart from one another; their summed length must fit in `usize`.
    pub fn new_unchecked(source: &'s [&'s [T]], forward: F) -> (s: Self)
        requires
            total_len(source@.map_values(|s: &'s [T]| s@)) <= usize::MAX,
        ensures
            s.wf(),
            s.spec_slices() == source@.map_values(|s: &'s [T]| s@),
            s.spec_index() == 0,
            s.spec_offset() == 0,
            s.spec_capacity() == total_len(s.spec_slices()),
            s.spec_forward() == forward,
    {
        let ghost ss = source@.map_values(|s: &'s [T]| s@);
        let n = source.len();
        let mut capacity: usize = 0;
        let mut i: usize = 0;
        while i < n
            invariant
                i <= n,
                n == source@.len(),
                ss == source@.map_values(|s: &'s [T]| s@),
                total_len(ss) <= usize::MAX,
                capacity == total_len(ss.take(i as int)),
            decreases n - i,
        {
            proof {
                lemma_total_len_step(ss, i as int);
                lemma_total_len_prefix_mono(ss, i + 1, n as int);
                assert(ss.take(n as int) =~= ss);
            }
            capacity = capacity + source[i].len();
            i = i + 1;
        }
        assert(ss.take(n as int) =~= ss);
        SegmSeq { source_: source, index_: 0usize, offset_: 0usize, capacity_: capacity, forward_: forward }
    }

    /// The summed length of the slices, recorded at construction.
    pub fn capacity(&self) -> (n: usize)
        ensures
            n == self.spec_capacity(),
    {
        self.capacity_
    }

    /// True when there are no slices, or reading stands at the end of the
    /// last one.
    pub fn is_empty(&self) -> (b: bool)
        requires
            self.wf(),
        ensures
            b == self.spec_is_empty(),
    {
        let s_arr = self.source_;
        if s_arr.len() == 0 {
            return true;
        }
        if self.index_ == s_arr.len() - 1 {
            self.offset_ == s_arr[self.index_].len()
        } else {
            false
        }
    }

    /// The capacity less the lengths of the slices before the one at which
    /// reading stands.
    pub fn len(&self) -> (n: usize)
        requires
            self.wf(),
        ensures
            n == self.spec_len(),
    {
        let ghost ss = self.spec_slices();
        proof {
            lemma_total_len_prefix_mono(ss, self.index_ as int, ss.len() as int);
            assert(ss.take(ss.len() as int) =~= ss);
        }
        if self.capacity_ == 0 {
            proof {
                lemma_total_len_prefix_mono(ss, 0, self.index_ as int);
            }
            return self.capacity_;
        }
        let s_arr = self.source_;
        let mut consumed: usize = 0;
        let mut i: usize = 0;
        while i < self.index_
            invariant
                i <= self.index_,
                self.wf(),
                ss == self.spec_slices(),
                s_arr == self.source_,
                consumed == total_len(ss.take(i as int)),
                total_len(ss.take(self.index_ as int)) <= self.capacity_,
            decreases self.index_ - i,
        {
            proof {
                lemma_total_len_step(ss, i as int);
                lemma_total_len_prefix_mono(ss, i + 1, self.index_ as int);
            }
            consumed = consumed + s_arr[i].len();
            i = i + 1;
        }
        self.capacity_ - consumed
    }

    /// What iterating yields for slice `i`: the slice, from the reading
    /// offset when it is the slice at which reading stands.
    pub open spec fn spec_piece(&self, i: int) -> Seq<T> {
        if i == self.spec_index() {
            self.spec_slices()[i].skip(self.spec_offset() as int)
        } else {
            self.spec_slices()[i]
        }
    }

    /// An iterator over the slices from the one at which reading stands.
    pub fn iter_slices(&self) -> (it: SegmSeqSlicesIterator<'_, 's, T, F>)
        ensures
            it.spec_seq() == *self,
            it.spec_index() == self.spec_index(),
    {
        SegmSeqSlicesIterator::new(self)
    }
}

/// What `len` reports lies between zero and the capacity, and is the whole
/// capacity while reading stands at the first slice.
pub proof fn law_len_within_capacity<'s, T, F: TrForward>(seq: SegmSeq<'s, T, F>)
    requires
        seq.wf(),
    ensures
        0 <= seq.spec_len() <= seq.spec_capacity(),
        seq.spec_index() == 0 ==> seq.spec_len() == seq.spec_capacity(),
{
    let ss = seq.spec_slices();
    lemma_total_len_prefix_mono(ss, seq.spec_index() as int, ss.len() as int);
    assert(ss.take(ss.len() as int) =~= ss);
    assert(ss.take(0) =~= Seq::<Seq<T>>::empty());
}

/// No slice holds more items than all of them together.
pub proof fn lemma_total_len_ge_slice<T>(ss: Seq<Seq<T>>, i: int)
    requires
        0 <= i < ss.len(),
    ensures
        ss[i].len() <= total_len(ss),
{
    lemma_total_len_step(ss, i);
    lemma_total_len_prefix_mono(ss, i + 1, ss.len() as int);
    assert(ss.take(ss.len() as int) =~= ss);
}

/// A sequence from which nothing has been read reports every item of every
/// slice as its `len`, which is its capacity. It reports empty only when it
/// holds no item; and when it has fewer than two slices, or any slice with an
/// item, it reports empty exactly when its capacity is zero.
pub proof fn law_fresh_seq<'s, T, F: TrForward>(seq: SegmSeq<'s, T, F>)
    requires
        seq.wf(),
        seq.spec_index() == 0,
        seq.spec_offset() == 0,
    ensures
        seq.spec_len() == seq.spec_capacity(),
        seq.spec_capacity() == total_len(seq.spec_slices()),
        seq.spec_is_empty() ==> seq.spec_len() == 0 && seq.spec_capacity() == 0,
        (seq.spec_slices().len() < 2 || exists|i: int|
            0 <= i < seq.spec_slices().len() && #[trigger] seq.spec_slices()[i].len() > 0)
            ==> (seq.spec_is_empty() <==> seq.spec_capacity() == 0),
{
    let ss = seq.spec_slices();
    assert(ss.take(0) =~= Seq::<Seq<T>>::empty());
    if ss.len() == 1 {
        assert(ss.drop_last() =~= Seq::<Seq<T>>::empty());
    }
    if exists|i: int| 0 <= i < ss.len() && #[trigger] ss[i].len() > 0 {
        let i = choose|i: int| 0 <= i < ss.len() && #[trigger] ss[i].len() > 0;
        lemma_total_len_ge_slice(ss, i);
    }
}

/// What iterating yields at slice `i` (from where reading stands on) is slice
/// `i` of the source itself: cut at the reading offset when it is the slice at
/// which reading stands, else whole, empty slices included. So the pieces come
/// in the order of the source, one per slice, none skipped or swapped.
pub proof fn law_piece_is_source_slice<'s, T, F: TrForward>(seq: SegmSeq<'s, T, F>, i: int)
    requires
        seq.wf(),
        seq.spec_index() <= i < seq.spec_slices().len(),
    ensures
        i == seq.spec_index() ==> seq.spec_piece(i) == seq.spec_slices()[i].skip(
            seq.spec_offset() as int,
        ),
        i == seq.spec_index() ==> seq.spec_piece(i).len() == seq.spec_slices()[i].len()
            - seq.spec_offset(),
        i != seq.spec_index() ==> seq.spec_piece(i) == seq.spec_slices()[i],
        seq.spec_offset() == 0 ==> seq.spec_piece(i) == seq.spec_slices()[i],
{
    if seq.spec_offset() == 0 && i == seq.spec_index() {
        assert(seq.spec_slices()[i].skip(0) =~= seq.spec_slices()[i]);
    }
}

/// Iterating a sequence yields pieces whose items, one after another, are
/// the sequence's items from where reading stands to the end. Read from the
/// start, that is every item of every slice, as many as the capacity.
pub proof fn law_iteration_yields_rest<'s, T, F: TrForward>(seq: SegmSeq<'s, T, F>)
    requires
        seq.wf(),
    ensures
        ({
            let ss = seq.spec_slices();
            let k = seq.spec_index() as int;
            let pieces = Seq::new((ss.len() - k) as nat, |j: int| seq.spec_piece(k + j));
            &&& k < ss.len() ==> flatten(pieces) == flatten(ss.skip(k)).skip(seq.spec_offset() as int)
            &&& k == ss.len() ==> flatten(pieces) == Seq::<T>::empty()
        }),
        seq.spec_index() == 0 && seq.spec_offset() == 0 ==> {
            let ss = seq.spec_slices();
            &&& flatten(Seq::new(ss.len(), |j: int| seq.spec_piece(j))) == flatten(ss)
            &&& flatten(ss).len() == seq.spec_capacity()
        },
{
    let ss = seq.spec_slices();
    let k = seq.spec_index() as int;
    let off = seq.spec_offset() as int;
    let pieces = Seq::new((ss.len() - k) as nat, |j: int| seq.spec_piece(k + j));
    lemma_flatten_len(ss);
    if k < ss.len() {
        let head = ss[k];
        let rest = ss.skip(k + 1);
        assert(pieces =~= seq![head.skip(off)] + rest);
        assert(ss.skip(k) =~= seq![head] + rest);
        lemma_flatten_concat(seq![head.skip(off)], rest);
        lemma_flatten_concat(seq![head], rest);
        lemma_flatten_single(head.skip(off));
        lemma_flatten_single(head);
        assert((head + flatten(rest)).skip(off) =~= head.skip(off) + flatten(rest));
        if k == 0 && off == 0 {
            assert(ss.skip(0) =~= ss);
            assert(Seq::new(ss.len(), |j: int| seq.spec_piece(j)) =~= pieces);
            assert(flatten(ss).skip(0) =~= flatten(ss));
        }
    } else {
        assert(pieces =~= Seq::<Seq<T>>::empty());
        if k == 0 && off == 0 {
            assert(ss =~= Seq::<Seq<T>>::empty());
            assert(Seq::new(ss.len(), |j: int| seq.spec_piece(j)) =~= pieces);
        }
    }
}

/// Walks the slices of a `SegmSeq` from the one at which reading stands.
pub struct SegmSeqSlicesIterator<'a, 's, T, F: TrForward> {
    seq_: &'a SegmSeq<'s, T, F>,
    index_: usize,
}

impl<'a, 's, T, F: TrForward> SegmSeqSlicesIterator<'a, 's, T, F> {
    /// The sequence walked.
    pub closed spec fn spec_seq(&self) -> SegmSeq<'s, T, F> {
        *self.seq_
    }

    /// The slice the iterator stands at.
    pub closed spec fn spec_index(&self) -> nat {
        self.index_ as nat
    }

    /// How many more slices the iterator yields before it answers `None`.
    pub open spec fn spec_slices_left(&self) -> nat {
        if self.spec_index() < self.spec_seq().spec_slices().len() {
            (self.spec_seq().spec_slices().len() - self.spec_index()) as nat
        } else {
            0
        }
    }

    /// Starts at the slice at which reading of `seq` stands: it yields at
    /// most as many slices as `seq` has.
    pub fn new(seq: &'a SegmSeq<'s, T, F>) -> (it: Self)
        ensures
            it.spec_seq() == *seq,
            it.spec_index() == seq.spec_index(),
            it.spec_slices_left() <= seq.spec_slices().len(),
    {
        SegmSeqSlicesIterator { seq_: seq, index_: seq.index_ }
    }

    /// `None` once the iterator has passed the last slice, and then it stays
    /// there. Else the slice it stands at (from the reading offset when that
    /// is the slice at which reading stands), and the iterator moves on to the
    /// next slice.
    pub fn next(&mut self) -> (r: Option<&'a [T]>)
        requires
            old(self).spec_seq().wf(),
        ensures
            final(self).spec_seq() == old(self).spec_seq(),
            r is None <==> old(self).spec_index() >= old(self).spec_seq().spec_slices().len(),
            r is None ==> final(self).spec_index() == old(self).spec_index(),
            r is None <==> old(self).spec_slices_left() == 0,
            r is None ==> final(self).spec_slices_left() == 0,
            r matches Some(s) ==> {
                &&& s@ == old(self).spec_seq().spec_piece(old(self).spec_index() as int)
                &&& s@ == (if old(self).spec_index() == old(self).spec_seq().spec_index() {
                    old(self).spec_seq().spec_slices()[old(self).spec_index() as int].skip(
                        old(self).spec_seq().spec_offset() as int,
                    )
                } else {
                    old(self).spec_seq().spec_slices()[old(self).spec_index() as int]
                })
                &&& final(self).spec_index() == old(self).spec_index() + 1
                &&& final(self).spec_slices_left() + 1 == old(self).spec_slices_left()
            },
    {
        let a = self.seq_.source_;
        if self.index_ >= a.len() {
            return Option::None;
        }
        proof {
            let ss = self.seq_.spec_slices();
            assert(ss[self.index_ as int] == a@[self.index_ as int]@);
        }
        let b = a[self.index_];
        let piece = if self.index_ == self.seq_.index_ {
            let (_, tail) = b.split_at(self.seq_.offset_);
            tail
        } else {
            b
        };
        self.index_ = self.index_ + 1;
        Option::Some(piece)
    }
}

} // verus!
