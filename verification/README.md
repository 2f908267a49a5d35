# segm_buff

Segments of borrowed buffers, verified with Verus.

- `SegmRef` wraps a shared slice and `SegmMut` a mutable one. Both are
  consumed from the front. `take_segm_ref` / `take_segm_mut` lend the front of
  what is left to a child segment and count those items as consumed: the
  parent stays borrowed while the child lives, and once the child is gone the
  parent stands past them. Writes made through a `SegmMut` child land in the
  parent's buffer.
- `Demand` is the range of item counts a taker accepts. `compromise`
  intersects two demands. It is this crate's own type: the only published
  `abs_buff` (0.1.1) has no `Demand` and no segment traits, and it needs a
  nightly compiler, so the crate depends on no outside crate.
- Both segments deref to the slice of what is left (`SegmMut` mutably too),
  and offer it through `AsRef` and `Borrow` (and `AsMut` and `BorrowMut`).
- `SegmSeq` reads a sequence of slices as one segment. Its iterator yields
  each slice in turn, then `None`.
- `TrReclaim` / `NoReclaim` and `TrForward` / `NoForward` / `IncrConsumed` are
  the hooks a segment calls to hand its counts back.

A segment's own reclaimer (`TrReclaim`) is told its capacity by `release`;
letting the segment go out of scope does not call it.
