//! Segments of borrowed buffers: slices consumed from the front, which lend
//! their front to child segments and count the lent items as consumed.

pub mod demand_;
pub mod forward_;
pub mod reclaim_;
pub mod segm_mut_;
pub mod segm_ref_;
pub mod segm_seq_;

pub use demand_::Demand;
pub use forward_::{IncrConsumed, NoForward, TrForward};
pub use reclaim_::{NoReclaim, SegmSelfReclaim, TrReclaim};
pub use segm_mut_::SegmMut;
pub use segm_ref_::SegmRef;
pub use segm_seq_::{SegmSeq, SegmSeqSlicesIterator};
