use segm_buff::{Demand, IncrConsumed, NoForward, NoReclaim, SegmSelfReclaim, SegmSeq, TrForward, TrReclaim};

#[test]
fn demand_less_than_accepts_up_to_n() {
    let d = Demand::less_than(9);
    assert_eq!(d.len(), 9);
}

#[test]
fn demand_new_rejects_inverted_range() {
    assert!(Demand::new(3, 2).is_none());
    assert_eq!(Demand::new(2, 3).unwrap().len(), 3);
    assert_eq!(Demand::new(0, 0).unwrap().len(), 0);
}

#[test]
fn demand_compromise_takes_the_common_range() {
    let a = Demand::new(2, 10).unwrap();
    let b = Demand::new(4, 6).unwrap();
    assert_eq!(a.compromise(&b).unwrap().len(), 6);
    assert_eq!(b.compromise(&a).unwrap().len(), 6);
    assert_eq!(a.compromise(&a).unwrap().len(), 10);
    let c = Demand::new(11, 12).unwrap();
    assert!(a.compromise(&c).is_none());
    assert!(c.compromise(&a).is_none());
    assert_eq!(Demand::less_than(32).compromise(&Demand::less_than(64)).unwrap().len(), 32);
}

#[test]
fn segm_self_reclaim_adds_the_amount() {
    let mut offset = 4usize;
    {
        let mut r = SegmSelfReclaim::new(&mut offset);
        r.reclaim(3);
        r.reclaim(2);
    }
    assert_eq!(offset, 9);
    let mut n = NoReclaim;
    n.reclaim(100);
}

#[test]
fn forwarders() {
    let mut consumed = 1usize;
    IncrConsumed::new(&mut consumed).forward(5);
    assert_eq!(consumed, 6);
    NoForward::new().forward(5);
}

#[test]
fn segm_seq_capacity_and_len() {
    let a = [1u8, 2, 3];
    let b = [4u8, 5];
    let src: [&[u8]; 2] = [&a[..], &b[..]];
    let seq = SegmSeq::new_unchecked(&src[..], NoForward::new());
    assert_eq!(seq.capacity(), 5);
    assert_eq!(seq.len(), 5);
    assert!(!seq.is_empty());
    let mut it = seq.iter_slices();
    assert_eq!(it.next(), Some(&[1u8, 2, 3][..]));
    assert_eq!(it.next(), Some(&[4u8, 5][..]));
    assert_eq!(it.next(), None);
    assert_eq!(it.next(), None);
}

#[test]
fn segm_seq_iteration_concatenates_to_the_source() {
    let a = [1u16];
    let b: [u16; 0] = [];
    let c = [2u16, 3];
    let src: [&[u16]; 3] = [&a[..], &b[..], &c[..]];
    let seq = SegmSeq::new_unchecked(&src[..], NoForward::new());
    let mut it = seq.iter_slices();
    let mut all = Vec::new();
    let mut count = 0;
    while let Some(s) = it.next() {
        all.extend_from_slice(s);
        count += 1;
    }
    assert_eq!(count, 3);
    assert_eq!(all, vec![1u16, 2, 3]);
    assert_eq!(all.len(), seq.capacity());
}

#[test]
fn segm_seq_empty_cases() {
    let src: [&[u8]; 0] = [];
    let seq = SegmSeq::new_unchecked(&src[..], NoForward::new());
    assert_eq!(seq.capacity(), 0);
    assert_eq!(seq.len(), 0);
    assert!(seq.is_empty());
    assert_eq!(seq.iter_slices().next(), None);

    let e: [u8; 0] = [];
    let one: [&[u8]; 1] = [&e[..]];
    let seq = SegmSeq::new_unchecked(&one[..], NoForward::new());
    assert!(seq.is_empty());
    assert_eq!(seq.len(), 0);

    let two: [&[u8]; 2] = [&e[..], &e[..]];
    let seq = SegmSeq::new_unchecked(&two[..], NoForward::new());
    assert!(!seq.is_empty());
    assert_eq!(seq.capacity(), 0);
}
