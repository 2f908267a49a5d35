use segm_buff::{Demand, SegmRef, SegmSelfReclaim};
use std::borrow::Borrow;

#[test]
fn segm_ref__segm_len_should_eq_as_slice_len() {
    const ARR_SIZE: usize = 64;
    let mut buff = [0usize; ARR_SIZE];
    for (u, x) in buff.iter_mut().enumerate() {
        *x = u
    }
    let mut segm = SegmRef::new(buff.as_mut_slice(), Option::<SegmSelfReclaim>::None);
    let slice = segm.as_slice();
    assert_eq!(segm.len(), ARR_SIZE);
    assert_eq!(slice.len(), ARR_SIZE);

    const SLICE_LEN: usize = ARR_SIZE >> 1;
    if true {
        let first_range = Demand::less_than(SLICE_LEN);
        let first_take = segm.take_segm_ref(&first_range);

        println!("segm_ref first_take");

        if let Option::Some(taken_slice) = &first_take {
            assert_eq!(taken_slice.len(), SLICE_LEN);
            for (u, x) in taken_slice.iter().enumerate() {
                assert_eq!(*x, u)
            }
        } else {
            panic!("first_take failed")
        }
    }
    assert_eq!(segm.len(), ARR_SIZE - SLICE_LEN);
    if true {
        let second_range = Demand::less_than(ARR_SIZE);
        let second_take = segm.take_segm_ref(&second_range);

        println!("segm_ref second_take");

        if let Option::Some(taken_slice) = &second_take {
            assert_eq!(taken_slice.len(), ARR_SIZE - SLICE_LEN);
            for (u, x) in taken_slice.iter().enumerate() {
                assert_eq!(*x, u + SLICE_LEN)
            }
        }
    }
    assert_eq!(segm.len(), 0);
    println!("segm_ref test succ");
}

#[test]
fn segm_ref_fresh_segment_reports_its_slice() {
    let data = [5u8, 6, 7];
    let segm = SegmRef::no_reclaim(&data[..]);
    assert_eq!(segm.capacity(), 3);
    assert_eq!(segm.least_count(), 3);
    assert!(!segm.is_empty());
    assert_eq!(segm.as_slice(), &[5u8, 6, 7][..]);
    assert_eq!(segm.iter_slices(), Some(&[5u8, 6, 7][..]));
}

#[test]
fn segm_ref_empty_slice_is_empty_and_lends_nothing() {
    let data: [u8; 0] = [];
    let mut segm = SegmRef::no_reclaim(&data[..]);
    assert!(segm.is_empty());
    assert_eq!(segm.least_count(), 0);
    assert_eq!(segm.iter_slices(), None);
    assert!(segm.take_segm_ref(&Demand::less_than(4)).is_none());
}

#[test]
fn segm_ref_demand_above_what_is_left_lends_nothing() {
    let data = [1u32, 2, 3, 4];
    let mut segm = SegmRef::no_reclaim(&data[..]);
    let demand = Demand::new(5, 8).unwrap();
    assert!(segm.take_segm_ref(&demand).is_none());
    assert_eq!(segm.least_count(), 4);
    let demand = Demand::new(4, 8).unwrap();
    let child = segm.take_segm_ref(&demand).unwrap();
    assert_eq!(child.as_slice(), &[1u32, 2, 3, 4][..]);
        drop(child);
    assert!(segm.is_empty());
}

#[test]
fn segm_ref_take_consumes_lent_items_whatever_the_child_does() {
    let data = [10u16, 11, 12, 13, 14];
    let mut segm = SegmRef::no_reclaim(&data[..]);
    let mut child = segm.take_segm_ref(&Demand::less_than(3)).unwrap();
    assert_eq!(child.capacity(), 3);
    // consume one item of the child through a grandchild
    let grandchild = child.take_segm_ref(&Demand::less_than(1)).unwrap();
    assert_eq!(grandchild.as_slice(), &[10u16][..]);
        drop(grandchild);
    assert_eq!(child.as_slice(), &[11u16, 12][..]);
        drop(child);
    assert_eq!(segm.as_slice(), &[13u16, 14][..]);
    assert_eq!(segm.least_count(), 2);
}

#[test]
fn segm_ref_release_tells_the_reclaimer_its_capacity() {
    let data = [0u8; 7];
    let mut counter = 3usize;
    {
        let segm = SegmRef::new(&data[..], Some(SegmSelfReclaim::new(&mut counter)));
        segm.release();
    }
    assert_eq!(counter, 10);
    let plain = SegmRef::no_reclaim(&data[..]);
    plain.release();
}

#[test]
fn segm_ref_slice_views_show_what_is_left() {
    let data = [3u8, 4, 5];
    let mut segm = SegmRef::no_reclaim(&data[..]);
    let child = segm.take_segm_ref(&Demand::less_than(2)).unwrap();
        drop(child);
    assert_eq!(&*segm, &[5u8][..]);
    assert_eq!(segm.as_ref(), &[5u8][..]);
    assert_eq!(segm.len(), 1);
}

#[test]
fn segm_ref_borrow_shows_what_is_left() {
    let data = [7u8, 8, 9];
    let mut segm = SegmRef::no_reclaim(&data[..]);
    {
        let child = segm.take_segm_ref(&Demand::less_than(2)).unwrap();
        assert_eq!(&*child, &[7u8, 8][..]);
    }
    let left: &[u8] = segm.borrow();
    assert_eq!(left, &[9u8][..]);
}
