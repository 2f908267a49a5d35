use segm_buff::{Demand, SegmMut, SegmSelfReclaim};
use std::borrow::{Borrow, BorrowMut};

#[test]
fn segm_mut__segm_len_should_eq_as_slice_len() {
    const ARR_SIZE: usize = 64;
    let mut buff = [0usize; ARR_SIZE];
    for (u, x) in buff.iter_mut().enumerate() {
        *x = u;
    }
    let mut segm = SegmMut::new(&mut buff, Option::<SegmSelfReclaim>::None);
    let slice = segm.as_slice();
    assert_eq!(segm.len(), ARR_SIZE);
    assert_eq!(slice.len(), segm.len());

    const SLICE_LEN: usize = ARR_SIZE >> 1;
    if true {
        let first_range = Demand::less_than(SLICE_LEN);
        let first_take = segm.take_segm_mut(&first_range);

        println!("segm_mut first take");

        if let Option::Some(taken_slice) = &first_take {
            assert_eq!(taken_slice.len(), SLICE_LEN);
            for (u, x) in taken_slice.iter().enumerate() {
                assert_eq!(*x, u)
            }
        } else {
            panic!("segm_mut first_take failed.")
        }
    }
    assert_eq!(segm.len(), ARR_SIZE - SLICE_LEN);
    if true {
        let second_range = Demand::less_than(ARR_SIZE);
        let second_take = segm.take_segm_mut(&second_range);

        println!("segm_mut second take");

        if let Option::Some(taken_slice) = &second_take {
            assert_eq!(taken_slice.len(), ARR_SIZE - SLICE_LEN);
            for (u, x) in taken_slice.iter().enumerate() {
                assert_eq!(*x, u + SLICE_LEN)
            }
        } else {
            panic!("segm_mut second_take failed.")
        }
    }
    assert!(segm.is_empty());
    println!("segm_mut test succ")
}

#[test]
fn segm_mut_writes_through_child_land_in_buffer() {
    let mut buff = [0u8; 6];
    {
        let mut segm = SegmMut::no_reclaim(&mut buff[..]);
        let mut child = segm.take_segm_mut(&Demand::less_than(2)).unwrap();
        child.copy_from_slice(&[7, 8]);
        drop(child);
        assert_eq!(segm.least_count(), 4);
        let mut child = segm.take_segm_mut(&Demand::less_than(3)).unwrap();
        if let Some(s) = child.iter_slices_mut() {
            s[0] = 9;
        }
        drop(child);
        assert_eq!(segm.as_slice(), &[0u8][..]);
        segm.release();
    }
    assert_eq!(buff, [7, 8, 9, 0, 0, 0]);
}

#[test]
fn segm_mut_copy_from_slice_and_as_slice_mut() {
    let mut buff = [1i32, 2, 3];
    {
        let mut segm = SegmMut::no_reclaim(&mut buff[..]);
        segm.copy_from_slice(&[4, 5, 6]);
        assert_eq!(segm.as_slice(), &[4, 5, 6][..]);
        segm.as_slice_mut()[2] = 60;
        assert_eq!(segm.iter_slices(), Some(&[4, 5, 60][..]));
        assert_eq!(segm.capacity(), 3);
    }
    assert_eq!(buff, [4, 5, 60]);
}

#[test]
fn segm_mut_empty_lends_nothing() {
    let mut buff: [u8; 0] = [];
    let mut segm = SegmMut::no_reclaim(&mut buff[..]);
    assert!(segm.is_empty());
    assert_eq!(segm.least_count(), 0);
    assert!(segm.iter_slices().is_none());
    assert!(segm.iter_slices_mut().is_none());
    assert!(segm.take_segm_mut(&Demand::less_than(1)).is_none());
}

#[test]
fn segm_mut_demand_above_what_is_left_lends_nothing() {
    let mut buff = [0u8; 3];
    let mut segm = SegmMut::no_reclaim(&mut buff[..]);
    assert!(segm.take_segm_mut(&Demand::new(4, 4).unwrap()).is_none());
    assert_eq!(segm.least_count(), 3);
}

#[test]
fn segm_mut_slice_views_read_and_write_what_is_left() {
    let mut buff = [1u8, 2, 3, 4];
    {
        let mut segm = SegmMut::no_reclaim(&mut buff[..]);
        let child = segm.take_segm_mut(&Demand::less_than(1)).unwrap();
        drop(child);
        assert_eq!(&*segm, &[2u8, 3, 4][..]);
        assert_eq!(segm.as_ref(), &[2u8, 3, 4][..]);
        segm[0] = 20;
        segm.as_mut()[2] = 40;
        assert_eq!(segm.least_count(), 3);
        assert_eq!(segm.capacity(), 4);
    }
    assert_eq!(buff, [1, 20, 3, 40]);
}

#[test]
fn segm_mut_release_tells_the_reclaimer_its_capacity() {
    let mut buff = [0u8; 5];
    let mut counter = 2usize;
    {
        let mut segm = SegmMut::new(&mut buff[..], Some(SegmSelfReclaim::new(&mut counter)));
        segm.copy_from_slice(&[1, 2, 3, 4, 5]);
        segm.release();
    }
    assert_eq!(counter, 7);
    assert_eq!(buff, [1, 2, 3, 4, 5]);
}

#[test]
fn segm_mut_borrow_views_show_what_is_left() {
    let mut buff = [1u8, 2, 3];
    {
        let mut segm = SegmMut::no_reclaim(&mut buff[..]);
        let _ = segm.take_segm_mut(&Demand::less_than(1));
        let left: &[u8] = segm.borrow();
        assert_eq!(left, &[2u8, 3][..]);
        let left_mut: &mut [u8] = segm.borrow_mut();
        left_mut[1] = 30;
    }
    assert_eq!(buff, [1, 2, 30]);
}
