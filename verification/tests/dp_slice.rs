use dont_panic::dp_slice::index_violates;
use dont_panic::dp_slice::size_violates;
use dont_panic::dp_slice::split_at_violates;
use dont_panic::dp_slice::swap_violates;
use dont_panic::DPSlice;

#[test]
fn lib_it_works() {
    let dps = DPSlice::from_vec(vec![0, 1, 2, 3]);
    assert_eq!(*dps.index(0), 0);
    assert_eq!(*dps.index(3), 3);
}

#[test]
fn lib_no_panic() {
    let dps = DPSlice::from_vec(vec![0, 1, 2, 3]);
    assert_eq!(*dps.index(0), 0);
    assert_eq!(*dps.index(3), 3);
}

#[test]
fn index_reads_every_valid_position() {
    let dps = DPSlice::from_vec(vec![10, 20, 30, 40]);
    assert_eq!(*dps.index(0), 10);
    assert_eq!(*dps.index(1), 20);
    assert_eq!(*dps.index(2), 30);
    assert_eq!(*dps.index(3), 40);
    assert!(index_violates(dps.len(), 4));
}

#[test]
fn index_mut_writes_exactly_one_position() {
    let mut dps = DPSlice::from_vec(vec![10, 20, 30, 40]);
    *dps.index_mut(1) = 99;
    assert_eq!(dps.into_vec(), vec![10, 99, 30, 40]);
}

#[test]
fn swap_boundary_is_strict_greater_than() {
    // A position equal to the length passes the swap policy, though the
    // same position is refused by the indexing policy.
    assert!(!swap_violates(4, 4, 0));
    assert!(!swap_violates(4, 0, 4));
    assert!(swap_violates(4, 5, 0));
    assert!(swap_violates(4, 0, 5));
    assert!(index_violates(4, 4));
}

#[test]
fn swap_exchanges_in_place() {
    let mut dps = DPSlice::from_vec(vec![10, 20, 30, 40]);
    dps.swap(0, 3);
    assert_eq!(dps.into_vec(), vec![40, 20, 30, 10]);
    let mut same = DPSlice::from_vec(vec![1, 2]);
    same.swap(1, 1);
    assert_eq!(same.into_vec(), vec![1, 2]);
}

#[test]
fn split_at_partitions() {
    let dps = DPSlice::from_vec(vec![10, 20, 30, 40]);
    let (left, right) = dps.split_at(2);
    assert_eq!(left, &[10, 20]);
    assert_eq!(right, &[30, 40]);
    let (left, right) = dps.split_at(0);
    assert_eq!(left, &[] as &[i32]);
    assert_eq!(right, &[10, 20, 30, 40]);
}

#[test]
fn split_at_the_end_is_legal() {
    let dps = DPSlice::from_vec(vec![10, 20, 30, 40]);
    assert!(!split_at_violates(dps.len(), 4));
    assert!(split_at_violates(dps.len(), 5));
    let (left, right) = dps.split_at(4);
    assert_eq!(left, &[10, 20, 30, 40]);
    assert_eq!(right, &[] as &[i32]);
}

#[test]
fn split_at_mut_halves_mutate_the_whole() {
    let mut dps = DPSlice::from_vec(vec![10, 20, 30, 40]);
    {
        let (left, right) = dps.split_at_mut(2);
        left[0] = 11;
        right[1] = 44;
    }
    assert_eq!(dps.into_vec(), vec![11, 20, 30, 44]);
}

#[test]
fn first_and_first_mut() {
    let mut dps = DPSlice::from_vec(vec![10, 20]);
    assert_eq!(dps.first(), Some(&10));
    if let Some(p) = dps.first_mut() {
        *p = 5;
    }
    assert_eq!(dps.into_vec(), vec![5, 20]);
    let empty: DPSlice<i32> = DPSlice::from_vec(vec![]);
    assert_eq!(empty.first(), None);
}

#[test]
fn split_first_and_split_last() {
    let dps = DPSlice::from_vec(vec![10, 20, 30]);
    let (f, rest) = dps.split_first().unwrap();
    assert_eq!(*f, 10);
    assert_eq!(rest, &[20, 30]);
    let (l, rest) = dps.split_last().unwrap();
    assert_eq!(*l, 30);
    assert_eq!(rest, &[10, 20]);
    let (f, rest) = dps.split_first_mut().unwrap();
    assert_eq!(*f, 10);
    assert_eq!(rest, &[20, 30]);
    let empty: DPSlice<i32> = DPSlice::from_vec(vec![]);
    assert_eq!(empty.split_first(), None);
    assert_eq!(empty.split_last(), None);
}

#[test]
fn split_last_mut_leaves_the_wrapper_unchanged() {
    let mut dps = DPSlice::from_vec(vec![10, 20, 30]);
    let (l, rest) = dps.split_last_mut().unwrap();
    assert_eq!(*l, 30);
    assert_eq!(rest, &[10, 20]);
    assert_eq!(dps.into_vec(), vec![10, 20, 30]);
}

#[test]
fn zero_width_violates_unconditionally() {
    assert!(size_violates(0));
    assert!(!size_violates(1));
    assert!(!size_violates(1000));
}

#[test]
fn windows_of_a_width_beyond_the_length_are_none() {
    let dps = DPSlice::from_vec(vec![10, 20, 30, 40]);
    let w = dps.windows(5);
    assert_eq!(w.len(), 0);
}

#[test]
fn windows_overlap_in_order() {
    let dps = DPSlice::from_vec(vec![10, 20, 30, 40]);
    let w = dps.windows(2);
    assert_eq!(w, vec![&[10, 20][..], &[20, 30][..], &[30, 40][..]]);
    let whole = dps.windows(4);
    assert_eq!(whole, vec![&[10, 20, 30, 40][..]]);
}

#[test]
fn chunks_are_disjoint_and_the_last_may_be_short() {
    let dps = DPSlice::from_vec(vec![10, 20, 30, 40]);
    let c = dps.chunks(3);
    assert_eq!(c, vec![&[10, 20, 30][..], &[40][..]]);
    let c = dps.chunks(2);
    assert_eq!(c, vec![&[10, 20][..], &[30, 40][..]]);
}

#[test]
fn chunks_mut_hands_out_independent_chunks() {
    let dps = DPSlice::from_vec(vec![10, 20, 30, 40, 50]);
    let mut cs = dps.chunks_mut(2);
    assert_eq!(cs.len(), 3);
    *cs[0].index_mut(0) = 1;
    let parts: Vec<Vec<i32>> = cs.into_iter().map(|c| c.into_vec()).collect();
    assert_eq!(parts, vec![vec![1, 20], vec![30, 40], vec![50]]);
}

#[test]
fn chunk_and_window_counts() {
    let dps = DPSlice::from_vec(vec![1, 2, 3, 4, 5, 6, 7]);
    assert_eq!(dps.chunks(3).len(), 3);
    assert_eq!(dps.chunks(7).len(), 1);
    assert_eq!(dps.chunks(8).len(), 1);
    assert_eq!(dps.windows(3).len(), 5);
    assert_eq!(dps.windows(7).len(), 1);
    assert_eq!(dps.windows(8).len(), 0);
}

#[test]
fn round_trip_preserves_the_sequence() {
    let v = vec![10, 20, 30, 40];
    let dps = DPSlice::from_vec(v.clone());
    assert_eq!(DPSlice::as_rust_slice(&dps), v.as_slice());
    assert_eq!(dps.len(), 4);
    assert!(!dps.is_empty());
    assert_eq!(dps.into_vec(), v);
}

#[test]
fn mutation_through_the_borrowed_slice() {
    let mut dps = DPSlice::from_vec(vec![10, 20]);
    DPSlice::as_rust_slice_mut(&mut dps)[0] = 7;
    assert_eq!(dps.into_vec(), vec![7, 20]);
}

#[test]
fn emptiness_queries() {
    let empty: DPSlice<u8> = DPSlice::from_vec(vec![]);
    assert!(empty.is_empty());
    assert_eq!(empty.len(), 0);
    assert_eq!(empty.first(), None);
}
