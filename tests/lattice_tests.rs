use cloudscape::lattice::{wrap_index, Lattice};
use cloudscape::normalize::{normalize, normalize_all, value_range, UNIT};

#[test]
fn wrap_index_handles_both_signs() {
    assert_eq!(wrap_index(0, 4), 0);
    assert_eq!(wrap_index(5, 4), 1);
    assert_eq!(wrap_index(-1, 4), 3);
    assert_eq!(wrap_index(-4, 4), 0);
    assert_eq!(wrap_index(-5, 4), 3);
    assert_eq!(wrap_index(i64::MIN, 3), 1);
    assert_eq!(wrap_index(i64::MAX, 10), 7);
}

#[test]
fn zero_resolution_is_raised_to_one() {
    let l = Lattice::new(0, 7u8);
    assert_eq!(l.resolution(), 1);
    assert_eq!(l.len(), 1);
    assert_eq!(l.sample(-12, 40, 3), 7);
}

#[test]
fn index_and_coords_are_inverse() {
    let l = Lattice::new(3, 0u32);
    assert_eq!(l.index_of(1, 2, 0), 7);
    assert_eq!(l.index_of(2, 2, 2), 26);
    for i in 0..27 {
        let (x, y, z) = l.coords_of(i);
        assert_eq!(l.index_of(x, y, z), i);
    }
    assert_eq!(l.coords_of(14), (2, 1, 1));
}

#[test]
fn sampling_wraps_periodically() {
    let texels: Vec<u32> = (0..64).collect();
    let l = Lattice::from_texels(4, texels).unwrap();
    assert_eq!(l.sample(1, 2, 3), 1 + 4 * (2 + 4 * 3));
    assert_eq!(l.sample(1 + 4, 2, 3), l.sample(1, 2, 3));
    assert_eq!(l.sample(1, 2 - 4, 3), l.sample(1, 2, 3));
    assert_eq!(l.sample(1, 2, 3 + 40), l.sample(1, 2, 3));
    assert_eq!(l.sample(-1, 0, 0), 3);
}

#[test]
fn from_texels_checks_the_count() {
    assert!(Lattice::from_texels(2, vec![0u8; 7]).is_none());
    assert!(Lattice::from_texels(0, Vec::<u8>::new()).is_none());
    assert!(Lattice::from_texels(2, vec![0u8; 8]).is_some());
}

#[test]
fn set_changes_one_texel() {
    let mut l = Lattice::new(2, 0i32);
    l.set(1, 0, 1, 9);
    assert_eq!(l.get(1, 0, 1), 9);
    assert_eq!(l.texel_slice().iter().filter(|v| **v == 9).count(), 1);
    assert_eq!(l.texel_slice()[5], 9);
}

#[test]
fn value_range_finds_tight_bounds() {
    assert_eq!(value_range(&vec![]), None);
    assert_eq!(value_range(&vec![5, -3, 10, 2]), Some((-3, 10)));
    assert_eq!(value_range(&vec![4]), Some((4, 4)));
}

#[test]
fn normalize_maps_range_onto_unit() {
    assert_eq!(normalize(-3, -3, 10), 0);
    assert_eq!(normalize(10, -3, 10), UNIT);
    assert_eq!(normalize(5, -3, 10), ((8u64 * UNIT as u64) / 13) as u32);
    assert_eq!(normalize(4, 4, 4), 0);
    assert_eq!(normalize(i32::MAX, i32::MIN, i32::MAX), UNIT);
}

#[test]
fn normalize_all_reaches_both_ends() {
    let out = normalize_all(&vec![20, 30, 25, 40]);
    assert_eq!(out, vec![0, UNIT / 2, UNIT / 4, UNIT]);
    assert!(out.iter().all(|v| *v <= UNIT));
    assert_eq!(normalize_all(&vec![3, 3, 3]), vec![0, 0, 0]);
    assert_eq!(normalize_all(&vec![]), Vec::<u32>::new());
}

#[test]
fn normalization_is_repeatable() {
    let values = vec![7, -2, 19, 19, 0, 3];
    let a = normalize_all(&values);
    let b = normalize_all(&values);
    assert_eq!(a, b);
    assert_eq!(a[1], 0);
    assert_eq!(a[2], UNIT);
}

#[test]
fn sampling_reads_only_texels() {
    let a = Lattice::from_texels(2, vec![1u8, 2, 3, 4, 5, 6, 7, 8]).unwrap();
    let b = a.clone();
    for u in -3..3 {
        assert_eq!(a.sample(u, 1, -1), b.sample(u, 1, -1));
    }
}
