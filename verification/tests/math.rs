use csm_rs::corr_hash;

#[test]
fn corr_hash_matches_c_reference() {
    // case1: [Some((1,2)), None]
    assert_eq!(corr_hash(&[Some((1, 2)), None]), 4100079);
    // case2: [Some((3,4)), Some((5,6)), Some((7,8))]
    assert_eq!(
        corr_hash(&[Some((3, 4)), Some((5, 6)), Some((7, 8))]),
        554505721
    );
    // case3: four invalid correspondences
    assert_eq!(corr_hash(&[None, None, None, None]), 419176248);
    // case4: single valid correspondence at origin
    assert_eq!(corr_hash(&[Some((0, 0))]), 0);
}

#[test]
fn corr_hash_of_empty_set_is_zero() {
    assert_eq!(corr_hash(&[]), 0);
}

#[test]
fn corr_hash_clears_the_top_bit() {
    let entries: Vec<Option<(i32, i32)>> = (0..50)
        .map(|i| if i % 3 == 0 { None } else { Some((i, 2 * i + 1)) })
        .collect();
    assert!(corr_hash(&entries) <= 0x7FFF_FFFF);
}

#[test]
fn corr_hash_depends_on_order() {
    let a = corr_hash(&[Some((1, 2)), Some((3, 4))]);
    let b = corr_hash(&[Some((3, 4)), Some((1, 2))]);
    assert_ne!(a, b);
}

#[test]
fn corr_hash_codes_negative_indices_with_wraparound() {
    // j1 + 1000 * j2 = -1 has the same code as a missing correspondence.
    assert_eq!(corr_hash(&[Some((999, -1))]), corr_hash(&[None]));
    assert_eq!(corr_hash(&[None]), 0x7FFF_FFFF);
}
