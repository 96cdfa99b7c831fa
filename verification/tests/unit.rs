use ico_extract::{build_ico, extract_icon, list_icon_groups, u16_at, u32_at};

#[test]
fn readers_bounds() {
    let b = [1u8, 0, 2, 0, 0, 0];
    assert_eq!(u16_at(&b, 0).unwrap(), 1);
    assert_eq!(u32_at(&b, 2).unwrap(), 2);
    assert!(u16_at(&b, 5).is_err());
    assert!(u32_at(&b, 4).is_err());
}

#[test]
fn build_ico_layout() {
    // Two fake images of 3 and 5 bytes.
    let mut grp_a = [0u8; 14];
    grp_a[0] = 16; // width
    grp_a[1] = 16; // height
    let mut grp_b = [0u8; 14];
    grp_b[0] = 32;
    grp_b[1] = 32;
    let images = vec![(grp_a, vec![0xAA, 0xBB, 0xCC]), (grp_b, vec![1, 2, 3, 4, 5])];
    let ico = build_ico(&images);

    // Header
    assert_eq!(u16_at(&ico, 0).unwrap(), 0); // reserved
    assert_eq!(u16_at(&ico, 2).unwrap(), 1); // type icon
    assert_eq!(u16_at(&ico, 4).unwrap(), 2); // count

    // First entry width/height preserved, offset points past the directory.
    assert_eq!(ico[6], 16);
    assert_eq!(ico[7], 16);
    let off_a = u32_at(&ico, 6 + 12).unwrap() as usize;
    assert_eq!(off_a, 6 + 16 * 2); // after header + 2 entries
    assert_eq!(&ico[off_a..off_a + 3], &[0xAA, 0xBB, 0xCC]);

    // Second image right after the first.
    let off_b = u32_at(&ico, 6 + 16 + 12).unwrap() as usize;
    assert_eq!(off_b, off_a + 3);
    assert_eq!(&ico[off_b..off_b + 5], &[1, 2, 3, 4, 5]);
}

#[test]
fn rejects_non_pe() {
    assert!(extract_icon(b"not a pe file at all", 0).is_err());
    assert!(list_icon_groups(b"xx").is_err());
}
