use quake_assets::convert_palette;

#[test]
fn palette_full_size() {
    let blob: Vec<u8> = (0..768).map(|i| (i % 251) as u8).collect();
    let colors = convert_palette(&blob);
    assert_eq!(colors.len(), 256);
    for (i, c) in colors.iter().enumerate() {
        assert_eq!(*c, (blob[3 * i], blob[3 * i + 1], blob[3 * i + 2]));
    }
}

#[test]
fn palette_length_is_a_third() {
    let blob = vec![1u8, 2, 3, 4, 5, 6, 7];
    assert_eq!(convert_palette(&blob), vec![(1, 2, 3), (4, 5, 6)]);
    assert!(convert_palette(&[]).is_empty());
    assert!(convert_palette(&[1, 2]).is_empty());
}
