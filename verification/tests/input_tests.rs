use qsc_render::controls::color_mode_for_key;
use qsc_render::shader::spirv_words;

#[test]
fn spirv_bytes_become_little_endian_words() {
    // the SPIR-V magic number, then version 1.0
    let bytes = [0x03u8, 0x02, 0x23, 0x07, 0x00, 0x00, 0x01, 0x00];
    assert_eq!(spirv_words(&bytes), vec![0x0723_0203, 0x0001_0000]);
    assert_eq!(spirv_words(&[]), Vec::<u32>::new());
    assert_eq!(spirv_words(&[0xff, 0xff, 0xff, 0xff]), vec![u32::MAX]);
    assert_eq!(spirv_words(&[1, 2, 3, 4]), vec![u32::from_le_bytes([1, 2, 3, 4])]);
}

#[test]
fn digit_keys_select_color_modes() {
    assert_eq!(color_mode_for_key(b"0", 2), 0);
    assert_eq!(color_mode_for_key(b"1", 0), 1);
    assert_eq!(color_mode_for_key(b"2", 0), 2);
    assert_eq!(color_mode_for_key("2".as_bytes(), 1), 2);
}

#[test]
fn other_keys_keep_the_color_mode() {
    assert_eq!(color_mode_for_key(b"3", 1), 1);
    assert_eq!(color_mode_for_key(b"a", 2), 2);
    assert_eq!(color_mode_for_key(b"", 0), 0);
    assert_eq!(color_mode_for_key(b"01", 2), 2);
    assert_eq!(color_mode_for_key("é".as_bytes(), 1), 1);
}
