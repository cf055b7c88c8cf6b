use kernel_core::data::bitmap::Bitmap;

#[test]
fn new_bitmap_is_clear() {
    let bitmap = Bitmap::new(vec![0xffu8; 4]);
    assert_eq!(bitmap.len(), 4);
    for i in 0..32 {
        assert!(!bitmap.get(i));
    }
}

#[test]
fn set_and_get_one_bit() {
    let mut bitmap = Bitmap::new(vec![0u8; 4]);
    bitmap.set(10, true);
    for i in 0..32 {
        assert_eq!(bitmap.get(i), i == 10);
    }
    bitmap.set(11, true);
    bitmap.set(10, false);
    for i in 0..32 {
        assert_eq!(bitmap.get(i), i == 11);
    }
}

#[test]
fn bits_of_neighbouring_bytes_do_not_mix() {
    let mut bitmap = Bitmap::new(vec![0u8; 2]);
    bitmap.set(7, true);
    bitmap.set(8, true);
    assert!(bitmap.get(7));
    assert!(bitmap.get(8));
    assert!(!bitmap.get(6));
    assert!(!bitmap.get(9));
    bitmap.set(7, false);
    assert!(!bitmap.get(7));
    assert!(bitmap.get(8));
}
