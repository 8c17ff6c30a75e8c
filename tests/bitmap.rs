use lance_kernels::bitmap::Bitmap;

#[test]
fn test_bitmap() {
    let mut bitmap = Bitmap::new_empty(10);
    assert_eq!(bitmap.len(), 10);
    assert_eq!(bitmap.count_ones(), 0);

    bitmap.set(0);
    bitmap.set(1);
    bitmap.set(4);
    bitmap.set(8);
    assert_eq!(bitmap.count_ones(), 4);
    assert_eq!(
        bitmap.to_debug_string(),
        "Bitmap { data: 1100100010, len: 10 }"
    );

    bitmap.clear(1);
    bitmap.clear(4);
    assert_eq!(bitmap.count_ones(), 2);
    assert_eq!(
        bitmap.to_debug_string(),
        "Bitmap { data: 1000000010, len: 10 }"
    );

    let bitmap = bitmap.slice(5, 5);
    assert_eq!(bitmap.count_ones(), 1);
    assert_eq!(bitmap.to_debug_string(), "Bitmap { data: 00010, len: 5 }");
}

#[test]
fn test_equality() {
    for len in 48..56 {
        let mut bitmap1 = Bitmap::new_empty(len);
        for i in 0..len {
            if i % 2 == 0 {
                bitmap1.set(i);
            }
        }

        let mut bitmap2 = Bitmap::new_full(len);
        for i in 0..len {
            if i % 2 == 1 {
                bitmap2.clear(i);
            }
        }

        assert!(bitmap1 == bitmap2);
    }
}

#[test]
fn set_then_debug_string_lists_bits_in_order() {
    let mut bitmap = Bitmap::new_empty(10);
    for i in [0usize, 1, 4, 5, 9] {
        bitmap.set(i);
    }
    assert_eq!(bitmap.to_debug_string(), "Bitmap { data: 1100110001, len: 10 }");
    bitmap.clear(1);
    bitmap.clear(4);
    assert_eq!(bitmap.to_debug_string(), "Bitmap { data: 1000010001, len: 10 }");
    let tail = bitmap.slice(5, 5);
    assert_eq!(tail.count_ones(), 2);
    assert_eq!(tail.to_debug_string(), "Bitmap { data: 10001, len: 5 }");
}

#[test]
fn empty_bitmap_has_no_bytes() {
    let bitmap = Bitmap::new_empty(0);
    assert_eq!(bitmap.len(), 0);
    assert!(bitmap.data.is_empty());
    assert_eq!(bitmap.count_ones(), 0);
    assert_eq!(bitmap.count_zeros(), 0);
    assert_eq!(bitmap.to_debug_string(), "Bitmap { data: , len: 0 }");
}

#[test]
fn new_full_clears_bits_past_len() {
    let bitmap = Bitmap::new_full(10);
    assert_eq!(bitmap.data, vec![0xff, 0x03]);
    assert_eq!(bitmap.count_ones(), 10);
    assert_eq!(bitmap.count_zeros(), 0);
    let whole = Bitmap::new_full(16);
    assert_eq!(whole.data, vec![0xff, 0xff]);
    assert_eq!(whole.count_ones(), 16);
}

#[test]
fn new_empty_rounds_bytes_up() {
    assert_eq!(Bitmap::new_empty(1).data.len(), 1);
    assert_eq!(Bitmap::new_empty(8).data.len(), 1);
    assert_eq!(Bitmap::new_empty(9).data.len(), 2);
    assert_eq!(Bitmap::new_empty(9).count_zeros(), 9);
}

#[test]
fn get_reads_each_bit() {
    let mut bitmap = Bitmap::new_empty(12);
    bitmap.set(3);
    bitmap.set(11);
    for i in 0..12 {
        assert_eq!(bitmap.get(i), i == 3 || i == 11);
    }
    assert_eq!(bitmap.data, vec![0x08, 0x08]);
}

#[test]
fn slice_across_a_byte_boundary() {
    let bits = [true, false, false, true, true, false, true, false, true, true, false];
    let bitmap = Bitmap::from_bools(&bits);
    let part = bitmap.slice(3, 7);
    assert_eq!(part.len(), 7);
    for i in 0..7 {
        assert_eq!(part.get(i), bits[3 + i]);
    }
    assert_eq!(part.to_debug_string(), "Bitmap { data: 1101011, len: 7 }");
}

#[test]
fn from_bools_round_trips() {
    let bits = [false, true, true, false, false, false, false, false, true];
    let bitmap = Bitmap::from_bools(&bits);
    assert_eq!(bitmap.len(), 9);
    assert_eq!(bitmap.data, vec![0x06, 0x01]);
    assert_eq!(bitmap.count_ones(), 3);
    assert_eq!(bitmap.count_zeros(), 6);
}

#[test]
fn bitmaps_of_different_bits_differ() {
    let a = Bitmap::from_bools(&[true, false, true]);
    let b = Bitmap::from_bools(&[true, true, true]);
    let c = Bitmap::from_bools(&[true, false, true, false]);
    assert!(a != b);
    assert!(a != c);
    assert!(a == Bitmap::from_bools(&[true, false, true]));
}

#[test]
fn debug_string_shows_multi_digit_length() {
    let bitmap = Bitmap::new_full(123);
    let text = bitmap.to_debug_string();
    assert!(text.starts_with("Bitmap { data: 111"));
    assert!(text.ends_with("1, len: 123 }"));
    assert_eq!(text.len(), "Bitmap { data: ".len() + 123 + ", len: 123 }".len());
}
