use matching_engine::utils::bitmap::Bitmap;
use matching_engine::utils::error::CustomError;
use matching_engine::utils::window::{Window, WindowError};

#[test]
fn bitmap_has_whole_bytes_all_clear() {
    assert_eq!(Bitmap::new(0).len(), 0);
    assert_eq!(Bitmap::new(1).len(), 1);
    assert_eq!(Bitmap::new(8).len(), 1);
    assert_eq!(Bitmap::new(9).len(), 2);
    let b = Bitmap::new(10000);
    assert_eq!(b.len(), 1250);
    for k in 0..10000u64 {
        assert!(!b.get(k));
    }
}

#[test]
fn bitmap_sets_one_bit_at_a_time() {
    let mut b = Bitmap::new(24);
    b.set(0, true);
    b.set(9, true);
    b.set(23, true);
    for k in 0..24u64 {
        assert_eq!(b.get(k), k == 0 || k == 9 || k == 23);
    }
    assert_eq!(b.to_bytes(), vec![1u8, 2, 128]);
    b.set(9, false);
    assert!(!b.get(9));
    assert!(b.get(0) && b.get(23));
    let copy = Bitmap::from_bytes(b.to_bytes());
    assert!(copy.get(23));
    assert_eq!(copy.len(), 3);
    assert_eq!(b.duplicate().to_bytes(), vec![1u8, 0, 128]);
}

#[test]
fn bits_of_a_byte() {
    assert!(Bitmap::get_bit(0b0000_0100, 2));
    assert!(!Bitmap::get_bit(0b0000_0100, 3));
    assert!(Bitmap::get_bit(128, 7));
    assert_eq!(Bitmap::set_bit(0, 0, true), 1);
    assert_eq!(Bitmap::set_bit(0, 7, true), 128);
    assert_eq!(Bitmap::set_bit(255, 3, false), 247);
    assert_eq!(Bitmap::set_bit(5, 2, true), 5);
    assert_eq!(Bitmap::set_bit(5, 1, false), 5);
}

#[test]
fn window_accepts_a_value_once() {
    let mut w = Window::new(0, 10000);
    assert_eq!((w.min, w.max, w.cap), (0, 10000, 10000));
    assert!(w.is_valid());
    assert_eq!(w.put(7), Ok(()));
    assert!(w.has_seen(7));
    assert!(!w.has_seen(8));
    assert_eq!(w.put(7), Err(WindowError::Existed { val: 7 }));
    assert_eq!(w.put(8), Ok(()));
    assert_eq!(w.put(7), Err(WindowError::Existed { val: 7 }));
    assert!(w.contains(7));
    assert!(!w.contains(9));
}

#[test]
fn window_turns_away_what_is_at_or_below_its_lower_edge() {
    let mut w = Window::new(5, 15);
    assert_eq!(w.put(5), Err(WindowError::Expired { val: 5, min: 5, max: 15 }));
    assert_eq!(w.put(0), Err(WindowError::Expired { val: 0, min: 5, max: 15 }));
    assert_eq!((w.min, w.max), (5, 15));
    assert_eq!(w.put(6), Ok(()));
}

#[test]
fn window_slides_up_to_a_value_above_it() {
    let mut w = Window::new(0, 10);
    assert_eq!(w.put(3), Ok(()));
    assert_eq!(w.put(14), Ok(()));
    assert_eq!((w.min, w.max, w.cap), (4, 14, 10));
    assert!(w.has_seen(14));
    assert_eq!(w.put(14), Err(WindowError::Existed { val: 14 }));
    assert_eq!(w.put(3), Err(WindowError::Expired { val: 3, min: 4, max: 14 }));
    assert_eq!(w.put(4), Err(WindowError::Expired { val: 4, min: 4, max: 14 }));
    // 13 shares its bit with 3, which the slide did not clear
    assert_eq!(w.put(13), Err(WindowError::Existed { val: 13 }));
    assert_eq!(w.put(12), Ok(()));
    let copy = w.duplicate();
    assert_eq!((copy.min, copy.max, copy.cap), (4, 14, 10));
    assert!(copy.has_seen(12));
}

#[test]
fn window_without_width_is_not_valid() {
    let w = Window::new(3, 3);
    assert_eq!(w.cap, 0);
    assert!(!w.is_valid());
    let mut broken = Window::new(0, 16);
    broken.bit_map = Bitmap::new(8);
    assert!(!broken.is_valid());
    broken.bit_map = Bitmap::new(16);
    assert!(broken.is_valid());
    broken.max = 17;
    assert!(!broken.is_valid());
}

#[test]
fn custom_error_carries_its_message() {
    let e = CustomError::new("order 7 not found on book");
    assert_eq!(e.0, "order 7 not found on book");
    let e = CustomError::from_string(String::from("existed val 3"));
    assert_eq!(e.message(), "existed val 3");
}
