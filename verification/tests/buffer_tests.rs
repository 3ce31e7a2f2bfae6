use space_drift::buffer::Win32OffscreenBuffer;
use space_drift::color::Color;

#[test]
fn new_buffer_is_zeroed_and_packed() {
    let buffer = Win32OffscreenBuffer::new(7, 3).unwrap();
    assert_eq!(buffer.width(), 7);
    assert_eq!(buffer.height(), 3);
    assert_eq!(buffer.pitch(), 28);
    assert_eq!(buffer.bits().len(), 84);
    assert!(buffer.bits().iter().all(|b| *b == 0));
}

#[test]
fn new_buffer_needs_positive_dimensions() {
    assert!(Win32OffscreenBuffer::new(0, 5).is_none());
    assert!(Win32OffscreenBuffer::new(5, 0).is_none());
    assert!(Win32OffscreenBuffer::new(-1, 5).is_none());
    assert!(Win32OffscreenBuffer::new(5, -3).is_none());
    assert!(Win32OffscreenBuffer::new(1, 1).is_some());
}

#[test]
fn new_buffer_is_bounded_in_bytes() {
    // 23171 * 23171 * 4 is just above the limit, 23170 * 23170 * 4 just below
    assert!(Win32OffscreenBuffer::new(46341, 46341).is_none());
    assert!(Win32OffscreenBuffer::new(i32::MAX, i32::MAX).is_none());
    assert!(Win32OffscreenBuffer::new(i32::MAX, 1).is_none());
    assert!(Win32OffscreenBuffer::new(536_870_912, 1).is_none());
}

#[test]
fn with_pitch_accepts_row_padding() {
    let buffer = Win32OffscreenBuffer::with_pitch(3, 2, 16).unwrap();
    assert_eq!(buffer.pitch(), 16);
    assert_eq!(buffer.bits().len(), 32);
    assert!(Win32OffscreenBuffer::with_pitch(3, 2, 11).is_none());
    assert!(Win32OffscreenBuffer::with_pitch(3, 2, 12).is_some());
    assert!(Win32OffscreenBuffer::with_pitch(0, 2, 12).is_none());
}

#[test]
fn from_bits_checks_the_length() {
    assert!(Win32OffscreenBuffer::from_bits(vec![0u8; 23], 3, 2, 12).is_none());
    assert!(Win32OffscreenBuffer::from_bits(vec![0u8; 24], 3, 2, 12).is_some());
    let longer = Win32OffscreenBuffer::from_bits(vec![9u8; 30], 3, 2, 12).unwrap();
    assert_eq!(longer.bits().len(), 30);
    assert_eq!(longer.get_pixel(2, 1), Some(Color { r: 9, g: 9, b: 9, a: 9 }));
}

#[test]
fn pixels_are_stored_blue_first() {
    let mut buffer = Win32OffscreenBuffer::with_pitch(3, 2, 16).unwrap();
    let c = Color { r: 1, g: 2, b: 3, a: 4 };
    assert!(buffer.set_pixel(2, 1, c));
    let at = 16 + 2 * 4;
    assert_eq!(&buffer.bits()[at..at + 4], &[3, 2, 1, 4]);
    assert_eq!(buffer.get_pixel(2, 1), Some(c));
    let changed = buffer.bits().iter().filter(|b| **b != 0).count();
    assert_eq!(changed, 4);
}

#[test]
fn pixels_outside_are_skipped() {
    let mut buffer = Win32OffscreenBuffer::new(3, 2).unwrap();
    let c = Color { r: 1, g: 2, b: 3, a: 4 };
    assert!(!buffer.set_pixel(3, 0, c));
    assert!(!buffer.set_pixel(0, 2, c));
    assert!(!buffer.set_pixel(-1, 0, c));
    assert!(!buffer.set_pixel(0, -1, c));
    assert!(buffer.bits().iter().all(|b| *b == 0));
    assert_eq!(buffer.get_pixel(3, 0), None);
    assert_eq!(buffer.get_pixel(-1, 1), None);
    assert_eq!(buffer.get_pixel(0, 0), Some(Color { r: 0, g: 0, b: 0, a: 0 }));
    assert!(buffer.contains(2, 1));
    assert!(!buffer.contains(2, 2));
}

#[test]
fn read_and_write_pixel_agree() {
    let mut buffer = Win32OffscreenBuffer::new(4, 4).unwrap();
    let c = Color::new(10, 20, 30, 40);
    buffer.write_pixel(3, 3, c);
    assert_eq!(buffer.read_pixel(3, 3), c);
    assert_eq!(buffer.read_pixel(2, 3), Color { r: 0, g: 0, b: 0, a: 0 });
    assert_eq!(&buffer.bits()[60..64], &[30, 20, 10, 40]);
}
