use f1_led_circuit::frame::{Color, Frame};

const RED: Color = Color { r: 255, g: 0, b: 0 };
const BLUE: Color = Color { r: 0, g: 0, b: 255 };
const GREEN: Color = Color { r: 0, g: 255, b: 0 };

#[test]
fn a_new_frame_is_dark() {
    let frame = Frame::new(1_000);
    assert_eq!(frame.timestamp_ms(), 1_000);
    assert_eq!(frame.color_of(0), None);
    assert_eq!(frame.color_of(17), None);
}

#[test]
fn a_marker_keeps_the_colour_it_was_given() {
    let mut frame = Frame::new(5);
    frame.set_marker_color(3, RED);
    frame.set_marker_color(9, BLUE);
    assert_eq!(frame.color_of(3), Some(RED));
    assert_eq!(frame.color_of(9), Some(BLUE));
    assert_eq!(frame.color_of(4), None);
    assert_eq!(frame.timestamp_ms(), 5);
}

#[test]
fn the_last_write_to_a_marker_wins() {
    let mut frame = Frame::new(-7);
    frame.set_marker_color(3, RED);
    frame.set_marker_color(9, BLUE);
    frame.set_marker_color(3, GREEN);
    assert_eq!(frame.color_of(3), Some(GREEN));
    assert_eq!(frame.color_of(9), Some(BLUE));
    frame.set_marker_color(9, RED);
    frame.set_marker_color(9, GREEN);
    assert_eq!(frame.color_of(9), Some(GREEN));
    assert_eq!(frame.color_of(3), Some(GREEN));
    assert_eq!(frame.timestamp_ms(), -7);
}

#[test]
fn frames_with_the_same_writes_are_equal() {
    let mut a = Frame::new(10);
    let mut b = Frame::new(10);
    a.set_marker_color(1, RED);
    b.set_marker_color(1, RED);
    assert_eq!(a, b);
    b.set_marker_color(1, BLUE);
    assert_ne!(a, b);
    assert_ne!(Frame::new(10), Frame::new(11));
}
