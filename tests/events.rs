use ps2_mouse::{Mouse, MouseButton, MouseEvent};

fn feed_all(mouse: &mut Mouse, bytes: &[u8]) -> Vec<Option<MouseEvent>> {
    bytes.iter().map(|b| mouse.feed_byte(*b)).collect()
}

#[test]
fn framed_zero_packet_yields_no_event() {
    let mut mouse = Mouse::default();
    assert_eq!(feed_all(&mut mouse, &[0x08, 0, 0]), vec![None, None, None]);
    assert_eq!(mouse.position(), (0, 0));
}

#[test]
fn left_press_is_reported_alone() {
    let mut mouse = Mouse::default();
    let events = feed_all(&mut mouse, &[0x09, 5, 0]);
    assert_eq!(events, vec![None, None, Some(MouseEvent::ButtonPressed(MouseButton::Left))]);
    assert!(mouse.is_button_pressed(MouseButton::Left));
    assert!(!mouse.is_button_pressed(MouseButton::Right));
    assert!(!mouse.is_button_pressed(MouseButton::Middle));
    // The movement still reaches the position.
    assert_eq!(mouse.position(), (5, 0));
}

#[test]
fn release_follows_press() {
    let mut mouse = Mouse::default();
    feed_all(&mut mouse, &[0x09, 0, 0]);
    let events = feed_all(&mut mouse, &[0x08, 0, 0]);
    assert_eq!(events[2], Some(MouseEvent::ButtonReleased(MouseButton::Left)));
    assert!(!mouse.is_button_pressed(MouseButton::Left));
}

#[test]
fn one_button_edge_per_packet_in_priority_order() {
    let mut mouse = Mouse::default();
    let packet = [0x0F, 0, 0];
    assert_eq!(feed_all(&mut mouse, &packet)[2], Some(MouseEvent::ButtonPressed(MouseButton::Left)));
    assert!(!mouse.is_button_pressed(MouseButton::Right));
    assert_eq!(feed_all(&mut mouse, &packet)[2], Some(MouseEvent::ButtonPressed(MouseButton::Right)));
    assert_eq!(feed_all(&mut mouse, &packet)[2], Some(MouseEvent::ButtonPressed(MouseButton::Middle)));
    assert_eq!(feed_all(&mut mouse, &packet)[2], None);
    assert_eq!(feed_all(&mut mouse, &[0x08, 0, 0])[2], Some(MouseEvent::ButtonReleased(MouseButton::Left)));
    assert_eq!(feed_all(&mut mouse, &[0x08, 0, 0])[2], Some(MouseEvent::ButtonReleased(MouseButton::Right)));
    assert_eq!(feed_all(&mut mouse, &[0x08, 0, 0])[2], Some(MouseEvent::ButtonReleased(MouseButton::Middle)));
}

#[test]
fn unsigned_deltas_move_with_y_flipped() {
    let mut mouse = Mouse::default();
    let events = feed_all(&mut mouse, &[0x08, 3, 2]);
    assert_eq!(events[2], Some(MouseEvent::Move { delta_x: 3, delta_y: -2 }));
    assert_eq!(mouse.position(), (3, -2));
}

#[test]
fn sign_bits_extend_deltas() {
    let mut mouse = Mouse::default();
    assert_eq!(feed_all(&mut mouse, &[0x18, 0xFF, 0])[2], Some(MouseEvent::Move { delta_x: -1, delta_y: 0 }));
    assert_eq!(feed_all(&mut mouse, &[0x28, 0, 0xFE])[2], Some(MouseEvent::Move { delta_x: 0, delta_y: 2 }));
    assert_eq!(feed_all(&mut mouse, &[0x38, 0x00, 0x00])[2], Some(MouseEvent::Move { delta_x: -256, delta_y: 256 }));
    assert_eq!(mouse.position(), (-257, 258));
}

#[test]
fn unframed_packet_changes_nothing() {
    let mut mouse = Mouse::default();
    feed_all(&mut mouse, &[0x08, 7, 1]);
    assert_eq!(feed_all(&mut mouse, &[0x07, 100, 100]), vec![None, None, None]);
    assert_eq!(mouse.position(), (7, -1));
    assert!(!mouse.is_button_pressed(MouseButton::Left));
    assert!(!mouse.is_button_pressed(MouseButton::Right));
    assert!(!mouse.is_button_pressed(MouseButton::Middle));
    assert_eq!(mouse.fill_index(), 0);
}

#[test]
fn position_saturates_at_maximum() {
    let mut mouse = Mouse::default();
    let mut last = 0i16;
    for _ in 0..200 {
        feed_all(&mut mouse, &[0x28, 0xFF, 0x01]);
        let (x, y) = mouse.position();
        assert!(x >= last);
        assert_eq!(x, y);
        last = x;
    }
    assert_eq!(mouse.position(), (i16::MAX, i16::MAX));
    // A maximal packet at the bound still reports its movement.
    assert_eq!(feed_all(&mut mouse, &[0x28, 0xFF, 0x01])[2], Some(MouseEvent::Move { delta_x: 255, delta_y: 255 }));
    assert_eq!(mouse.position(), (i16::MAX, i16::MAX));
}

#[test]
fn position_saturates_at_minimum() {
    let mut mouse = Mouse::default();
    for _ in 0..200 {
        feed_all(&mut mouse, &[0x18, 0x00, 0x00]);
    }
    assert_eq!(mouse.position(), (i16::MIN, 0));
}

#[test]
fn three_byte_packet_round_trip() {
    let mut mouse = Mouse::default();
    assert_eq!(mouse.packet_size(), 3);
    assert_eq!(mouse.fill_index(), 0);
    assert_eq!(mouse.feed_byte(0x08), None);
    assert_eq!(mouse.fill_index(), 1);
    assert_eq!(mouse.feed_byte(1), None);
    assert_eq!(mouse.fill_index(), 2);
    assert_eq!(mouse.feed_byte(0), Some(MouseEvent::Move { delta_x: 1, delta_y: 0 }));
    assert_eq!(mouse.fill_index(), 0);
    // The next byte starts a new packet.
    assert_eq!(mouse.feed_byte(0x08), None);
    assert_eq!(mouse.fill_index(), 1);
}

#[test]
fn default_mouse_is_idle() {
    let mouse = Mouse::default();
    assert_eq!(mouse.position(), (0, 0));
    assert!(!mouse.has_wheel());
    assert!(!mouse.is_button_pressed(MouseButton::Left));
}
