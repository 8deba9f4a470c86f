use viravis::serial::get_data;

#[test]
fn serial_line_mirrors_and_hex_encodes() {
    let line = get_data(&vec![0, 1000, 128_499, 999_000_000]);
    assert_eq!(line, "[ff,80,01,00,00,01,80,ff]");
}

#[test]
fn serial_line_rounds_half_up_and_clamps() {
    // 0.499 rounds down, 0.5 rounds up, anything at or above 255 units
    // saturates at ff.
    let line = get_data(&vec![499, 500, 255_000, 256_000]);
    assert_eq!(line, "[ff,ff,01,00,00,01,ff,ff]");
}

#[test]
fn serial_line_of_empty_frame() {
    assert_eq!(get_data(&Vec::new()), "[]");
}

#[test]
fn serial_line_uses_first_sixty_slots() {
    let frame: Vec<i64> = (0..100).map(|i| i * 1000).collect();
    let line = get_data(&frame);
    // 60 LEDs mirrored: 120 two-digit entries, comma separated, bracketed.
    assert_eq!(line.len(), 2 + 120 * 2 + 119);
    assert!(line.starts_with("[3b,3a,"));
    assert!(line.ends_with(",3a,3b]"));
}

#[test]
fn serial_line_of_single_slot() {
    assert_eq!(get_data(&vec![7_000]), "[07,07]");
}
