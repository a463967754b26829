use hcms_display::display::Hcms;
use hcms_display::font::FONT5X7;
use hcms_display::wire::{Line, Signal};

/// Bytes taken by the display: the data level at each rising clock edge,
/// eight bits per byte, most significant first.
fn clocked_bytes(wire: &[Signal]) -> Vec<u8> {
    let mut data = false;
    let mut bits = Vec::new();
    for s in wire {
        match s {
            Signal::High(Line::Data) => data = true,
            Signal::Low(Line::Data) => data = false,
            Signal::High(Line::Clock) => bits.push(data),
            _ => {}
        }
    }
    assert_eq!(bits.len() % 8, 0);
    bits.chunks(8)
        .map(|c| c.iter().fold(0u8, |acc, b| acc * 2 + (*b as u8)))
        .collect()
}

fn glyph(c: u8) -> Vec<u8> {
    let start = (c as usize - 32) * 5;
    FONT5X7[start..start + 5].to_vec()
}

/// The shown dot columns, read back from a load of the dot register.
fn shown_dots(display: &Hcms) -> Vec<u8> {
    let mut wire = Vec::new();
    display.load_dot_register(&mut wire);
    assert_eq!(wire.first(), Some(&Signal::Low(Line::RegisterSelect)));
    assert_eq!(wire.last(), Some(&Signal::High(Line::Enable)));
    clocked_bytes(&wire)
}

fn text_dots(text: &[u8]) -> Vec<u8> {
    text.iter().flat_map(|c| glyph(*c)).collect()
}

#[test]
fn shift_out_sends_msb_first() {
    let display = Hcms::new_display(4);
    let mut wire = Vec::new();
    display.shift_out(0b1010_0001, &mut wire);
    let mut expected = Vec::new();
    for bit in [true, false, true, false, false, false, false, true] {
        expected.push(if bit { Signal::High(Line::Data) } else { Signal::Low(Line::Data) });
        expected.push(Signal::High(Line::Clock));
        expected.push(Signal::Low(Line::Clock));
    }
    assert_eq!(wire, expected);
}

#[test]
fn shift_out_round_trips_every_byte() {
    let display = Hcms::new_display(4);
    for value in 0..=255u8 {
        let mut wire = Vec::new();
        display.shift_out(value, &mut wire);
        assert_eq!(wire.len(), 24);
        assert_eq!(clocked_bytes(&wire), vec![value]);
    }
}

#[test]
fn new_display_is_dark_and_clamped() {
    let display = Hcms::new_display(4);
    assert_eq!(shown_dots(&display), vec![0u8; 20]);
    assert_eq!(display.get_cursor(), 0);
    assert_eq!(display.get_string_length(), 0);
    assert_eq!(display.get_string_in_u8(), [b' '; 37]);

    let long = Hcms::new_display(40);
    assert_eq!(shown_dots(&long).len(), 160);
    let exact = Hcms::new_display(32);
    assert_eq!(shown_dots(&exact).len(), 160);
    let empty = Hcms::new_display(0);
    assert_eq!(shown_dots(&empty).len(), 0);
}

#[test]
fn begin_resets_loads_and_sets_full_brightness() {
    let display = Hcms::new_display(8);
    let mut wire = Vec::new();
    display.begin(&mut wire);
    assert_eq!(
        wire[..5].to_vec(),
        vec![
            Signal::Low(Line::Reset),
            Signal::DelayMs(10),
            Signal::High(Line::Reset),
            Signal::Low(Line::RegisterSelect),
            Signal::Low(Line::Clock),
        ]
    );
    let mut expected = vec![0u8; 40];
    // Two chips: two simultaneous-mode words, the word, the serial-mode word.
    expected.extend([0x81, 0x81, 0x7F, 0x80]);
    assert_eq!(clocked_bytes(&wire), expected);
}

#[test]
fn set_brightness_limits_to_fifteen() {
    let display = Hcms::new_display(4);
    let mut wire = Vec::new();
    display.set_brightness(2, &mut wire);
    assert_eq!(clocked_bytes(&wire), vec![0x81, 0x72, 0x80]);
    let mut wire = Vec::new();
    display.set_brightness(15, &mut wire);
    assert_eq!(clocked_bytes(&wire), vec![0x81, 0x7F, 0x80]);
    let mut wire = Vec::new();
    display.set_brightness(200, &mut wire);
    assert_eq!(clocked_bytes(&wire), vec![0x81, 0x7F, 0x80]);
}

#[test]
fn control_words_are_framed_with_register_select_high() {
    let display = Hcms::new_display(3);
    let mut wire = Vec::new();
    display.load_all_control_registers(0x55, &mut wire);
    // Fewer than four characters: no chip counted, so no simultaneous-mode word.
    assert_eq!(clocked_bytes(&wire), vec![0x55, 0x80]);
    assert_eq!(wire[0], Signal::High(Line::RegisterSelect));
    assert_eq!(wire[1], Signal::Low(Line::Enable));
    assert_eq!(wire[26], Signal::High(Line::Enable));
    assert_eq!(wire.len(), 54);
}

#[test]
fn write_character_draws_five_columns() {
    let mut display = Hcms::new_display(4);
    display.write_character('A', 2);
    let mut expected = vec![0u8; 10];
    expected.extend([0x7E, 0x11, 0x11, 0x11, 0x7E]);
    expected.extend(vec![0u8; 5]);
    assert_eq!(shown_dots(&display), expected);
    display.write_character('~', 24);
    // Position 24 lies beyond the four shown characters.
    assert_eq!(shown_dots(&display), expected);
}

#[test]
fn write_character_uses_code_cut_to_sixteen_bits() {
    let mut a = Hcms::new_display(1);
    a.write_character('\u{10041}', 0);
    assert_eq!(shown_dots(&a), glyph(b'A'));
}

#[test]
fn write_advances_cursor_and_stops_at_the_end() {
    let mut display = Hcms::new_display(2);
    let mut wire = Vec::new();
    display.write('h', &mut wire);
    assert_eq!(display.get_cursor(), 1);
    assert_eq!(clocked_bytes(&wire), [glyph(b'h'), vec![0u8; 5]].concat());
    let mut wire = Vec::new();
    display.write('i', &mut wire);
    assert_eq!(display.get_cursor(), 2);
    assert_eq!(clocked_bytes(&wire), text_dots(b"hi"));
    // Off the display: nothing happens.
    let mut wire = Vec::new();
    display.write('!', &mut wire);
    assert_eq!(display.get_cursor(), 2);
    assert!(wire.is_empty());
    assert_eq!(shown_dots(&display), text_dots(b"hi"));
}

#[test]
fn home_puts_cursor_at_zero() {
    let mut display = Hcms::new_display(4);
    let mut wire = Vec::new();
    display.write('x', &mut wire);
    display.write('y', &mut wire);
    assert_eq!(display.get_cursor(), 2);
    display.home();
    assert_eq!(display.get_cursor(), 0);
    display.write('z', &mut wire);
    assert_eq!(shown_dots(&display), [text_dots(b"zy"), vec![0u8; 10]].concat());
}

#[test]
fn clear_blanks_the_display() {
    let mut display = Hcms::new_display(4);
    let mut wire = Vec::new();
    display.write('W', &mut wire);
    display.write('#', &mut wire);
    let mut wire = Vec::new();
    display.clear(&mut wire);
    assert_eq!(clocked_bytes(&wire), vec![0u8; 20]);
    assert_eq!(display.get_cursor(), 2);
}

#[test]
fn set_string_pads_with_zero_bytes() {
    let mut display = Hcms::new_display(4);
    display.set_string("hi there");
    let mut expected = [0u8; 37];
    expected[..8].copy_from_slice(b"hi there");
    assert_eq!(display.get_string_in_u8(), expected);
    // The space is not counted.
    assert_eq!(display.get_string_length(), 7);
    display.set_string("");
    assert_eq!(display.get_string_in_u8(), [0u8; 37]);
    assert_eq!(display.get_string_length(), 0);
}

#[test]
fn set_string_takes_utf8_bytes() {
    let mut display = Hcms::new_display(4);
    display.set_string("é!");
    let text = display.get_string_in_u8();
    assert_eq!(&text[..3], &[0xC3, 0xA9, b'!']);
    assert_eq!(display.get_string_length(), 3);
    let full = "0123456789012345678901234567890123456";
    display.set_string(full);
    assert_eq!(display.get_string_in_u8().to_vec(), full.as_bytes().to_vec());
}

#[test]
fn show_display_length_worth_right_aligns() {
    let mut display = Hcms::new_display(4);
    let mut wire = Vec::new();
    display.show_display_length_worth("123", &mut wire);
    assert_eq!(display.get_cursor(), 1);
    assert_eq!(clocked_bytes(&wire), [glyph(b' '), text_dots(b"123")].concat());
    let mut wire = Vec::new();
    display.show_display_length_worth("123456", &mut wire);
    assert_eq!(display.get_cursor(), -2);
    assert_eq!(clocked_bytes(&wire), text_dots(b"3456"));
}

#[test]
fn show_twice_gives_the_same_display() {
    let mut display = Hcms::new_display(5);
    let mut first = Vec::new();
    display.show_display_length_worth("42", &mut first);
    let mut second = Vec::new();
    display.show_display_length_worth("42", &mut second);
    assert_eq!(first, second);
    assert_eq!(display.get_cursor(), 3);
}

#[test]
fn scroll_moves_the_text() {
    let mut display = Hcms::new_display(4);
    let mut wire = Vec::new();
    display.show_display_length_worth("12", &mut wire);
    assert_eq!(display.get_cursor(), 2);
    let before = shown_dots(&display);
    let mut wire = Vec::new();
    display.scroll(true, &mut wire);
    assert_eq!(display.get_cursor(), 3);
    assert_eq!(clocked_bytes(&wire), [vec![0u8; 15], glyph(b'1')].concat());
    let mut wire = Vec::new();
    display.scroll(false, &mut wire);
    assert_eq!(display.get_cursor(), 2);
    assert_eq!(clocked_bytes(&wire), before);
    let mut wire = Vec::new();
    display.scroll(false, &mut wire);
    display.scroll(false, &mut wire);
    display.scroll(false, &mut wire);
    assert_eq!(display.get_cursor(), -1);
    assert_eq!(shown_dots(&display), [glyph(b'2'), vec![0u8; 15]].concat());
}

#[test]
fn scroll_shows_text_set_with_set_string() {
    let mut display = Hcms::new_display(3);
    display.set_string("abc");
    display.home();
    let mut wire = Vec::new();
    display.scroll(false, &mut wire);
    assert_eq!(display.get_cursor(), -1);
    assert_eq!(clocked_bytes(&wire), [text_dots(b"bc"), glyph(b' ')].concat());
}

#[test]
fn show_reading_shows_decimal_and_sets_led() {
    let mut display = Hcms::new_display(4);
    let mut wire = Vec::new();
    assert!(display.show_reading(250, &mut wire));
    assert_eq!(clocked_bytes(&wire), [glyph(b' '), text_dots(b"250")].concat());
    let mut wire = Vec::new();
    assert!(!display.show_reading(100, &mut wire));
    assert_eq!(clocked_bytes(&wire), [glyph(b' '), text_dots(b"100")].concat());
    let mut wire = Vec::new();
    assert!(!display.show_reading(0, &mut wire));
    assert_eq!(display.get_cursor(), 3);
    assert_eq!(clocked_bytes(&wire), [vec![0u8; 15], glyph(b'0')].concat());
    let mut wire = Vec::new();
    assert!(display.show_reading(65535, &mut wire));
    assert_eq!(display.get_cursor(), -1);
    assert_eq!(clocked_bytes(&wire), text_dots(b"5535"));
    assert!(display.show_reading(101, &mut Vec::new()));
    let mut text = [0u8; 37];
    text[..3].copy_from_slice(b"101");
    assert_eq!(display.get_string_in_u8(), text);
}
