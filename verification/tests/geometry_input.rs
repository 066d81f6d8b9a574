use ulti::geometry::{terminal_size_for_window, TerminalSize};
use ulti::input::{ctrl_key_bytes, ctrl_letter_byte, encode_char, key_bytes, Key};

#[test]
fn window_size_converts_to_cells_after_padding() {
    assert_eq!(
        terminal_size_for_window(100, 60),
        TerminalSize { rows: 2, cols: 8, pixel_width: 100, pixel_height: 60 }
    );
    assert_eq!(
        terminal_size_for_window(924, 600),
        TerminalSize { rows: 32, cols: 100, pixel_width: 924, pixel_height: 600 }
    );
}

#[test]
fn tiny_window_still_has_one_cell() {
    assert_eq!(
        terminal_size_for_window(0, 0),
        TerminalSize { rows: 1, cols: 1, pixel_width: 0, pixel_height: 0 }
    );
    assert_eq!(
        terminal_size_for_window(30, 20),
        TerminalSize { rows: 1, cols: 1, pixel_width: 30, pixel_height: 20 }
    );
}

#[test]
fn huge_window_is_capped_to_pty_range() {
    assert_eq!(
        terminal_size_for_window(1_000_000, 2_000_000),
        TerminalSize { rows: 65535, cols: 65535, pixel_width: 65535, pixel_height: 65535 }
    );
    assert_eq!(
        terminal_size_for_window(u32::MAX, 70_000),
        TerminalSize { rows: 3887, cols: 65535, pixel_width: 65535, pixel_height: 65535 }
    );
}

#[test]
fn named_keys_send_their_sequences() {
    assert_eq!(key_bytes(Some(Key::Return), false), Some(b"\r".to_vec()));
    assert_eq!(key_bytes(Some(Key::Back), false), Some(b"\x7f".to_vec()));
    assert_eq!(key_bytes(Some(Key::Tab), false), Some(b"\t".to_vec()));
    assert_eq!(key_bytes(Some(Key::Escape), false), Some(b"\x1b".to_vec()));
    assert_eq!(key_bytes(Some(Key::Left), false), Some(b"\x1b[D".to_vec()));
    assert_eq!(key_bytes(Some(Key::Right), false), Some(b"\x1b[C".to_vec()));
    assert_eq!(key_bytes(Some(Key::Up), false), Some(b"\x1b[A".to_vec()));
    assert_eq!(key_bytes(Some(Key::Down), false), Some(b"\x1b[B".to_vec()));
}

#[test]
fn printable_and_unknown_keys_send_nothing_without_ctrl() {
    assert_eq!(key_bytes(Some(Key::A), false), None);
    assert_eq!(key_bytes(Some(Key::Other), false), None);
    assert_eq!(key_bytes(None, false), None);
    assert_eq!(key_bytes(None, true), None);
}

#[test]
fn ctrl_letters_send_control_bytes() {
    assert_eq!(key_bytes(Some(Key::A), true), Some(vec![1]));
    assert_eq!(key_bytes(Some(Key::C), true), Some(vec![3]));
    assert_eq!(key_bytes(Some(Key::Z), true), Some(vec![26]));
    assert_eq!(ctrl_key_bytes(Key::D), Some(vec![4]));
    assert_eq!(ctrl_letter_byte(Key::M), Some(13));
}

#[test]
fn ctrl_with_other_keys_sends_nothing() {
    assert_eq!(key_bytes(Some(Key::Return), true), None);
    assert_eq!(key_bytes(Some(Key::Left), true), None);
    assert_eq!(ctrl_letter_byte(Key::Other), None);
}

#[test]
fn every_letter_maps_to_its_alphabet_position() {
    let letters = [
        Key::A, Key::B, Key::C, Key::D, Key::E, Key::F, Key::G, Key::H, Key::I, Key::J, Key::K,
        Key::L, Key::M, Key::N, Key::O, Key::P, Key::Q, Key::R, Key::S, Key::T, Key::U, Key::V,
        Key::W, Key::X, Key::Y, Key::Z,
    ];
    for (index, letter) in letters.iter().enumerate() {
        assert_eq!(ctrl_letter_byte(*letter), Some(index as u8 + 1));
    }
}

#[test]
fn characters_encode_as_utf8() {
    for c in ['a', '\u{7f}', '\u{80}', 'é', '\u{7ff}', '\u{800}', '界', '\u{ffff}', '\u{10000}', '🦀', '\u{10ffff}'] {
        let mut buffer = [0u8; 4];
        let expected = c.encode_utf8(&mut buffer).as_bytes().to_vec();
        assert_eq!(encode_char(c), expected);
    }
}
