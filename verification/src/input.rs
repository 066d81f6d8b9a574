//! Keyboard translation into terminal input bytes.

use vstd::prelude::*;
use vstd::utf8::{
    encode_scalar, has_width_1_encoding, has_width_2_encoding, has_width_3_encoding,
    leading_byte_width_1, leading_byte_width_2, leading_byte_width_3, leading_byte_width_4,
    last_continuation_byte, second_last_continuation_byte, third_last_continuation_byte,
};

verus! {

/// A key of the keyboard, as far as terminal input translation tells keys
/// apart.
#[derive(Clone, Copy, Debug, PartialEq, Eq, Structural)]
pub enum Key {
    A,
    B,
    C,
    D,
    E,
    F,
    G,
    H,
    I,
    J,
    K,
    L,
    M,
    N,
    O,
    P,
    Q,
    R,
    S,
    T,
    U,
    V,
    W,
    X,
    Y,
    Z,
    Return,
    Back,
    Tab,
    Escape,
    Left,
    Right,
    Up,
    Down,
    /// Any other key.
    Other,
}

/// The letter keys in alphabetical order.
pub open spec fn alphabet() -> Seq<Key> {
    seq![
        Key::A, Key::B, Key::C, Key::D, Key::E, Key::F, Key::G, Key::H, Key::I, Key::J, Key::K,
        Key::L, Key::M, Key::N, Key::O, Key::P, Key::Q, Key::R, Key::S, Key::T, Key::U, Key::V,
        Key::W, Key::X, Key::Y, Key::Z,
    ]
}

/// The ASCII control byte that Ctrl and `key` produce: the key's place in the
/// alphabet, counting from 1, for a letter key.
pub open spec fn ctrl_letter_spec(key: Key) -> Option<u8> {
    if alphabet().contains(key) {
        Some((alphabet().index_of(key) + 1) as u8)
    } else {
        None
    }
}

/// The bytes that `key` sends without Ctrl, for the keys that send any.
pub open spec fn plain_key_sequence(key: Key) -> Option<Seq<u8>> {
    match key {
        Key::Return => Some(seq![0x0du8]),
        Key::Back => Some(seq![0x7fu8]),
        Key::Tab => Some(seq![0x09u8]),
        Key::Escape => Some(seq![0x1bu8]),
        Key::Left => Some(seq![0x1bu8, 0x5bu8, 0x44u8]),
        Key::Right => Some(seq![0x1bu8, 0x5bu8, 0x43u8]),
        Key::Up => Some(seq![0x1bu8, 0x5bu8, 0x41u8]),
        Key::Down => Some(seq![0x1bu8, 0x5bu8, 0x42u8]),
        _ => None,
    }
}

/// The bytes that a key press sends: nothing without a key; with Ctrl, the
/// control byte of a letter key; otherwise the sequence of a named key.
pub open spec fn key_sequence(key: Option<Key>, ctrl: bool) -> Option<Seq<u8>> {
    match key {
        None => None,
        Some(k) => if ctrl {
            match ctrl_letter_spec(k) {
                Some(b) => Some(seq![b]),
                None => None,
            }
        } else {
            plain_key_sequence(k)
        },
    }
}

/// The view of an optional byte vector.
pub open spec fn bytes_view(bytes: Option<Vec<u8>>) -> Option<Seq<u8>> {
    match bytes {
        Some(v) => Some(v@),
        None => None,
    }
}

/// Converts a key press into terminal input bytes.
///
/// Printable text is handled separately, as received characters; this only
/// maps control combinations and non-printable keys such as arrows. `key` is
/// `None` when the platform reported no key code.
pub fn key_bytes(key: Option<Key>, ctrl: bool) -> (r: Option<Vec<u8>>)
    ensures
        bytes_view(r) == key_sequence(key, ctrl),
{
    let key = match key {
        Some(k) => k,
        None => return None,
    };
    if ctrl {
        return ctrl_key_bytes(key);
    }
    let sequence: Vec<u8> = match key {
        Key::Return => vec![0x0d],
        Key::Back => vec![0x7f],
        Key::Tab => vec![0x09],
        Key::Escape => vec![0x1b],
        Key::Left => vec![0x1b, 0x5b, 0x44],
        Key::Right => vec![0x1b, 0x5b, 0x43],
        Key::Up => vec![0x1b, 0x5b, 0x41],
        Key::Down => vec![0x1b, 0x5b, 0x42],
        _ => return None,
    };
    proof {
        assert(sequence@ =~= plain_key_sequence(key).unwrap());
    }
    Some(sequence)
}

/// Maps Ctrl+A through Ctrl+Z into ASCII control bytes.
pub fn ctrl_key_bytes(key: Key) -> (r: Option<Vec<u8>>)
    ensures
        bytes_view(r) == key_sequence(Some(key), true),
{
    match ctrl_letter_byte(key) {
        Some(byte) => {
            let v = vec![byte];
            proof {
                assert(v@ =~= seq![byte]);
            }
            Some(v)
        },
        None => None,
    }
}

proof fn lemma_alphabet_position(key: Key, n: int)
    requires
        0 <= n < 26,
        alphabet()[n] == key,
    ensures
        ctrl_letter_spec(key) == Some((n + 1) as u8),
{
    assert(alphabet().len() == 26);
    assert(alphabet().contains(key));
    let i = alphabet().index_of(key);
    assert(alphabet()[i] == key);
    assert forall|a: int, b: int| 0 <= a < b < 26 implies alphabet()[a] != alphabet()[b] by {}
}

/// Converts a letter key to its Ctrl-modified ASCII control byte.
pub fn ctrl_letter_byte(key: Key) -> (r: Option<u8>)
    ensures
        r == ctrl_letter_spec(key),
        r matches Some(b) ==> 1 <= b <= 26,
{
    let n: u8 = match key {
        Key::A => 0,
        Key::B => 1,
        Key::C => 2,
        Key::D => 3,
        Key::E => 4,
        Key::F => 5,
        Key::G => 6,
        Key::H => 7,
        Key::I => 8,
        Key::J => 9,
        Key::K => 10,
        Key::L => 11,
        Key::M => 12,
        Key::N => 13,
        Key::O => 14,
        Key::P => 15,
        Key::Q => 16,
        Key::R => 17,
        Key::S => 18,
        Key::T => 19,
        Key::U => 20,
        Key::V => 21,
        Key::W => 22,
        Key::X => 23,
        Key::Y => 24,
        Key::Z => 25,
        _ => {
            proof {
                assert forall|i: int| 0 <= i < 26 implies alphabet()[i] != key by {}
                assert(!alphabet().contains(key));
            }
            return None;
        },
    };
    proof {
        lemma_alphabet_position(key, n as int);
    }
    Some(n + 1)
}

/// The UTF-8 encoding of one character.
pub fn encode_char(c: char) -> (r: Vec<u8>)
    ensures
        r@ == encode_scalar(c as u32),
{
    let v = c as u32;
    if v <= 0x7F {
        let out = vec![(v & 0x7F) as u8];
        proof {
            assert(out@ =~= seq![leading_byte_width_1(v)]);
        }
        out
    } else if v <= 0x7FF {
        let out = vec![0xC0u8 | ((v >> 6) & 0x1F) as u8, 0x80u8 | (v & 0x3F) as u8];
        proof {
            assert(has_width_2_encoding(v));
            assert(out@ =~= seq![leading_byte_width_2(v), last_continuation_byte(v)]);
        }
        out
    } else if v <= 0xFFFF {
        let out = vec![
            0xE0u8 | ((v >> 12) & 0x0F) as u8,
            0x80u8 | ((v >> 6) & 0x3F) as u8,
            0x80u8 | (v & 0x3F) as u8,
        ];
        proof {
            vstd::utf8::char_is_scalar(c);
            assert(has_width_3_encoding(v));
            assert(out@ =~= seq![
                leading_byte_width_3(v),
                second_last_continuation_byte(v),
                last_continuation_byte(v),
            ]);
        }
        out
    } else {
        let out = vec![
            0xF0u8 | ((v >> 18) & 0x7) as u8,
            0x80u8 | ((v >> 12) & 0x3F) as u8,
            0x80u8 | ((v >> 6) & 0x3F) as u8,
            0x80u8 | (v & 0x3F) as u8,
        ];
        proof {
            vstd::utf8::char_is_scalar(c);
            assert(!has_width_1_encoding(v) && !has_width_2_encoding(v) && !has_width_3_encoding(v));
            assert(out@ =~= seq![
                leading_byte_width_4(v),
                third_last_continuation_byte(v),
                second_last_continuation_byte(v),
                last_continuation_byte(v),
            ]);
        }
        out
    }
}

/// Without Ctrl a letter key sends nothing: its text arrives as a received
/// character instead.
pub proof fn lemma_letters_need_ctrl(key: Key)
    requires
        alphabet().contains(key),
    ensures
        key_sequence(Some(key), false) is None,
{
    let i = choose|i: int| 0 <= i < alphabet().len() && alphabet()[i] == key;
    assert(alphabet().len() == 26);
}

/// With Ctrl held, only letter keys send anything.
pub proof fn lemma_ctrl_only_letters(key: Key)
    requires
        !alphabet().contains(key),
    ensures
        key_sequence(Some(key), true) is None,
{
}

/// Different letter keys give different control bytes.
pub proof fn lemma_ctrl_letters_distinct(a: Key, b: Key)
    requires
        alphabet().contains(a),
        alphabet().contains(b),
        a != b,
    ensures
        ctrl_letter_spec(a) != ctrl_letter_spec(b),
{
    let i = alphabet().index_of(a);
    let j = alphabet().index_of(b);
    assert(alphabet()[i] == a);
    assert(alphabet()[j] == b);
    assert(alphabet().len() == 26);
}

} // verus!
