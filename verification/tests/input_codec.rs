use hex_snake::components::Direction;
use hex_snake::input::{
    decode, input, Keys, INPUT_DOWN_LEFT, INPUT_DOWN_RIGHT, INPUT_LEFT, INPUT_RIGHT,
    INPUT_UP_LEFT, INPUT_UP_RIGHT,
};

fn keys(up: bool, right: bool, down: bool, left: bool, brake: bool) -> Keys {
    Keys { up, right, down, left, brake }
}

#[test]
fn symbols_are_single_bits() {
    assert_eq!(INPUT_UP_RIGHT, 1 << 0);
    assert_eq!(INPUT_RIGHT, 1 << 1);
    assert_eq!(INPUT_DOWN_RIGHT, 1 << 2);
    assert_eq!(INPUT_DOWN_LEFT, 1 << 3);
    assert_eq!(INPUT_LEFT, 1 << 4);
    assert_eq!(INPUT_UP_LEFT, 1 << 5);
}

#[test]
fn each_chord_encodes_to_its_bit() {
    assert_eq!(input(0, keys(true, true, false, false, false)), INPUT_UP_RIGHT);
    assert_eq!(input(0, keys(false, true, false, false, false)), INPUT_RIGHT);
    assert_eq!(input(0, keys(false, true, true, false, false)), INPUT_DOWN_RIGHT);
    assert_eq!(input(0, keys(false, false, true, true, false)), INPUT_DOWN_LEFT);
    assert_eq!(input(0, keys(false, false, false, true, false)), INPUT_LEFT);
    assert_eq!(input(0, keys(true, false, false, true, false)), INPUT_UP_LEFT);
}

#[test]
fn each_chord_round_trips() {
    let chords = [
        (keys(true, true, false, false, false), Direction::UpRight),
        (keys(false, true, false, false, false), Direction::Right),
        (keys(false, true, true, false, false), Direction::DownRight),
        (keys(false, false, true, true, false), Direction::DownLeft),
        (keys(false, false, false, true, false), Direction::Left),
        (keys(true, false, false, true, false), Direction::UpLeft),
    ];
    for (k, d) in chords {
        for current in [Direction::Neutral, Direction::Left, Direction::UpRight] {
            assert_eq!(decode(input(1, k), current), d);
            let braked = Keys { brake: true, ..k };
            assert_eq!(decode(input(1, braked), current), d);
        }
    }
}

#[test]
fn vertical_keys_and_brake_encode_to_zero() {
    assert_eq!(input(0, keys(true, false, false, false, false)), 0);
    assert_eq!(input(0, keys(false, false, true, false, false)), 0);
    assert_eq!(input(0, keys(true, false, true, false, false)), 0);
    assert_eq!(input(0, keys(false, false, false, false, true)), 0);
    assert_eq!(input(0, keys(false, false, false, false, false)), 0);
    assert_eq!(input(0, keys(true, true, true, true, false)), 0);
    assert_eq!(input(0, keys(true, true, true, false, false)), 0);
    assert_eq!(input(0, keys(false, true, false, true, false)), 0);
}

#[test]
fn every_key_state_encodes_to_zero_or_one_bit() {
    for bits in 0u8..32 {
        let k = keys(bits & 1 != 0, bits & 2 != 0, bits & 4 != 0, bits & 8 != 0, bits & 16 != 0);
        let symbol = input(0, k);
        assert!(symbol == 0 || (symbol.count_ones() == 1 && symbol < 64));
        assert_eq!(symbol, input(1, Keys { brake: !k.brake, ..k }));
    }
}

#[test]
fn zero_and_invalid_symbols_keep_the_facing() {
    for current in [
        Direction::UpRight,
        Direction::Right,
        Direction::DownRight,
        Direction::DownLeft,
        Direction::Left,
        Direction::UpLeft,
        Direction::Neutral,
    ] {
        assert_eq!(decode(0, current), current);
        assert_eq!(decode(3, current), current);
        assert_eq!(decode(64, current), current);
        assert_eq!(decode(128, current), current);
        assert_eq!(decode(255, current), current);
        assert_eq!(decode(INPUT_LEFT | INPUT_RIGHT, current), current);
    }
}

#[test]
fn every_symbol_decodes_by_the_table() {
    for symbol in 0u8..=255 {
        let expected = match symbol {
            1 => Direction::UpRight,
            2 => Direction::Right,
            4 => Direction::DownRight,
            8 => Direction::DownLeft,
            16 => Direction::Left,
            32 => Direction::UpLeft,
            _ => Direction::Neutral,
        };
        assert_eq!(decode(symbol, Direction::Neutral), expected);
    }
}

#[test]
fn default_direction_is_neutral() {
    assert_eq!(Direction::default(), Direction::Neutral);
}
