use hex_snake::components::{Hex, WorldSize};
use hex_snake::map::generate_map;
use hex_snake::session::{id_number, session_seed};

#[test]
fn map_of_half_width_zero_is_one_tile() {
    assert_eq!(generate_map(WorldSize(0)), vec![Hex { q: 0, r: 0 }]);
}

#[test]
fn map_of_half_width_one_is_seven_tiles_in_order() {
    let tiles: Vec<(i64, i64)> = generate_map(WorldSize(1)).iter().map(|h| (h.q, h.r)).collect();
    assert_eq!(
        tiles,
        vec![(-1, 0), (-1, 1), (0, -1), (0, 0), (0, 1), (1, -1), (1, 0)]
    );
}

#[test]
fn map_of_half_width_four_has_sixty_one_tiles() {
    let map = generate_map(WorldSize(4));
    assert_eq!(map.len(), 61);
    for h in &map {
        assert!(h.q.abs() <= 4 && h.r.abs() <= 4 && (h.q + h.r).abs() <= 4);
    }
    assert_eq!(map[0], Hex { q: -4, r: 0 });
    assert_eq!(map[60], Hex { q: 4, r: 0 });
    for pair in map.windows(2) {
        assert!((pair[0].q, pair[0].r) < (pair[1].q, pair[1].r));
    }
}

#[test]
fn id_number_reads_the_digits_and_skips_the_rest() {
    assert_eq!(id_number(b"12345"), Some(12345));
    assert_eq!(id_number(b"a1b2-c3"), Some(123));
    assert_eq!(id_number(b"007"), Some(7));
    assert_eq!(id_number(b"0"), Some(0));
    assert_eq!(
        id_number(b"3f2a9c1e-77b0-4d6e-9a55-0c1d2e3f4a5b"),
        Some(329177046955012345)
    );
}

#[test]
fn id_number_wants_a_digit() {
    assert_eq!(id_number(b""), None);
    assert_eq!(id_number(b"abc-def"), None);
}

#[test]
fn id_number_stops_at_128_bits() {
    assert_eq!(
        id_number(b"340282366920938463463374607431768211455"),
        Some(u128::MAX)
    );
    assert_eq!(id_number(b"340282366920938463463374607431768211456"), None);
    assert_eq!(id_number(b"9999999999999999999999999999999999999999"), None);
    assert_eq!(id_number(b"3402823669209384634633746074317682114550"), None);
}

#[test]
fn session_seed_multiplies_the_low_words() {
    assert_eq!(session_seed(3, 5), 15);
    assert_eq!(session_seed(0, 99), 0);
    assert_eq!(session_seed(1 << 64, 7), 0);
    assert_eq!(session_seed((1 << 64) + 2, (5 << 64) + 9), 18);
    assert_eq!(session_seed(u64::MAX as u128, 2), u64::MAX - 1);
    assert_eq!(
        session_seed(329177046955012345, 987654321987654321),
        329177046955012345u64.wrapping_mul(987654321987654321)
    );
}

#[test]
fn session_seed_is_the_same_on_both_peers() {
    let a = id_number(b"3f2a9c1e-77b0-4d6e-9a55-0c1d2e3f4a5b").unwrap();
    let b = id_number(b"91d0e6aa-0b13-4c8f-8e21-5d7a6c9b0f11").unwrap();
    assert_eq!(session_seed(a, b), session_seed(b, a));
}
