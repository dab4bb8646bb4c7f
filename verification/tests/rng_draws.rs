use hex_snake::rng::Pcg32RandomT;

#[test]
fn new_keeps_state_and_makes_increment_odd() {
    let g = Pcg32RandomT::new(42, 54);
    assert_eq!(g.parts(), (42, 109));
    let g = Pcg32RandomT::new(0, 0);
    assert_eq!(g.parts(), (0, 1));
    let g = Pcg32RandomT::new(u64::MAX, 0x8000_0000_0000_0000);
    assert_eq!(g.parts(), (u64::MAX, 1));
}

#[test]
fn from_parts_round_trips() {
    let g = Pcg32RandomT::from_parts(7, 9);
    assert_eq!(g.parts(), (7, 9));
}

#[test]
fn draws_match_the_formula() {
    let mut g = Pcg32RandomT::new(42, 54);
    let drawn: Vec<u32> = (0..6).map(|_| g.pcg32_random_r()).collect();
    assert_eq!(
        drawn,
        vec![0x0, 0xc855c84, 0xbde36a5, 0x49dd4da9, 0x92dc7b03, 0x44ceb1d]
    );
    assert_eq!(g.parts(), (0x16f931a858d99eec, 109));
}

#[test]
fn draws_wrap_on_overflow() {
    let mut g = Pcg32RandomT::new(u64::MAX, 0x8000_0000_0000_0000);
    let drawn: Vec<u32> = (0..3).map(|_| g.pcg32_random_r()).collect();
    assert_eq!(drawn, vec![4293918721, 1148350300, 4066408415]);
    assert_eq!(g.parts().0, 13091158554243499042);
}

#[test]
fn draws_from_zero_state() {
    let mut g = Pcg32RandomT::new(0, 0);
    let drawn: Vec<u32> = (0..4).map(|_| g.pcg32_random_r()).collect();
    assert_eq!(drawn, vec![0, 0, 0xE4C14788, 932996374]);
    assert_eq!(g.parts().0, 14678909342070756876);
}

#[test]
fn same_seed_gives_same_sequence() {
    let mut a = Pcg32RandomT::new(2022, 1);
    let mut b = Pcg32RandomT::new(2022, 1);
    for _ in 0..1000 {
        assert_eq!(a.pcg32_random_r(), b.pcg32_random_r());
    }
    assert_eq!(a.parts(), b.parts());
}

#[test]
fn bounded_by_power_of_two_never_redraws() {
    let mut g = Pcg32RandomT::new(42, 54);
    let drawn: Vec<u32> = (0..8).map(|_| g.bounded_rand(4)).collect();
    assert_eq!(drawn, vec![0, 0, 0, 1, 2, 0, 2, 1]);
    assert_eq!(g.parts().0, 11045951185263675234);
}

#[test]
fn bounded_redraws_a_rejected_candidate() {
    // The first word drawn is 0, whose candidate lies under the threshold of 6.
    let mut g = Pcg32RandomT::new(42, 54);
    let drawn: Vec<u32> = (0..8).map(|_| g.bounded_rand(6)).collect();
    assert_eq!(drawn, vec![0, 0, 1, 3, 0, 4, 1, 5]);
    assert_eq!(g.parts().0, 2258665964747500199);
}

#[test]
fn bounded_by_large_bounds() {
    let mut g = Pcg32RandomT::new(7, 1);
    let drawn: Vec<u32> = (0..6).map(|_| g.bounded_rand(3_000_000_000)).collect();
    assert_eq!(
        drawn,
        vec![2091167041, 449713182, 1632193196, 1119271311, 2933731052, 1734645174]
    );
    assert_eq!(g.parts().0, 14335932902629804655);

    let mut g = Pcg32RandomT::new(7, 1);
    let drawn: Vec<u32> = (0..6).map(|_| g.bounded_rand(0x8000_0001)).collect();
    assert_eq!(
        drawn,
        vec![321917235, 1528002973, 1168369400, 747991508, 2130044192, 1277796921]
    );
    assert_eq!(g.parts().0, 15830865076444731589);
}

#[test]
fn bounded_by_one_is_always_zero() {
    let mut g = Pcg32RandomT::new(99, 3);
    for _ in 0..100 {
        assert_eq!(g.bounded_rand(1), 0);
    }
}

#[test]
fn bounded_stays_below_its_bound() {
    let mut g = Pcg32RandomT::new(123456789, 1);
    for bound in [1u32, 2, 3, 4, 5, 7, 100, 1 << 31, u32::MAX] {
        for _ in 0..500 {
            assert!(g.bounded_rand(bound) < bound);
        }
    }
}

#[test]
fn bounded_is_close_to_uniform() {
    let mut g = Pcg32RandomT::new(123456789, 1);
    let mut counts = [0u32; 4];
    for _ in 0..4000 {
        counts[g.bounded_rand(4) as usize] += 1;
    }
    assert_eq!(counts, [962, 1015, 942, 1081]);

    let mut g = Pcg32RandomT::new(123456789, 1);
    let mut counts = [0u32; 3];
    for _ in 0..3000 {
        counts[g.bounded_rand(3) as usize] += 1;
    }
    assert_eq!(counts, [956, 978, 1066]);
    for c in counts {
        assert!((900..1100).contains(&c));
    }
}

#[test]
fn single_bit_states_permute_as_the_formula_says() {
    let mut g = Pcg32RandomT::new(1 << 27, 0);
    assert_eq!(g.pcg32_random_r(), 1);
    let mut g = Pcg32RandomT::new(1 << 59, 0);
    assert_eq!(g.pcg32_random_r(), 8192);
    assert_eq!(g.parts(), (0x6800000000000001, 1));
}

#[test]
fn reference_stream_of_the_seeded_generator() {
    // The state that the reference seeding procedure reaches from (42, 54).
    let mut g = Pcg32RandomT::from_parts(0x185706b82c2e03f8, 109);
    let drawn: Vec<u32> = (0..6).map(|_| g.pcg32_random_r()).collect();
    assert_eq!(
        drawn,
        vec![0xa15c02b7, 0x7b47f409, 0xba1d3330, 0x83d2f293, 0xbfa4784b, 0xcbed606e]
    );
}
