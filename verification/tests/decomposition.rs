use tfhe::decomposition::decomposer::SignedDecomposer;
use tfhe::decomposition::iter::{decompose_one_level, SignedDecompositionIter};
use tfhe::decomposition::term::DecompositionTerm;
use tfhe::parameters::{DecompositionBaseLog, DecompositionLevel, DecompositionLevelCount};

fn signed32(word: u32) -> i64 {
    (word as i32) as i64
}

fn distance32(a: u32, b: u32) -> u32 {
    a.wrapping_sub(b).min(b.wrapping_sub(a))
}

fn distance64(a: u64, b: u64) -> u64 {
    a.wrapping_sub(b).min(b.wrapping_sub(a))
}

fn levels_and_values<T: tfhe::numeric::UnsignedInteger>(
    terms: &[DecompositionTerm<T>],
) -> Vec<(usize, T)> {
    terms.iter().map(|t| (t.level().0, t.value())).collect()
}

#[test]
fn decomposer_scenario_recomposes_within_half_of_the_last_level() {
    let decomposer =
        SignedDecomposer::<u32>::new(DecompositionBaseLog(4), DecompositionLevelCount(3));
    let val = 1_340_987_234_u32;
    let terms = decomposer.decompose(val).collect();
    assert_eq!(terms.len(), 3);
    let mut recomposed: i64 = 0;
    for term in terms.iter() {
        recomposed += signed32(term.value()) << (32 - 4 * term.level().0);
    }
    assert!((val as i64 - recomposed).abs() < (1i64 << (32 - 12 - 1)));
    let again = decomposer.decompose(val).collect();
    assert_eq!(levels_and_values(&terms), levels_and_values(&again));
    assert_eq!(levels_and_values(&terms), vec![(3, 0xffff_ffff), (2, 0), (1, 5)]);
}

#[test]
fn closest_representable_rounds_to_the_nearest_multiple() {
    let decomposer =
        SignedDecomposer::<u32>::new(DecompositionBaseLog(4), DecompositionLevelCount(3));
    assert_eq!(decomposer.closest_representable(1_340_987_234), 1_341_128_704);
    assert_eq!(decomposer.closest_representable(0x4ff0_0000), 0x4ff0_0000);
    assert_eq!(decomposer.closest_representable(0x0007_ffff), 0);
    // Half-way between two multiples goes up.
    assert_eq!(decomposer.closest_representable(0x0008_0000), 0x0010_0000);
    // Rounding up from the top of the range wraps to zero.
    assert_eq!(decomposer.closest_representable(0xffff_ffff), 0);
    assert_eq!(decomposer.base_log().0, 4);
    assert_eq!(decomposer.level_count().0, 3);
}

#[test]
fn closest_representable_keeps_everything_when_no_bit_is_dropped() {
    let decomposer =
        SignedDecomposer::<u32>::new(DecompositionBaseLog(8), DecompositionLevelCount(4));
    assert_eq!(decomposer.closest_representable(0xdead_beef), 0xdead_beef);
    let nothing = SignedDecomposer::<u32>::new(DecompositionBaseLog(4), DecompositionLevelCount(0));
    assert_eq!(nothing.closest_representable(0xffff_ffff), 0);
    assert_eq!(nothing.closest_representable(12345), 0);
}

#[test]
fn recompose_gives_the_closest_representable() {
    let decomposer =
        SignedDecomposer::<u32>::new(DecompositionBaseLog(4), DecompositionLevelCount(3));
    let mut x: u32 = 1;
    for _ in 0..2000 {
        x = x.wrapping_mul(1_664_525).wrapping_add(1_013_904_223);
        let closest = decomposer.closest_representable(x);
        let recomposed = decomposer.recompose(decomposer.decompose(x)).unwrap();
        assert_eq!(recomposed, closest);
        assert!(distance32(x, recomposed) <= 1 << 19);
        if x & 0x000f_ffff != 0x0008_0000 {
            assert!(distance32(x, recomposed) < 1 << 19);
        }
    }
    // Half-way between two representable scalars the distance is exactly half.
    let tie = 1u32 << 19;
    let recomposed = decomposer.recompose(decomposer.decompose(tie)).unwrap();
    assert_eq!(recomposed, 1 << 20);
    assert_eq!(distance32(tie, recomposed), 1 << 19);
}

#[test]
fn recompose_round_trips_on_64_bits() {
    for (base_log, level_count) in [(1usize, 1usize), (2, 8), (7, 5), (8, 8), (32, 2), (23, 1)] {
        let decomposer = SignedDecomposer::<u64>::new(
            DecompositionBaseLog(base_log),
            DecompositionLevelCount(level_count),
        );
        let low_bits = 64 - base_log * level_count;
        let mut x: u64 = 0x9e37_79b9_7f4a_7c15;
        for _ in 0..300 {
            x = x.wrapping_mul(6_364_136_223_846_793_005).wrapping_add(1_442_695_040_888_963_407);
            let recomposed = decomposer.recompose(decomposer.decompose(x)).unwrap();
            assert_eq!(recomposed, decomposer.closest_representable(x));
            if low_bits == 0 {
                assert_eq!(recomposed, x);
            } else {
                assert!(distance64(x, recomposed) <= 1 << (low_bits - 1));
            }
        }
    }
}

#[test]
fn recompose_refuses_an_iterator_that_is_not_fresh() {
    let decomposer =
        SignedDecomposer::<u32>::new(DecompositionBaseLog(4), DecompositionLevelCount(3));
    let mut iter = decomposer.decompose(77);
    assert!(iter.is_fresh());
    let _ = iter.next();
    assert!(!iter.is_fresh());
    assert!(decomposer.recompose(iter).is_none());
    // Asking an empty decomposition for a term uses it up as well.
    let nothing = SignedDecomposer::<u32>::new(DecompositionBaseLog(4), DecompositionLevelCount(0));
    assert_eq!(nothing.recompose(nothing.decompose(77)), Some(0));
    let mut used = nothing.decompose(77);
    assert!(used.next().is_none());
    assert!(nothing.recompose(used).is_none());
}

#[test]
fn iterator_truncates_the_low_bits() {
    let mut iter = SignedDecompositionIter::<u32>::new(
        1_340_987_234_u32,
        DecompositionBaseLog(4),
        DecompositionLevelCount(3),
    );
    assert!(iter.is_fresh());
    assert_eq!(iter.base_log(), DecompositionBaseLog(4));
    assert_eq!(iter.level_count(), DecompositionLevelCount(3));
    let first = iter.next().unwrap();
    assert!(!iter.is_fresh());
    assert_eq!((first.level().0, first.value()), (3, 0xffff_fffe));
    let second = iter.next().unwrap();
    assert_eq!((second.level().0, second.value()), (2, 0));
    let third = iter.next().unwrap();
    assert_eq!((third.level().0, third.value()), (1, 5));
    assert!(iter.next().is_none());
    assert!(iter.next().is_none());
    assert_eq!(iter.level_count(), DecompositionLevelCount(3));
}

#[test]
fn iterator_recomposition_clears_the_low_bits() {
    let decomposer =
        SignedDecomposer::<u32>::new(DecompositionBaseLog(4), DecompositionLevelCount(3));
    for x in [0u32, 1, 0x000f_ffff, 0x0010_0000, 1_340_987_234, 0xffff_ffff, 0x8000_0000] {
        let iter =
            SignedDecompositionIter::new(x, DecompositionBaseLog(4), DecompositionLevelCount(3));
        assert_eq!(decomposer.recompose(iter), Some(x & 0xfff0_0000));
    }
}

#[test]
fn digits_are_balanced() {
    for (base_log, level_count) in [(1usize, 5usize), (3, 7), (4, 8), (16, 2), (31, 1)] {
        let half = 1i64 << (base_log - 1);
        let mut x: u32 = 7;
        for _ in 0..500 {
            x = x.wrapping_mul(1_664_525).wrapping_add(1_013_904_223);
            let terms = SignedDecompositionIter::new(
                x,
                DecompositionBaseLog(base_log),
                DecompositionLevelCount(level_count),
            )
            .collect();
            assert_eq!(terms.len(), level_count);
            for term in terms.iter() {
                assert!(-half <= signed32(term.value()) && signed32(term.value()) <= half);
            }
        }
    }
}

#[test]
fn terms_come_from_the_highest_level_down() {
    let terms = SignedDecompositionIter::<u64>::new(
        0x8123_4567_89ab_cdef,
        DecompositionBaseLog(8),
        DecompositionLevelCount(8),
    )
    .collect();
    assert_eq!(
        levels_and_values(&terms),
        vec![
            (8, 18446744073709551599),
            (7, 18446744073709551566),
            (6, 18446744073709551532),
            (5, 18446744073709551498),
            (4, 104),
            (3, 69),
            (2, 35),
            (1, 18446744073709551489),
        ]
    );
    assert_eq!(terms.first().unwrap().level(), DecompositionLevel(8));
    assert_eq!(terms.last().unwrap().level(), DecompositionLevel(1));
}

#[test]
fn two_decompositions_of_one_scalar_agree() {
    let mut x: u64 = 99;
    for _ in 0..200 {
        x = x.wrapping_mul(6_364_136_223_846_793_005).wrapping_add(1_442_695_040_888_963_407);
        let first =
            SignedDecompositionIter::new(x, DecompositionBaseLog(5), DecompositionLevelCount(9))
                .collect();
        let second =
            SignedDecompositionIter::new(x, DecompositionBaseLog(5), DecompositionLevelCount(9))
                .collect();
        assert_eq!(levels_and_values(&first), levels_and_values(&second));
    }
}

#[test]
fn collect_gives_what_is_left() {
    let mut iter = SignedDecompositionIter::<u32>::new(
        1_340_987_234,
        DecompositionBaseLog(4),
        DecompositionLevelCount(3),
    );
    let _ = iter.next();
    assert_eq!(levels_and_values(&iter.collect()), vec![(2, 0), (1, 5)]);
}

#[test]
fn a_decomposition_without_levels_yields_nothing() {
    let mut iter = SignedDecompositionIter::<u32>::new(
        12345,
        DecompositionBaseLog(4),
        DecompositionLevelCount(0),
    );
    assert!(iter.is_fresh());
    assert!(iter.next().is_none());
    assert!(!iter.is_fresh());
    let wide = SignedDecompositionIter::<u32>::new(
        12345,
        DecompositionBaseLog(40),
        DecompositionLevelCount(0),
    );
    assert!(wide.collect().is_empty());
}

#[test]
fn a_base_of_the_whole_word_keeps_the_word() {
    for x in [0x8000_0000u32, 0xdead_beef, 0x7fff_ffff, 0] {
        let terms =
            SignedDecompositionIter::new(x, DecompositionBaseLog(32), DecompositionLevelCount(1))
                .collect();
        assert_eq!(levels_and_values(&terms), vec![(1, x)]);
    }
    let terms = SignedDecompositionIter::<u64>::new(
        0x8000_0000_0000_0001,
        DecompositionBaseLog(64),
        DecompositionLevelCount(1),
    )
    .collect();
    assert_eq!(levels_and_values(&terms), vec![(1, 0x8000_0000_0000_0001)]);
}

#[test]
fn a_base_of_two_has_digits_of_one_bit() {
    let terms = SignedDecompositionIter::<u32>::new(
        0b1011 << 28,
        DecompositionBaseLog(1),
        DecompositionLevelCount(4),
    )
    .collect();
    assert_eq!(
        levels_and_values(&terms),
        vec![(4, 0xffff_ffff), (3, 0), (2, 0xffff_ffff), (1, 0)]
    );
}

#[test]
fn one_level_rounds_with_a_carry() {
    let mut state: u32 = 0x4fe;
    let digit = decompose_one_level(4, &mut state, 0xf);
    assert_eq!(digit, 0xffff_fffe);
    assert_eq!(state, 0x50);
    // A residue of exactly half the base carries when the next digit is in
    // the upper half of its range, and only then.
    let mut state: u32 = 0x88;
    assert_eq!(decompose_one_level(4, &mut state, 0xf), 0xffff_fff8);
    assert_eq!(state, 9);
    let mut state: u32 = 0x78;
    assert_eq!(decompose_one_level(4, &mut state, 0xf), 8);
    assert_eq!(state, 7);
    let mut state: u64 = 0;
    assert_eq!(decompose_one_level(4, &mut state, 0xf), 0);
    assert_eq!(state, 0);
    let mut state: u64 = u64::MAX;
    assert_eq!(decompose_one_level(4, &mut state, 0xf), u64::MAX);
    assert_eq!(state, 0x1000_0000_0000_0000);
}

#[test]
fn a_term_weighs_its_digit_by_its_level() {
    let term = DecompositionTerm::new(DecompositionLevel(1), DecompositionBaseLog(4), 5u32);
    assert_eq!(term.to_recomposition_summand(), 5 << 28);
    let term = DecompositionTerm::new(DecompositionLevel(3), DecompositionBaseLog(4), 0xffff_fffeu32);
    assert_eq!(term.to_recomposition_summand(), 0xffe0_0000);
    assert_eq!(term.value(), 0xffff_fffe);
    assert_eq!(term.level(), DecompositionLevel(3));
    let term = DecompositionTerm::new(DecompositionLevel(8), DecompositionBaseLog(8), 3u64);
    assert_eq!(term.to_recomposition_summand(), 3);
    let term = DecompositionTerm::new(DecompositionLevel(0), DecompositionBaseLog(8), 3u64);
    assert_eq!(term.to_recomposition_summand(), 0);
}
