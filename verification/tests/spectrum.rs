use epicycles::pattern::radius_weight;
use epicycles::spectrum::{
    arrange, ascending, comes_before, sort_largest_first, without_constant, Harmonic, Policy,
};

fn harmonic(frequency: usize, weight: u32) -> Harmonic {
    Harmonic { frequency, weight }
}

#[test]
fn radius_weight_takes_what_is_not_negative_and_is_a_number() {
    for x in [0.0f32, f32::MIN_POSITIVE / 2.0, 1.0, 311.127, f32::MAX, f32::INFINITY] {
        assert_eq!(radius_weight(x.to_bits()), Some(x.to_bits()));
    }
    for x in [-0.0f32, -1.0, f32::MIN, f32::NEG_INFINITY, f32::NAN, -f32::NAN] {
        assert_eq!(radius_weight(x.to_bits()), None);
    }
    assert_eq!(radius_weight(0x7f80_0001), None);
    assert_eq!(radius_weight(u32::MAX), None);
}

#[test]
fn radius_weights_rank_as_the_radii_do() {
    let radii: [f32; 9] = [
        0.0,
        1.0e-40,
        f32::MIN_POSITIVE,
        0.5,
        1.0,
        1.000_000_1,
        220.0,
        f32::MAX,
        f32::INFINITY,
    ];
    for a in radii {
        for b in radii {
            let wa = radius_weight(a.to_bits()).unwrap();
            let wb = radius_weight(b.to_bits()).unwrap();
            assert_eq!(wa < wb, a < b);
            assert_eq!(wa == wb, a == b);
        }
    }
}

#[test]
fn comes_before_prefers_weight_then_lower_harmonic() {
    assert!(comes_before(&harmonic(5, 9), &harmonic(1, 3)));
    assert!(!comes_before(&harmonic(1, 3), &harmonic(5, 9)));
    assert!(comes_before(&harmonic(1, 3), &harmonic(5, 3)));
    assert!(!comes_before(&harmonic(5, 3), &harmonic(1, 3)));
    assert!(comes_before(&harmonic(2, 3), &harmonic(2, 3)));
}

#[test]
fn ascending_numbers_the_harmonics_from_zero() {
    assert_eq!(ascending(&Vec::new()), Vec::new());
    assert_eq!(
        ascending(&vec![7, 0, 7, 2]),
        vec![harmonic(0, 7), harmonic(1, 0), harmonic(2, 7), harmonic(3, 2)]
    );
}

#[test]
fn without_constant_drops_harmonic_zero_only() {
    assert_eq!(without_constant(&Vec::new()), Vec::new());
    assert_eq!(without_constant(&vec![harmonic(0, 4)]), Vec::new());
    assert_eq!(
        without_constant(&vec![harmonic(0, 7), harmonic(1, 0), harmonic(2, 7)]),
        vec![harmonic(1, 0), harmonic(2, 7)]
    );
    assert_eq!(
        without_constant(&vec![harmonic(3, 1), harmonic(0, 9), harmonic(1, 0), harmonic(0, 2)]),
        vec![harmonic(3, 1), harmonic(1, 0)]
    );
}

#[test]
fn sort_puts_the_largest_first_and_breaks_ties_by_harmonic() {
    assert_eq!(sort_largest_first(&Vec::new()), Vec::new());
    assert_eq!(sort_largest_first(&vec![harmonic(3, 1)]), vec![harmonic(3, 1)]);
    let chain = vec![
        harmonic(0, 5),
        harmonic(1, 9),
        harmonic(2, 5),
        harmonic(3, 0),
        harmonic(4, 9),
        harmonic(5, 7),
    ];
    assert_eq!(
        sort_largest_first(&chain),
        vec![
            harmonic(1, 9),
            harmonic(4, 9),
            harmonic(5, 7),
            harmonic(0, 5),
            harmonic(2, 5),
            harmonic(3, 0),
        ]
    );
}

#[test]
fn sort_does_not_depend_on_the_order_it_is_given() {
    let expected = vec![harmonic(2, 8), harmonic(6, 8), harmonic(1, 3), harmonic(4, 3), harmonic(0, 1)];
    let shuffled = vec![harmonic(4, 3), harmonic(0, 1), harmonic(6, 8), harmonic(1, 3), harmonic(2, 8)];
    let reversed: Vec<Harmonic> = expected.iter().rev().copied().collect();
    assert_eq!(sort_largest_first(&expected), expected);
    assert_eq!(sort_largest_first(&shuffled), expected);
    assert_eq!(sort_largest_first(&reversed), expected);
}

#[test]
fn sort_keeps_every_epicycle_as_often_as_it_came() {
    let chain = vec![harmonic(1, 2), harmonic(1, 2), harmonic(0, 2), harmonic(1, 3), harmonic(1, 2)];
    assert_eq!(
        sort_largest_first(&chain),
        vec![harmonic(1, 3), harmonic(0, 2), harmonic(1, 2), harmonic(1, 2), harmonic(1, 2)]
    );
}

#[test]
fn sort_agrees_with_a_stable_descending_sort() {
    let mut seed: u32 = 12345;
    for len in 0..40usize {
        let mut weights = Vec::new();
        for _ in 0..len {
            seed = seed.wrapping_mul(1_103_515_245).wrapping_add(12345);
            weights.push((seed >> 16) % 7);
        }
        let chain = ascending(&weights);
        let mut expected = chain.clone();
        expected.sort_by(|a, b| b.weight.cmp(&a.weight));
        assert_eq!(sort_largest_first(&chain), expected);
    }
}

#[test]
fn arrange_follows_the_policy() {
    let weights = vec![4, 9, 1, 9];
    let plain = Policy { centered: false, largest_first: false };
    let centered = Policy { centered: true, largest_first: false };
    let sorted = Policy { centered: false, largest_first: true };
    let both = Policy { centered: true, largest_first: true };
    assert_eq!(
        arrange(&weights, plain),
        vec![harmonic(0, 4), harmonic(1, 9), harmonic(2, 1), harmonic(3, 9)]
    );
    assert_eq!(
        arrange(&weights, centered),
        vec![harmonic(1, 9), harmonic(2, 1), harmonic(3, 9)]
    );
    assert_eq!(
        arrange(&weights, sorted),
        vec![harmonic(1, 9), harmonic(3, 9), harmonic(0, 4), harmonic(2, 1)]
    );
    assert_eq!(
        arrange(&weights, both),
        vec![harmonic(1, 9), harmonic(3, 9), harmonic(2, 1)]
    );
}

#[test]
fn arrange_of_nothing_is_nothing() {
    for centered in [false, true] {
        for largest_first in [false, true] {
            assert_eq!(arrange(&Vec::new(), Policy { centered, largest_first }), Vec::new());
        }
    }
}

#[test]
fn centering_the_analyzed_sequence_drops_its_first_epicycle() {
    for len in 1..10usize {
        let weights: Vec<u32> = (0..len as u32).map(|k| (k * 7 + 3) % 5).collect();
        let analyzed = ascending(&weights);
        assert_eq!(without_constant(&analyzed), analyzed[1..].to_vec());
        assert_eq!(
            arrange(&weights, Policy { centered: true, largest_first: false }),
            analyzed[1..].to_vec()
        );
    }
}

#[test]
fn order_does_not_change_what_the_chain_adds_up_to() {
    let weights = vec![4, 9, 1, 9, 0, 3, 3, 8];
    for centered in [false, true] {
        let sorted = arrange(&weights, Policy { centered, largest_first: true });
        let unsorted = arrange(&weights, Policy { centered, largest_first: false });
        let total = |chain: &Vec<Harmonic>| -> (u64, usize) {
            chain.iter().fold((0, 0), |(w, f), h| (w + h.weight as u64, f + h.frequency))
        };
        assert_eq!(total(&sorted), total(&unsorted));
        assert_eq!(sorted.len(), unsorted.len());
    }
}
