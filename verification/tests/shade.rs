use plato::fixed::ONE;
use plato::shade::{glyph_index, intensity_glyph, ramp_glyph, RAMP_LEN};

#[test]
fn no_light_maps_to_the_sparsest_glyph() {
    assert_eq!(glyph_index(0), 0);
    assert_eq!(intensity_glyph(0), ' ');
}

#[test]
fn full_light_maps_to_the_densest_glyph() {
    assert_eq!(glyph_index(ONE), RAMP_LEN - 1);
    assert_eq!(intensity_glyph(ONE), '@');
}

#[test]
fn intensity_below_zero_behaves_like_zero() {
    assert_eq!(intensity_glyph(-500_000), intensity_glyph(0));
    assert_eq!(intensity_glyph(i32::MIN), ' ');
}

#[test]
fn intensity_above_one_behaves_like_one() {
    assert_eq!(intensity_glyph(1_500_000), intensity_glyph(ONE));
    assert_eq!(intensity_glyph(i32::MAX), '@');
}

#[test]
fn ramp_runs_from_sparse_to_dense() {
    let expected = [' ', '.', ',', ':', ';', '-', '=', '+', '*', '#', '%', '@'];
    for (i, glyph) in expected.iter().enumerate() {
        assert_eq!(ramp_glyph(i), *glyph);
    }
}

#[test]
fn intensity_spreads_evenly_over_the_ramp() {
    assert_eq!(glyph_index(500_000), 6);
    assert_eq!(intensity_glyph(500_000), '=');
    assert_eq!(glyph_index(45_454), 0);
    assert_eq!(glyph_index(45_455), 1);
    assert_eq!(glyph_index(136_363), 1);
    assert_eq!(glyph_index(136_364), 2);
    assert_eq!(glyph_index(954_545), 10);
    assert_eq!(glyph_index(954_546), 11);
}

#[test]
fn a_brighter_edge_never_gets_a_sparser_glyph() {
    let mut last = 0;
    let mut intensity = -100_000;
    while intensity <= 1_100_000 {
        let now = glyph_index(intensity);
        assert!(now >= last && now < RAMP_LEN);
        last = now;
        intensity += 1_013;
    }
    assert_eq!(last, RAMP_LEN - 1);
}
