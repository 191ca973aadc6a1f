use system_monitor::usage::{format_percent, CpuUsage};

fn sample(percent: f32) -> CpuUsage {
    CpuUsage::from_bits(percent.to_bits())
}

#[test]
fn zero_has_one_decimal() {
    assert_eq!(format_percent(sample(0.0)), "0.0");
}

#[test]
fn twelve_point_three_four_five_rounds_down() {
    assert_eq!(format_percent(sample(12.345)), "12.3");
}

#[test]
fn halves_round_to_even() {
    assert_eq!(format_percent(sample(0.25)), "0.2");
    assert_eq!(format_percent(sample(0.75)), "0.8");
    assert_eq!(format_percent(sample(0.125)), "0.1");
    assert_eq!(format_percent(sample(2.5)), "2.5");
    assert_eq!(format_percent(sample(0.05)), "0.1");
    assert_eq!(format_percent(sample(0.04)), "0.0");
}

#[test]
fn carries_into_the_whole_part() {
    assert_eq!(format_percent(sample(9.96)), "10.0");
    assert_eq!(format_percent(sample(99.95)), "99.9");
    assert_eq!(format_percent(sample(99.96)), "100.0");
    assert_eq!(format_percent(sample(100.0)), "100.0");
    assert_eq!(format_percent(sample(250.5)), "250.5");
}

#[test]
fn negative_samples_keep_their_sign() {
    assert_eq!(format_percent(sample(-1.25)), "-1.2");
    assert_eq!(format_percent(sample(-0.0)), "-0.0");
    assert_eq!(format_percent(sample(-0.01)), "-0.0");
}

#[test]
fn non_finite_samples() {
    assert_eq!(format_percent(sample(f32::NAN)), "NaN");
    assert_eq!(format_percent(sample(-f32::NAN)), "NaN");
    assert_eq!(format_percent(sample(f32::INFINITY)), "inf");
    assert_eq!(format_percent(sample(f32::NEG_INFINITY)), "-inf");
}

#[test]
fn extremes_are_written_in_full() {
    assert_eq!(
        format_percent(sample(f32::MAX)),
        "340282346638528859811704183484516925440.0"
    );
    assert_eq!(format_percent(sample(f32::MIN_POSITIVE)), "0.0");
    assert_eq!(format_percent(CpuUsage::from_bits(1)), "0.0");
    assert_eq!(format_percent(sample(16_777_216.0)), "16777216.0");
    assert_eq!(format_percent(sample(8_388_607.5)), "8388607.5");
}

#[test]
fn agrees_with_fixed_point_display_on_a_grid() {
    let mut percent: f32 = -20.0;
    while percent < 220.0 {
        assert_eq!(format_percent(sample(percent)), format!("{:.1}", percent));
        percent += 0.0137;
    }
}

#[test]
fn agrees_with_fixed_point_display_across_bit_patterns() {
    let mut bits: u32 = 0;
    loop {
        let expected = format!("{:.1}", f32::from_bits(bits));
        assert_eq!(format_percent(CpuUsage::from_bits(bits)), expected);
        match bits.checked_add(999_983) {
            Some(next) => bits = next,
            None => break,
        }
    }
}

#[test]
fn agrees_with_fixed_point_display_next_to_halves() {
    for tenth in 0..2000u32 {
        let half = (tenth as f32) / 10.0 + 0.05;
        let bits = half.to_bits();
        for pattern in [bits - 2, bits - 1, bits, bits + 1, bits + 2] {
            let expected = format!("{:.1}", f32::from_bits(pattern));
            assert_eq!(format_percent(CpuUsage::from_bits(pattern)), expected);
        }
    }
}

#[test]
fn ranking_key_orders_samples_by_value() {
    let ascending = [
        f32::NEG_INFINITY,
        -100.0,
        -1.0e-40,
        0.0,
        1.0e-40,
        0.1,
        50.0,
        90.0,
        f32::MAX,
        f32::INFINITY,
    ];
    for low in 0..ascending.len() {
        for high in 0..ascending.len() {
            let below = sample(ascending[low]).ranking_key();
            let above = sample(ascending[high]).ranking_key();
            assert_eq!(below < above, ascending[low] < ascending[high]);
            assert_eq!(below == above, ascending[low] == ascending[high]);
        }
    }
}

#[test]
fn both_zeros_rank_alike() {
    assert_eq!(sample(0.0).ranking_key(), sample(-0.0).ranking_key());
}

#[test]
fn not_a_number_ranks_below_every_number() {
    let nan = sample(f32::NAN).ranking_key();
    assert!(nan < sample(f32::NEG_INFINITY).ranking_key());
    assert!(nan < sample(0.0).ranking_key());
    assert_eq!(nan, sample(-f32::NAN).ranking_key());
    assert_eq!(nan, CpuUsage::from_bits(0x7fc0_0001).ranking_key());
}
