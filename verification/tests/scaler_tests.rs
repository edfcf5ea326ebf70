use orderbook_engine::decimal::{Decimal, MAX_SCALE};
use orderbook_engine::scaler::{OffGrid, Policy, ScaleError, Scaler, HALF_GRANULE, TOLERANCE_UNIT};

fn dec(mantissa: i64, scale: u8) -> Decimal {
    Decimal::new(mantissa, scale).unwrap()
}

fn cents() -> Scaler {
    Scaler::new(dec(1, 2), dec(1, 4)).unwrap()
}

#[test]
fn decimal_keeps_mantissa_and_scale() {
    let d = dec(-1250, 2);
    assert_eq!(d.mantissa(), -1250);
    assert_eq!(d.scale(), 2);
    assert_eq!(Decimal::from_int(7).mantissa(), 7);
    assert_eq!(Decimal::from_int(7).scale(), 0);
    assert_eq!(d.with_mantissa(3), dec(3, 2));
}

#[test]
fn decimal_refuses_a_scale_beyond_the_limit() {
    assert_eq!(MAX_SCALE, 18);
    assert!(Decimal::new(1, 18).is_some());
    assert!(Decimal::new(1, 19).is_none());
    assert!(Decimal::new(0, 255).is_none());
}

#[test]
fn same_value_looks_through_trailing_zeros() {
    assert!(dec(1250, 2).same_value(&dec(125, 1)));
    assert!(dec(125, 1).same_value(&dec(12_500_000, 6)));
    assert!(dec(0, 0).same_value(&dec(0, 18)));
    assert!(!dec(1250, 2).same_value(&dec(1251, 2)));
    assert!(!dec(1, 0).same_value(&dec(1, 1)));
    assert!(!dec(5, 0).same_value(&dec(-5, 0)));
    assert!(dec(i64::MAX, 18).same_value(&dec(i64::MAX, 18)));
    assert!(!dec(i64::MAX, 0).same_value(&dec(i64::MAX, 18)));
}

#[test]
fn granularity_must_be_above_zero() {
    assert_eq!(Scaler::new(dec(0, 2), dec(1, 4)).err(), Some(ScaleError::InvalidGranularity));
    assert_eq!(Scaler::new(dec(1, 2), dec(0, 0)).err(), Some(ScaleError::InvalidGranularity));
    assert_eq!(Scaler::new(dec(-1, 2), dec(1, 4)).err(), Some(ScaleError::InvalidGranularity));
    assert_eq!(Scaler::new(dec(1, 2), dec(-5, 4)).err(), Some(ScaleError::InvalidGranularity));
    assert_eq!(
        Scaler::with_policy(dec(0, 0), dec(0, 0), Policy::floor()).err(),
        Some(ScaleError::InvalidGranularity)
    );
    assert!(Scaler::new(dec(1, 18), dec(i64::MAX, 0)).is_ok());
}

#[test]
fn scaler_reports_its_configuration() {
    let scaler = Scaler::with_policy(dec(5, 1), dec(25, 3), Policy::exact()).unwrap();
    assert_eq!(scaler.tick_size(), dec(5, 1));
    assert_eq!(scaler.step_size(), dec(25, 3));
    assert_eq!(scaler.policy(), Policy::exact());
    assert_eq!(cents().policy(), Policy::nearest());
}

#[test]
fn ten_at_a_cent_tick_is_a_thousand_ticks() {
    let scaler = cents();
    assert_eq!(scaler.price_to_ticks(&dec(1000, 2)), Ok(1000));
    assert_eq!(scaler.price_to_ticks(&dec(10, 0)), Ok(1000));
    assert_eq!(scaler.price_to_ticks(&dec(100_000, 4)), Ok(1000));
    assert_eq!(scaler.qty_to_ticks(&dec(10, 1)), Ok(10_000));
    assert_eq!(scaler.qty_to_ticks(&dec(0, 1)), Ok(0));
    assert_eq!(scaler.price_to_ticks(&dec(-1000, 2)), Ok(-1000));
}

#[test]
fn multiples_come_back_unchanged() {
    for policy in [Policy::nearest(), Policy::floor(), Policy::exact()] {
        let scaler = Scaler::with_policy(dec(25, 2), dec(5, 4), policy).unwrap();
        for mantissa in [-975i64, -25, 0, 25, 50, 1_000_000_025] {
            let price = dec(mantissa, 2);
            let ticks = scaler.price_to_ticks(&price).unwrap();
            assert_eq!(ticks, mantissa / 25);
            let back = scaler.ticks_to_price(ticks).unwrap();
            assert!(back.same_value(&price));
            assert_eq!(back, price);
        }
        // The same price written with another scale comes back as the same number.
        let price = dec(7_500, 3);
        let back = scaler.ticks_to_price(scaler.price_to_ticks(&price).unwrap()).unwrap();
        assert_eq!(back, dec(750, 2));
        assert!(back.same_value(&price));
        let qty = dec(15, 3);
        let back = scaler.ticks_to_qty(scaler.qty_to_ticks(&qty).unwrap()).unwrap();
        assert_eq!(back, dec(150, 4));
        assert!(back.same_value(&qty));
    }
}

#[test]
fn nearest_rounds_halves_away_from_zero() {
    let scaler = cents();
    assert_eq!(scaler.price_to_ticks(&dec(10_004, 3)), Ok(1000));
    assert_eq!(scaler.price_to_ticks(&dec(10_005, 3)), Ok(1001));
    assert_eq!(scaler.price_to_ticks(&dec(10_006, 3)), Ok(1001));
    assert_eq!(scaler.price_to_ticks(&dec(15, 3)), Ok(2));
    assert_eq!(scaler.price_to_ticks(&dec(25, 3)), Ok(3));
    assert_eq!(scaler.price_to_ticks(&dec(4, 3)), Ok(0));
    assert_eq!(scaler.price_to_ticks(&dec(-4, 3)), Ok(0));
    assert_eq!(scaler.price_to_ticks(&dec(-5, 3)), Ok(-1));
    assert_eq!(scaler.price_to_ticks(&dec(-15, 3)), Ok(-2));
    assert_eq!(scaler.price_to_ticks(&dec(-10_004, 3)), Ok(-1000));
    assert_eq!(scaler.price_to_ticks(&dec(-10_005, 3)), Ok(-1001));
}

#[test]
fn floor_takes_the_next_multiple_downwards() {
    let scaler = Scaler::with_policy(dec(1, 2), dec(1, 4), Policy::floor()).unwrap();
    assert_eq!(scaler.price_to_ticks(&dec(10_009, 3)), Ok(1000));
    assert_eq!(scaler.price_to_ticks(&dec(10_010, 3)), Ok(1001));
    assert_eq!(scaler.price_to_ticks(&dec(9, 3)), Ok(0));
    assert_eq!(scaler.price_to_ticks(&dec(-1, 3)), Ok(-1));
    assert_eq!(scaler.price_to_ticks(&dec(-10, 3)), Ok(-1));
    assert_eq!(scaler.price_to_ticks(&dec(-11, 3)), Ok(-2));
    assert_eq!(scaler.qty_to_ticks(&dec(19_999, 8)), Ok(1));
}

#[test]
fn exact_refuses_what_is_off_the_grid() {
    let scaler = Scaler::with_policy(dec(1, 2), dec(1, 4), Policy::exact()).unwrap();
    assert_eq!(scaler.price_to_ticks(&dec(10_000, 3)), Ok(1000));
    assert_eq!(scaler.price_to_ticks(&dec(10_001, 3)), Err(ScaleError::UnscalableValue));
    assert_eq!(scaler.price_to_ticks(&dec(-10_001, 3)), Err(ScaleError::UnscalableValue));
    assert_eq!(scaler.qty_to_ticks(&dec(1, 5)), Err(ScaleError::UnscalableValue));
    assert_eq!(scaler.qty_to_ticks(&dec(10, 5)), Ok(1));
}

#[test]
fn a_granule_other_than_a_power_of_ten() {
    let scaler = Scaler::new(dec(25, 2), dec(3, 0)).unwrap();
    assert_eq!(scaler.price_to_ticks(&dec(100, 2)), Ok(4));
    assert_eq!(scaler.price_to_ticks(&dec(112, 2)), Ok(4));
    assert_eq!(scaler.price_to_ticks(&dec(1125, 3)), Ok(5));
    assert_eq!(scaler.price_to_ticks(&dec(113, 2)), Ok(5));
    assert_eq!(scaler.qty_to_ticks(&dec(4, 0)), Ok(1));
    assert_eq!(scaler.qty_to_ticks(&dec(45, 1)), Ok(2));
    assert_eq!(scaler.qty_to_ticks(&dec(-45, 1)), Ok(-2));
    assert_eq!(scaler.ticks_to_price(5), Ok(dec(125, 2)));
    assert_eq!(scaler.ticks_to_qty(-2), Ok(dec(-6, 0)));
}

#[test]
fn a_tick_beyond_64_bits_is_unscalable() {
    let scaler = cents();
    assert_eq!(scaler.price_to_ticks(&dec(i64::MAX, 0)), Err(ScaleError::UnscalableValue));
    assert_eq!(scaler.price_to_ticks(&dec(i64::MIN, 0)), Err(ScaleError::UnscalableValue));
    assert_eq!(scaler.price_to_ticks(&dec(i64::MAX, 2)), Ok(i64::MAX));
    assert_eq!(scaler.price_to_ticks(&dec(i64::MIN, 2)), Ok(i64::MIN));
    let finest = Scaler::new(dec(1, 18), dec(1, 18)).unwrap();
    assert_eq!(finest.price_to_ticks(&dec(i64::MAX, 18)), Ok(i64::MAX));
    assert_eq!(finest.price_to_ticks(&dec(10, 0)), Err(ScaleError::UnscalableValue));
    assert_eq!(finest.price_to_ticks(&dec(9, 0)), Ok(9_000_000_000_000_000_000));
    let coarse = Scaler::new(dec(i64::MAX, 0), dec(1, 0)).unwrap();
    assert_eq!(coarse.price_to_ticks(&dec(1, 18)), Ok(0));
    assert_eq!(coarse.price_to_ticks(&dec(i64::MAX, 0)), Ok(1));
    assert_eq!(coarse.price_to_ticks(&dec(i64::MIN, 0)), Ok(-1));
}

#[test]
fn ticks_to_decimal_multiplies_exactly() {
    let scaler = cents();
    assert_eq!(scaler.ticks_to_price(1000), Ok(dec(1000, 2)));
    assert_eq!(scaler.ticks_to_price(-3), Ok(dec(-3, 2)));
    assert_eq!(scaler.ticks_to_qty(10_000), Ok(dec(10_000, 4)));
    assert_eq!(scaler.ticks_to_qty(0), Ok(dec(0, 4)));
    assert_eq!(scaler.ticks_to_price(i64::MAX), Ok(dec(i64::MAX, 2)));
}

#[test]
fn a_decimal_beyond_64_bits_is_unscalable() {
    let scaler = Scaler::new(dec(3, 2), dec(2, 0)).unwrap();
    assert_eq!(scaler.ticks_to_price(i64::MAX), Err(ScaleError::UnscalableValue));
    assert_eq!(scaler.ticks_to_price(i64::MAX / 3), Ok(dec(i64::MAX / 3 * 3, 2)));
    assert_eq!(scaler.ticks_to_price(i64::MAX / 3 + 1), Err(ScaleError::UnscalableValue));
    assert_eq!(scaler.ticks_to_qty(i64::MIN / 2), Ok(dec(i64::MIN, 0)));
    assert_eq!(scaler.ticks_to_qty(i64::MIN / 2 - 1), Err(ScaleError::UnscalableValue));
}

#[test]
fn levels_convert_together_or_not_at_all() {
    let scaler = Scaler::with_policy(dec(1, 2), dec(1, 4), Policy::exact()).unwrap();
    let good = vec![(dec(1000, 2), dec(1, 0)), (dec(999, 2), dec(25, 1))];
    assert_eq!(scaler.levels_to_ticks(&good), Ok(vec![(1000, 10_000), (999, 25_000)]));
    assert_eq!(scaler.levels_to_ticks(&vec![]), Ok(vec![]));
    let bad_price = vec![(dec(1000, 2), dec(1, 0)), (dec(9_995, 3), dec(1, 0))];
    assert_eq!(scaler.levels_to_ticks(&bad_price), Err(ScaleError::UnscalableValue));
    let bad_qty = vec![(dec(1000, 2), dec(1, 5))];
    assert_eq!(scaler.levels_to_ticks(&bad_qty), Err(ScaleError::UnscalableValue));
}

#[test]
fn tick_levels_convert_back_together_or_not_at_all() {
    let scaler = Scaler::new(dec(5, 1), dec(1, 3)).unwrap();
    assert_eq!(
        scaler.ticks_to_levels(&vec![(20, 1500), (-1, 0)]),
        Ok(vec![(dec(100, 1), dec(1500, 3)), (dec(-5, 1), dec(0, 3))])
    );
    assert_eq!(scaler.ticks_to_levels(&vec![]), Ok(vec![]));
    assert_eq!(
        scaler.ticks_to_levels(&vec![(20, 1500), (i64::MAX, 1)]),
        Err(ScaleError::UnscalableValue)
    );
}

#[test]
fn named_policies_are_what_they_say() {
    assert_eq!(TOLERANCE_UNIT, 1_000_000_000);
    assert_eq!(HALF_GRANULE, 500_000_000);
    assert_eq!(Policy::nearest(), Policy { tolerance: HALF_GRANULE, off_grid: OffGrid::Reject });
    assert_eq!(Policy::exact(), Policy { tolerance: 0, off_grid: OffGrid::Reject });
    assert_eq!(Policy::floor(), Policy { tolerance: 0, off_grid: OffGrid::Floor });
}

#[test]
fn value_within_the_tolerance_goes_to_the_nearest_tick() {
    // A thousandth of a granule.
    let policy = Policy { tolerance: 1_000_000, off_grid: OffGrid::Reject };
    let scaler = Scaler::with_policy(dec(1, 2), dec(1, 4), policy).unwrap();
    assert_eq!(scaler.price_to_ticks(&dec(1_000_000, 5)), Ok(1000));
    assert_eq!(scaler.price_to_ticks(&dec(1_000_001, 5)), Ok(1000));
    assert_eq!(scaler.price_to_ticks(&dec(1_000_999, 5)), Ok(1001));
    assert_eq!(scaler.price_to_ticks(&dec(-1_000_001, 5)), Ok(-1000));
    assert_eq!(scaler.price_to_ticks(&dec(-1_000_999, 5)), Ok(-1001));
    assert_eq!(scaler.qty_to_ticks(&dec(20_000_001, 11)), Ok(2));
}

#[test]
fn value_outside_the_tolerance_is_rejected_or_floored() {
    let reject = Policy { tolerance: 1_000_000, off_grid: OffGrid::Reject };
    let scaler = Scaler::with_policy(dec(1, 2), dec(1, 4), reject).unwrap();
    assert_eq!(scaler.price_to_ticks(&dec(1_000_002, 5)), Err(ScaleError::UnscalableValue));
    assert_eq!(scaler.price_to_ticks(&dec(1_000_998, 5)), Err(ScaleError::UnscalableValue));
    assert_eq!(scaler.price_to_ticks(&dec(1_000_500, 5)), Err(ScaleError::UnscalableValue));
    assert_eq!(scaler.price_to_ticks(&dec(-1_000_002, 5)), Err(ScaleError::UnscalableValue));
    assert_eq!(scaler.qty_to_ticks(&dec(2_001, 7)), Ok(2));
    assert_eq!(scaler.qty_to_ticks(&dec(2_002, 7)), Err(ScaleError::UnscalableValue));

    let floor = Policy { tolerance: 1_000_000, off_grid: OffGrid::Floor };
    let scaler = Scaler::with_policy(dec(1, 2), dec(1, 4), floor).unwrap();
    assert_eq!(scaler.price_to_ticks(&dec(1_000_001, 5)), Ok(1000));
    assert_eq!(scaler.price_to_ticks(&dec(1_000_002, 5)), Ok(1000));
    assert_eq!(scaler.price_to_ticks(&dec(1_000_998, 5)), Ok(1000));
    assert_eq!(scaler.price_to_ticks(&dec(1_000_999, 5)), Ok(1001));
    assert_eq!(scaler.price_to_ticks(&dec(-1_000_001, 5)), Ok(-1000));
    assert_eq!(scaler.price_to_ticks(&dec(-1_000_002, 5)), Ok(-1001));
    assert_eq!(scaler.price_to_ticks(&dec(-1_000_999, 5)), Ok(-1001));
}

#[test]
fn tolerance_of_half_a_granule_or_more_takes_every_value() {
    for tolerance in [HALF_GRANULE, HALF_GRANULE + 1, TOLERANCE_UNIT, u32::MAX] {
        for off_grid in [OffGrid::Reject, OffGrid::Floor] {
            let scaler =
                Scaler::with_policy(dec(1, 2), dec(1, 4), Policy { tolerance, off_grid }).unwrap();
            assert_eq!(scaler.price_to_ticks(&dec(10_005, 3)), Ok(1001));
            assert_eq!(scaler.price_to_ticks(&dec(10_004, 3)), Ok(1000));
            assert_eq!(scaler.price_to_ticks(&dec(-10_005, 3)), Ok(-1001));
        }
    }
    let just_below = Policy { tolerance: HALF_GRANULE - 1, off_grid: OffGrid::Reject };
    let scaler = Scaler::with_policy(dec(1, 2), dec(1, 4), just_below).unwrap();
    assert_eq!(scaler.price_to_ticks(&dec(10_005, 3)), Err(ScaleError::UnscalableValue));
    assert_eq!(scaler.price_to_ticks(&dec(10_004, 3)), Ok(1000));
}

#[test]
fn tolerance_holds_against_the_largest_granules() {
    // The granule is far larger than any value with eighteen fractional digits.
    let large = 4_000_000_000_000_000_000;
    let lenient = Policy { tolerance: 1000, off_grid: OffGrid::Reject };
    let scaler = Scaler::with_policy(dec(large, 0), dec(large, 0), lenient).unwrap();
    assert_eq!(scaler.price_to_ticks(&dec(i64::MAX, 18)), Ok(0));
    assert_eq!(scaler.price_to_ticks(&dec(-1, 18)), Ok(0));
    let strict = Scaler::with_policy(dec(large, 0), dec(large, 0), Policy::exact()).unwrap();
    assert_eq!(strict.price_to_ticks(&dec(1, 18)), Err(ScaleError::UnscalableValue));
    assert_eq!(strict.price_to_ticks(&dec(0, 18)), Ok(0));
    let floor = Scaler::with_policy(dec(large, 0), dec(large, 0), Policy::floor()).unwrap();
    assert_eq!(floor.price_to_ticks(&dec(1, 18)), Ok(0));
    assert_eq!(floor.price_to_ticks(&dec(-1, 18)), Ok(-1));
    // One billionth of this granule is four units of the ninth digit.
    let fine = Policy { tolerance: 1, off_grid: OffGrid::Reject };
    let scaler = Scaler::with_policy(dec(4, 0), dec(4, 0), fine).unwrap();
    assert_eq!(scaler.price_to_ticks(&dec(4_000_000_004, 9)), Ok(1));
    assert_eq!(scaler.price_to_ticks(&dec(4_000_000_005, 9)), Err(ScaleError::UnscalableValue));
    assert_eq!(scaler.price_to_ticks(&dec(3_999_999_996, 9)), Ok(1));
    assert_eq!(scaler.price_to_ticks(&dec(3_999_999_995, 9)), Err(ScaleError::UnscalableValue));
}
