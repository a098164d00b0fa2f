use newapi_status_bot::decimal::{digits_of, parse_number, to_decimal};
use newapi_status_bot::double::{percentage, thousandth, Double};
use newapi_status_bot::num::{clamp, minus, plus, times};
use newapi_status_bot::order::{sort, Rank};

fn double(value: f64) -> Double {
    Double { bits: value.to_bits() }
}

fn mixed(seed: u64) -> u64 {
    let a = seed.wrapping_add(0x9e37_79b9_7f4a_7c15);
    let b = (a ^ (a >> 30)).wrapping_mul(0xbf58_476d_1ce4_e5b9);
    let c = (b ^ (b >> 27)).wrapping_mul(0x94d0_49bb_1331_11eb);
    c ^ (c >> 31)
}

#[test]
fn percentages_are_those_of_the_machine() {
    for seed in 0..4_000u64 {
        let shift = seed % 60;
        let whole = (mixed(seed) >> shift).max(1);
        let part = mixed(seed + 1_000_000) % whole + u64::from(seed % 7 == 0);
        let expected = part as f64 / whole as f64 * 100.0;
        assert_eq!(percentage(part, whole), double(expected), "{part} of {whole}");
    }
    assert_eq!(percentage(5, 0), double(0.0));
    assert_eq!(percentage(0, 5), double(0.0));
    assert_eq!(percentage(u64::MAX, u64::MAX), double(100.0));
    assert_eq!(percentage(u64::MAX, 1), double(u64::MAX as f64 * 100.0));
}

#[test]
fn thousandths_are_those_of_the_machine() {
    for seed in 0..4_000u64 {
        let n = (mixed(seed) >> (seed % 60)).max(1);
        assert_eq!(thousandth(n), double(n as f64 / 1000.0), "{n}");
    }
}

#[test]
fn comparing_and_rounding_are_those_of_the_machine() {
    let mut values = vec![
        0.0,
        -0.0,
        0.5,
        -0.5,
        1.5,
        2.5,
        -2.5,
        0.49999999999999994,
        1e18,
        -1e18,
        9.3e18,
        -9.3e18,
        1e300,
        5e-324,
        f64::INFINITY,
        f64::NEG_INFINITY,
        f64::NAN,
        100.0,
        100.00000000000001,
    ];
    for seed in 0..300 {
        values.push(f64::from_bits(mixed(seed)));
        values.push((mixed(seed) >> 40) as f64 / 8.0);
    }
    for a in &values {
        assert_eq!(double(*a).to_integer(), a.round() as i64, "{a}");
        assert_eq!(double(*a).in_percent_range(), (0.0..=100.0).contains(a), "{a}");
        for b in &values {
            assert_eq!(double(*a).is_less(double(*b)), a < b, "{a} {b}");
        }
    }
}

#[test]
fn fixed_texts_are_those_of_the_machine() {
    let mut values = vec![
        0.0,
        -0.0,
        0.005,
        0.015,
        0.025,
        0.125,
        0.375,
        2.675,
        99.995,
        1e21,
        1e300,
        5e-324,
        -1.005,
        f64::INFINITY,
        f64::NEG_INFINITY,
        f64::NAN,
    ];
    for seed in 0..300 {
        values.push(f64::from_bits(mixed(seed)));
        values.push((mixed(seed) >> 44) as f64 / 1000.0);
    }
    for value in values {
        assert_eq!(double(value).to_fixed(2), format!("{value:.2}"));
        assert_eq!(double(value).to_fixed(1), format!("{value:.1}"));
    }
}

#[test]
fn decimals_are_written_and_read() {
    for n in [0, 7, 10, -1, 123_456, i64::MAX, i64::MIN] {
        assert_eq!(to_decimal(n), n.to_string());
    }
    assert_eq!(digits_of(u128::MAX), u128::MAX.to_string());
    for text in ["", "+", "+7", "007", "-1", "1a", "18446744073709551615", "18446744073709551616"] {
        assert_eq!(parse_number(text, u64::MAX), text.parse::<u64>().ok(), "{text}");
    }
    assert_eq!(parse_number("11", 10), None);
}

#[test]
fn arithmetic_stops_at_the_limits() {
    for a in [i64::MIN, -3, 0, 5, i64::MAX] {
        for b in [i64::MIN, -2, 0, 7, i64::MAX] {
            assert_eq!(plus(a, b), a.saturating_add(b));
            assert_eq!(minus(a, b), a.saturating_sub(b));
            assert_eq!(times(a, b), a.saturating_mul(b));
        }
    }
    assert_eq!(clamp(i128::MAX), i64::MAX);
}

#[test]
fn sorting_sorts() {
    let values = (0..500).map(|i| (mixed(i) % 97) as i64 - 40).collect::<Vec<_>>();
    let mut expected = values.clone();
    expected.sort_unstable();
    assert_eq!(sort(&values), expected);
    let rank = |first, second, place| Rank { first, second, place };
    assert_eq!(
        sort(&vec![rank(2, 1, 0), rank(1, 9, 1), rank(1, 9, 0)]),
        vec![rank(1, 9, 0), rank(1, 9, 1), rank(2, 1, 0)]
    );
}
