use budsjetto::currency::convert;
use budsjetto::currency::convert_currency;
use budsjetto::currency::Currency;

#[test]
fn convert_same_currency_is_exact() {
    assert_eq!(convert(12345, Currency::Nok, Currency::Nok), 12345);
    assert_eq!(convert(987654321, Currency::Eur, Currency::Eur), 987654321);
    assert_eq!(convert(0, Currency::Nok, Currency::Nok), 0);
}

#[test]
fn convert_applies_fixed_rate() {
    // One hundred EUR units are exactly 11.7 times as many NOK units.
    assert_eq!(convert(100, Currency::Eur, Currency::Nok), 1170);
    // The opposite direction divides, rounding toward zero.
    assert_eq!(convert(1170, Currency::Nok, Currency::Eur), 100);
    assert_eq!(convert(100, Currency::Nok, Currency::Eur), 8);
}

#[test]
fn convert_round_trip_stays_within_tolerance() {
    for &x in &[0u64, 1, 6, 100, 117, 1000, 117000, 999_999_999_999] {
        let there = convert(x, Currency::Nok, Currency::Eur);
        let back = convert(there, Currency::Eur, Currency::Nok);
        assert!(back <= x, "round trip rose above the start for {}", x);
        assert!(x - back <= 12, "round trip lost more than 12 units for {}", x);

        let there = convert(x, Currency::Eur, Currency::Nok);
        let back = convert(there, Currency::Nok, Currency::Eur);
        assert!(back <= x);
        assert!(x - back <= 12);
    }
}

#[test]
fn convert_currency_parses_codes() {
    assert_eq!(convert_currency(100, "EUR", "NOK"), 1170);
    assert_eq!(convert_currency(1170, "NOK", "EUR"), 100);
    assert_eq!(convert_currency(55, "NOK", "NOK"), 55);
}

#[test]
fn convert_currency_leaves_unsupported_pairs_unchanged() {
    assert_eq!(convert_currency(100, "USD", "EUR"), 100);
    assert_eq!(convert_currency(100, "NOK", "USD"), 100);
    assert_eq!(convert_currency(100, "USD", "USD"), 100);
}

#[test]
fn currency_codes_round_trip() {
    assert_eq!(Currency::Nok.code(), "NOK");
    assert_eq!(Currency::Eur.code(), "EUR");
    assert_eq!(Currency::from_code("NOK"), Some(Currency::Nok));
    assert_eq!(Currency::from_code("EUR"), Some(Currency::Eur));
    assert_eq!(Currency::from_code("eur"), None);
    assert_eq!(Currency::from_code(""), None);
}
