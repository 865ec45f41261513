use payengine::amount::Amount;

#[test]
fn amount_test_parse() {
    assert_eq!(Amount::parse(b"0").unwrap(), Amount::from_scaled(0));
    assert_eq!(Amount::parse(b"0.").unwrap(), Amount::from_scaled(0));
    assert_eq!(Amount::parse(b"0.0").unwrap(), Amount::from_scaled(0));
    assert_eq!(Amount::parse(b"0.00").unwrap(), Amount::from_scaled(0));

    assert_eq!(Amount::parse(b"1").unwrap(), Amount::from_scaled(10000));
    assert_eq!(Amount::parse(b"1.").unwrap(), Amount::from_scaled(10000));
    assert_eq!(Amount::parse(b"1.0").unwrap(), Amount::from_scaled(10000));
    assert_eq!(Amount::parse(b"1.1").unwrap(), Amount::from_scaled(11000));
    assert_eq!(Amount::parse(b"1.12").unwrap(), Amount::from_scaled(11200));
    assert_eq!(Amount::parse(b"1.123").unwrap(), Amount::from_scaled(11230));
    assert_eq!(Amount::parse(b"1.1234").unwrap(), Amount::from_scaled(11234));
    assert_eq!(Amount::parse(b"1.12345").unwrap(), Amount::from_scaled(11234));

    // overflow (u64::MAX)
    assert_eq!(Amount::parse(b"18446744073709551615"), None);
    assert_eq!(Amount::parse(b"18446744073709551"), None);
    assert_eq!(
        Amount::parse(b"1844674407370955.1615").unwrap(),
        Amount::from_scaled(u64::MAX)
    );
    assert_eq!(Amount::parse(b"1844674407370955.1616"), None);

    // invalid
    assert_eq!(Amount::parse(b"f"), None);
    assert_eq!(Amount::parse(b"1f"), None);
    assert_eq!(Amount::parse(b"1.f"), None);
    assert_eq!(Amount::parse(b"1.1f"), None);
    assert_eq!(Amount::parse(b"1.12f"), None);
    assert_eq!(Amount::parse(b"1.123f"), None);
    assert_eq!(Amount::parse(b"1.1234f"), None);
    assert_eq!(Amount::parse(b"1.12345f"), None);
}

#[test]
fn test_fmt() {
    for amount in [
        "0",
        "1",
        "1.1",
        "1.12",
        "1.123",
        "1.1234",
        "1844674407370955.1615",
    ] {
        let value = Amount::parse(amount.as_bytes()).unwrap().to_string();
        assert_eq!(
            value, amount,
            "{amount}.parse().to_string(). Expected {amount}, got {value}"
        )
    }
}

#[test]
fn zero_and_default_are_nothing() {
    assert_eq!(Amount::zero(), Amount::from_scaled(0));
    assert_eq!(Amount::default(), Amount::zero());
    assert_eq!(Amount::zero().scaled(), 0);
    assert_eq!(Amount::from_scaled(12345).scaled(), 12345);
}

#[test]
fn amounts_are_ordered_by_their_units() {
    assert!(Amount::from_scaled(1) < Amount::from_scaled(2));
    assert!(Amount::from_scaled(10000) > Amount::from_scaled(9999));
    assert_eq!(Amount::parse(b"1.5").unwrap(), Amount::parse(b"1.50").unwrap());
    assert_ne!(Amount::parse(b"1.5").unwrap(), Amount::parse(b"1.05").unwrap());
}

#[test]
fn checked_add_never_wraps() {
    let max = Amount::from_scaled(u64::MAX);
    let one = Amount::from_scaled(1);
    assert_eq!(max.checked_add(one), None);
    assert_eq!(one.checked_add(max), None);
    assert_eq!(max.checked_add(max), None);
    assert_eq!(max.checked_add(Amount::zero()), Some(max));
    assert_eq!(Amount::from_scaled(u64::MAX - 1).checked_add(one), Some(max));
    assert_eq!(
        Amount::from_scaled(105000).checked_add(Amount::from_scaled(30000)),
        Some(Amount::from_scaled(135000))
    );
}

#[test]
fn checked_sub_never_wraps() {
    let max = Amount::from_scaled(u64::MAX);
    let one = Amount::from_scaled(1);
    assert_eq!(Amount::zero().checked_sub(one), None);
    assert_eq!(one.checked_sub(max), None);
    assert_eq!(Amount::from_scaled(u64::MAX - 1).checked_sub(max), None);
    assert_eq!(max.checked_sub(max), Some(Amount::zero()));
    assert_eq!(one.checked_sub(Amount::zero()), Some(one));
    assert_eq!(
        Amount::from_scaled(135000).checked_sub(Amount::from_scaled(20000)),
        Some(Amount::from_scaled(115000))
    );
}

#[test]
fn parse_then_format_gives_the_shortest_form() {
    for (text, shortest) in [
        ("1.1230", "1.123"),
        ("0.00", "0"),
        ("5", "5"),
        ("5.", "5"),
        ("005", "5"),
        ("000", "0"),
        (".5", "0.5"),
        (".", "0"),
        ("1.01", "1.01"),
        ("1.0010", "1.001"),
        ("1.0001", "1.0001"),
        ("0.1", "0.1"),
        ("10.5", "10.5"),
        ("100", "100"),
        ("1.1000", "1.1"),
    ] {
        assert_eq!(Amount::parse(text.as_bytes()).unwrap().to_string(), shortest, "{text}");
    }
}

#[test]
fn format_pads_the_fraction_on_the_left() {
    assert_eq!(Amount::from_scaled(0).to_string(), "0");
    assert_eq!(Amount::from_scaled(1).to_string(), "0.0001");
    assert_eq!(Amount::from_scaled(10).to_string(), "0.001");
    assert_eq!(Amount::from_scaled(100).to_string(), "0.01");
    assert_eq!(Amount::from_scaled(1000).to_string(), "0.1");
    assert_eq!(Amount::from_scaled(10000).to_string(), "1");
    assert_eq!(Amount::from_scaled(10100).to_string(), "1.01");
    assert_eq!(Amount::from_scaled(11230).to_string(), "1.123");
    assert_eq!(Amount::from_scaled(1234567).to_string(), "123.4567");
    assert_eq!(Amount::from_scaled(u64::MAX).to_string(), "1844674407370955.1615");
    assert_eq!(Amount::from_scaled(u64::MAX - 1615).to_string(), "1844674407370955");
}

#[test]
fn to_bytes_is_the_text_in_ascii() {
    assert_eq!(Amount::from_scaled(10100).to_bytes(), b"1.01".to_vec());
    assert_eq!(Amount::from_scaled(0).to_bytes(), b"0".to_vec());
    assert_eq!(Amount::from_scaled(9_000_000).to_bytes(), b"900".to_vec());
}

#[test]
fn what_is_written_reads_back() {
    for units in [
        0u64,
        1,
        9,
        10,
        99,
        100,
        999,
        1000,
        9999,
        10000,
        10001,
        10010,
        10100,
        11000,
        123456789,
        u64::MAX / 2,
        u64::MAX - 1,
        u64::MAX,
    ] {
        let amount = Amount::from_scaled(units);
        assert_eq!(Amount::parse(&amount.to_bytes()), Some(amount));
        assert_eq!(Amount::parse(amount.to_string().as_bytes()), Some(amount));
    }
}

#[test]
fn extra_digits_are_cut_off_not_rounded() {
    assert_eq!(Amount::parse(b"1.12345"), Amount::parse(b"1.1234"));
    assert_eq!(Amount::parse(b"1.12349999"), Amount::parse(b"1.1234"));
    assert_eq!(Amount::parse(b"0.99999").unwrap(), Amount::from_scaled(9999));
    assert_eq!(Amount::parse(b"0.00009").unwrap(), Amount::zero());
    assert_eq!(
        Amount::parse(b"1844674407370955.16159").unwrap(),
        Amount::from_scaled(u64::MAX)
    );
}

#[test]
fn parse_rejects_what_is_no_decimal() {
    assert_eq!(Amount::parse(b""), None);
    assert_eq!(Amount::parse(b" "), None);
    assert_eq!(Amount::parse(b" 1"), None);
    assert_eq!(Amount::parse(b"1 "), None);
    assert_eq!(Amount::parse(b"+1"), None);
    assert_eq!(Amount::parse(b"-1"), None);
    assert_eq!(Amount::parse(b"1,5"), None);
    assert_eq!(Amount::parse(b"1.5.2"), None);
    assert_eq!(Amount::parse(b"1..5"), None);
    assert_eq!(Amount::parse(b"a.5"), None);
    assert_eq!(Amount::parse(b"1a.5"), None);
    assert_eq!(Amount::parse(b"1.a"), None);
    assert_eq!(Amount::parse(b"1.123a"), None);
    assert_eq!(Amount::parse(b"1.1234a"), None);
    assert_eq!(Amount::parse(b"1.12345678a"), None);
    assert_eq!(Amount::parse(b"1.1234 "), None);
    assert_eq!(Amount::parse(b"1.5\n"), None);
    assert_eq!(Amount::parse(b"1e3"), None);
    assert_eq!(Amount::parse(b"0x10"), None);
    // Bytes next to the digits in the table are no digits.
    assert_eq!(Amount::parse(b"/"), None);
    assert_eq!(Amount::parse(b":"), None);
    assert_eq!(Amount::parse(b"1./"), None);
    assert_eq!(Amount::parse(b"1.:"), None);
}

#[test]
fn parse_refuses_what_does_not_fit() {
    assert_eq!(
        Amount::parse(b"1844674407370955.1615"),
        Some(Amount::from_scaled(u64::MAX))
    );
    assert_eq!(Amount::parse(b"1844674407370955.1616"), None);
    assert_eq!(Amount::parse(b"1844674407370956"), None);
    assert_eq!(Amount::parse(b"1844674407370956.0"), None);
    assert_eq!(Amount::parse(b"18446744073709551616"), None);
    assert_eq!(Amount::parse(b"99999999999999999999999999"), None);
    assert_eq!(
        Amount::parse(b"0000000000000000000000000001"),
        Some(Amount::from_scaled(10000))
    );
    assert_eq!(
        Amount::parse(b"1844674407370955"),
        Some(Amount::from_scaled(18446744073709550000))
    );
}
