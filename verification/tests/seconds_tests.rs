use spldcrdchlscrp::seconds::parse_seconds_as_millis;

#[test]
fn seconds_are_given_in_milliseconds() {
    assert_eq!(parse_seconds_as_millis("1.5"), Some(1500));
    assert_eq!(parse_seconds_as_millis("1"), Some(1000));
    assert_eq!(parse_seconds_as_millis("0"), Some(0));
    assert_eq!(parse_seconds_as_millis("0.25"), Some(250));
    assert_eq!(parse_seconds_as_millis("12.345"), Some(12345));
    assert_eq!(parse_seconds_as_millis("16.002"), Some(16002));
    assert_eq!(parse_seconds_as_millis("5."), Some(5000));
    assert_eq!(parse_seconds_as_millis(".5"), Some(500));
    assert_eq!(parse_seconds_as_millis("+2"), Some(2000));
    assert_eq!(parse_seconds_as_millis("0.000"), Some(0));
    assert_eq!(parse_seconds_as_millis("007.5"), Some(7500));
}

#[test]
fn a_fraction_of_a_millisecond_is_rounded_up() {
    assert_eq!(parse_seconds_as_millis("0.0001"), Some(1));
    assert_eq!(parse_seconds_as_millis("0.0010"), Some(1));
    assert_eq!(parse_seconds_as_millis("0.00100000001"), Some(2));
    assert_eq!(parse_seconds_as_millis("1.0005"), Some(1001));
    assert_eq!(parse_seconds_as_millis("1.9999"), Some(2000));
    assert_eq!(parse_seconds_as_millis("0.001"), Some(1));
    assert_eq!(parse_seconds_as_millis("0.0000000000000000000000000000000000000000000000001"), Some(1));
}

#[test]
fn seconds_out_of_range_are_held_at_the_ends() {
    assert_eq!(parse_seconds_as_millis("65.535"), Some(65535));
    assert_eq!(parse_seconds_as_millis("65.5351"), Some(65535));
    assert_eq!(parse_seconds_as_millis("65.534"), Some(65534));
    assert_eq!(parse_seconds_as_millis("66"), Some(65535));
    assert_eq!(parse_seconds_as_millis("70"), Some(65535));
    assert_eq!(parse_seconds_as_millis("99999999999999999999999999"), Some(65535));
    assert_eq!(parse_seconds_as_millis("-1.5"), Some(0));
    assert_eq!(parse_seconds_as_millis("-0"), Some(0));
    assert_eq!(parse_seconds_as_millis("-1e3"), Some(0));
}

#[test]
fn an_exponent_moves_the_point() {
    assert_eq!(parse_seconds_as_millis("1e0"), Some(1000));
    assert_eq!(parse_seconds_as_millis("1E0"), Some(1000));
    assert_eq!(parse_seconds_as_millis("1e1"), Some(10000));
    assert_eq!(parse_seconds_as_millis("6.5535e1"), Some(65535));
    assert_eq!(parse_seconds_as_millis("6.5534e+1"), Some(65534));
    assert_eq!(parse_seconds_as_millis("1e3"), Some(65535));
    assert_eq!(parse_seconds_as_millis("1.5e-1"), Some(150));
    assert_eq!(parse_seconds_as_millis("15e-1"), Some(1500));
    assert_eq!(parse_seconds_as_millis("1500e-3"), Some(1500));
    assert_eq!(parse_seconds_as_millis("1500.e-3"), Some(1500));
    assert_eq!(parse_seconds_as_millis(".15e1"), Some(1500));
    assert_eq!(parse_seconds_as_millis("1e-3"), Some(1));
    assert_eq!(parse_seconds_as_millis("1e-4"), Some(1));
    assert_eq!(parse_seconds_as_millis("10001e-7"), Some(2));
    assert_eq!(parse_seconds_as_millis("1e-03"), Some(1));
    assert_eq!(parse_seconds_as_millis("123456e-5"), Some(1235));
    assert_eq!(parse_seconds_as_millis("0e5"), Some(0));
    assert_eq!(parse_seconds_as_millis("0.000e99"), Some(0));
    assert_eq!(parse_seconds_as_millis("0.0000000065535e10"), Some(65535));
    assert_eq!(parse_seconds_as_millis("0.0000000065534e10"), Some(65534));
    assert_eq!(parse_seconds_as_millis("65535000e-6"), Some(65535));
}

#[test]
fn an_exponent_of_any_size_is_read() {
    assert_eq!(parse_seconds_as_millis("1e99999999999999999999999999999999999999999"), Some(65535));
    assert_eq!(parse_seconds_as_millis("0e99999999999999999999999999999999999999999"), Some(0));
    assert_eq!(parse_seconds_as_millis("1e-99999999999999999999999999999999999999999"), Some(1));
    assert_eq!(parse_seconds_as_millis("0e-99999999999999999999999999999999999999999"), Some(0));
    assert_eq!(parse_seconds_as_millis("1e1208925819614629174706176"), Some(65535));
    assert_eq!(parse_seconds_as_millis("1e-1208925819614629174706176"), Some(1));
    assert_eq!(parse_seconds_as_millis("1e-1208925819614629174706177"), Some(1));
    let long = format!("0.{}1e{}", "0".repeat(300), 303);
    assert_eq!(parse_seconds_as_millis(&long), Some(100000u32.min(65535) as u16));
    let exact = format!("0.{}15e{}", "0".repeat(300), 301);
    assert_eq!(parse_seconds_as_millis(&exact), Some(1500));
}

#[test]
fn infinity_and_no_number_are_read() {
    for text in ["inf", "INF", "Inf", "iNf", "+inf", "infinity", "Infinity", "INFINITY", "+InFiNiTy"] {
        assert_eq!(parse_seconds_as_millis(text), Some(65535), "on {:?}", text);
    }
    for text in ["-inf", "-INF", "-infinity", "-Infinity"] {
        assert_eq!(parse_seconds_as_millis(text), Some(0), "on {:?}", text);
    }
    for text in ["nan", "NaN", "NAN", "+nan", "-nan", "-NaN"] {
        assert_eq!(parse_seconds_as_millis(text), Some(0), "on {:?}", text);
    }
}

#[test]
fn seconds_reject_what_is_no_number() {
    for text in [
        "", ".", "+", "-", "-.", "1.2.3", "abc", "1,5", "++1", "1 ", " 1", "e5", ".e5", "1e", "1e+", "1e-",
        "1e5.0", "1e1e1", "1ee1", "1e+-1", "0x10", "1_000", "in", "infi", "infinit", "infinityy", "na",
        "nann", "inf ", "i nf", "1inf", "inf1", "--1", "+-1", "1f", "1.5s", "١",
    ] {
        assert_eq!(parse_seconds_as_millis(text), None, "on {:?}", text);
    }
}

#[test]
fn the_texts_that_are_read_are_those_of_the_standard_float() {
    let texts = [
        "", ".", "+", "-", "0", "1", "1.", ".1", "1.5", "+1.5", "-1.5", "1e0", "1E0", "1e+0", "1e-0",
        "1.e1", ".1e1", "e1", ".e1", "1e", "1e+", "1.2.3", "1e1.5", "inf", "+inf", "-inf", "Inf",
        "INFINITY", "infinity", "infinit", "nan", "NaN", "-nan", "+NAN", "nan1", " 1", "1 ", "1f", "0x1p3",
        "1_0", "١", "--1", "+-1", "1e9999", "1e-9999", "00.00e00", "+.5E-2", "-5.E+2", "infinityy",
    ];
    for text in texts {
        assert_eq!(
            parse_seconds_as_millis(text).is_some(),
            text.parse::<f32>().is_ok(),
            "on {:?}",
            text
        );
    }
}

#[test]
fn the_wait_is_that_of_the_standard_float_where_it_is_exact() {
    for text in [
        "0", "1", "1.5", "0.25", "16", "2e0", "1e1", "5e-1", "25e-2", "1e3", "65", "-3", "inf", "-inf", "nan",
        "1e99", "0.5", "32.75", "1.25e1", "8e-3", "+4.5",
    ] {
        let seconds: f32 = text.parse().unwrap();
        let expected = (seconds * 1000_f32).ceil() as u16;
        assert_eq!(parse_seconds_as_millis(text), Some(expected), "on {:?}", text);
    }
}
