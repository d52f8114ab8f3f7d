use ms::parse::ErrorKind;
use ms::{ms, MsOutput, UnwrapMsOutput};

#[test]
fn test_parse() {
    assert_eq!(ms::parse::parse("2 days").unwrap(), 172_800_000);
    assert_eq!(ms::parse::parse("1 minute").unwrap(), 60_000);
    assert!(ms::parse::parse("unknown").is_err());
}

#[test]
fn test_format() {
    assert_eq!(ms::format::format(172_800_000), "2 days");
    assert_eq!(ms::format::format(60_000), "1 minute");
    assert_eq!(ms::format::format(999), "999 ms");
}

#[test]
fn test_negative_parse() {
    assert_eq!(ms::parse::parse("-2 days").unwrap(), -172_800_000);
}

#[test]
fn test_negative_format() {
    assert_eq!(ms::format::format(-172_800_000), "-2 days");
}

#[test]
fn test_ms_wrapper() {
    match ms("2 days").unwrap() {
        MsOutput::Milliseconds(ms) => assert_eq!(ms, 172_800_000),
        _ => panic!("Expected milliseconds"),
    }
    match ms(60_000).unwrap() {
        MsOutput::Str(s) => assert_eq!(s, "1 minute"),
        _ => panic!("Expected string"),
    }

    // Test invalid input
    assert!(ms("unknown").is_err());
    assert!(ms("10 unknown_units").is_err());

    // Test unwrap_str on Result
    assert_eq!(ms(60_000).unwrap_str(), "1 minute");
    assert_eq!(ms(172_800_000).unwrap_str(), "2 days");

    // Test unwrap_number on Result
    assert_eq!(ms("2 days").unwrap_number(), 172_800_000);
    assert_eq!(ms("1 minute").unwrap_number(), 60_000);

    // Test unwrap_number on negative
    assert_eq!(ms("-2 days").unwrap_number(), -172_800_000);
    assert!(ms("--2 days").is_err());
    assert!(ms("unknown").is_err());
}

#[test]
fn test_parse_error_kinds() {
    assert_eq!(ms::parse::parse("unknown"), Err(ErrorKind::InvalidFormat));
    assert_eq!(
        ms::parse::parse("10 unknown_units"),
        Err(ErrorKind::UnknownUnit)
    );
    assert_eq!(ms::parse::parse("--2 days"), Err(ErrorKind::InvalidFormat));
    assert_eq!(ms::parse::parse(""), Err(ErrorKind::InvalidFormat));
    assert_eq!(ms::parse::parse("2 days extra"), Err(ErrorKind::InvalidFormat));
    assert_eq!(ms::parse::parse("1."), Err(ErrorKind::InvalidFormat));
    assert_eq!(ms::parse::parse(".5 s"), Err(ErrorKind::InvalidFormat));
    assert_eq!(
        ms::parse::parse("9223372036854775808"),
        Err(ErrorKind::Overflow)
    );
    assert_eq!(
        ms::parse::parse("10000000000 years"),
        Err(ErrorKind::Overflow)
    );
    let long = "1".repeat(101);
    assert_eq!(ms::parse::parse(&long), Err(ErrorKind::InputTooLong));
    assert_eq!(ms::parse::parse("10 _units"), Err(ErrorKind::UnknownUnit));
    assert_eq!(ms::parse::parse("2 da ys"), Err(ErrorKind::InvalidFormat));
}

#[test]
fn test_parse_units_and_aliases() {
    assert_eq!(ms::parse::parse("100").unwrap(), 100);
    assert_eq!(ms::parse::parse("100 ms").unwrap(), 100);
    assert_eq!(ms::parse::parse("1 millisecond").unwrap(), 1);
    assert_eq!(ms::parse::parse("1s").unwrap(), 1_000);
    assert_eq!(ms::parse::parse("5 secs").unwrap(), 5_000);
    assert_eq!(ms::parse::parse("1h").unwrap(), 3_600_000);
    assert_eq!(ms::parse::parse("2 hrs").unwrap(), 7_200_000);
    assert_eq!(ms::parse::parse("10 mins").unwrap(), 600_000);
    assert_eq!(ms::parse::parse("3 w").unwrap(), 1_814_400_000);
    assert_eq!(ms::parse::parse("2 wks").unwrap(), 1_209_600_000);
    assert_eq!(ms::parse::parse("1 yr").unwrap(), 31_557_600_000);
    assert_eq!(ms::parse::parse("1 year").unwrap(), 31_557_600_000);
}

#[test]
fn test_parse_fractional() {
    assert_eq!(ms::parse::parse("1.5 hours").unwrap(), 5_400_000);
    assert_eq!(ms::parse::parse("1.5h").unwrap(), 5_400_000);
    assert_eq!(ms::parse::parse("0.5 s").unwrap(), 500);
    // half a millisecond rounds up, just under half rounds down
    assert_eq!(ms::parse::parse("0.0005 s").unwrap(), 1);
    assert_eq!(ms::parse::parse("0.0004999999999999999 s").unwrap(), 0);
    assert_eq!(ms::parse::parse("-1.5 hours").unwrap(), -5_400_000);
    assert_eq!(ms::parse::parse("0.5 ms").unwrap(), 1);
}

#[test]
fn test_parse_case_insensitive() {
    assert_eq!(
        ms::parse::parse("2 DAYS").unwrap(),
        ms::parse::parse("2 days").unwrap()
    );
    assert_eq!(ms::parse::parse("1 Minute").unwrap(), 60_000);
    assert_eq!(ms::parse::parse("100 MS").unwrap(), 100);
}

#[test]
fn test_parse_whitespace() {
    assert_eq!(
        ms::parse::parse("2days").unwrap(),
        ms::parse::parse("2 days").unwrap()
    );
    assert_eq!(
        ms::parse::parse("2    days").unwrap(),
        ms::parse::parse("2 days").unwrap()
    );
    assert_eq!(ms::parse::parse("  2 days  ").unwrap(), 172_800_000);
    assert_eq!(ms::parse::parse("2\tdays").unwrap(), 172_800_000);
}

#[test]
fn test_format_thresholds() {
    assert_eq!(ms::format::format(86_400_000), "1 day");
    assert_eq!(ms::format::format(3_600_000), "1 hour");
    assert_eq!(ms::format::format(604_800_000), "1 week");
    assert_eq!(ms::format::format(31_557_600_000), "1 year");
    assert_eq!(ms::format::format(1_000), "1 second");
    assert_eq!(ms::format::format(999), "999 ms");
    assert_eq!(ms::format::format(0), "0 ms");
    assert_eq!(ms::format::format(-1), "-1 ms");
}

#[test]
fn test_format_rounding() {
    // 1.5 days rounds up, just over a day rounds down
    assert_eq!(ms::format::format(129_600_000), "2 days");
    assert_eq!(ms::format::format(89_999_999), "1 day");
    assert_eq!(ms::format::format(7_200_000), "2 hours");
    assert_eq!(ms::format::format(-129_600_000), "-2 days");
}

#[test]
fn test_extreme_values() {
    assert_eq!(
        ms::parse::parse("-9223372036854775808").unwrap(),
        i64::MIN
    );
    assert_eq!(ms::parse::parse("9223372036854775807").unwrap(), i64::MAX);
    assert_eq!(
        ms::parse::parse("-9223372036854775809"),
        Err(ErrorKind::Overflow)
    );
    assert_eq!(ms::format::format(i64::MIN), "-292271023 years");
    assert_eq!(ms::format::format(i64::MAX), "292271023 years");
}

#[test]
fn test_round_trip() {
    for v in [
        0i64,
        999,
        -999,
        60_000,
        -60_000,
        172_800_000,
        -172_800_000,
        3_600_000,
        1_209_600_000,
        31_557_600_000,
        -31_557_600_000,
    ] {
        assert_eq!(ms::parse::parse(&ms::format::format(v)).unwrap(), v);
    }
}

#[test]
fn test_ms_wrapper_error_messages() {
    assert_eq!(ms("unknown").err().unwrap(), "invalid duration format");
    assert_eq!(ms("10 unknown_units").err().unwrap(), "unknown unit");
}

#[test]
fn test_unwrap_helpers_on_output() {
    let out = ms("2 days").unwrap();
    assert_eq!(out.unwrap_number(), 172_800_000);
    let out = ms(999).unwrap();
    assert_eq!(out.unwrap_str(), "999 ms");
}
