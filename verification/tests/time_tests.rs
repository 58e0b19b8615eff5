use focusd::time::{create_time_string, get_time, parse_time_string};

fn parse(text: &str) -> Result<u64, ()> {
    parse_time_string(&text.to_string())
}

#[test]
fn parses_documented_examples() {
    assert_eq!(parse("1h30m"), Ok(5400));
    assert_eq!(parse("30m"), Ok(1800));
    assert_eq!(parse("15m20s"), Ok(920));
    assert_eq!(parse("60s"), Ok(60));
    assert_eq!(parse("1h30m25s"), Ok(5425));
    assert_eq!(parse("30s"), Ok(30));
}

#[test]
fn parses_hours_and_seconds_without_minutes() {
    assert_eq!(parse("2h5s"), Ok(7205));
    assert_eq!(parse("007m"), Ok(420));
}

#[test]
fn empty_text_is_zero_seconds() {
    assert_eq!(parse(""), Ok(0));
}

#[test]
fn rejects_texts_outside_the_pattern() {
    assert_eq!(parse("30"), Err(()));
    assert_eq!(parse("1m1h"), Err(()));
    assert_eq!(parse("abc"), Err(()));
    assert_eq!(parse("h"), Err(()));
    assert_eq!(parse("1h 30m"), Err(()));
    assert_eq!(parse("1d"), Err(()));
    assert_eq!(parse("1h1h"), Err(()));
    assert_eq!(parse("30s\n"), Err(()));
}

#[test]
fn rejects_totals_beyond_u64() {
    assert_eq!(parse("99999999999999999999s"), Err(()));
    assert_eq!(parse("5124095576030432h"), Err(()));
    assert_eq!(parse("18446744073709551615s"), Ok(u64::MAX));
    assert_eq!(parse("18446744073709551615s1s"), Err(()));
}

#[test]
fn shows_documented_examples() {
    assert_eq!(create_time_string(5425), "1h30m25s");
    assert_eq!(create_time_string(1800), "30m");
    assert_eq!(create_time_string(30), "30s");
}

#[test]
fn shows_components_and_omits_zeros() {
    assert_eq!(create_time_string(0), "");
    assert_eq!(create_time_string(3600), "1h");
    assert_eq!(create_time_string(3661), "1h1m1s");
    assert_eq!(create_time_string(7205), "2h5s");
    assert_eq!(create_time_string(59), "59s");
    assert_eq!(create_time_string(360000), "100h");
}

#[test]
fn shown_time_parses_back() {
    for t in [0u64, 1, 59, 60, 61, 3599, 3600, 5425, 86399, 1234567, 4000000000] {
        assert_eq!(parse(&create_time_string(t)), Ok(t));
    }
}

#[test]
fn clock_reads_after_epoch() {
    let now = get_time();
    assert!(now.is_some());
    assert!(now.unwrap() > 1_600_000_000);
}

#[test]
fn shows_the_canonical_form() {
    assert_eq!(create_time_string(parse("90m").unwrap()), "1h30m");
    assert_eq!(create_time_string(parse("0h60s").unwrap()), "1m");
    assert_eq!(create_time_string(parse("01h05s").unwrap()), "1h5s");
    assert_eq!(create_time_string(parse("1h30m25s").unwrap()), "1h30m25s");
}
