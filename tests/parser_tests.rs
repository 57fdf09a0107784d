use uscrn_ingest::db::models::{Decimal, Timestamp};
use uscrn_ingest::error::AppError;
use uscrn_ingest::parser::{
    parse_datetime, parse_int, parse_optional_float, parse_optional_int, Parser, Ratio,
};

const LINE_1: &str = "53104 20240115 1400 20240115 0600 3   -81.74    36.53  -9999.0     4.1     4.9     3.4     0.0    45.5 0    58.6 0    35.9 0 C     1.1 0     2.1 0    -0.5 0    81.9 0   -9999.0   -9999.0   -9999.0   -9999.0   -9999.0   -9999.0   -9999.0   -9999.0   -9999.0   -9999.0";
const LINE_2: &str = "53104 20240115 1500 20240115 0700 3   -81.74    36.53  -9999.0     4.5     5.2     4.0     0.0    52.3 0    65.4 0    42.1 0 C     1.8 0     2.5 0    -0.2 0    78.5 0   -9999.0   -9999.0   -9999.0   -9999.0   -9999.0   -9999.0   -9999.0   -9999.0   -9999.0   -9999.0";

fn dec(units: i64, scale: u32) -> Decimal {
    Decimal { units, scale }
}

fn parse_message(e: &AppError) -> String {
    match e {
        AppError::Parse(m) => m.clone(),
        other => panic!("expected a parse error, got {:?}", other),
    }
}

#[test]
fn test_parse_datetime() {
    let result = parse_datetime(20240115, 1430).unwrap();
    assert_eq!(result.format("%Y-%m-%d %H:%M:%S").unwrap(), "2024-01-15 14:30:00");
    assert_eq!(
        result,
        Timestamp { year: 2024, month: 1, day: 15, hour: 14, minute: 30, second: 0 }
    );
}

#[test]
fn test_parse_optional_float_missing() {
    assert_eq!(parse_optional_float(Some("-9999.0")), None);
    assert_eq!(parse_optional_float(Some("-9999")), None);
}

#[test]
fn test_parse_optional_float_valid() {
    assert_eq!(parse_optional_float(Some("25.5")), Some(dec(255, 1)));
    assert_eq!(parse_optional_float(Some("0.0")), Some(dec(0, 1)));
}

#[test]
fn test_parse_line() {
    let result = Parser::parse_line(LINE_1);
    assert!(result.is_ok(), "Parse error: {:?}", result.as_ref().err());

    let obs = result.unwrap();
    assert_eq!(obs.wbanno, 53104);
    assert_eq!(obs.t_hr_avg, Some(dec(41, 1)));
    assert_eq!(obs.t_max, Some(dec(49, 1)));
    assert_eq!(obs.t_min, Some(dec(34, 1)));
    assert_eq!(obs.p_calc, Some(dec(0, 1)));
    assert_eq!(obs.t_calc, None);
    assert_eq!(obs.soil_moisture_5, None);
}

#[test]
fn test_parse_file_with_stats() {
    let content = format!("{}\n{}", LINE_1, LINE_2);
    let result = Parser::parse_file(&content);
    assert!(result.is_ok());

    let (observations, stats) = result.unwrap();
    assert_eq!(observations.len(), 2);
    assert_eq!(stats.parsed_successfully, 2);
    assert_eq!(stats.parse_failures, 0);
    assert!(stats.failure_rate.less_than(&Ratio::new(1, 100)));
}

#[test]
fn test_parse_file_failure_threshold() {
    let content = format!("invalid line 1\n{}\ninvalid line 2\ninvalid line 3", LINE_1);
    let result = Parser::parse_file(&content);
    assert!(result.is_err());
    assert!(result.unwrap_err().to_string().contains("exceeds threshold"));
}

#[test]
fn test_parse_high_failure_rate_rejects_file() {
    let file_content = format!(
        "invalid line without enough fields\n{}\nanother invalid line\nyet another invalid line",
        LINE_1
    );
    let result = Parser::parse_file(&file_content);
    assert!(result.is_err());
    let err = result.unwrap_err();
    assert!(err.to_string().contains("exceeds threshold"));
}

#[test]
fn test_parse_empty_file() {
    let result = Parser::parse_file("");
    assert!(result.is_ok());
    let (observations, stats) = result.unwrap();
    assert_eq!(observations.len(), 0);
    assert_eq!(stats.total_lines, 0);
}

#[test]
fn test_parse_whitespace_only_file() {
    let result = Parser::parse_file("   \n\n  \n\n");
    assert!(result.is_ok());
    let (observations, stats) = result.unwrap();
    assert_eq!(observations.len(), 0);
    assert_eq!(stats.empty_lines, 4);
}

#[test]
fn test_parse_custom_failure_threshold() {
    let file_content = format!("invalid line\n{}", LINE_1);
    let result = Parser::parse_file(&file_content);
    assert!(result.is_err());

    let result = Parser::parse_file_with_threshold(&file_content, Ratio::new(60, 100));
    assert!(result.is_ok());
    let (observations, stats) = result.unwrap();
    assert_eq!(observations.len(), 1);
    assert_eq!(stats.parse_failures, 1);
}

#[test]
fn sentinel_tokens_are_absent_and_others_exact() {
    assert_eq!(parse_optional_float(Some("-9999.05")), None);
    assert_eq!(parse_optional_float(Some("-9998.95")), None);
    assert_eq!(parse_optional_float(Some("-9998.9")), Some(dec(-99989, 1)));
    assert_eq!(parse_optional_float(Some("-81.74")), Some(dec(-8174, 2)));
    assert_eq!(parse_optional_float(Some("+7")), Some(dec(7, 0)));
    assert_eq!(parse_optional_float(Some("C")), None);
    assert_eq!(parse_optional_float(Some("1.2.3")), None);
    assert_eq!(parse_optional_float(None), None);
    assert_eq!(parse_optional_int(Some("-9999")), None);
    assert_eq!(parse_optional_int(Some("-9998")), Some(-9998));
    assert_eq!(parse_optional_int(Some("0")), Some(0));
    assert_eq!(parse_optional_int(Some("x")), None);
    assert_eq!(parse_optional_int(None), None);
}

#[test]
fn integer_tokens_follow_i32_rules() {
    assert_eq!(parse_int("53104").unwrap(), 53104);
    assert_eq!(parse_int("-2147483648").unwrap(), i32::MIN);
    assert_eq!(parse_int("+2147483647").unwrap(), i32::MAX);
    let e = parse_int("2147483648").unwrap_err();
    assert_eq!(
        parse_message(&e),
        "Failed to parse int '2147483648': number too large to fit in target type"
    );
    let e = parse_int("").unwrap_err();
    assert_eq!(parse_message(&e), "Failed to parse int '': cannot parse integer from empty string");
    let e = parse_int("12a").unwrap_err();
    assert_eq!(parse_message(&e), "Failed to parse int '12a': invalid digit found in string");
    let e = parse_int("-").unwrap_err();
    assert_eq!(parse_message(&e), "Failed to parse int '-': invalid digit found in string");
}

#[test]
fn datetime_ranges_are_checked_in_order() {
    let m = |d: i32, t: i32| parse_message(&parse_datetime(d, t).unwrap_err());
    assert_eq!(m(18991231, 0), "Year 1899 out of valid range (1900-2100) from date 18991231");
    assert_eq!(m(-20240115, 0), "Year -2024 out of valid range (1900-2100) from date -20240115");
    assert_eq!(m(20241315, 0), "Month 13 out of valid range (1-12) from date 20241315");
    assert_eq!(m(20240100, 0), "Day 0 out of valid range (1-31) from date 20240100");
    assert_eq!(m(20240115, 2400), "Hour 24 out of valid range (0-23) from time 2400");
    assert_eq!(m(20240115, 1460), "Minute 60 out of valid range (0-59) from time 1460");
    assert_eq!(
        m(20230229, 0),
        "Invalid date combination: year=2023, month=2, day=29 from 20230229"
    );
    assert_eq!(m(20240115, -5), "Invalid time combination: hour=0, minute=-5 from -5");
    assert_eq!(
        parse_datetime(20240229, 2359).unwrap(),
        Timestamp { year: 2024, month: 2, day: 29, hour: 23, minute: 59, second: 0 }
    );
}

#[test]
fn short_line_is_rejected_with_count() {
    let e = Parser::parse_line("53104 20240115 1400").unwrap_err();
    assert_eq!(parse_message(&e), "Expected at least 28 fields, got 3");
}

#[test]
fn quality_gate_accepts_rate_at_threshold() {
    // One failure in ten non-blank lines: exactly the default threshold.
    let mut content = String::from("bad line\n");
    for _ in 0..9 {
        content.push_str(LINE_1);
        content.push('\n');
    }
    let (obs, stats) = Parser::parse_file(&content).unwrap();
    assert_eq!(obs.len(), 9);
    assert_eq!(stats.parse_failures, 1);
    assert_eq!(stats.failure_rate, Ratio::new(1, 10));

    // Two failures in eleven: above it.
    let content = format!("bad line\n{}", content);
    let e = Parser::parse_file(&content).unwrap_err();
    assert_eq!(
        parse_message(&e),
        "Parse failure rate 18.2% exceeds threshold 10.0%: 2 failures out of 11 non-empty lines"
    );
}

#[test]
fn file_without_records_is_rejected() {
    let e = Parser::parse_file_with_threshold("only junk here", Ratio::new(1, 1)).unwrap_err();
    assert_eq!(e.to_string(), "Parse error: No observations successfully parsed from non-empty file");
}

#[test]
fn two_line_file_gives_two_observations() {
    let content = format!("{}\n{}\n", LINE_1, LINE_2);
    let (obs, stats) = Parser::parse_file(&content).unwrap();
    assert_eq!(obs.len(), 2);
    assert_eq!(stats.parse_failures, 0);
    assert_eq!(stats.total_lines, 2);
    assert_eq!(obs[1].utc_datetime, Timestamp { year: 2024, month: 1, day: 15, hour: 15, minute: 0, second: 0 });
    assert_eq!(obs[1].lst_datetime.hour, 7);
    assert_eq!(obs[0].crx_version.as_deref(), Some("3"));
    assert_eq!(obs[0].sur_temp_type.as_deref(), Some("C"));
    assert_eq!(obs[0].solarad, Some(dec(455, 1)));
    assert_eq!(obs[0].solarad_flag, Some(0));
    assert_eq!(obs[0].rh_hr_avg, Some(dec(819, 1)));
    assert_eq!(obs[0].soil_temp_100, None);
    assert_eq!(obs[0].source_file_id, None);
}

#[test]
fn reparsing_gives_same_records() {
    let content = format!("{}\nbad\n{}\n", LINE_1, LINE_2);
    let (a, sa) = Parser::parse_file_with_threshold(&content, Ratio::new(1, 2)).unwrap();
    let (b, sb) = Parser::parse_file_with_threshold(&content, Ratio::new(1, 2)).unwrap();
    assert_eq!(sa.parse_failures, sb.parse_failures);
    assert_eq!(sa.failure_rate, sb.failure_rate);
    assert_eq!(a.len(), b.len());
    for (x, y) in a.iter().zip(b.iter()) {
        assert_eq!((x.wbanno, x.utc_datetime), (y.wbanno, y.utc_datetime));
        assert_eq!(x.t_hr_avg, y.t_hr_avg);
        assert_eq!(x.crx_version, y.crx_version);
    }
}
