use spent_ledger::calendar::{month_range, parse_date, read_date, Timestamp};
use spent_ledger::error::{DateError, LedgerError, PeriodFault};

fn bounds(start: &str, end: &str) -> Result<(String, String), LedgerError> {
    Ok((start.to_string(), end.to_string()))
}

#[test]
fn month_range_of_a_leap_february() {
    assert_eq!(month_range("2024-02"), bounds("2024-02-01 00:00:00", "2024-02-29 23:59:59"));
}

#[test]
fn month_range_of_a_common_february() {
    assert_eq!(month_range("2023-02"), bounds("2023-02-01 00:00:00", "2023-02-28 23:59:59"));
}

#[test]
fn month_range_of_bad_text_is_a_validation_error() {
    let e = month_range("bad").unwrap_err();
    assert_eq!(e, LedgerError::InvalidPeriod(PeriodFault::Format));
    assert!(e.validation());
}

#[test]
fn month_range_century_years() {
    assert_eq!(month_range("1900-02").unwrap().1, "1900-02-28 23:59:59");
    assert_eq!(month_range("2000-02").unwrap().1, "2000-02-29 23:59:59");
    assert_eq!(month_range("2100-02").unwrap().1, "2100-02-28 23:59:59");
}

#[test]
fn month_range_month_lengths() {
    let days = [31, 28, 31, 30, 31, 30, 31, 31, 30, 31, 30, 31];
    for (i, d) in days.iter().enumerate() {
        let month = format!("2023-{:02}", i + 1);
        let (start, end) = month_range(&month).unwrap();
        assert_eq!(start, format!("2023-{:02}-01 00:00:00", i + 1));
        assert_eq!(end, format!("2023-{:02}-{:02} 23:59:59", i + 1, d));
    }
}

#[test]
fn month_range_accepts_plus_signs_and_short_numbers() {
    assert_eq!(month_range("+2024-3"), bounds("2024-03-01 00:00:00", "2024-03-31 23:59:59"));
    assert_eq!(month_range("2024-+4"), bounds("2024-04-01 00:00:00", "2024-04-30 23:59:59"));
    assert_eq!(month_range("0002024-012"), bounds("2024-12-01 00:00:00", "2024-12-31 23:59:59"));
    assert_eq!(month_range("0-1"), bounds("0000-01-01 00:00:00", "0000-01-31 23:59:59"));
    assert_eq!(month_range("33-2"), bounds("0033-02-01 00:00:00", "0033-02-28 23:59:59"));
}

#[test]
fn month_range_years_beyond_four_digits() {
    assert_eq!(month_range("10000-01"), bounds("+10000-01-01 00:00:00", "+10000-01-31 23:59:59"));
    assert_eq!(
        month_range("262142-11"),
        bounds("+262142-11-01 00:00:00", "+262142-11-30 23:59:59")
    );
}

#[test]
fn month_range_failures_by_part() {
    let format = Err(LedgerError::InvalidPeriod(PeriodFault::Format));
    let year = Err(LedgerError::InvalidPeriod(PeriodFault::Year));
    let month = Err(LedgerError::InvalidPeriod(PeriodFault::Month));
    assert_eq!(month_range(""), format);
    assert_eq!(month_range("202402"), format);
    assert_eq!(month_range("2024-02-01"), format);
    assert_eq!(month_range("-2024-02"), format);
    assert_eq!(month_range("2024--02"), format);
    assert_eq!(month_range("abcd-02"), year);
    assert_eq!(month_range("-02"), year);
    assert_eq!(month_range(" 2024-02"), year);
    assert_eq!(month_range("2147483648-01"), year);
    assert_eq!(month_range("99999999999999999999-01"), year);
    assert_eq!(month_range("2024-"), month);
    assert_eq!(month_range("2024-xx"), month);
    assert_eq!(month_range("2024-00"), month);
    assert_eq!(month_range("2024-13"), month);
    assert_eq!(month_range("2024-02 "), month);
    assert_eq!(month_range("2024-4294967296"), month);
    assert_eq!(month_range("2147483647-01"), month);
    assert_eq!(month_range("262143-01"), month);
}

#[test]
fn month_range_last_month_of_the_calendar_has_no_end() {
    assert_eq!(month_range("262142-12"), Err(LedgerError::InvalidPeriod(PeriodFault::Month)));
}

#[test]
fn date_plain() {
    assert_eq!(parse_date("2024-03-15"), Ok("2024-03-15 00:00:00".to_string()));
}

#[test]
fn date_month_day_year_with_slashes() {
    assert_eq!(parse_date("03/15/2024"), Ok("2024-03-15 00:00:00".to_string()));
}

#[test]
fn date_day_month_year_with_slashes() {
    assert_eq!(parse_date("15/03/2024"), Ok("2024-03-15 00:00:00".to_string()));
}

#[test]
fn date_year_month_day_with_slashes() {
    assert_eq!(parse_date("2024/03/15"), Ok("2024-03-15 00:00:00".to_string()));
}

#[test]
fn date_month_day_year_with_hyphens() {
    assert_eq!(parse_date("03-15-2024"), Ok("2024-03-15 00:00:00".to_string()));
}

#[test]
fn date_day_month_year_with_hyphens() {
    assert_eq!(parse_date("15-03-2024"), Ok("2024-03-15 00:00:00".to_string()));
}

#[test]
fn date_with_time_to_the_second() {
    assert_eq!(parse_date("2024-03-15 10:20:30"), Ok("2024-03-15 10:20:30".to_string()));
}

#[test]
fn date_with_time_to_the_minute() {
    assert_eq!(parse_date("03/15/2024 10:20"), Ok("2024-03-15 10:20:00".to_string()));
}

#[test]
fn date_ambiguous_text_goes_by_the_order_of_formats() {
    assert_eq!(parse_date("01/02/2024"), Ok("2024-01-02 00:00:00".to_string()));
    assert_eq!(parse_date("01-02-2024"), Ok("2024-01-02 00:00:00".to_string()));
}

#[test]
fn date_that_no_format_reads() {
    assert_eq!(parse_date("not a date"), Err(DateError::Unsupported));
    assert_eq!(parse_date(""), Err(DateError::Unsupported));
    assert_eq!(parse_date("2024-02-30"), Err(DateError::Unsupported));
    assert_eq!(parse_date("13/13/2024"), Err(DateError::Unsupported));
    assert_eq!(parse_date("2024-03-15T10:20:30"), Err(DateError::Unsupported));
}

#[test]
fn date_reading_gives_the_fields() {
    assert_eq!(
        read_date("03/15/2024"),
        Some(Timestamp { year: 2024, month: 3, day: 15, hour: 0, minute: 0, second: 0, nanosecond: 0 })
    );
    assert_eq!(
        read_date("2024-03-15 10:20:30"),
        Some(Timestamp { year: 2024, month: 3, day: 15, hour: 10, minute: 20, second: 30, nanosecond: 0 })
    );
    assert_eq!(read_date("nothing"), None);
}

#[test]
fn timestamp_validity() {
    let mut ts = Timestamp { year: 2024, month: 2, day: 29, hour: 10, minute: 5, second: 9, nanosecond: 0 };
    assert!(ts.valid());
    ts.year = 2023;
    assert!(!ts.valid());
    ts.day = 28;
    assert!(ts.valid());
    ts.hour = 24;
    assert!(!ts.valid());
    ts.hour = 23;
    ts.minute = 60;
    assert!(!ts.valid());
    ts.minute = 59;
    ts.second = 60;
    assert!(!ts.valid());
    ts.second = 58;
    ts.nanosecond = 1_000_000_000;
    assert!(!ts.valid());
    ts.second = 59;
    assert!(ts.valid());
    ts.nanosecond = 2_000_000_000;
    assert!(!ts.valid());
    ts.nanosecond = 0;
    ts.month = 13;
    assert!(!ts.valid());
    ts.month = 0;
    assert!(!ts.valid());
    ts.month = 1;
    ts.day = 0;
    assert!(!ts.valid());
    ts.day = 1;
    ts.year = 262143;
    assert!(!ts.valid());
    ts.year = 262142;
    assert!(ts.valid());
    ts.year = -262143;
    assert!(ts.valid());
    ts.year = -262144;
    assert!(!ts.valid());
}

#[test]
fn timestamp_text_and_month() {
    let ts = Timestamp { year: 2024, month: 2, day: 29, hour: 10, minute: 5, second: 9, nanosecond: 0 };
    assert_eq!(ts.text(), "2024-02-29 10:05:09");
    assert_eq!(ts.month(), "2024-02");
    let early = Timestamp { year: 7, month: 11, day: 3, hour: 0, minute: 0, second: 0, nanosecond: 0 };
    assert_eq!(early.text(), "0007-11-03 00:00:00");
    assert_eq!(early.month(), "0007-11");
    let before = Timestamp { year: -5, month: 1, day: 1, hour: 1, minute: 2, second: 3, nanosecond: 0 };
    assert_eq!(before.text(), "-0005-01-01 01:02:03");
    assert_eq!(before.month(), "-0005-01");
    let far = Timestamp { year: 12345, month: 12, day: 31, hour: 23, minute: 59, second: 59, nanosecond: 0 };
    assert_eq!(far.text(), "+12345-12-31 23:59:59");
    assert_eq!(far.month(), "+12345-12");
}

#[test]
fn timestamp_leap_second_is_written_as_sixty() {
    let ts = Timestamp {
        year: 2016,
        month: 12,
        day: 31,
        hour: 23,
        minute: 59,
        second: 59,
        nanosecond: 1_000_000_000,
    };
    assert!(ts.valid());
    assert_eq!(ts.text(), "2016-12-31 23:59:60");
}

#[test]
fn timestamp_now_is_a_moment() {
    let now = Timestamp::now();
    assert!(now.valid());
    assert!(now.year >= 2024);
    assert_eq!(now.text().len(), 19);
    assert_eq!(now.month().len(), 7);
    assert_eq!(parse_date(&now.text()), Ok(now.text()));
}

#[test]
fn written_timestamps_order_as_moments() {
    let moments = [
        (1999, 12, 31, 23, 59, 59),
        (2000, 1, 1, 0, 0, 0),
        (2024, 2, 29, 23, 59, 59),
        (2024, 3, 1, 0, 0, 0),
        (2024, 3, 1, 0, 0, 1),
        (2024, 3, 1, 0, 1, 0),
        (2024, 3, 1, 1, 0, 0),
        (2024, 3, 2, 0, 0, 0),
        (2024, 3, 31, 23, 59, 59),
        (2024, 4, 1, 0, 0, 0),
        (2024, 10, 9, 8, 7, 6),
        (9999, 12, 31, 23, 59, 59),
    ];
    let texts: Vec<String> = moments
        .iter()
        .map(|m| {
            Timestamp { year: m.0, month: m.1, day: m.2, hour: m.3, minute: m.4, second: m.5, nanosecond: 0 }
                .text()
        })
        .collect();
    for i in 0..moments.len() {
        for j in 0..moments.len() {
            assert_eq!(texts[i] < texts[j], moments[i] < moments[j], "{} {}", texts[i], texts[j]);
        }
    }
    let (start, end) = month_range("2024-03").unwrap();
    for (m, text) in moments.iter().zip(texts.iter()) {
        let inside = m.0 == 2024 && m.1 == 3;
        assert_eq!(text.starts_with("2024-03"), inside, "{}", text);
        assert_eq!(start <= *text && *text <= end, inside, "{}", text);
    }
}
