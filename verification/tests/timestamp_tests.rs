use reauthor::text::{chars_of, ends_with, join_with_breaks, shell_quote, text_of};
use reauthor::timestamp::{
    commit_date, parse_timestamp, timestamp_text, TimestampError, MAX_SECONDS, MIN_SECONDS,
};

#[test]
fn timestamp_round_trip() {
    assert_eq!(parse_timestamp("1702435437"), Some(1702435437));
    assert_eq!(
        commit_date("1702435437"),
        Ok("Wed Dec 13 02:43:57 2023 +0000".to_string())
    );
}

#[test]
fn parse_agrees_with_the_standard_reading() {
    let samples = [
        "", "0", "-0", "+0", "7", "+5", "-5", "007", "-007", "+", "-", "--1", "+-1", "1-", " 1",
        "1 ", "1_000", "1.5", "0x10", "12a", "a12", "١٢", "1702435437", "9223372036854775807",
        "9223372036854775808", "-9223372036854775808", "-9223372036854775809",
        "+9223372036854775807", "00000000000000000000000000000009223372036854775807",
        "99999999999999999999999999999999999999999999", "-99999999999999999999999999999999999",
        "18446744073709551616", "340282366920938463463374607431768211456",
    ];
    for sample in samples {
        assert_eq!(parse_timestamp(sample), sample.parse::<i64>().ok(), "{}", sample);
    }
}

#[test]
fn timestamp_text_agrees_with_the_standard_writing() {
    let samples = [
        0i64, 1, -1, 9, 10, -10, 99, 100, 1702435437, -1702435437, i64::MAX, i64::MIN,
        i64::MAX - 1, i64::MIN + 1,
    ];
    for sample in samples {
        assert_eq!(timestamp_text(sample), sample.to_string());
        assert_eq!(parse_timestamp(&timestamp_text(sample)), Some(sample));
    }
}

#[test]
fn the_calendar_ends_where_chrono_ends() {
    assert_eq!(MIN_SECONDS, -8_334_601_228_800);
    assert_eq!(MAX_SECONDS, 8_210_266_876_799);
    assert_eq!(
        commit_date(&MAX_SECONDS.to_string()),
        Ok("Mon Dec 31 23:59:59 +262142 +0000".to_string())
    );
    assert_eq!(
        commit_date(&(MAX_SECONDS + 1).to_string()),
        Err(TimestampError::OutOfRange)
    );
    assert_eq!(
        commit_date(&MIN_SECONDS.to_string()),
        Ok("Thu Jan  1 00:00:00 -262143 +0000".to_string())
    );
    assert_eq!(
        commit_date(&(MIN_SECONDS - 1).to_string()),
        Err(TimestampError::OutOfRange)
    );
    assert_eq!(commit_date(&i64::MAX.to_string()), Err(TimestampError::OutOfRange));
    assert_eq!(commit_date(&i64::MIN.to_string()), Err(TimestampError::OutOfRange));
}

#[test]
fn dates_are_in_utc_with_a_padded_day() {
    assert_eq!(commit_date("0"), Ok("Thu Jan  1 00:00:00 1970 +0000".to_string()));
    assert_eq!(commit_date("-1"), Ok("Wed Dec 31 23:59:59 1969 +0000".to_string()));
    assert_eq!(commit_date("1702435549"), Ok("Wed Dec 13 02:45:49 2023 +0000".to_string()));
    assert_eq!(commit_date("951782400"), Ok("Tue Feb 29 00:00:00 2000 +0000".to_string()));
}

#[test]
fn malformed_timestamps_are_told_apart_from_far_ones() {
    assert_eq!(commit_date(""), Err(TimestampError::Malformed));
    assert_eq!(commit_date("12 "), Err(TimestampError::Malformed));
    assert_eq!(commit_date("9223372036854775808"), Err(TimestampError::Malformed));
    assert_eq!(commit_date("9223372036854775807"), Err(TimestampError::OutOfRange));
}

#[test]
fn shell_quote_wraps_and_escapes() {
    assert_eq!(shell_quote(""), "''");
    assert_eq!(shell_quote("plain"), "'plain'");
    assert_eq!(shell_quote("it's"), "'it'\\''s'");
    assert_eq!(shell_quote("'"), "''\\'''");
    assert_eq!(shell_quote("a b$c\"d\\e"), "'a b$c\"d\\e'");
    assert_eq!(shell_quote("é'ü"), "'é'\\''ü'");
}

#[test]
fn ends_with_agrees_with_the_standard_test() {
    let texts = ["", "a", "todo", "git-rebase-todo", "x/git-rebase-todo", "git-rebase-todo2", "é"];
    for text in texts {
        for suffix in texts {
            assert_eq!(ends_with(text, suffix), text.ends_with(suffix), "{} {}", text, suffix);
        }
    }
}

#[test]
fn characters_go_in_and_out() {
    let chars = chars_of("héllo");
    assert_eq!(chars, vec!['h', 'é', 'l', 'l', 'o']);
    assert_eq!(text_of(&chars, 5), "héllo");
    assert_eq!(text_of(&chars, 2), "hé");
    assert_eq!(text_of(&chars, 0), "");
}

#[test]
fn join_puts_breaks_between_lines_only() {
    assert_eq!(join_with_breaks(&Vec::new()), "");
    assert_eq!(join_with_breaks(&vec!["a".to_string()]), "a");
    assert_eq!(join_with_breaks(&vec!["a".to_string(), "".to_string(), "b".to_string()]), "a\n\nb");
    let lines = vec!["x".to_string(), "y".to_string(), "z".to_string()];
    assert_eq!(join_with_breaks(&lines), lines.join("\n"));
}
