use maaweb_server::cron::{cron_matches, parse_cron, validate_cron, CronError, CronTime};

fn at(minute: i32, hour: i32, day: i32, month: i32, weekday: i32) -> CronTime {
    CronTime { second: 0, minute, hour, day, month, weekday }
}

#[test]
fn daily_nine_oclock_parses() {
    assert_eq!(parse_cron("0 9 * * *"), Ok((Some(0), Some(9), None, None, None)));
}

#[test]
fn daily_nine_oclock_matches_every_day_at_nine() {
    assert!(cron_matches("0 9 * * *", at(0, 9, 1, 1, 0)));
    assert!(cron_matches("0 9 * * *", at(0, 9, 28, 12, 6)));
    assert!(!cron_matches("0 9 * * *", at(1, 9, 28, 12, 6)));
    assert!(!cron_matches("0 9 * * *", at(0, 10, 28, 12, 6)));
}

#[test]
fn all_stars_match_any_time() {
    assert!(cron_matches("* * * * *", at(59, 23, 31, 12, 6)));
    assert!(cron_matches("* * * * *", at(0, 0, 1, 1, 0)));
}

#[test]
fn weekday_field_counts_from_monday() {
    assert!(cron_matches("30 8 * * 0", at(30, 8, 5, 3, 0)));
    assert!(!cron_matches("30 8 * * 0", at(30, 8, 5, 3, 1)));
}

#[test]
fn wrong_field_count_is_refused() {
    assert_eq!(parse_cron("0 9 * *"), Err(CronError::FieldCount));
    assert_eq!(parse_cron("0 9 * * * *"), Err(CronError::FieldCount));
    assert_eq!(parse_cron(""), Err(CronError::FieldCount));
    assert_eq!(parse_cron("   "), Err(CronError::FieldCount));
}

#[test]
fn first_bad_field_is_reported() {
    assert_eq!(parse_cron("0 nine x * *"), Err(CronError::InvalidValue("nine".to_string())));
    assert_eq!(parse_cron("*/5 * * * *"), Err(CronError::InvalidValue("*/5".to_string())));
}

#[test]
fn fields_split_on_any_unicode_whitespace() {
    assert_eq!(parse_cron("  0\t9\n*\u{3000}*  * "), Ok((Some(0), Some(9), None, None, None)));
}

#[test]
fn numbers_follow_i32_parsing() {
    assert_eq!(parse_cron("+5 -1 007 * *"), Ok((Some(5), Some(-1), Some(7), None, None)));
    assert_eq!(
        parse_cron("-2147483648 2147483647 * * *"),
        Ok((Some(i32::MIN), Some(i32::MAX), None, None, None))
    );
    assert_eq!(parse_cron("2147483648 * * * *"), Err(CronError::InvalidValue("2147483648".to_string())));
    assert_eq!(parse_cron("- * * * *"), Err(CronError::InvalidValue("-".to_string())));
    assert_eq!(parse_cron("+ * * * *"), Err(CronError::InvalidValue("+".to_string())));
    assert_eq!(parse_cron("１ * * * *"), Err(CronError::InvalidValue("１".to_string())));
}

#[test]
fn validate_agrees_with_parse() {
    assert!(validate_cron("0 9 * * *").is_ok());
    assert_eq!(validate_cron("0 9 * *"), Err(CronError::FieldCount));
}

#[test]
fn invalid_cron_never_matches() {
    assert!(!cron_matches("0 9 * *", at(0, 9, 1, 1, 0)));
    assert!(!cron_matches("a b c d e", at(0, 9, 1, 1, 0)));
}

#[test]
fn error_messages() {
    assert_eq!(CronError::FieldCount.message(), "cron 表达式必须为 5 段：分 时 日 月 星期");
    assert_eq!(CronError::InvalidValue("x".to_string()).message(), "无效的 cron 数值: x");
}
