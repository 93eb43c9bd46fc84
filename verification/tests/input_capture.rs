use speech_opt::capture::{capture_plan, check_format, plan_captures, CapturePlan};
use speech_opt::span_bound::human_duration_in_range;
use speech_opt::duration::Duration;
use speech_opt::input::{check_plain_value, Checker};

#[test]
fn plain_checks() {
    let keys = vec!["low".to_string(), "high".to_string()];
    assert_eq!(check_plain_value(Checker::Text, "anything", &keys), Some(true));
    assert_eq!(check_plain_value(Checker::Boolean, "true", &keys), Some(true));
    assert_eq!(check_plain_value(Checker::Boolean, "false", &keys), Some(true));
    assert_eq!(check_plain_value(Checker::Boolean, "True", &keys), Some(false));
    assert_eq!(check_plain_value(Checker::TextRange, "high", &keys), Some(true));
    assert_eq!(check_plain_value(Checker::TextRange, "mid", &keys), Some(false));
    assert_eq!(check_plain_value(Checker::Number, "1.5", &keys), None);
    assert_eq!(check_plain_value(Checker::NumberRange, "1.5", &keys), None);
}

#[test]
fn capture_plan_counts_shots() {
    let plan = plan_captures("ts_%Y_%m_%d-%H_%M_%S.png", "5 minutes", "2 hours");
    assert_eq!(
        plan,
        Some(CapturePlan::Run { interval: Duration::new(300, 0), times: 24 })
    );
}

#[test]
fn capture_plan_rejections() {
    assert_eq!(plan_captures("ts.png", "five minutes", "2 hours"), Some(CapturePlan::Rejected));
    assert_eq!(plan_captures("ts.png", "5 minutes", ""), Some(CapturePlan::Rejected));
    assert_eq!(plan_captures("ts_%", "5 minutes", "2 hours"), Some(CapturePlan::Rejected));
    assert_eq!(plan_captures("ts.png", "5 minutes", "0"), Some(CapturePlan::Idle));
    assert_eq!(plan_captures("ts.png", "500us", "2 hours"), None);
}

#[test]
fn capture_plan_from_spans() {
    let every = Duration::from_millis(1_500);
    let stop = Duration::from_millis(10_000);
    assert_eq!(
        capture_plan(Some(every), Some(stop), true),
        CapturePlan::Run { interval: every, times: 6 }
    );
    assert_eq!(capture_plan(None, Some(stop), true), CapturePlan::Rejected);
    assert_eq!(capture_plan(Some(every), Some(stop), false), CapturePlan::Rejected);
}

#[test]
fn strftime_formats() {
    assert!(check_format("ts_%Y_%m_%d-%H_%M_%S.png"));
    assert!(check_format("plain.png"));
    assert!(!check_format("ts_%"));
}

#[test]
fn human_duration_bound() {
    assert!(human_duration_in_range("5 minutes"));
    assert!(human_duration_in_range("2h 37min 1.5s"));
    assert!(human_duration_in_range("18446744073709551615s"));
    assert!(human_duration_in_range(""));
    assert!(!human_duration_in_range("18446744073709551615s 1000000000ns"));
    assert!(!human_duration_in_range("18446744073709551615.5s"));
    assert!(!human_duration_in_range("18446744073709551615s 999999999ns 1ns"));
    assert!(human_duration_in_range("18446744073709551615s 999999999ns"));
    assert!(human_duration_in_range("99999999999999999999ns"));
    assert!(human_duration_in_range("600000000000y"));
    assert!(human_duration_in_range("18446744073709551615s 5 fortnights"));
}

#[test]
fn capture_plan_huge_stop() {
    assert_eq!(
        plan_captures("ts.png", "1s", "18446744073709551615s"),
        Some(CapturePlan::Run { interval: Duration::new(1, 0), times: 18446744073709551615 })
    );
}

#[test]
fn capture_plan_refused_spans() {
    assert_eq!(plan_captures("ts.png", "5 minutes", "600000000000y"), Some(CapturePlan::Rejected));
    assert_eq!(
        plan_captures("ts.png", "99999999999999999999ns", "2 hours"),
        Some(CapturePlan::Rejected)
    );
}
