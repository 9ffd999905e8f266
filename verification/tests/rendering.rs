use fpl_checker::api::{bootstrap_url_string, entry_url_string, picks_url_string};
use fpl_checker::models::ValidationResult;
use fpl_checker::text::{i64_to_string, price_to_string, u64_to_string};
use fpl_checker::validators::process_validation_results;

#[test]
fn prices_render_with_at_most_one_decimal_digit() {
    assert_eq!(price_to_string(140), "14");
    assert_eq!(price_to_string(105), "10.5");
    assert_eq!(price_to_string(75), "7.5");
    assert_eq!(price_to_string(0), "0");
    assert_eq!(price_to_string(9), "0.9");
}

#[test]
fn unsigned_numbers_render_in_decimal() {
    assert_eq!(u64_to_string(0), "0");
    assert_eq!(u64_to_string(7), "7");
    assert_eq!(u64_to_string(1234567890), "1234567890");
    assert_eq!(u64_to_string(u64::MAX), "18446744073709551615");
}

#[test]
fn signed_numbers_render_in_decimal() {
    assert_eq!(i64_to_string(866231), "866231");
    assert_eq!(i64_to_string(-105), "-105");
    assert_eq!(i64_to_string(0), "0");
    assert_eq!(i64_to_string(i64::MIN), "-9223372036854775808");
}

#[test]
fn request_urls_embed_the_ids() {
    assert_eq!(bootstrap_url_string(), "https://fantasy.premierleague.com/api/bootstrap-static/");
    assert_eq!(entry_url_string(866231), "https://fantasy.premierleague.com/api/entry/866231/");
    assert_eq!(
        picks_url_string(866231, 2),
        "https://fantasy.premierleague.com/api/entry/866231/event/2/picks/"
    );
}

#[test]
fn an_empty_violation_list_reports_that_nothing_was_broken() {
    assert_eq!(process_validation_results(Vec::new()), "No rules have been broken... boring!");
}

#[test]
fn violations_are_joined_with_blank_lines() {
    let violations = vec![
        ValidationResult::invalid("first reason"),
        ValidationResult::invalid("second reason"),
    ];
    assert_eq!(process_validation_results(violations), "first reason\n\nsecond reason\n\n");
}

#[test]
fn valid_results_are_left_out_of_the_report() {
    let results = vec![ValidationResult::valid(), ValidationResult::invalid("only this")];
    assert_eq!(process_validation_results(results), "only this\n\n");
}
