use jsite::pages::{rank_order, split_rank};
use jsite::pipeline::{failure_response, PipelineFailure};

#[test]
fn timed_out_response() {
    let (code, body) = failure_response(&PipelineFailure::TimedOut);
    assert_eq!(code, 408);
    assert_eq!(body, "request timed out");
}

#[test]
fn overloaded_response() {
    let (code, body) = failure_response(&PipelineFailure::Overloaded);
    assert_eq!(code, 503);
    assert_eq!(body, "service is overloaded, try again later");
}

#[test]
fn other_failure_response() {
    let (code, body) = failure_response(&PipelineFailure::Other(String::from("boom")));
    assert_eq!(code, 500);
    assert_eq!(body, "Unhandled internal error: boom");
}

#[test]
fn ranked_name_splits() {
    assert_eq!(split_rank("10notes"), Some((10, String::from("notes"))));
}

#[test]
fn unranked_name_sorts_last() {
    assert_eq!(split_rank("about"), Some((u32::MAX, String::from("about"))));
}

#[test]
fn all_digit_name_gives_up_its_last_digit() {
    assert_eq!(split_rank("123"), Some((12, String::from("3"))));
}

#[test]
fn empty_name_is_no_page() {
    assert_eq!(split_rank(""), None);
}

#[test]
fn oversized_rank_saturates() {
    assert_eq!(
        split_rank("99999999999999999999x"),
        Some((u32::MAX, String::from("x")))
    );
}

#[test]
fn listing_order_is_stable_by_rank() {
    assert_eq!(rank_order(&vec![5, 1, 5, 0]), vec![3, 1, 0, 2]);
    assert_eq!(rank_order(&vec![]), Vec::<usize>::new());
    assert_eq!(rank_order(&vec![7, 7, 7]), vec![0, 1, 2]);
}

#[test]
fn zero_padded_rank_parses() {
    assert_eq!(split_rank("007bond"), Some((7, String::from("bond"))));
}
