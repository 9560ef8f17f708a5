use gateway_core::arith;
use gateway_core::arrays::{product_except_self, replace_elements, two_sum};
use gateway_core::numparse::{parse_number, IntParseError};
use gateway_core::packet::Packet;
use gateway_core::runs::longest_consecutive;
use gateway_core::text::{is_alphanumeric_palindrome, join_non_empty, parse_kv_line};
use gateway_core::topk::top_k_frequent;

#[test]
fn test_add() {
    assert_eq!(arith::add(2, 3), 5);
}

#[test]
fn test_divide_by_zero() {
    assert_eq!(arith::divide(10, 0), None);
}

#[test]
fn test_multiply_basic() {
    assert_eq!(arith::multiply(2, 3), 6);
}

#[test]
fn divide_truncates_toward_zero() {
    assert_eq!(arith::divide(7, 2), Some(3));
    assert_eq!(arith::divide(-7, 2), Some(-3));
    assert_eq!(arith::divide(7, -2), Some(-3));
    assert_eq!(arith::divide(-7, -2), Some(3));
}

#[test]
fn max_of_slice() {
    let nums = vec![34, 50, 25, 100, 65];
    assert_eq!(arith::max(&nums), Some(&100));
    let empty: Vec<i32> = vec![];
    assert_eq!(arith::max(&empty), None);
}

#[test]
fn two_sum_finds_first_pair() {
    assert_eq!(two_sum(vec![2, 7, 11, 15], 9), Some(vec![0, 1]));
    assert_eq!(two_sum(vec![3, 2, 4], 6), Some(vec![1, 2]));
    assert_eq!(two_sum(vec![1, 2, 3], 100), None);
}

#[test]
fn replace_elements_with_suffix_max() {
    assert_eq!(
        replace_elements(vec![17, 18, 5, 4, 6, 1]),
        vec![18, 6, 6, 6, 1, -1]
    );
    assert_eq!(replace_elements(vec![]), Vec::<i32>::new());
}

#[test]
fn product_except_self_basic() {
    assert_eq!(product_except_self(vec![1, 2, 3, 4]), vec![24, 12, 8, 6]);
    assert_eq!(product_except_self(vec![]), Vec::<i32>::new());
}

#[test]
fn top_k_frequent_picks_most_frequent() {
    assert_eq!(top_k_frequent(vec![1, 1, 1, 2, 2, 3], 2), vec![1, 2]);
    let all = top_k_frequent(vec![5, 5, 9], 10);
    assert_eq!(all.len(), 2);
    assert!(all.contains(&5) && all.contains(&9));
}

#[test]
fn longest_consecutive_run() {
    assert_eq!(longest_consecutive(vec![100, 4, 200, 1, 3, 2]), 4);
    assert_eq!(longest_consecutive(vec![]), 0);
    assert_eq!(longest_consecutive(vec![7]), 1);
    assert_eq!(longest_consecutive(vec![2, 2, 3]), 2);
}

#[test]
fn join_skips_empty_parts() {
    assert_eq!(join_non_empty(&["api", "v1", "", "users"], "/"), "api/v1/users");
    assert_eq!(join_non_empty(&[], "/"), "");
    assert_eq!(join_non_empty(&["", ""], "/"), "");
}

#[test]
fn parse_kv_line_trims_and_rejects() {
    assert_eq!(parse_kv_line("token=abc123", '='), Some(("token", "abc123")));
    assert_eq!(parse_kv_line(" k = v ", '='), Some(("k", "v")));
    assert_eq!(parse_kv_line("novalue", '='), None);
    assert_eq!(parse_kv_line("k=", '='), None);
    assert_eq!(parse_kv_line("= v", '='), None);
}

#[test]
fn alphanumeric_palindromes() {
    assert!(is_alphanumeric_palindrome("A man, a plan, a canal: Panama"));
    assert!(!is_alphanumeric_palindrome("race a car"));
    assert!(is_alphanumeric_palindrome(""));
    assert!(is_alphanumeric_palindrome("?!"));
}

#[test]
fn parse_number_values_and_errors() {
    assert_eq!(parse_number("8"), Ok(8));
    assert_eq!(parse_number(" 42 "), Ok(42));
    assert_eq!(parse_number("+7"), Ok(7));
    assert_eq!(parse_number("-2147483648"), Ok(i32::MIN));
    assert_eq!(parse_number("2147483647"), Ok(i32::MAX));
    assert_eq!(parse_number("dp"), Err(IntParseError::InvalidDigit));
    assert_eq!(parse_number(""), Err(IntParseError::Empty));
    assert_eq!(parse_number("+"), Err(IntParseError::InvalidDigit));
    assert_eq!(parse_number("2147483648"), Err(IntParseError::PosOverflow));
    assert_eq!(parse_number("-2147483649"), Err(IntParseError::NegOverflow));
}

#[test]
fn packet_port_parsing() {
    let mut pkt = Packet {
        src: "192.168.1.1".to_string(),
        dst: "192.168.1.2".to_string(),
        port: "8080".to_string(),
        payload: vec![1, 2, 3],
    };
    assert_eq!(pkt.parse_port(), Some(8080));
    pkt.port = "99999".to_string();
    assert_eq!(pkt.parse_port(), None);
    pkt.port = "abc".to_string();
    assert_eq!(pkt.parse_port(), None);
    pkt.port = "+443".to_string();
    assert_eq!(pkt.parse_port(), Some(443));
}
