use better_launcher::arith::{
    evaluate_math_expression, evaluate_prepared, is_integer_token, prepare_expression,
    MAX_EXPRESSION_LEN,
};

fn chars(s: &str) -> Vec<char> {
    s.chars().collect()
}

#[test]
fn division_is_not_truncated() {
    assert_eq!(evaluate_math_expression("7/2"), Some("3.5".to_string()));
}

#[test]
fn whole_results_have_no_decimal_point() {
    assert_eq!(evaluate_math_expression("2+2"), Some("4".to_string()));
    assert_eq!(evaluate_math_expression("3*3"), Some("9".to_string()));
    assert_eq!(evaluate_math_expression("8/2"), Some("4".to_string()));
    assert_eq!(evaluate_math_expression("(1 + 2) * 3 - 4"), Some("5".to_string()));
}

#[test]
fn words_are_no_arithmetic() {
    assert_eq!(evaluate_math_expression("banana"), None);
    assert_eq!(evaluate_math_expression("firefox"), None);
    assert_eq!(evaluate_math_expression("2 apples"), None);
    assert_eq!(evaluate_math_expression("a/b"), None);
}

#[test]
fn broken_arithmetic_has_no_answer() {
    assert_eq!(evaluate_math_expression("2+"), None);
    assert_eq!(evaluate_math_expression("(2+3"), None);
    assert_eq!(evaluate_math_expression("*"), None);
    assert_eq!(evaluate_math_expression("1 2"), None);
}

#[test]
fn mixed_expressions_are_evaluated() {
    assert_eq!(evaluate_math_expression("10 / 4 + 1"), Some("3.5".to_string()));
    assert_eq!(evaluate_math_expression("1.5/2"), Some("0.75".to_string()));
    assert_eq!(evaluate_math_expression("(7)/2"), Some("3.5".to_string()));
    assert_eq!(evaluate_math_expression("1/2/2"), Some("0.25".to_string()));
    assert_eq!(evaluate_math_expression("2^3"), Some("8".to_string()));
    assert_eq!(evaluate_math_expression("7%4"), Some("3".to_string()));
}

#[test]
fn a_query_without_a_division_is_taken_as_it_stands() {
    assert_eq!(prepare_expression("2+2"), "2+2");
    assert_eq!(prepare_expression("  12 * 3 "), "  12 * 3 ");
    assert_eq!(prepare_expression(""), "");
    assert_eq!(prepare_expression("banana"), "banana");
}

#[test]
fn whole_numbers_beside_a_division_become_decimals() {
    assert_eq!(prepare_expression("7/2"), "7.0/2.0");
    assert_eq!(prepare_expression("7 /2"), "7.0/2.0");
    assert_eq!(prepare_expression("7\t/\t2"), "7.0/2.0");
    assert_eq!(prepare_expression("  7 / 2  "), "7.0/2.0");
    assert_eq!(prepare_expression("10 / 4 + 1"), "10.0/4.0 + 1.0");
    assert_eq!(prepare_expression("1/2/3"), "1.0/2.0/3.0");
    assert_eq!(prepare_expression("007/-2"), "007.0/-2.0");
    assert_eq!(prepare_expression("+5/1"), "+5.0/1.0");
}

#[test]
fn other_words_beside_a_division_stay() {
    assert_eq!(prepare_expression("1.5/2"), "1.5/2.0");
    assert_eq!(prepare_expression("(7)/2"), "(7)/2.0");
    assert_eq!(prepare_expression("a/b"), "a/b");
    assert_eq!(prepare_expression("/"), "/");
    assert_eq!(prepare_expression("1 / / 2"), "1.0// 2.0");
    assert_eq!(prepare_expression("1+2/3"), "1+2/3.0");
}

#[test]
fn only_numbers_of_64_bits_are_whole_numbers() {
    assert_eq!(prepare_expression("9223372036854775807/1"), "9223372036854775807.0/1.0");
    assert_eq!(prepare_expression("9223372036854775808/1"), "9223372036854775808/1.0");
    assert_eq!(prepare_expression("-9223372036854775808/1"), "-9223372036854775808.0/1.0");
    assert_eq!(prepare_expression("-9223372036854775809/1"), "-9223372036854775809/1.0");
    assert_eq!(
        prepare_expression("123456789012345678901234567890123456789012345678901234567890/1"),
        "123456789012345678901234567890123456789012345678901234567890/1.0"
    );
}

#[test]
fn integer_tokens_are_what_the_standard_library_parses() {
    for t in [
        "0", "7", "-7", "+7", "007", "-0", "9223372036854775807", "-9223372036854775808",
        "+9223372036854775807", "00000000000000000000000000000000000001",
    ] {
        assert!(is_integer_token(&chars(t)), "{:?}", t);
        assert!(t.parse::<i64>().is_ok(), "{:?}", t);
    }
    for t in [
        "", "-", "+", "--1", "+-1", "1-", "1.0", ".5", "1e3", "0x10", " 1", "1 ", "1_000",
        "9223372036854775808", "-9223372036854775809", "+9223372036854775808", "٣", "１",
    ] {
        assert!(!is_integer_token(&chars(t)), "{:?}", t);
        assert!(t.parse::<i64>().is_err(), "{:?}", t);
    }
}

#[test]
fn only_the_characters_of_arithmetic_reach_the_evaluator() {
    assert_eq!(evaluate_prepared("1+1"), Some("2".to_string()));
    assert_eq!(evaluate_prepared("true"), None);
    assert_eq!(evaluate_prepared("x = 1"), None);
    assert_eq!(evaluate_prepared("\"text\""), None);
    assert_eq!(evaluate_prepared("1 < 2"), None);
    assert_eq!(evaluate_prepared("1, 2"), None);
}

#[test]
fn the_evaluator_answers_or_declines_every_short_text_of_arithmetic() {
    let alphabet = ['1', '9', '0', '.', '+', '-', '*', '/', '%', '^', '(', ')', ' '];
    let mut texts: Vec<String> = vec![String::new()];
    let mut answered = 0usize;
    for _ in 0..4 {
        let mut longer = Vec::new();
        for t in &texts {
            for c in alphabet {
                let mut s = t.clone();
                s.push(c);
                if evaluate_math_expression(&s).is_some() {
                    answered += 1;
                }
                longer.push(s);
            }
        }
        texts = longer;
    }
    assert!(answered > 0);
}

#[test]
fn numbers_at_the_limits_do_not_break_the_evaluator() {
    assert_eq!(evaluate_math_expression("9223372036854775807+1"), None);
    assert_eq!(evaluate_math_expression("-9223372036854775807-2"), None);
    assert_eq!(evaluate_math_expression("9223372036854775807*2"), None);
    assert_eq!(
        evaluate_math_expression("-9223372036854775807-1"),
        Some("-9223372036854775808".to_string())
    );
    assert_eq!(evaluate_math_expression("-(-9223372036854775807-1)"), None);
    assert_eq!(evaluate_math_expression("(-9223372036854775807-1)%(0-1)"), None);
    assert_eq!(evaluate_math_expression("1%0"), None);
    assert_eq!(evaluate_math_expression("1/0"), Some("inf".to_string()));
    assert_eq!(evaluate_math_expression("0/0"), Some("NaN".to_string()));
}

#[test]
fn nesting_and_long_sums_are_evaluated() {
    let depth = 100;
    let text = format!("{}1{}", "(".repeat(depth), ")".repeat(depth));
    assert_eq!(evaluate_math_expression(&text), Some("1".to_string()));
    let sum = vec!["1"; 128].join("+");
    assert_eq!(sum.len(), 255);
    assert_eq!(evaluate_math_expression(&sum), Some("128".to_string()));
}

#[test]
fn an_expression_beyond_the_limit_has_no_answer() {
    assert_eq!(MAX_EXPRESSION_LEN, 256);
    let at_limit = format!("{}+1", "1".repeat(3).repeat(84) + "11");
    assert_eq!(at_limit.len(), 256);
    assert!(evaluate_prepared(&at_limit).is_some());
    let beyond = format!("{} ", at_limit);
    assert_eq!(evaluate_prepared(&beyond), None);
    assert_eq!(evaluate_math_expression(&beyond), None);
    let long_sum = vec!["1"; 200_000].join("+");
    assert_eq!(evaluate_math_expression(&long_sum), None);
    let grows = vec!["1"; 100].join("/");
    assert_eq!(grows.len(), 199);
    assert_eq!(prepare_expression(&grows).len(), 399);
    assert_eq!(evaluate_math_expression(&grows), None);
}
