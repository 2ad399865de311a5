use canvashare_server::models::text::{
    count_text, label, starts_with_slash, to_decimal, visitors_text,
};

#[test]
fn decimal_of_small_and_large_numbers() {
    assert_eq!(to_decimal(0), "0");
    assert_eq!(to_decimal(7), "7");
    assert_eq!(to_decimal(9), "9");
    assert_eq!(to_decimal(10), "10");
    assert_eq!(to_decimal(1234567890), "1234567890");
    assert_eq!(to_decimal(usize::MAX), usize::MAX.to_string());
}

#[test]
fn decimal_agrees_with_the_standard_formatting() {
    for n in 0..2000usize {
        assert_eq!(to_decimal(n), n.to_string());
    }
}

#[test]
fn visitors_notice_names_the_count() {
    assert_eq!(visitors_text(0), "Total visitors 0");
    assert_eq!(visitors_text(105), "Total visitors 105");
}

#[test]
fn count_line_names_the_count() {
    assert_eq!(count_text(0), "Visitors: 0");
    assert_eq!(count_text(31), "Visitors: 31");
}

#[test]
fn label_puts_name_colon_space_before_the_line() {
    assert_eq!(label("ann", "hello"), "ann: hello");
    assert_eq!(label("", ""), ": ");
    assert_eq!(label("zoë", "ça va"), "zoë: ça va");
}

#[test]
fn only_a_leading_slash_makes_a_command() {
    assert!(starts_with_slash("/"));
    assert!(starts_with_slash("/join blue"));
    assert!(!starts_with_slash(""));
    assert!(!starts_with_slash(" /join"));
    assert!(!starts_with_slash("a/b"));
    assert!(!starts_with_slash("é/"));
}
