use erd::filter::{contains_name, exclude_table, include_table, should_include, str_eq};
use erd::text::{decimal, split_commas, trim_braces};

#[test]
fn str_eq_basic() {
    assert!(str_eq("users", "users"));
    assert!(!str_eq("users", "user"));
    assert!(!str_eq("users", "users2"));
    assert!(str_eq("", ""));
}

#[test]
fn contains_name_basic() {
    let names = vec!["a".to_string(), "b".to_string()];
    assert!(contains_name(&names, "a"));
    assert!(contains_name(&names, "b"));
    assert!(!contains_name(&names, "c"));
    assert!(!contains_name(&Vec::new(), "a"));
}

#[test]
fn include_defaults_to_true_without_list() {
    assert!(include_table("anything", &None));
    assert!(include_table("a", &Some(vec!["a".to_string()])));
    assert!(!include_table("b", &Some(vec!["a".to_string()])));
}

#[test]
fn exclude_defaults_to_false_without_list() {
    assert!(!exclude_table("anything", &None));
    assert!(exclude_table("a", &Some(vec!["a".to_string()])));
    assert!(!exclude_table("b", &Some(vec!["a".to_string()])));
}

#[test]
fn exclusion_wins_over_inclusion() {
    let inc = Some(vec!["a".to_string()]);
    let exc = Some(vec!["a".to_string()]);
    assert!(!should_include("a", &inc, &exc));
    assert!(should_include("a", &inc, &None));
    assert!(should_include("a", &None, &None));
    assert!(!should_include("b", &inc, &None));
}

#[test]
fn trim_braces_strips_both_ends() {
    assert_eq!(trim_braces("{a,b}"), "a,b");
    assert_eq!(trim_braces("{{x}}"), "x");
    assert_eq!(trim_braces("plain"), "plain");
    assert_eq!(trim_braces(""), "");
    assert_eq!(trim_braces("{}"), "");
}

#[test]
fn split_commas_pieces() {
    assert_eq!(split_commas("a,b"), vec!["a".to_string(), "b".to_string()]);
    assert_eq!(split_commas("one"), vec!["one".to_string()]);
    assert_eq!(split_commas(""), vec!["".to_string()]);
    assert_eq!(
        split_commas("a,,c"),
        vec!["a".to_string(), "".to_string(), "c".to_string()]
    );
}

#[test]
fn decimal_digits() {
    assert_eq!(decimal(0), "0");
    assert_eq!(decimal(9), "9");
    assert_eq!(decimal(30), "30");
    assert_eq!(decimal(1234), "1234");
    assert_eq!(decimal(u32::MAX), "4294967295");
}
