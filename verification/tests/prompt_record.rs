use prompt_record::parse::parse_age;
use prompt_record::parse::parse_digits;
use prompt_record::parse::parse_u32;
use prompt_record::parse::trim;
use prompt_record::person::Person;
use prompt_record::screen::clear_command;

#[test]
fn age_parses_to_exact_value() {
    assert_eq!(parse_age("30"), Some(30));
    assert_eq!(parse_age("30\n"), Some(30));
    assert_eq!(parse_age("  17 \r\n"), Some(17));
    assert_eq!(parse_age("0"), Some(0));
    assert_eq!(parse_age("007"), Some(7));
}

#[test]
fn age_accepts_plus_sign() {
    assert_eq!(parse_age("+30\n"), Some(30));
    assert_eq!(parse_u32("+0"), Some(0));
    assert_eq!(parse_u32("+"), None);
    assert_eq!(parse_u32("++1"), None);
}

#[test]
fn age_bounds() {
    assert_eq!(parse_age("4294967295\n"), Some(u32::MAX));
    assert_eq!(parse_age("4294967296\n"), None);
    assert_eq!(parse_age("99999999999999999999\n"), None);
}

#[test]
fn age_rejects_non_numerals() {
    assert_eq!(parse_age("abc\n"), None);
    assert_eq!(parse_age("\n"), None);
    assert_eq!(parse_age(""), None);
    assert_eq!(parse_age("-3\n"), None);
    assert_eq!(parse_age("12a\n"), None);
    assert_eq!(parse_age("3 0\n"), None);
}

#[test]
fn digits_only_reading_takes_no_sign() {
    assert_eq!(parse_digits("30"), Some(30));
    assert_eq!(parse_digits("+30"), None);
}

#[test]
fn trim_strips_surrounding_whitespace() {
    assert_eq!(trim("Maria\n"), "Maria");
    assert_eq!(trim("  a b \t\r\n"), "a b");
    assert_eq!(trim("abc"), "abc");
    assert_eq!(trim(" \n\t"), "");
    assert_eq!(trim(""), "");
}

#[test]
fn name_is_kept_pre_trim() {
    let p = Person::from_input(String::from("Maria\n"), "30\n").unwrap();
    assert_eq!(p.name, "Maria\n");
    assert_eq!(p.trimmed_name(), "Maria");
}

#[test]
fn record_from_sequential_inputs() {
    let p = Person::from_input(String::from("Joao\n"), "30\n").unwrap();
    assert!(p.name.contains("Joao"));
    assert_eq!(p.age, 30);
}

#[test]
fn record_refused_on_bad_age() {
    assert!(Person::from_input(String::from("Ana\n"), "trinta\n").is_none());
}

#[test]
fn clear_command_by_platform() {
    assert_eq!(clear_command(true), "cls");
    assert_eq!(clear_command(false), "clear");
}
