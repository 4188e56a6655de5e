use recipe_loader::decode::{accept_number_fields, decode_string_sequence, number_fields, RecordError};
use recipe_loader::scalar::parse_i32;

fn strings(v: &[&str]) -> Vec<String> {
    v.iter().map(|s| s.to_string()).collect()
}

#[test]
fn quoted_list_decodes_to_its_entries() {
    assert_eq!(
        decode_string_sequence("['chop onions', 'boil water']"),
        strings(&["chop onions", "boil water"])
    );
}

#[test]
fn unquoted_list_decodes_to_its_entries() {
    assert_eq!(decode_string_sequence("[a, b, c]"), strings(&["a", "b", "c"]));
}

#[test]
fn double_quoted_list_decodes_to_its_entries() {
    assert_eq!(decode_string_sequence("[\"x y\", \"z\"]"), strings(&["x y", "z"]));
}

#[test]
fn empty_list_gives_one_empty_entry() {
    assert_eq!(decode_string_sequence("[]"), strings(&[""]));
}

#[test]
fn empty_text_gives_one_empty_entry() {
    assert_eq!(decode_string_sequence(""), strings(&[""]));
}

#[test]
fn empty_entries_are_kept() {
    assert_eq!(decode_string_sequence("[a,,b]"), strings(&["a", "", "b"]));
}

#[test]
fn only_one_bracket_is_stripped_at_each_end() {
    assert_eq!(decode_string_sequence("[[a]]"), strings(&["[a]"]));
}

#[test]
fn only_one_quote_is_stripped_at_each_end() {
    assert_eq!(decode_string_sequence("[''a'']"), strings(&["'a'"]));
}

#[test]
fn text_without_brackets_is_split_too() {
    assert_eq!(decode_string_sequence("a, b"), strings(&["a", "b"]));
}

#[test]
fn unicode_whitespace_is_trimmed() {
    assert_eq!(decode_string_sequence("[\u{3000}'x'\t, \u{a0}y ]"), strings(&["x", "y"]));
}

#[test]
fn number_fields_are_trimmed_pieces() {
    let fields = number_fields("[1.0, 2.5, 3]");
    assert_eq!(fields, strings(&["1.0", "2.5", "3"]));
    let values: Vec<f32> = fields.iter().map(|f| f.parse::<f32>().unwrap()).collect();
    assert_eq!(values, vec![1.0f32, 2.5, 3.0]);
}

#[test]
fn number_list_with_a_word_is_malformed() {
    let fields = number_fields("[1.0, x, 3]");
    let valid: Vec<bool> = fields.iter().map(|f| f.parse::<f32>().is_ok()).collect();
    assert_eq!(valid, vec![true, false, true]);
    assert_eq!(
        accept_number_fields(fields, &valid),
        Err(RecordError::MalformedNumericField)
    );
}

#[test]
fn number_list_all_decimal_is_accepted() {
    let fields = number_fields("[10.0, 0.0]");
    let valid = vec![true, true];
    assert_eq!(accept_number_fields(fields, &valid), Ok(strings(&["10.0", "0.0"])));
}

#[test]
fn integers_parse_with_optional_sign() {
    assert_eq!(parse_i32("42"), Some(42));
    assert_eq!(parse_i32("-7"), Some(-7));
    assert_eq!(parse_i32("+5"), Some(5));
    assert_eq!(parse_i32("007"), Some(7));
}

#[test]
fn integer_range_edges() {
    assert_eq!(parse_i32("2147483647"), Some(i32::MAX));
    assert_eq!(parse_i32("-2147483648"), Some(i32::MIN));
    assert_eq!(parse_i32("2147483648"), None);
    assert_eq!(parse_i32("-2147483649"), None);
    assert_eq!(parse_i32("99999999999999999999"), None);
}

#[test]
fn non_integers_are_refused() {
    assert_eq!(parse_i32(""), None);
    assert_eq!(parse_i32("-"), None);
    assert_eq!(parse_i32(" 1"), None);
    assert_eq!(parse_i32("1a"), None);
    assert_eq!(parse_i32("abc"), None);
    assert_eq!(parse_i32("1.5"), None);
}
