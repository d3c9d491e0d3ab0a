use skcore::preprocess::preprocess;

#[test]
fn keeps_plain_text() {
    assert_eq!(preprocess("print(42);".to_string()), "print(42);");
}

#[test]
fn empty_text_stays_empty() {
    assert_eq!(preprocess(String::new()), "");
}

#[test]
fn removes_carriage_returns() {
    assert_eq!(preprocess("a\r\nb\r".to_string()), "ab");
    assert_eq!(preprocess("\r\r".to_string()), "");
}

#[test]
fn joins_lines_without_separator() {
    assert_eq!(preprocess("let x = 1;\nprint(x);\n".to_string()), "let x = 1;print(x);");
}

#[test]
fn deletes_comment_lines_entirely() {
    assert_eq!(preprocess("# first\nprint(1);\n# second\nprint(2);".to_string()), "print(1);print(2);");
    assert_eq!(preprocess("#only".to_string()), "");
}

#[test]
fn marker_counts_only_in_first_place() {
    assert_eq!(preprocess(" # kept\nx#y".to_string()), " # keptx#y");
}

#[test]
fn comment_after_carriage_return_is_a_comment() {
    // The carriage return goes first, so the marker stands first in the line.
    assert_eq!(preprocess("a\n\r#b\nc".to_string()), "ac");
}

#[test]
fn a_comment_between_two_tokens_joins_them() {
    assert_eq!(preprocess("let\n#c\nx".to_string()), "letx");
}

#[test]
fn cleaned_text_is_one_line() {
    let cleaned = preprocess("a\r\nb\n\n#c\r\n d\r".to_string());
    assert_eq!(cleaned, "ab d");
    assert!(!cleaned.contains('\n'));
    assert!(!cleaned.contains('\r'));
}
