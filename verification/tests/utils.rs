use text_art::text::transform::utils::{collect_uppercase_chars, pick_upper, validate_len};
use text_art::text::transform::TransformError;

#[test]
fn validate_len_accepts_the_inclusive_range() {
    assert_eq!(validate_len(3, 100, 3), Ok(()));
    assert_eq!(validate_len(3, 100, 50), Ok(()));
    assert_eq!(validate_len(3, 100, 100), Ok(()));
    assert_eq!(validate_len(5, 5, 5), Ok(()));
    assert_eq!(validate_len(0, 0, 0), Ok(()));
}

#[test]
fn validate_len_rejects_outside_the_range() {
    assert_eq!(
        validate_len(3, 100, 2),
        Err(TransformError::InvalidLength { min: 3, max: 100, actual: 2 })
    );
    assert_eq!(
        validate_len(3, 100, 101),
        Err(TransformError::InvalidLength { min: 3, max: 100, actual: 101 })
    );
    assert_eq!(
        validate_len(1, 2, 0),
        Err(TransformError::InvalidLength { min: 1, max: 2, actual: 0 })
    );
    assert_eq!(
        validate_len(0, usize::MAX - 1, usize::MAX),
        Err(TransformError::InvalidLength { min: 0, max: usize::MAX - 1, actual: usize::MAX })
    );
}

#[test]
fn message_names_the_bounds() {
    let e = TransformError::InvalidLength { min: 3, max: 100, actual: 7 };
    assert_eq!(e.to_string(), "Text must contain from 3 up to 100 characters");
    let e = TransformError::InvalidLength { min: 0, max: 9, actual: 10 };
    assert_eq!(e.to_string(), "Text must contain from 0 up to 9 characters");
    let e = TransformError::InvalidLength { min: 10, max: 1234567890, actual: 1 };
    assert_eq!(e.to_string(), "Text must contain from 10 up to 1234567890 characters");
    let e = TransformError::InvalidLength { min: 1, max: usize::MAX, actual: 0 };
    assert_eq!(
        e.to_string(),
        format!("Text must contain from 1 up to {} characters", usize::MAX)
    );
}

#[test]
fn uppercase_keeps_order_and_count() {
    assert_eq!(collect_uppercase_chars("rurust"), vec!['R', 'U', 'R', 'U', 'S', 'T']);
    assert_eq!(collect_uppercase_chars("aBc1 -z"), vec!['A', 'B', 'C', '1', ' ', '-', 'Z']);
    assert_eq!(collect_uppercase_chars(""), Vec::<char>::new());
    assert_eq!(collect_uppercase_chars("привет"), vec!['П', 'Р', 'И', 'В', 'Е', 'Т']);
}

#[test]
fn uppercase_is_one_for_one() {
    assert_eq!(collect_uppercase_chars("straße"), vec!['S', 'T', 'R', 'A', 'ß', 'E']);
    let text = "ŉ ǰ ﬁ é";
    assert_eq!(collect_uppercase_chars(text).len(), text.chars().count());
}

#[test]
fn uppercase_of_uppercase_is_itself() {
    let once = collect_uppercase_chars("Hello, World");
    let text: String = once.iter().collect();
    assert_eq!(collect_uppercase_chars(&text), once);
}

#[test]
fn pick_upper_takes_a_single_character_mapping() {
    assert_eq!(pick_upper('a', &vec!['A']), 'A');
    assert_eq!(pick_upper('ß', &vec!['S', 'S']), 'ß');
    assert_eq!(pick_upper('q', &vec![]), 'q');
    assert_eq!(pick_upper('q', &vec!['X', 'Y', 'Z']), 'q');
}
