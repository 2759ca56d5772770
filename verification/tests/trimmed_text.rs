use folder_favorite::trimmed_not_empty_text::{NonEmptyText, NotEmptyTextError};

type ResultNonEmptyText = Result<NonEmptyText, NotEmptyTextError>;

fn assert_case(given: &str, expected: ResultNonEmptyText) {
    let actual = NonEmptyText::new(given);
    assert_eq!(expected, actual, "Given: {}", given);
}

#[test]
fn result_if_not_empty_trimmed_text() {
    assert_case("Some Text", Ok(NonEmptyText::unwrap("Some Text")));
    assert_case("  Some Text  ", Ok(NonEmptyText::unwrap("Some Text")));
    assert_case("  Some  Text  ", Ok(NonEmptyText::unwrap("Some  Text")));
    assert_case("   ", Err(NotEmptyTextError));
    assert_case("", Err(NotEmptyTextError));
    assert_case("\n", Err(NotEmptyTextError));
    assert_case("\t", Err(NotEmptyTextError));
}

#[test]
fn unwrap_keeps_the_trimmed_content() {
    let text = NonEmptyText::unwrap("  padded  ");
    assert_eq!("padded", text.as_str());
}

#[test]
fn unicode_whitespace_counts_as_whitespace() {
    assert_case("\u{00A0}\u{2003}", Err(NotEmptyTextError));
    let text = NonEmptyText::unwrap("\u{00A0}kept\u{3000}");
    assert_eq!("kept", text.as_str());
}

#[test]
fn error_message_is_stable() {
    assert_eq!(
        "Trimmed text must not only contain whitespaces",
        NotEmptyTextError.message()
    );
}
