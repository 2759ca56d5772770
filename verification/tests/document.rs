use folder_favorite::document::{load_favorites, parse_favorites, serialize_favorites, FormatError};
use folder_favorite::favorite_folder_record::FavoriteFolderPath;
use folder_favorite::trimmed_not_empty_text::NonEmptyText;
use folder_favorite::AllFavorites;

fn record(name: &str, location: &str) -> FavoriteFolderPath {
    FavoriteFolderPath::new(NonEmptyText::unwrap(name), NonEmptyText::unwrap(location))
}

#[test]
fn serializes_to_the_compact_document() {
    let favorites = AllFavorites::new(vec![record("a", "/tmp/x"), record("b", "/tmp/y")]);
    let text = serialize_favorites(&favorites);
    assert_eq!(
        "[{\"name\":\"a\",\"location\":\"/tmp/x\"},{\"name\":\"b\",\"location\":\"/tmp/y\"}]",
        text
    );
}

#[test]
fn serializes_the_empty_collection_to_an_empty_array() {
    let favorites = AllFavorites::new(Vec::new());
    assert_eq!("[]", serialize_favorites(&favorites));
}

#[test]
fn escapes_quotes_backslashes_and_control_characters() {
    let favorites = AllFavorites::new(vec![record("a\"b", "C:\\dir\nnext")]);
    let text = serialize_favorites(&favorites);
    assert_eq!(
        "[{\"name\":\"a\\u0022b\",\"location\":\"C:\\u005cdir\\u000anext\"}]",
        text
    );
}

#[test]
fn round_trips_every_kind_of_content() {
    let favorites = AllFavorites::new(vec![
        record("plain", "/tmp/plain"),
        record("with spaces", "/tmp/with spaces"),
        record("quote\"back\\slash", "/tmp/\"x\\y"),
        record("uni çödé ünïcode", "/tmp/ünïcode"),
        record("inner\ncontrol", "/tmp/tab\there"),
    ]);
    let text = serialize_favorites(&favorites);
    let parsed = parse_favorites(text.as_str()).expect("own output must parse");
    assert_eq!(favorites, parsed);
}

#[test]
fn loading_a_missing_document_yields_the_empty_collection() {
    let loaded = load_favorites(None).expect("a missing document is not an error");
    assert!(loaded.as_slice().is_empty());
}

#[test]
fn loading_a_present_document_parses_it() {
    let loaded = load_favorites(Some("[{\"name\":\"a\",\"location\":\"/x\"}]"))
        .expect("well-formed document");
    let expected = AllFavorites::new(vec![record("a", "/x")]);
    assert_eq!(expected, loaded);
}

#[test]
fn accepts_whitespace_swapped_members_and_the_older_path_key() {
    let text = " [ { \"location\" : \"/x\" , \"name\" : \"a\" } ,\n {\"name\":\"b\",\"path\":\"/y\"} ] ";
    let parsed = parse_favorites(text).expect("tolerated spellings must parse");
    let expected = AllFavorites::new(vec![record("a", "/x"), record("b", "/y")]);
    assert_eq!(expected, parsed);
}

#[test]
fn accepts_standard_string_escapes() {
    let text = "[{\"name\":\"A\\u0041\\n\\tz\",\"location\":\"/\\\"q\\\\b\\/s\"}]";
    let parsed = parse_favorites(text).expect("escapes must parse");
    let expected = AllFavorites::new(vec![record("AA\n\tz", "/\"q\\b/s")]);
    assert_eq!(expected, parsed);
}

#[test]
fn rejects_malformed_documents() {
    assert_eq!(Err(FormatError), parse_favorites(""));
    assert_eq!(Err(FormatError), parse_favorites("{}"));
    assert_eq!(Err(FormatError), parse_favorites("["));
    assert_eq!(Err(FormatError), parse_favorites("[{\"name\":\"a\"}]"));
    assert_eq!(
        Err(FormatError),
        parse_favorites("[{\"name\":\"a\",\"location\":\"/x\"}] trailing")
    );
    assert_eq!(
        Err(FormatError),
        parse_favorites("[{\"name\":\"a\",\"location\":\"/x\"},]")
    );
    assert_eq!(
        Err(FormatError),
        parse_favorites("[{\"name\":\"a\",\"count\":\"/x\"}]")
    );
}

#[test]
fn rejects_records_that_break_the_collection_invariant() {
    assert_eq!(
        Err(FormatError),
        parse_favorites("[{\"name\":\"  \",\"location\":\"/x\"}]")
    );
    assert_eq!(
        Err(FormatError),
        parse_favorites("[{\"name\":\" a\",\"location\":\"/x\"}]")
    );
    assert_eq!(
        Err(FormatError),
        parse_favorites("[{\"name\":\"a\",\"location\":\"\"}]")
    );
    assert_eq!(
        Err(FormatError),
        parse_favorites(
            "[{\"name\":\"a\",\"location\":\"/x\"},{\"name\":\"a\",\"location\":\"/y\"}]"
        )
    );
}

#[test]
fn rejects_surrogate_escapes() {
    assert_eq!(
        Err(FormatError),
        parse_favorites("[{\"name\":\"\\uD83D\\uDE00\",\"location\":\"/x\"}]")
    );
}

#[test]
fn format_error_message_is_stable() {
    assert_eq!("Error in parsing app data", FormatError.message());
}
