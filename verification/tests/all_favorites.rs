use folder_favorite::all_favorites::AfterInsertion;
use folder_favorite::favorite_folder_record::FavoriteFolderPath;
use folder_favorite::trimmed_not_empty_text::NonEmptyText;
use folder_favorite::AllFavorites;

fn record(name: &str, location: &str) -> FavoriteFolderPath {
    FavoriteFolderPath::new(NonEmptyText::unwrap(name), NonEmptyText::unwrap(location))
}

fn given_initial() -> AllFavorites {
    AllFavorites::new(vec![
        record("studium", "/home/some_user/Documents/Studium"),
        record("dev_rust", "/home/some_user/Code/rust"),
        record("proc_macro", "/home/some_user/Code/rust/proc-macro-workshop"),
    ])
}

fn given_longer_initial() -> AllFavorites {
    AllFavorites::new(vec![
        record("ping_pong", "/home/some_user/Games/ping_pong"),
        record("dev_rust", "/home/some_user/Code/rust"),
        record("shopping", "/home/some_user/Documents/shopping"),
        record("music", "/home/some_user/Music"),
    ])
}

fn set_up_and_act_rename(old_name: NonEmptyText, new_name: NonEmptyText) -> (AllFavorites, bool) {
    let mut given = given_initial();
    let actual = given.rename(&old_name, new_name);
    (given, actual)
}

fn set_up_and_act_remove(name: NonEmptyText) -> (AllFavorites, bool) {
    let mut given = given_initial();
    let actual = given.remove_with_name(&name);
    (given, actual)
}

#[test]
fn if_dangling_delete_a_path() {
    let expected = AllFavorites::new(vec![record(
        "proc_macro",
        "/home/some_user/Code/rust/proc-macro-workshop",
    )]);

    let mut given = given_initial();
    given.clean_all_dangling(|path: &str| {
        path == "/home/some_user/Documents/Studium" || path == "/home/some_user/Code/rust"
    });
    assert_eq!(expected, given);
}

#[test]
fn find_a_path_by_name() {
    assert_case("a", None);
    assert_case("dev_rust", Some(1));
}

fn assert_case(name: &str, expected: Option<usize>) {
    let given = given_initial();
    let actual = given.find_by_name_index(name);
    assert_eq!(expected, actual, "Name: {}", name);
}

#[test]
fn name_not_found_dont_remove_it() {
    let (actual, has_deleted) = set_up_and_act_remove(NonEmptyText::unwrap("not_there"));
    const EXPECTED: bool = false;
    assert_eq!(EXPECTED, has_deleted);
    assert_eq!(given_initial(), actual);
}

#[test]
fn name_found_then_remove_it() {
    let (actual, has_deleted) = set_up_and_act_remove(NonEmptyText::unwrap("dev_rust"));
    const EXPECTED: bool = true;
    assert_eq!(EXPECTED, has_deleted);
    let remaining = AllFavorites::new(vec![
        record("studium", "/home/some_user/Documents/Studium"),
        record("proc_macro", "/home/some_user/Code/rust/proc-macro-workshop"),
    ]);
    assert_eq!(remaining, actual);
}

#[test]
fn name_found_rename_it() {
    let (actual, has_renamed) = set_up_and_act_rename(
        NonEmptyText::unwrap("dev_rust"),
        NonEmptyText::unwrap("other_dev_rust"),
    );
    const EXPECTED: bool = true;
    assert_eq!(EXPECTED, has_renamed);
    let renamed = AllFavorites::new(vec![
        record("studium", "/home/some_user/Documents/Studium"),
        record("other_dev_rust", "/home/some_user/Code/rust"),
        record("proc_macro", "/home/some_user/Code/rust/proc-macro-workshop"),
    ]);
    assert_eq!(renamed, actual);
}

#[test]
fn no_name_found_dont_rename() {
    let (actual, has_renamed) = set_up_and_act_rename(
        NonEmptyText::unwrap("not_found"),
        NonEmptyText::unwrap("is_an_error"),
    );
    const EXPECTED: bool = false;
    assert_eq!(EXPECTED, has_renamed);
    assert_eq!(given_initial(), actual);
}

#[test]
fn rename_to_existing_other_name_is_refused() {
    let (actual, has_renamed) = set_up_and_act_rename(
        NonEmptyText::unwrap("dev_rust"),
        NonEmptyText::unwrap("proc_macro"),
    );
    assert_eq!(false, has_renamed);
    assert_eq!(given_initial(), actual);
}

#[test]
fn add_non_existing_name() {
    let mut given_data = given_initial();
    let given = record("new_added", "~/some_data");

    const EXPECTED: AfterInsertion = AfterInsertion::Added;
    let actual = given_data.insert(given);
    assert_eq!(EXPECTED, actual);
    let grown = AllFavorites::new(vec![
        record("studium", "/home/some_user/Documents/Studium"),
        record("dev_rust", "/home/some_user/Code/rust"),
        record("proc_macro", "/home/some_user/Code/rust/proc-macro-workshop"),
        record("new_added", "~/some_data"),
    ]);
    assert_eq!(grown, given_data);
}

#[test]
fn set_existing_favorite() {
    let mut given_data = given_initial();
    let given = record("dev_rust", "~/new_some_data");

    const EXPECTED: AfterInsertion = AfterInsertion::Changed;
    let actual = given_data.insert(given);
    assert_eq!(EXPECTED, actual);
    let changed = AllFavorites::new(vec![
        record("studium", "/home/some_user/Documents/Studium"),
        record("dev_rust", "~/new_some_data"),
        record("proc_macro", "/home/some_user/Code/rust/proc-macro-workshop"),
    ]);
    assert_eq!(changed, given_data);
}

#[test]
fn filter_for_containing_names() {
    let given_data = given_longer_initial();
    let param = NonEmptyText::unwrap("ping");
    let actual = given_data.filtered_containing_name(param);
    let expected = AllFavorites::new(vec![
        record("ping_pong", "/home/some_user/Games/ping_pong"),
        record("shopping", "/home/some_user/Documents/shopping"),
    ]);
    assert_eq!(expected, actual);
}

#[test]
fn filter_out_all_for_no_matching() {
    let given_data = given_longer_initial();
    let param = NonEmptyText::unwrap("xxxx");
    let actual = given_data.filtered_containing_name(param);
    assert!(actual.as_slice().is_empty());
}

#[test]
fn insert_reports_added_once_then_changed_and_keeps_latest_fields() {
    let mut favorites = AllFavorites::new(Vec::new());
    assert_eq!(
        AfterInsertion::Added,
        favorites.insert(record("work", "/tmp/first"))
    );
    assert_eq!(
        AfterInsertion::Changed,
        favorites.insert(record("work", "/tmp/second"))
    );
    assert_eq!(
        AfterInsertion::Added,
        favorites.insert(record("play", "/tmp/games"))
    );
    assert_eq!(
        AfterInsertion::Changed,
        favorites.insert(record("work", "/tmp/third"))
    );
    let expected = AllFavorites::new(vec![
        record("work", "/tmp/third"),
        record("play", "/tmp/games"),
    ]);
    assert_eq!(expected, favorites);
}

#[test]
fn clean_dangling_keeps_survivors_in_order() {
    let mut favorites = AllFavorites::new(vec![
        record("proj", "/tmp/x"),
        record("docs", "/tmp/y"),
    ]);
    favorites.clean_all_dangling(|path: &str| path == "/tmp/x");
    let expected = AllFavorites::new(vec![record("docs", "/tmp/y")]);
    assert_eq!(expected, favorites);
}

#[test]
fn filter_containing_rust_keeps_both_rust_names_in_order() {
    let favorites = AllFavorites::new(vec![
        record("dev_rust", "/tmp/a"),
        record("proc_macro", "/tmp/b"),
        record("rust_book", "/tmp/c"),
    ]);
    let actual = favorites.filtered_containing_name(NonEmptyText::unwrap("rust"));
    let expected = AllFavorites::new(vec![
        record("dev_rust", "/tmp/a"),
        record("rust_book", "/tmp/c"),
    ]);
    assert_eq!(expected, actual);
}

#[test]
fn iterates_over_all_records_in_order() {
    let favorites = given_initial();
    let names: Vec<&str> = favorites.iter().map(|rec| rec.get_name()).collect();
    assert_eq!(vec!["studium", "dev_rust", "proc_macro"], names);
}

#[test]
fn get_returns_the_stored_record() {
    let favorites = given_initial();
    let found = favorites.get(NonEmptyText::unwrap("dev_rust"));
    let found = found.expect("dev_rust should be present");
    assert_eq!("dev_rust", found.get_name());
    assert_eq!("/home/some_user/Code/rust", found.path_str());
    assert!(favorites.get(NonEmptyText::unwrap("nobody")).is_none());
}
