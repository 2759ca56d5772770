use folder_favorite::favorite_folder_record::FavoriteFolderPath;
use folder_favorite::favorite_table::{
    draw_favorite_table, draw_without_colors, pad_from_right_until, prepare_drawing, DrawParam,
};
use folder_favorite::trimmed_not_empty_text::NonEmptyText;
use folder_favorite::AllFavorites;

fn record(name: &str, location: &str) -> FavoriteFolderPath {
    FavoriteFolderPath::new(NonEmptyText::unwrap(name), NonEmptyText::unwrap(location))
}

fn given_initial() -> AllFavorites {
    AllFavorites::new(vec![
        record("ping_pong", "/home/some_user/Games/ping_pong"),
        record("dev_rust", "/home/some_user/Code/rust"),
        record("shopping", "/home/some_user/Documents/shopping"),
        record("music", "/home/some_user/Music"),
    ])
}

#[test]
fn list_all_every_favorite() {
    let given = given_initial();
    let actual = draw_without_colors(given.as_slice(), false);
    let expected = "ping_pong  /home/some_user/Games/ping_pong\n\
                    dev_rust   /home/some_user/Code/rust\n\
                    shopping   /home/some_user/Documents/shopping\n\
                    music      /home/some_user/Music";
    assert_eq!(expected, actual);
}

#[test]
fn list_all_with_prompt_every_favorite() {
    let given = given_initial();
    let actual = draw_without_colors(given.as_slice(), true);
    let expected = "1  ping_pong  /home/some_user/Games/ping_pong\n\
                    2  dev_rust   /home/some_user/Code/rust\n\
                    3  shopping   /home/some_user/Documents/shopping\n\
                    4  music      /home/some_user/Music";
    assert_eq!(expected, actual);
}

#[test]
fn pad_from_right_until_pads_short_text_and_keeps_wide_text() {
    assert_eq!("abc  ", pad_from_right_until("abc", 5));
    assert_eq!("abcdef", pad_from_right_until("abcdef", 5));
    assert_eq!("", pad_from_right_until("", 0));
}

#[test]
fn prepare_drawing_splits_name_column_and_path() {
    let given = AllFavorites::new(vec![record("a", "/x"), record("long_name", "/y")]);
    let lines = prepare_drawing(given.as_slice(), false);
    assert_eq!(2, lines.len());
    assert_eq!("a          ", lines[0].name);
    assert_eq!("/x", lines[0].path);
    assert_eq!("long_name  ", lines[1].name);
    assert_eq!("/y", lines[1].path);
}

#[test]
fn clipboard_table_is_the_plain_table() {
    let given = given_initial();
    let plain = draw_without_colors(given.as_slice(), false);
    let table = draw_favorite_table(given.as_slice(), DrawParam::new_for_clipboard(false));
    assert_eq!(plain, table);
}

#[test]
fn colored_table_keeps_the_name_columns() {
    let given = given_initial();
    let table = draw_favorite_table(given.as_slice(), DrawParam::new(false, false));
    let first_line = table.split('\n').next().expect("at least one line");
    assert!(first_line.starts_with("ping_pong  "));
}

#[test]
fn draw_param_carries_its_flags() {
    let p = DrawParam::new(true, false);
    assert!(p.clipboard());
    assert!(!p.ask_number());
    let c = DrawParam::new_for_clipboard(true);
    assert!(c.clipboard());
    assert!(c.ask_number());
}
