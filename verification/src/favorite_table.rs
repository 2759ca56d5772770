//! Table rendering: every favorite on one line, the name column padded
//! to a shared width, with optional one-based line numbers for the
//! number prompt. The layout is specified exactly; only the colored
//! variant leaves the per-path coloring to the terminal helpers.

pub use draw_params::DrawParam;

use colored::Colorize;
use vstd::prelude::*;

use crate::all_favorites::models_of;
use crate::favorite_folder_record::{path_exists, FavModel, FavoriteFolderPath};
use crate::text::{dec_str, push_char, usize_to_string};
use vstd::string::StringExecFns;

pub mod draw_params;

verus! {

/// `n` spaces.
pub open spec fn spaces(n: nat) -> Seq<char>
    decreases n,
{
    if n == 0 {
        Seq::empty()
    } else {
        spaces((n - 1) as nat).push(' ')
    }
}

/// `s`, padded on the right with spaces up to width `w`.
pub open spec fn pad_right(s: Seq<char>, w: int) -> Seq<char> {
    if s.len() >= w {
        s
    } else {
        s + spaces((w - s.len()) as nat)
    }
}

/// The width of the widest name.
pub open spec fn max_name_len(rs: Seq<FavModel>) -> int
    decreases rs.len(),
{
    if rs.len() == 0 {
        0
    } else {
        let rest = max_name_len(rs.drop_last());
        if rs.last().name.len() > rest {
            rs.last().name.len() as int
        } else {
            rest
        }
    }
}

/// The space between columns.
pub open spec fn spacing() -> Seq<char> {
    seq![' ', ' ']
}

/// The width of the line-number column: wide enough for the last line.
pub open spec fn number_column_width(rs: Seq<FavModel>) -> int {
    dec_str(rs.len()).len() as int
}

/// The left part of line `i`: optional padded line number, then the
/// padded name, each followed by the column spacing.
pub open spec fn name_column(rs: Seq<FavModel>, i: int, ask_numbers: bool) -> Seq<char> {
    let base = pad_right(rs[i].name, max_name_len(rs)) + spacing();
    if ask_numbers {
        pad_right(dec_str((i + 1) as nat), number_column_width(rs)) + spacing() + base
    } else {
        base
    }
}

pub open spec fn plain_line(rs: Seq<FavModel>, i: int, ask_numbers: bool) -> Seq<char> {
    name_column(rs, i, ask_numbers) + rs[i].location
}

/// Lines joined with a newline between them.
pub open spec fn join_lines(lines: Seq<Seq<char>>) -> Seq<char>
    decreases lines.len(),
{
    if lines.len() == 0 {
        Seq::empty()
    } else if lines.len() == 1 {
        lines[0]
    } else {
        join_lines(lines.drop_last()) + seq!['\n'] + lines.last()
    }
}

/// The whole table without colors.
pub open spec fn plain_table(rs: Seq<FavModel>, ask_numbers: bool) -> Seq<char> {
    join_lines(Seq::new(rs.len(), |i: int| plain_line(rs, i, ask_numbers)))
}

/// A colored table: the specified name columns, with each location
/// shown in some terminal- and filesystem-dependent form.
pub open spec fn colored_table_shape(rs: Seq<FavModel>, ask_numbers: bool, t: Seq<char>) -> bool {
    exists|cols: Seq<Seq<char>>|
        #![auto]
        cols.len() == rs.len() && t == join_lines(
            Seq::new(rs.len(), |i: int| name_column(rs, i, ask_numbers) + cols[i]),
        )
}

/// What `draw_favorite_table` promises of its output.
pub open spec fn table_ok(rs: Seq<FavModel>, clipboard: bool, ask_numbers: bool, t: Seq<char>) -> bool {
    if clipboard {
        t == plain_table(rs, ask_numbers)
    } else {
        colored_table_shape(rs, ask_numbers, t)
    }
}

fn get_spacing_padding() -> (r: String)
    ensures
        r@ == spacing(),
{
    let s = "  ".to_owned();
    proof {
        reveal_strlit("  ");
        assert("  "@ =~= spacing());
    }
    s
}

/// Returns `to_pad`, space-padded on the right to at least `max_width`
/// characters; text already that wide is returned unchanged.
pub fn pad_from_right_until(to_pad: &str, max_width: usize) -> (r: String)
    ensures
        r@ == pad_right(to_pad@, max_width as int),
{
    let len = to_pad.unicode_len();
    let mut padded = to_pad.to_owned();
    if len >= max_width {
        return padded;
    }
    let mut k = len;
    while k < max_width
        invariant
            len <= k <= max_width,
            len == to_pad@.len(),
            padded@ == to_pad@ + spaces((k - len) as nat),
        decreases max_width - k,
    {
        push_char(&mut padded, ' ');
        k = k + 1;
    }
    padded
}

/// One rendered line, split into its name column and its path part.
pub struct LineNameAndPath {
    pub name: String,
    pub path: String,
}

/// Lays the records out: padded name columns (and line numbers when
/// asked for) next to the location texts.
pub fn prepare_drawing(all_locations: &[FavoriteFolderPath], ask_numbers: bool) -> (r: Vec<
    LineNameAndPath,
>)
    ensures
        r@.len() == all_locations@.len(),
        forall|i: int|
            0 <= i < r@.len() ==> (#[trigger] r@[i]).name@ == name_column(
                models_of(all_locations@),
                i,
                ask_numbers,
            ) && r@[i].path@ == models_of(all_locations@)[i].location,
{
    let ghost models = models_of(all_locations@);
    let n = all_locations.len();
    let mut max_width: usize = 0;
    let mut i: usize = 0;
    while i < n
        invariant
            0 <= i <= n,
            n == all_locations@.len(),
            models == models_of(all_locations@),
            max_width == max_name_len(models.subrange(0, i as int)),
        decreases n - i,
    {
        let w = all_locations[i].get_name().unicode_len();
        proof {
            assert(models[i as int] == all_locations@[i as int]@);
            assert(models.subrange(0, i + 1).drop_last() =~= models.subrange(0, i as int));
            assert(models.subrange(0, i + 1).last() == models[i as int]);
        }
        if w > max_width {
            max_width = w;
        }
        i = i + 1;
    }
    proof {
        assert(models.subrange(0, n as int) =~= models);
    }
    let count_str = usize_to_string(n);
    let num_width = count_str.as_str().unicode_len();
    let spacing_padding = get_spacing_padding();
    let mut out: Vec<LineNameAndPath> = Vec::new();
    let mut i: usize = 0;
    while i < n
        invariant
            0 <= i <= n,
            n == all_locations@.len(),
            models == models_of(all_locations@),
            models.len() == n,
            max_width == max_name_len(models),
            num_width == number_column_width(models),
            spacing_padding@ == spacing(),
            out@.len() == i,
            forall|k: int|
                0 <= k < i ==> (#[trigger] out@[k]).name@ == name_column(models, k, ask_numbers)
                    && out@[k].path@ == models[k].location,
        decreases n - i,
    {
        let rec = &all_locations[i];
        proof {
            assert(models[i as int] == all_locations@[i as int]@);
        }
        let mut name_part = pad_from_right_until(rec.get_name(), max_width);
        name_part.append(spacing_padding.as_str());
        if ask_numbers {
            let num = usize_to_string(i + 1);
            let mut prefix = pad_from_right_until(num.as_str(), num_width);
            prefix.append(spacing_padding.as_str());
            prefix.append(name_part.as_str());
            name_part = prefix;
        }
        let path = rec.path_str().to_owned();
        out.push(LineNameAndPath { name: name_part, path });
        i = i + 1;
    }
    out
}

/// The table as plain text: exactly the specified layout.
pub fn draw_without_colors(all_locations: &[FavoriteFolderPath], ask_numbers: bool) -> (r: String)
    ensures
        r@ == plain_table(models_of(all_locations@), ask_numbers),
{
    let ghost models = models_of(all_locations@);
    let lines = prepare_drawing(all_locations, ask_numbers);
    let n = lines.len();
    let mut out = String::new();
    let mut i: usize = 0;
    while i < n
        invariant
            0 <= i <= n,
            n == lines@.len(),
            n == models.len(),
            forall|k: int|
                0 <= k < n ==> (#[trigger] lines@[k]).name@ == name_column(models, k, ask_numbers)
                    && lines@[k].path@ == models[k].location,
            out@ == join_lines(Seq::new(i as nat, |k: int| plain_line(models, k, ask_numbers))),
        decreases n - i,
    {
        let ghost prev = Seq::new(i as nat, |k: int| plain_line(models, k, ask_numbers));
        if i > 0 {
            push_char(&mut out, '\n');
        }
        out.append(lines[i].name.as_str());
        out.append(lines[i].path.as_str());
        proof {
            let cur = Seq::new((i + 1) as nat, |k: int| plain_line(models, k, ask_numbers));
            assert(cur.drop_last() =~= prev);
            assert(cur.last() == plain_line(models, i as int, ask_numbers));
            if i == 0 {
                assert(out@ =~= cur[0]);
            } else {
                assert(out@ =~= join_lines(prev) + seq!['\n'] + cur.last());
            }
        }
        i = i + 1;
    }
    proof {
        if n == 0 {
            assert(out@ =~= plain_table(models, ask_numbers));
        } else {
            assert(Seq::new(n as nat, |k: int| plain_line(models, k, ask_numbers)) =~= Seq::new(
                models.len(),
                |k: int| plain_line(models, k, ask_numbers),
            ));
        }
    }
    out
}

/// Relies on `shellexpand::tilde`: expands a leading `~` using the
/// user's home directory, so the result depends on the environment.
#[verifier::external_body]
fn tilde_expand(raw_path: &str) -> String {
    shellexpand::tilde(raw_path).into_owned()
}

/// Relies on `colored::Colorize::green`: whether color codes wrap the
/// text depends on the terminal and environment.
#[verifier::external_body]
fn color_exists_msg(text: &str) -> String {
    text.green().to_string()
}

/// Relies on `colored::Colorize::red`: whether color codes wrap the
/// text depends on the terminal and environment.
#[verifier::external_body]
fn color_not_found(text: &str) -> String {
    text.red().to_string()
}

/// Shows the path in the color of its existence check; what comes back
/// depends on the filesystem and the terminal.
fn check_if_exits(path: &str, to_check_color: &str) -> String {
    if path_exists(path) {
        color_exists_msg(to_check_color)
    } else {
        color_not_found(to_check_color)
    }
}

fn get_colored_path_if_no_clipboard(raw_path: &str) -> String {
    let expanded = tilde_expand(raw_path);
    check_if_exits(expanded.as_str(), raw_path)
}

/// The table with each location colored by its existence check: the
/// name columns are exactly the specified ones.
pub fn draw_with_colors(all_locations: &[FavoriteFolderPath], ask_numbers: bool) -> (r: String)
    ensures
        colored_table_shape(models_of(all_locations@), ask_numbers, r@),
{
    let ghost models = models_of(all_locations@);
    let lines = prepare_drawing(all_locations, ask_numbers);
    let n = lines.len();
    let mut out = String::new();
    let ghost mut cols: Seq<Seq<char>> = Seq::empty();
    let mut i: usize = 0;
    while i < n
        invariant
            0 <= i <= n,
            n == lines@.len(),
            n == models.len(),
            forall|k: int|
                0 <= k < n ==> (#[trigger] lines@[k]).name@ == name_column(models, k, ask_numbers)
                    && lines@[k].path@ == models[k].location,
            cols.len() == i,
            out@ == join_lines(Seq::new(i as nat, |k: int| name_column(models, k, ask_numbers) + cols[k])),
        decreases n - i,
    {
        let ghost cols0 = cols;
        let ghost prev = Seq::new(i as nat, |k: int| name_column(models, k, ask_numbers) + cols0[k]);
        if i > 0 {
            push_char(&mut out, '\n');
        }
        out.append(lines[i].name.as_str());
        let colored_path = get_colored_path_if_no_clipboard(lines[i].path.as_str());
        out.append(colored_path.as_str());
        proof {
            cols = cols.push(colored_path@);
            let cur = Seq::new((i + 1) as nat, |k: int| name_column(models, k, ask_numbers) + cols[k]);
            assert(cur.drop_last() =~= prev);
            assert(cur.last() == name_column(models, i as int, ask_numbers) + colored_path@);
            if i == 0 {
                assert(out@ =~= cur[0]);
            } else {
                assert(out@ =~= join_lines(prev) + seq!['\n'] + cur.last());
            }
        }
        i = i + 1;
    }
    proof {
        assert(out@ == join_lines(Seq::new(models.len(), |k: int| name_column(models, k, ask_numbers) + cols[k]))) by {
            assert(Seq::new(n as nat, |k: int| name_column(models, k, ask_numbers) + cols[k]) =~= Seq::new(
                models.len(),
                |k: int| name_column(models, k, ask_numbers) + cols[k],
            ));
        }
    }
    out
}

/// Draws the table: exactly the plain layout for clipboard output, the
/// colored variant otherwise.
pub fn draw_favorite_table(all_locations: &[FavoriteFolderPath], params: DrawParam) -> (r: String)
    ensures
        table_ok(
            models_of(all_locations@),
            params.spec_clipboard(),
            params.spec_ask_number(),
            r@,
        ),
{
    let ask_numbers = params.ask_number();
    if params.clipboard() {
        draw_without_colors(all_locations, ask_numbers)
    } else {
        draw_with_colors(all_locations, ask_numbers)
    }
}

} // verus!
