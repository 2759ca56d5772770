//! The persisted favorites document: a JSON array of `{"name": …,
//! "location": …}` objects, framed and checked here character by
//! character so that a collection round-trips losslessly.
//!
//! The serializer emits a compact document and escapes quotes,
//! backslashes and control characters as `\u00XX`. The parser accepts
//! the grammar below: whitespace between tokens, the two members in
//! either order, `path` as an older spelling of `location`, and the
//! standard JSON string escapes (`\uXXXX` limited to non-surrogate
//! code points). A document whose records carry untrimmed, empty or
//! duplicate names does not denote a collection and is rejected.

use vstd::prelude::*;

use crate::all_favorites::{all_wf, find_idx, lemma_find_idx_props, unique_names, AllFavorites};
use crate::favorite_folder_record::{FavModel, FavoriteFolderPath};
use crate::text::{
    is_whitespace_char, lemma_trim_end_props, lemma_trim_start_props, push_char, str_eq, trim_spec,
    trim_end_spec, trim_start_spec,
};
use crate::trimmed_not_empty_text::{valid_text, NonEmptyText};

verus! {

// ----- what the serializer writes -----

pub open spec fn hex_digit_char(d: int) -> char {
    if d == 0 {
        '0'
    } else if d == 1 {
        '1'
    } else if d == 2 {
        '2'
    } else if d == 3 {
        '3'
    } else if d == 4 {
        '4'
    } else if d == 5 {
        '5'
    } else if d == 6 {
        '6'
    } else if d == 7 {
        '7'
    } else if d == 8 {
        '8'
    } else if d == 9 {
        '9'
    } else if d == 10 {
        'a'
    } else if d == 11 {
        'b'
    } else if d == 12 {
        'c'
    } else if d == 13 {
        'd'
    } else if d == 14 {
        'e'
    } else {
        'f'
    }
}

/// Characters the serializer cannot write bare inside a JSON string.
pub open spec fn needs_escape(c: char) -> bool {
    c == '"' || c == '\\' || (c as u32) < 0x20
}

/// How one character is written: bare, or as a `\u00XX` escape.
pub open spec fn escape_char(c: char) -> Seq<char> {
    if needs_escape(c) {
        seq!['\\', 'u', '0', '0', hex_digit_char((c as u32) as int / 16), hex_digit_char(
            (c as u32) as int % 16,
        )]
    } else {
        seq![c]
    }
}

pub open spec fn escape_string(s: Seq<char>) -> Seq<char>
    decreases s.len(),
{
    if s.len() == 0 {
        Seq::empty()
    } else {
        escape_char(s[0]) + escape_string(s.drop_first())
    }
}

/// A string value as written: quoted and escaped.
pub open spec fn quoted(s: Seq<char>) -> Seq<char> {
    seq!['"'] + escape_string(s) + seq!['"']
}

pub open spec fn name_key() -> Seq<char> {
    seq!['n', 'a', 'm', 'e']
}

pub open spec fn location_key() -> Seq<char> {
    seq!['l', 'o', 'c', 'a', 't', 'i', 'o', 'n']
}

pub open spec fn path_key() -> Seq<char> {
    seq!['p', 'a', 't', 'h']
}

/// One record as written: `{"name":…,"location":…}`.
pub open spec fn record_json(m: FavModel) -> Seq<char> {
    seq!['{'] + quoted(name_key()) + seq![':'] + quoted(m.name) + seq![','] + quoted(
        location_key(),
    ) + seq![':'] + quoted(m.location) + seq!['}']
}

/// `,record` for every record after the first.
pub open spec fn tail_json(ts: Seq<FavModel>) -> Seq<char>
    decreases ts.len(),
{
    if ts.len() == 0 {
        Seq::empty()
    } else {
        seq![','] + record_json(ts[0]) + tail_json(ts.drop_first())
    }
}

pub open spec fn records_json(rs: Seq<FavModel>) -> Seq<char> {
    if rs.len() == 0 {
        Seq::empty()
    } else {
        record_json(rs[0]) + tail_json(rs.drop_first())
    }
}

/// The whole document as written.
pub open spec fn document_json(rs: Seq<FavModel>) -> Seq<char> {
    seq!['['] + records_json(rs) + seq![']']
}

// ----- what the parser accepts -----

pub open spec fn is_json_ws(c: char) -> bool {
    c == ' ' || c == '\t' || c == '\n' || c == '\r'
}

/// First position at or after `i` holding a non-whitespace character.
pub open spec fn skip_ws(s: Seq<char>, i: int) -> int
    decreases s.len() - i,
{
    if 0 <= i < s.len() && is_json_ws(s[i]) {
        skip_ws(s, i + 1)
    } else {
        i
    }
}

/// Value of a hexadecimal digit in either case, or `-1`.
pub open spec fn hex_val(c: char) -> int {
    let n = c as u32;
    if 0x30 <= n && n <= 0x39 {
        n - 0x30
    } else if 0x61 <= n && n <= 0x66 {
        n - 0x61 + 10
    } else if 0x41 <= n && n <= 0x46 {
        n - 0x41 + 10
    } else {
        -1
    }
}

/// The character a short escape `\e` denotes, if `e` is one.
pub open spec fn escape_short(e: char) -> Option<char> {
    if e == '"' {
        Some('"')
    } else if e == '\\' {
        Some('\\')
    } else if e == '/' {
        Some('/')
    } else if e == 'b' {
        Some('\u{0008}')
    } else if e == 'f' {
        Some('\u{000C}')
    } else if e == 'n' {
        Some('\n')
    } else if e == 'r' {
        Some('\r')
    } else if e == 't' {
        Some('\t')
    } else {
        None
    }
}

/// The rest of a JSON string, read from just after the opening quote (or
/// any position inside the string): the decoded characters and the
/// position just after the closing quote.
pub open spec fn parse_str_body(s: Seq<char>, i: int) -> Option<(Seq<char>, int)>
    decreases s.len() - i,
{
    if i < 0 || i >= s.len() {
        None
    } else if s[i] == '"' {
        Some((Seq::empty(), i + 1))
    } else if s[i] == '\\' {
        if i + 1 < s.len() && s[i + 1] == 'u' {
            if i + 6 <= s.len() && hex_val(s[i + 2]) >= 0 && hex_val(s[i + 3]) >= 0 && hex_val(
                s[i + 4],
            ) >= 0 && hex_val(s[i + 5]) >= 0 {
                let code = hex_val(s[i + 2]) * 4096 + hex_val(s[i + 3]) * 256 + hex_val(s[i + 4])
                    * 16 + hex_val(s[i + 5]);
                if code < 0xD800 || code >= 0xE000 {
                    match parse_str_body(s, i + 6) {
                        Some((rest, j)) => Some((seq![(code as u32) as char] + rest, j)),
                        None => None,
                    }
                } else {
                    None
                }
            } else {
                None
            }
        } else if i + 1 < s.len() && escape_short(s[i + 1]) is Some {
            match parse_str_body(s, i + 2) {
                Some((rest, j)) => Some((seq![escape_short(s[i + 1]).unwrap()] + rest, j)),
                None => None,
            }
        } else {
            None
        }
    } else if (s[i] as u32) < 0x20 {
        None
    } else {
        match parse_str_body(s, i + 1) {
            Some((rest, j)) => Some((seq![s[i]] + rest, j)),
            None => None,
        }
    }
}

proof fn lemma_skip_ws_bounds(s: Seq<char>, i: int)
    requires
        0 <= i <= s.len(),
    ensures
        i <= skip_ws(s, i) <= s.len(),
    decreases s.len() - i,
{
    if i < s.len() && is_json_ws(s[i]) {
        lemma_skip_ws_bounds(s, i + 1);
    }
}

proof fn lemma_parse_str_body_pos(s: Seq<char>, i: int)
    ensures
        parse_str_body(s, i) matches Some((body, j)) ==> i < j <= s.len(),
    decreases s.len() - i,
{
    if 0 <= i < s.len() {
        if s[i] == '\\' {
            if i + 1 < s.len() && s[i + 1] == 'u' {
                if i + 6 <= s.len() {
                    lemma_parse_str_body_pos(s, i + 6);
                }
            } else {
                if i + 2 <= s.len() {
                    lemma_parse_str_body_pos(s, i + 2);
                }
            }
        } else {
            lemma_parse_str_body_pos(s, i + 1);
        }
    }
}

/// One `"key" : "value"` member, read from `i`; yields the decoded key
/// and value and the position just after the value's closing quote.
pub open spec fn parse_member(s: Seq<char>, i: int) -> Option<((Seq<char>, Seq<char>), int)> {
    let k0 = skip_ws(s, i);
    if k0 < s.len() && s[k0] == '"' {
        match parse_str_body(s, k0 + 1) {
            Some((key, p)) => {
                let k1 = skip_ws(s, p);
                if k1 < s.len() && s[k1] == ':' {
                    let k2 = skip_ws(s, k1 + 1);
                    if k2 < s.len() && s[k2] == '"' {
                        match parse_str_body(s, k2 + 1) {
                            Some((value, q)) => Some(((key, value), q)),
                            None => None,
                        }
                    } else {
                        None
                    }
                } else {
                    None
                }
            },
            None => None,
        }
    } else {
        None
    }
}

proof fn lemma_parse_member_pos(s: Seq<char>, i: int)
    requires
        0 <= i <= s.len(),
    ensures
        parse_member(s, i) matches Some((kv, j)) ==> i < j <= s.len(),
{
    lemma_skip_ws_bounds(s, i);
    let k0 = skip_ws(s, i);
    if k0 < s.len() && s[k0] == '"' {
        lemma_parse_str_body_pos(s, k0 + 1);
        match parse_str_body(s, k0 + 1) {
            Some((key, p)) => {
                lemma_skip_ws_bounds(s, p);
                let k1 = skip_ws(s, p);
                if k1 < s.len() && s[k1] == ':' {
                    lemma_skip_ws_bounds(s, k1 + 1);
                    let k2 = skip_ws(s, k1 + 1);
                    if k2 < s.len() && s[k2] == '"' {
                        lemma_parse_str_body_pos(s, k2 + 1);
                    }
                }
            },
            None => {},
        }
    }
}

pub open spec fn is_location_key(k: Seq<char>) -> bool {
    k == location_key() || k == path_key()
}

/// The record two members denote, when one names the name and the other
/// the location (under either spelling), in either order.
pub open spec fn fields_of(
    k1: Seq<char>,
    v1: Seq<char>,
    k2: Seq<char>,
    v2: Seq<char>,
) -> Option<FavModel> {
    if k1 == name_key() && is_location_key(k2) {
        Some(FavModel { name: v1, location: v2 })
    } else if is_location_key(k1) && k2 == name_key() {
        Some(FavModel { name: v2, location: v1 })
    } else {
        None
    }
}

/// One `{ member , member }` object, read from `i` (whitespace first is
/// fine); yields the record and the position just after the brace.
pub open spec fn parse_object(s: Seq<char>, i: int) -> Option<(FavModel, int)> {
    let k = skip_ws(s, i);
    if k < s.len() && s[k] == '{' {
        match parse_member(s, k + 1) {
            Some(((k1, v1), p1)) => {
                let q = skip_ws(s, p1);
                if q < s.len() && s[q] == ',' {
                    match parse_member(s, q + 1) {
                        Some(((k2, v2), p2)) => {
                            let r = skip_ws(s, p2);
                            if r < s.len() && s[r] == '}' {
                                match fields_of(k1, v1, k2, v2) {
                                    Some(m) => Some((m, r + 1)),
                                    None => None,
                                }
                            } else {
                                None
                            }
                        },
                        None => None,
                    }
                } else {
                    None
                }
            },
            None => None,
        }
    } else {
        None
    }
}

proof fn lemma_parse_object_pos(s: Seq<char>, i: int)
    requires
        0 <= i <= s.len(),
    ensures
        parse_object(s, i) matches Some((m, j)) ==> i < j <= s.len(),
{
    lemma_skip_ws_bounds(s, i);
    let k = skip_ws(s, i);
    if k < s.len() && s[k] == '{' {
        lemma_parse_member_pos(s, k + 1);
        match parse_member(s, k + 1) {
            Some((kv1, p1)) => {
                lemma_skip_ws_bounds(s, p1);
                let q = skip_ws(s, p1);
                if q < s.len() && s[q] == ',' {
                    lemma_parse_member_pos(s, q + 1);
                    match parse_member(s, q + 1) {
                        Some((kv2, p2)) => {
                            lemma_skip_ws_bounds(s, p2);
                        },
                        None => {},
                    }
                }
            },
            None => {},
        }
    }
}

/// The remaining `, object`* `]` elements of the array, read from `i`
/// (just after a previous element); yields the records and the position
/// just after the closing bracket.
pub open spec fn parse_elems(s: Seq<char>, i: int) -> Option<(Seq<FavModel>, int)>
    decreases s.len() - i,
        when 0 <= i
    via parse_elems_dec
{
    let k = skip_ws(s, i);
    if k < s.len() && s[k] == ']' {
        Some((Seq::empty(), k + 1))
    } else if k < s.len() && s[k] == ',' {
        match parse_object(s, k + 1) {
            Some((m, j)) => match parse_elems(s, j) {
                Some((ms, l)) => Some((seq![m] + ms, l)),
                None => None,
            },
            None => None,
        }
    } else {
        None
    }
}

#[via_fn]
proof fn parse_elems_dec(s: Seq<char>, i: int) {
    if 0 <= i <= s.len() {
        lemma_skip_ws_bounds(s, i);
        let k = skip_ws(s, i);
        if k < s.len() && s[k] == ',' {
            lemma_parse_object_pos(s, k + 1);
        }
    }
}

proof fn lemma_parse_elems_pos(s: Seq<char>, i: int)
    requires
        0 <= i <= s.len(),
    ensures
        parse_elems(s, i) matches Some((ms, j)) ==> i < j <= s.len(),
    decreases s.len() - i,
{
    lemma_skip_ws_bounds(s, i);
    let k = skip_ws(s, i);
    if k < s.len() && s[k] == ',' {
        lemma_parse_object_pos(s, k + 1);
        match parse_object(s, k + 1) {
            Some((m, j)) => {
                lemma_parse_elems_pos(s, j);
            },
            None => {},
        }
    }
}

/// The records a document text holds, or `None` when it is not a single
/// well-bracketed array of records.
pub open spec fn parse_document(s: Seq<char>) -> Option<Seq<FavModel>> {
    let k = skip_ws(s, 0);
    if k < s.len() && s[k] == '[' {
        let k1 = skip_ws(s, k + 1);
        if k1 < s.len() && s[k1] == ']' {
            if skip_ws(s, k1 + 1) == s.len() {
                Some(Seq::empty())
            } else {
                None
            }
        } else {
            match parse_object(s, k + 1) {
                Some((m, j)) => match parse_elems(s, j) {
                    Some((ms, l)) => if skip_ws(s, l) == s.len() {
                        Some(seq![m] + ms)
                    } else {
                        None
                    },
                    None => None,
                },
                None => None,
            }
        }
    } else {
        None
    }
}

// ----- the parser itself -----

fn is_json_ws_char(c: char) -> (r: bool)
    ensures
        r == is_json_ws(c),
{
    c == ' ' || c == '\t' || c == '\n' || c == '\r'
}

fn hex_digit_of(c: char) -> (r: Option<u32>)
    ensures
        match r {
            Some(d) => hex_val(c) == d && d < 16,
            None => hex_val(c) == -1,
        },
{
    let n = c as u32;
    if 0x30 <= n && n <= 0x39 {
        Some(n - 0x30)
    } else if 0x61 <= n && n <= 0x66 {
        Some(n - 0x61 + 10)
    } else if 0x41 <= n && n <= 0x46 {
        Some(n - 0x41 + 10)
    } else {
        None
    }
}

fn short_escape_of(e: char) -> (r: Option<char>)
    ensures
        r == escape_short(e),
{
    if e == '"' {
        Some('"')
    } else if e == '\\' {
        Some('\\')
    } else if e == '/' {
        Some('/')
    } else if e == 'b' {
        Some('\u{0008}')
    } else if e == 'f' {
        Some('\u{000C}')
    } else if e == 'n' {
        Some('\n')
    } else if e == 'r' {
        Some('\r')
    } else if e == 't' {
        Some('\t')
    } else {
        None
    }
}

/// Relies on `char::from_u32`: `Some` exactly for code points that are
/// neither surrogates nor beyond the Unicode maximum, holding the
/// character with that code.
#[verifier::external_body]
fn char_from_u32(v: u32) -> (r: Option<char>)
    ensures
        r is Some <==> (v < 0xD800 || (0xE000 <= v && v <= 0x10FFFF)),
        (v < 0xD800 || (0xE000 <= v && v <= 0x10FFFF)) ==> r == Some(v as char),
{
    char::from_u32(v)
}

fn skip_ws_x(s: &str, start: usize) -> (r: usize)
    requires
        start <= s@.len(),
    ensures
        r == skip_ws(s@, start as int),
        start <= r <= s@.len(),
{
    let len = s.unicode_len();
    let mut cur = start;
    while cur < len && is_json_ws_char(s.get_char(cur))
        invariant
            start <= cur <= len,
            len == s@.len(),
            skip_ws(s@, start as int) == skip_ws(s@, cur as int),
        decreases len - cur,
    {
        cur = cur + 1;
    }
    cur
}

fn parse_str_body_x(s: &str, start: usize) -> (r: Option<(String, usize)>)
    requires
        start <= s@.len(),
    ensures
        match r {
            Some(p) => parse_str_body(s@, start as int) == Some((p.0@, p.1 as int)) && p.1
                <= s@.len(),
            None => parse_str_body(s@, start as int) is None,
        },
{
    let len = s.unicode_len();
    let mut acc = String::new();
    let mut cur = start;
    loop
        invariant
            start <= cur <= len,
            len == s@.len(),
            parse_str_body(s@, start as int) == (match parse_str_body(s@, cur as int) {
                Some((rest, j)) => Some((acc@ + rest, j)),
                None => None::<(Seq<char>, int)>,
            }),
        decreases len - cur,
    {
        if cur == len {
            return None;
        }
        let c = s.get_char(cur);
        if c == '"' {
            proof {
                assert(acc@ + Seq::<char>::empty() =~= acc@);
            }
            return Some((acc, cur + 1));
        } else if c == '\\' {
            if cur + 1 == len {
                return None;
            }
            let e = s.get_char(cur + 1);
            if e == 'u' {
                if len - cur < 6 {
                    return None;
                }
                let d1 = hex_digit_of(s.get_char(cur + 2));
                let d2 = hex_digit_of(s.get_char(cur + 3));
                let d3 = hex_digit_of(s.get_char(cur + 4));
                let d4 = hex_digit_of(s.get_char(cur + 5));
                let (v1, v2, v3, v4) = match (d1, d2, d3, d4) {
                    (Some(v1), Some(v2), Some(v3), Some(v4)) => (v1, v2, v3, v4),
                    _ => {
                        return None;
                    },
                };
                let code: u32 = v1 * 4096 + v2 * 256 + v3 * 16 + v4;
                if code >= 0xD800 && code < 0xE000 {
                    return None;
                }
                let ch = match char_from_u32(code) {
                    Some(ch) => ch,
                    None => vstd::pervasive::unreached(),
                };
                let ghost acc0 = acc@;
                push_char(&mut acc, ch);
                proof {
                    match parse_str_body(s@, cur + 6) {
                        Some((rest, j)) => {
                            assert(acc0 + (seq![ch] + rest) =~= acc@ + rest);
                        },
                        None => {},
                    }
                }
                cur = cur + 6;
            } else {
                let dec = short_escape_of(e);
                match dec {
                    None => {
                        return None;
                    },
                    Some(ch) => {
                        let ghost acc0 = acc@;
                        push_char(&mut acc, ch);
                        proof {
                            match parse_str_body(s@, cur + 2) {
                                Some((rest, j)) => {
                                    assert(acc0 + (seq![ch] + rest) =~= acc@ + rest);
                                },
                                None => {},
                            }
                        }
                        cur = cur + 2;
                    },
                }
            }
        } else if (c as u32) < 0x20 {
            return None;
        } else {
            let ghost acc0 = acc@;
            push_char(&mut acc, c);
            proof {
                match parse_str_body(s@, cur + 1) {
                    Some((rest, j)) => {
                        assert(acc0 + (seq![c] + rest) =~= acc@ + rest);
                    },
                    None => {},
                }
            }
            cur = cur + 1;
        }
    }
}

fn parse_member_x(s: &str, start: usize) -> (r: Option<((String, String), usize)>)
    requires
        start <= s@.len(),
    ensures
        match r {
            Some(p) => parse_member(s@, start as int) == Some(((p.0.0@, p.0.1@), p.1 as int))
                && p.1 <= s@.len(),
            None => parse_member(s@, start as int) is None,
        },
{
    let len = s.unicode_len();
    let k0 = skip_ws_x(s, start);
    if !(k0 < len && s.get_char(k0) == '"') {
        return None;
    }
    let (key, p) = match parse_str_body_x(s, k0 + 1) {
        Some(kp) => kp,
        None => {
            return None;
        },
    };
    let k1 = skip_ws_x(s, p);
    if !(k1 < len && s.get_char(k1) == ':') {
        return None;
    }
    let k2 = skip_ws_x(s, k1 + 1);
    if !(k2 < len && s.get_char(k2) == '"') {
        return None;
    }
    match parse_str_body_x(s, k2 + 1) {
        Some((value, q)) => Some(((key, value), q)),
        None => None,
    }
}

fn parse_object_x(s: &str, start: usize) -> (r: Option<((String, String), usize)>)
    requires
        start <= s@.len(),
    ensures
        match r {
            Some(p) => parse_object(s@, start as int) == Some(
                ((FavModel { name: p.0.0@, location: p.0.1@ }), p.1 as int),
            ) && p.1 <= s@.len(),
            None => parse_object(s@, start as int) is None,
        },
{
    let len = s.unicode_len();
    let k = skip_ws_x(s, start);
    if !(k < len && s.get_char(k) == '{') {
        return None;
    }
    let ((key1, val1), p1) = match parse_member_x(s, k + 1) {
        Some(m) => m,
        None => {
            return None;
        },
    };
    let q = skip_ws_x(s, p1);
    if !(q < len && s.get_char(q) == ',') {
        return None;
    }
    let ((key2, val2), p2) = match parse_member_x(s, q + 1) {
        Some(m) => m,
        None => {
            return None;
        },
    };
    let r2 = skip_ws_x(s, p2);
    if !(r2 < len && s.get_char(r2) == '}') {
        return None;
    }
    let k1_is_name = str_eq(key1.as_str(), "name");
    let k1_is_loc = str_eq(key1.as_str(), "location") || str_eq(key1.as_str(), "path");
    let k2_is_name = str_eq(key2.as_str(), "name");
    let k2_is_loc = str_eq(key2.as_str(), "location") || str_eq(key2.as_str(), "path");
    proof {
        reveal_strlit("name");
        reveal_strlit("location");
        reveal_strlit("path");
        assert("name"@ =~= name_key());
        assert("location"@ =~= location_key());
        assert("path"@ =~= path_key());
    }
    if k1_is_name && k2_is_loc {
        Some(((val1, val2), r2 + 1))
    } else if k1_is_loc && k2_is_name {
        Some(((val2, val1), r2 + 1))
    } else {
        proof {
            assert(fields_of(key1@, val1@, key2@, val2@) is None);
        }
        None
    }
}

/// The record models that a list of parsed `(name, location)` pairs holds.
pub open spec fn pair_models(ps: Seq<(String, String)>) -> Seq<FavModel> {
    ps.map_values(|p: (String, String)| FavModel { name: p.0@, location: p.1@ })
}

fn parse_document_x(s: &str) -> (r: Option<Vec<(String, String)>>)
    ensures
        match r {
            Some(pairs) => parse_document(s@) == Some(pair_models(pairs@)),
            None => parse_document(s@) is None,
        },
{
    let len = s.unicode_len();
    let k = skip_ws_x(s, 0);
    if !(k < len && s.get_char(k) == '[') {
        return None;
    }
    let k1 = skip_ws_x(s, k + 1);
    if k1 < len && s.get_char(k1) == ']' {
        let e = skip_ws_x(s, k1 + 1);
        if e == len {
            let empty: Vec<(String, String)> = Vec::new();
            proof {
                assert(pair_models(empty@) =~= Seq::<FavModel>::empty());
            }
            return Some(empty);
        } else {
            return None;
        }
    }
    let (first, j) = match parse_object_x(s, k + 1) {
        Some(o) => o,
        None => {
            return None;
        },
    };
    let mut pairs: Vec<(String, String)> = Vec::new();
    let ghost m_first = FavModel { name: first.0@, location: first.1@ };
    pairs.push(first);
    let mut cur = j;
    proof {
        match parse_elems(s@, j as int) {
            Some((ms, l)) => {
                assert(seq![m_first] + ms =~= pair_models(pairs@) + ms);
            },
            None => {},
        }
    }
    loop
        invariant
            cur <= len,
            len == s@.len(),
            parse_document(s@) == (match parse_elems(s@, cur as int) {
                Some((ms, l)) => if skip_ws(s@, l) == s@.len() {
                    Some(pair_models(pairs@) + ms)
                } else {
                    None::<Seq<FavModel>>
                },
                None => None::<Seq<FavModel>>,
            }),
        decreases len - cur,
    {
        let k2 = skip_ws_x(s, cur);
        if k2 < len && s.get_char(k2) == ']' {
            let e = skip_ws_x(s, k2 + 1);
            if e == len {
                proof {
                    assert(pair_models(pairs@) + Seq::<FavModel>::empty() =~= pair_models(pairs@));
                }
                return Some(pairs);
            } else {
                return None;
            }
        }
        if !(k2 < len && s.get_char(k2) == ',') {
            return None;
        }
        let (next, j2) = match parse_object_x(s, k2 + 1) {
            Some(o) => o,
            None => {
                return None;
            },
        };
        proof {
            lemma_parse_object_pos(s@, k2 + 1);
        }
        let ghost pairs0 = pairs@;
        let ghost m_next = FavModel { name: next.0@, location: next.1@ };
        pairs.push(next);
        proof {
            match parse_elems(s@, j2 as int) {
                Some((ms2, l)) => {
                    assert(pair_models(pairs@) =~= pair_models(pairs0).push(m_next));
                    assert(pair_models(pairs0) + (seq![m_next] + ms2) =~= pair_models(pairs@)
                        + ms2);
                },
                None => {},
            }
        }
        cur = j2;
    }
}

/// Records that make a collection: trimmed non-empty texts, unique names.
pub open spec fn valid_records(rs: Seq<FavModel>) -> bool {
    unique_names(rs) && all_wf(rs)
}

/// The collection a document text denotes, if any.
pub open spec fn document_models(s: Seq<char>) -> Option<Seq<FavModel>> {
    match parse_document(s) {
        Some(rs) => if valid_records(rs) {
            Some(rs)
        } else {
            None
        },
        None => None,
    }
}

// ----- the serializer -----

proof fn lemma_escape_snoc(s: Seq<char>, c: char)
    ensures
        escape_string(s.push(c)) == escape_string(s) + escape_char(c),
    decreases s.len(),
{
    if s.len() == 0 {
        assert(s.push(c)[0] == c);
        assert(s.push(c).drop_first() =~= Seq::<char>::empty());
        assert(escape_string(Seq::<char>::empty()) == Seq::<char>::empty());
        assert(escape_string(s.push(c)) =~= escape_char(c));
        assert(escape_string(s) + escape_char(c) =~= escape_char(c));
    } else {
        assert(s.push(c)[0] == s[0]);
        assert(s.push(c).drop_first() =~= s.drop_first().push(c));
        lemma_escape_snoc(s.drop_first(), c);
        assert(escape_char(s[0]) + (escape_string(s.drop_first()) + escape_char(c)) =~= (
        escape_char(s[0]) + escape_string(s.drop_first())) + escape_char(c));
    }
}

fn hex_digit(d: u32) -> (c: char)
    requires
        d < 16,
    ensures
        c == hex_digit_char(d as int),
{
    if d == 0 {
        '0'
    } else if d == 1 {
        '1'
    } else if d == 2 {
        '2'
    } else if d == 3 {
        '3'
    } else if d == 4 {
        '4'
    } else if d == 5 {
        '5'
    } else if d == 6 {
        '6'
    } else if d == 7 {
        '7'
    } else if d == 8 {
        '8'
    } else if d == 9 {
        '9'
    } else if d == 10 {
        'a'
    } else if d == 11 {
        'b'
    } else if d == 12 {
        'c'
    } else if d == 13 {
        'd'
    } else if d == 14 {
        'e'
    } else {
        'f'
    }
}

fn append_quoted(out: &mut String, s: &str)
    ensures
        final(out)@ == old(out)@ + quoted(s@),
{
    let ghost base = out@;
    push_char(out, '"');
    let len = s.unicode_len();
    let mut i: usize = 0;
    while i < len
        invariant
            0 <= i <= len,
            len == s@.len(),
            out@ == base + seq!['"'] + escape_string(s@.subrange(0, i as int)),
        decreases len - i,
    {
        let c = s.get_char(i);
        let ghost before = out@;
        if c == '"' || c == '\\' || (c as u32) < 0x20 {
            let code = c as u32;
            push_char(out, '\\');
            push_char(out, 'u');
            push_char(out, '0');
            push_char(out, '0');
            push_char(out, hex_digit(code / 16));
            push_char(out, hex_digit(code % 16));
            proof {
                assert(out@ =~= before + escape_char(c));
            }
        } else {
            push_char(out, c);
            proof {
                assert(out@ =~= before + escape_char(c));
            }
        }
        proof {
            lemma_escape_snoc(s@.subrange(0, i as int), c);
            assert(s@.subrange(0, i + 1) =~= s@.subrange(0, i as int).push(c));
            assert(out@ =~= base + seq!['"'] + escape_string(s@.subrange(0, i + 1)));
        }
        i = i + 1;
    }
    push_char(out, '"');
    proof {
        assert(s@.subrange(0, len as int) =~= s@);
        assert(out@ =~= base + quoted(s@));
    }
}

fn append_record(out: &mut String, rec: &FavoriteFolderPath)
    ensures
        final(out)@ == old(out)@ + record_json(rec@),
{
    proof {
        reveal_strlit("name");
        reveal_strlit("location");
        assert("name"@ =~= name_key());
        assert("location"@ =~= location_key());
    }
    let ghost base = out@;
    push_char(out, '{');
    append_quoted(out, "name");
    push_char(out, ':');
    append_quoted(out, rec.get_name());
    push_char(out, ',');
    append_quoted(out, "location");
    push_char(out, ':');
    append_quoted(out, rec.path_str());
    push_char(out, '}');
    proof {
        assert(out@ =~= base + record_json(rec@));
    }
}

proof fn lemma_tail_snoc(ts: Seq<FavModel>, m: FavModel)
    ensures
        tail_json(ts.push(m)) == tail_json(ts) + seq![','] + record_json(m),
    decreases ts.len(),
{
    if ts.len() == 0 {
        assert(ts.push(m)[0] == m);
        assert(ts.push(m).drop_first() =~= Seq::<FavModel>::empty());
        assert(tail_json(Seq::<FavModel>::empty()) == Seq::<char>::empty());
        assert(tail_json(ts.push(m)) =~= seq![','] + record_json(m));
        assert(tail_json(ts) + seq![','] + record_json(m) =~= seq![','] + record_json(m));
    } else {
        assert(ts.push(m)[0] == ts[0]);
        assert(ts.push(m).drop_first() =~= ts.drop_first().push(m));
        lemma_tail_snoc(ts.drop_first(), m);
        assert(seq![','] + record_json(ts[0]) + (tail_json(ts.drop_first()) + seq![',']
            + record_json(m)) =~= (seq![','] + record_json(ts[0]) + tail_json(ts.drop_first()))
            + seq![','] + record_json(m));
    }
}

proof fn lemma_records_snoc(rs: Seq<FavModel>, m: FavModel)
    ensures
        rs.len() == 0 ==> records_json(rs.push(m)) == records_json(rs) + record_json(m),
        rs.len() > 0 ==> records_json(rs.push(m)) == records_json(rs) + seq![','] + record_json(
            m,
        ),
    decreases rs.len(),
{
    if rs.len() == 0 {
        assert(rs.push(m)[0] == m);
        assert(rs.push(m).drop_first() =~= Seq::<FavModel>::empty());
        assert(tail_json(Seq::<FavModel>::empty()) == Seq::<char>::empty());
        assert(records_json(rs.push(m)) =~= record_json(m));
        assert(records_json(rs) + record_json(m) =~= record_json(m));
    } else {
        assert(rs.push(m)[0] == rs[0]);
        assert(rs.push(m).drop_first() =~= rs.drop_first().push(m));
        lemma_tail_snoc(rs.drop_first(), m);
        assert(record_json(rs[0]) + (tail_json(rs.drop_first()) + seq![','] + record_json(m)) =~= (
        record_json(rs[0]) + tail_json(rs.drop_first())) + seq![','] + record_json(m));
    }
}

/// Writes the whole collection as its document text.
pub fn serialize_favorites(favorites: &AllFavorites) -> (r: String)
    ensures
        r@ == document_json(favorites@),
{
    let records = favorites.as_slice();
    let mut out = String::new();
    push_char(&mut out, '[');
    let n = records.len();
    let mut i: usize = 0;
    while i < n
        invariant
            0 <= i <= n,
            n == records@.len(),
            favorites@.len() == n,
            favorites@ == crate::all_favorites::models_of(records@),
            out@ == seq!['['] + records_json(favorites@.subrange(0, i as int)),
        decreases n - i,
    {
        let ghost before = out@;
        if i > 0 {
            push_char(&mut out, ',');
        }
        append_record(&mut out, &records[i]);
        proof {
            assert(records@[i as int]@ == favorites@[i as int]);
            let prefix = favorites@.subrange(0, i as int);
            lemma_records_snoc(prefix, favorites@[i as int]);
            assert(favorites@.subrange(0, i + 1) =~= prefix.push(favorites@[i as int]));
            if i > 0 {
                assert(out@ =~= seq!['['] + records_json(favorites@.subrange(0, i + 1)));
            } else {
                assert(out@ =~= seq!['['] + records_json(favorites@.subrange(0, i + 1)));
            }
        }
        i = i + 1;
    }
    push_char(&mut out, ']');
    proof {
        assert(favorites@.subrange(0, n as int) =~= favorites@);
        assert(out@ =~= document_json(favorites@));
    }
    out
}

// ----- the round trip: parsing what the serializer wrote -----

proof fn lemma_char_roundtrip(c: char)
    requires
        (c as u32) < 0xD800,
    ensures
        ((c as u32) as char) == c,
{
}

proof fn lemma_hex_roundtrip(d: int)
    requires
        0 <= d < 16,
    ensures
        hex_val(hex_digit_char(d)) == d,
{
}

proof fn lemma_parse_escaped(s: Seq<char>, i: int, x: Seq<char>)
    requires
        0 <= i,
        i + escape_string(x).len() + 1 <= s.len(),
        s.subrange(i, i + escape_string(x).len() + 1) == escape_string(x) + seq!['"'],
    ensures
        parse_str_body(s, i) == Some((x, i + escape_string(x).len() + 1)),
    decreases x.len(),
{
    let esc = escape_string(x);
    let end = i + esc.len() + 1;
    let w = s.subrange(i, end);
    if x.len() == 0 {
        assert(s[i] == w[0]);
        assert(s[i] == '"');
    } else {
        let c = x[0];
        let escr = escape_string(x.drop_first());
        assert(esc == escape_char(c) + escr);
        if !needs_escape(c) {
            assert(escape_char(c) == seq![c]);
            assert(s[i] == w[0]);
            assert(w[0] == (escape_char(c) + escr + seq!['"'])[0]);
            assert(s[i] == c);
            assert(s.subrange(i + 1, end) =~= escr + seq!['"']) by {
                assert forall|k: int| 0 <= k < end - i - 1 implies s.subrange(i + 1, end)[k] == (
                escr + seq!['"'])[k] by {
                    assert(s.subrange(i + 1, end)[k] == w[k + 1]);
                    assert(w[k + 1] == (esc + seq!['"'])[k + 1]);
                }
            }
            lemma_parse_escaped(s, i + 1, x.drop_first());
            assert(s[i] != '"' && s[i] != '\\' && (s[i] as u32) >= 0x20);
            assert(seq![c] + x.drop_first() =~= x);
        } else {
            let code = c as u32;
            assert(code < 256) by {
                assert(c == '"' || c == '\\' || (c as u32) < 0x20);
            }
            let h1 = hex_digit_char((code as int) / 16);
            let h2 = hex_digit_char((code as int) % 16);
            assert(escape_char(c) == seq!['\\', 'u', '0', '0', h1, h2]);
            assert forall|k: int| 0 <= k < 6 implies s[i + k] == escape_char(c)[k] by {
                assert(s[i + k] == w[k]);
                assert(w[k] == (esc + seq!['"'])[k]);
                assert((esc + seq!['"'])[k] == esc[k]);
                assert(esc[k] == (escape_char(c) + escr)[k]);
            }
            assert(s[i] == '\\');
            assert(s[i + 1] == 'u');
            assert(s[i + 2] == '0');
            assert(s[i + 3] == '0');
            assert(s[i + 4] == h1);
            assert(s[i + 5] == h2);
            lemma_hex_roundtrip((code as int) / 16);
            lemma_hex_roundtrip((code as int) % 16);
            assert(hex_val(s[i + 2]) == 0 && hex_val(s[i + 3]) == 0);
            assert(hex_val(s[i + 4]) == (code as int) / 16);
            assert(hex_val(s[i + 5]) == (code as int) % 16);
            let parsed_code = hex_val(s[i + 2]) * 4096 + hex_val(s[i + 3]) * 256 + hex_val(
                s[i + 4],
            ) * 16 + hex_val(s[i + 5]);
            assert(parsed_code == code);
            assert(s.subrange(i + 6, end) =~= escr + seq!['"']) by {
                assert forall|k: int| 0 <= k < end - i - 6 implies s.subrange(i + 6, end)[k] == (
                escr + seq!['"'])[k] by {
                    assert(s.subrange(i + 6, end)[k] == w[k + 6]);
                    assert(w[k + 6] == (esc + seq!['"'])[k + 6]);
                }
            }
            lemma_parse_escaped(s, i + 6, x.drop_first());
            lemma_char_roundtrip(c);
            assert(((code as u32) as char) == c);
            assert(seq![c] + x.drop_first() =~= x);
        }
    }
}

proof fn lemma_parse_quoted(s: Seq<char>, i: int, x: Seq<char>)
    requires
        0 <= i,
        i + quoted(x).len() <= s.len(),
        s.subrange(i, i + quoted(x).len()) == quoted(x),
    ensures
        parse_str_body(s, i + 1) == Some((x, i + quoted(x).len())),
        s[i] == '"',
{
    let q = quoted(x);
    assert(s[i] == s.subrange(i, i + q.len())[0]);
    assert(q[0] == '"');
    assert(s.subrange(i + 1, i + q.len()) =~= escape_string(x) + seq!['"']) by {
        assert forall|k: int| 0 <= k < q.len() - 1 implies s.subrange(i + 1, i + q.len())[k] == (
        escape_string(x) + seq!['"'])[k] by {
            assert(s.subrange(i + 1, i + q.len())[k] == s.subrange(i, i + q.len())[k + 1]);
            assert(q[k + 1] == (seq!['"'] + (escape_string(x) + seq!['"']))[k + 1]) by {
                assert(q =~= seq!['"'] + (escape_string(x) + seq!['"']));
            }
        }
    }
    lemma_parse_escaped(s, i + 1, x);
}

/// One serialized member, `"key":"value"`.
pub open spec fn member_json(k: Seq<char>, v: Seq<char>) -> Seq<char> {
    quoted(k) + seq![':'] + quoted(v)
}

proof fn lemma_parse_member_of(s: Seq<char>, i: int, k: Seq<char>, v: Seq<char>)
    requires
        0 <= i,
        i + member_json(k, v).len() <= s.len(),
        s.subrange(i, i + member_json(k, v).len()) == member_json(k, v),
    ensures
        parse_member(s, i) == Some(((k, v), i + member_json(k, v).len())),
        s[i] == '"',
    decreases 0int,
{
    let mj = member_json(k, v);
    let qk = quoted(k);
    let qv = quoted(v);
    let w = s.subrange(i, i + mj.len());
    assert forall|t: int| 0 <= t < mj.len() implies s[i + t] == mj[t] by {
        assert(s[i + t] == w[t]);
    }
    let b = i + qk.len();
    assert(s.subrange(i, i + qk.len()) =~= qk) by {
        assert forall|t: int| 0 <= t < qk.len() implies s.subrange(i, i + qk.len())[t] == qk[t] by {
            assert(s.subrange(i, i + qk.len())[t] == s[i + t]);
            assert(mj[t] == qk[t]);
        }
    }
    lemma_parse_quoted(s, i, k);
    assert(s[b] == mj[qk.len() as int]);
    assert(mj[qk.len() as int] == ':');
    assert(s.subrange(b + 1, b + 1 + qv.len()) =~= qv) by {
        assert forall|t: int| 0 <= t < qv.len() implies s.subrange(b + 1, b + 1 + qv.len())[t]
            == qv[t] by {
            assert(s.subrange(b + 1, b + 1 + qv.len())[t] == s[i + (qk.len() + 1 + t)]);
            assert(mj[qk.len() + 1 + t] == qv[t]);
        }
    }
    lemma_parse_quoted(s, b + 1, v);
    assert(skip_ws(s, i) == i);
    assert(skip_ws(s, b) == b);
    assert(skip_ws(s, b + 1) == b + 1);
    assert(b + 1 + qv.len() == i + mj.len());
}

proof fn lemma_parse_record(s: Seq<char>, i: int, m: FavModel)
    requires
        0 <= i,
        i + record_json(m).len() <= s.len(),
        s.subrange(i, i + record_json(m).len()) == record_json(m),
    ensures
        parse_object(s, i) == Some((m, i + record_json(m).len())),
        s[i] == '{',
{
    let rj = record_json(m);
    let mj1 = member_json(name_key(), m.name);
    let mj2 = member_json(location_key(), m.location);
    assert(rj =~= seq!['{'] + mj1 + seq![','] + mj2 + seq!['}']);
    let w = s.subrange(i, i + rj.len());
    assert forall|t: int| 0 <= t < rj.len() implies s[i + t] == rj[t] by {
        assert(s[i + t] == w[t]);
    }
    let a1 = i + 1;
    let p1 = a1 + mj1.len();
    let a2 = p1 + 1;
    let p2 = a2 + mj2.len();
    assert(s[i] == rj[0]);
    assert(rj[0] == '{');
    assert(s.subrange(a1, a1 + mj1.len()) =~= mj1) by {
        assert forall|t: int| 0 <= t < mj1.len() implies s.subrange(a1, a1 + mj1.len())[t]
            == mj1[t] by {
            assert(s.subrange(a1, a1 + mj1.len())[t] == s[i + (1 + t)]);
            assert(rj[1 + t] == mj1[t]);
        }
    }
    lemma_parse_member_of(s, a1, name_key(), m.name);
    assert(s[p1] == rj[p1 - i]);
    assert(rj[p1 - i] == ',');
    assert(s.subrange(a2, a2 + mj2.len()) =~= mj2) by {
        assert forall|t: int| 0 <= t < mj2.len() implies s.subrange(a2, a2 + mj2.len())[t]
            == mj2[t] by {
            assert(s.subrange(a2, a2 + mj2.len())[t] == s[i + (a2 - i + t)]);
            assert(rj[a2 - i + t] == mj2[t]);
        }
    }
    lemma_parse_member_of(s, a2, location_key(), m.location);
    assert(s[p2] == rj[p2 - i]);
    assert(rj[p2 - i] == '}');
    assert(skip_ws(s, i) == i);
    assert(skip_ws(s, p1) == p1);
    assert(skip_ws(s, p2) == p2);
    assert(fields_of(name_key(), m.name, location_key(), m.location) == Some(m)) by {
        assert((FavModel { name: m.name, location: m.location }) =~= m);
    }
    assert(p2 + 1 == i + rj.len());
}

proof fn lemma_parse_tail(s: Seq<char>, i: int, ts: Seq<FavModel>)
    requires
        0 <= i,
        i + tail_json(ts).len() + 1 <= s.len(),
        s.subrange(i, i + tail_json(ts).len() + 1) == tail_json(ts) + seq![']'],
    ensures
        parse_elems(s, i) == Some((ts, i + tail_json(ts).len() + 1)),
    decreases ts.len(),
{
    let tj = tail_json(ts);
    let end = i + tj.len() + 1;
    let w = s.subrange(i, end);
    assert forall|t: int| 0 <= t < end - i implies s[i + t] == (tj + seq![']'])[t] by {
        assert(s[i + t] == w[t]);
    }
    assert(s[i] == w[0]);
    assert(w[0] == (tj + seq![']'])[0]);
    if ts.len() == 0 {
        assert(s[i] == ']');
        assert(skip_ws(s, i) == i);
    } else {
        let rj = record_json(ts[0]);
        let tr = tail_json(ts.drop_first());
        assert(tj == seq![','] + rj + tr);
        assert(s[i] == ',');
        assert(skip_ws(s, i) == i);
        assert(s.subrange(i + 1, i + 1 + rj.len()) =~= rj) by {
            assert forall|t: int| 0 <= t < rj.len() implies s.subrange(i + 1, i + 1 + rj.len())[t]
                == rj[t] by {
                assert(s.subrange(i + 1, i + 1 + rj.len())[t] == s[i + (1 + t)]);
                assert((tj + seq![']'])[1 + t] == tj[1 + t]);
                assert(tj[1 + t] == (seq![','] + rj + tr)[1 + t]);
            }
        }
        lemma_parse_record(s, i + 1, ts[0]);
        let j = i + 1 + rj.len();
        assert(s.subrange(j, end) =~= tr + seq![']']) by {
            assert forall|t: int| 0 <= t < end - j implies s.subrange(j, end)[t] == (tr
                + seq![']'])[t] by {
                assert(s.subrange(j, end)[t] == s[i + (j - i + t)]);
                assert(s[i + (j - i + t)] == (tj + seq![']'])[j - i + t]);
                if t < tr.len() {
                    assert((tj + seq![']'])[j - i + t] == tj[j - i + t]);
                    assert(tj[j - i + t] == (seq![','] + rj + tr)[j - i + t]);
                } else {
                    assert(j - i + t == tj.len());
                    assert((tj + seq![']'])[j - i + t] == ']');
                }
            }
        }
        lemma_parse_tail(s, j, ts.drop_first());
        assert(seq![ts[0]] + ts.drop_first() =~= ts);
    }
}

/// Law: every valid collection value, serialized, parses back to exactly
/// the same records — no data loss, no reordering.
pub proof fn lemma_document_round_trip(rs: Seq<FavModel>)
    requires
        valid_records(rs),
    ensures
        document_models(document_json(rs)) == Some(rs),
{
    let s = document_json(rs);
    let body = records_json(rs);
    assert(s == seq!['['] + body + seq![']']);
    assert(s[0] == '[');
    assert(skip_ws(s, 0) == 0);
    if rs.len() == 0 {
        assert(s.len() == 2);
        assert(s[1] == ']');
        assert(skip_ws(s, 1) == 1);
        assert(skip_ws(s, 2) == 2);
        assert(Seq::<FavModel>::empty() =~= rs);
    } else {
        let rj = record_json(rs[0]);
        let tr = tail_json(rs.drop_first());
        assert(body == rj + tr);
        assert(s[1] == rj[0]) by {
            assert(s[1] == body[0]);
        }
        assert(rj[0] == '{');
        assert(s[1] != ']');
        assert(skip_ws(s, 1) == 1);
        let j: int = 1 + rj.len() as int;
        let end: int = j + tr.len() as int + 1;
        assert(s.subrange(1, j) =~= rj) by {
            assert forall|t: int| 0 <= t < rj.len() implies s.subrange(1, j)[t] == rj[t] by {
                assert(s.subrange(1, j)[t] == s[1 + t]);
                assert(s[1 + t] == body[t]);
                assert(body[t] == (rj + tr)[t]);
            }
        }
        lemma_parse_record(s, 1, rs[0]);
        assert(end == s.len());
        assert(s.subrange(j, end) =~= tr + seq![']']) by {
            assert forall|t: int| 0 <= t < end - j implies s.subrange(j, end)[t] == (tr
                + seq![']'])[t] by {
                assert(s.subrange(j, end)[t] == s[j + t]);
                if t < tr.len() {
                    assert(s[j + t] == body[j - 1 + t]);
                    assert(body[j - 1 + t] == (rj + tr)[j - 1 + t]);
                } else {
                    assert(s[j + t] == s[s.len() - 1]);
                }
            }
        }
        lemma_parse_tail(s, j, rs.drop_first());
        assert(skip_ws(s, end) == end);
        assert(seq![rs[0]] + rs.drop_first() =~= rs);
    }
}

// ----- validation and the public loading API -----

/// The persisted document does not denote a favorites collection.
#[derive(Debug, PartialEq, Eq, Structural)]
pub struct FormatError;

impl FormatError {
    /// The human-readable description of this error.
    pub fn message(&self) -> (r: &'static str)
        ensures
            r@ == "Error in parsing app data"@,
    {
        "Error in parsing app data"
    }
}

fn validated_text(s: &str) -> (r: Option<NonEmptyText>)
    ensures
        match r {
            Some(t) => valid_text(s@) && t@ == s@ && t.wf(),
            None => !valid_text(s@),
        },
{
    let len = s.unicode_len();
    if len == 0 {
        return None;
    }
    if is_whitespace_char(s.get_char(0)) {
        proof {
            assert(trim_start_spec(s@) == trim_start_spec(s@.drop_first()));
            lemma_trim_start_props(s@.drop_first());
            lemma_trim_end_props(trim_start_spec(s@));
            assert(trim_spec(s@).len() < s@.len());
        }
        return None;
    }
    if is_whitespace_char(s.get_char(len - 1)) {
        proof {
            assert(trim_start_spec(s@) == s@);
            assert(s@.last() == s@[len - 1]);
            assert(trim_end_spec(s@) == trim_end_spec(s@.drop_last()));
            lemma_trim_end_props(s@.drop_last());
            assert(trim_spec(s@).len() < s@.len());
        }
        return None;
    }
    proof {
        assert(trim_start_spec(s@) == s@);
        assert(s@.last() == s@[len - 1]);
        assert(trim_end_spec(s@) == s@);
    }
    Some(NonEmptyText::unwrap(s))
}

/// Parses a document into a collection; fails exactly when the text does
/// not denote one.
pub fn parse_favorites(text: &str) -> (r: Result<AllFavorites, FormatError>)
    ensures
        match r {
            Ok(favs) => document_models(text@) == Some(favs@) && favs.wf(),
            Err(e) => document_models(text@) is None,
        },
{
    let pairs = match parse_document_x(text) {
        Some(p) => p,
        None => {
            return Err(FormatError);
        },
    };
    let ghost rs = pair_models(pairs@);
    let mut favs = AllFavorites::new(Vec::new());
    proof {
        assert(favs@ =~= rs.subrange(0, 0));
    }
    let n = pairs.len();
    let mut i: usize = 0;
    while i < n
        invariant
            0 <= i <= n,
            n == pairs@.len(),
            rs == pair_models(pairs@),
            rs.len() == n,
            favs@ == rs.subrange(0, i as int),
            favs.wf(),
            parse_document(text@) == Some(rs),
        decreases n - i,
    {
        proof {
            assert(rs[i as int] == (FavModel { name: pairs@[i as int].0@, location: pairs@[
                i as int].1@ }));
        }
        let name = match validated_text(pairs[i].0.as_str()) {
            Some(t) => t,
            None => {
                proof {
                    assert(!rs[i as int].wf());
                }
                return Err(FormatError);
            },
        };
        let location = match validated_text(pairs[i].1.as_str()) {
            Some(t) => t,
            None => {
                proof {
                    assert(!rs[i as int].wf());
                }
                return Err(FormatError);
            },
        };
        match favs.find_by_name_index(name.as_str()) {
            Some(_) => {
                proof {
                    lemma_find_idx_props(favs@, name@);
                    let k = find_idx(favs@, name@);
                    assert(favs@[k] == rs[k]);
                    assert(rs[k].name == rs[i as int].name);
                    assert(!unique_names(rs));
                }
                return Err(FormatError);
            },
            None => {},
        }
        let rec = FavoriteFolderPath::new(name, location);
        favs.insert(rec);
        proof {
            assert(favs@ =~= rs.subrange(0, i + 1));
        }
        i = i + 1;
    }
    proof {
        assert(rs.subrange(0, n as int) =~= rs);
        assert(valid_records(rs));
    }
    Ok(favs)
}

/// Loads the collection a document holds. A missing document denotes the
/// empty collection, not an error; a present one must parse.
pub fn load_favorites(content: Option<&str>) -> (r: Result<AllFavorites, FormatError>)
    ensures
        match content {
            None => r matches Ok(favs) && favs@ == Seq::<FavModel>::empty() && favs.wf(),
            Some(text) => match r {
                Ok(favs) => document_models(text@) == Some(favs@) && favs.wf(),
                Err(e) => document_models(text@) is None,
            },
        },
{
    match content {
        None => {
            let favs = AllFavorites::new(Vec::new());
            proof {
                assert(favs@ =~= Seq::<FavModel>::empty());
            }
            Ok(favs)
        },
        Some(text) => parse_favorites(text),
    }
}

} // verus!
