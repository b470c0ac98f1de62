//! Reading and writing JSON text, the format in which the compiler is asked
//! and in which it answers.
//!
//! The grammar is that of RFC 8259. A number is kept as it is written. An
//! escaped surrogate pair in a string becomes one character; a surrogate that
//! stands alone is refused. Arrays and objects may nest up to [`MAX_DEPTH`]
//! levels deep. Values are written without white space; of the characters
//! of a string, the quote, the backslash and the control characters are
//! escaped.

use vstd::prelude::*;
use crate::text::{chars_equal, chars_of, is_digit, string_of, string_of_range};

verus! {

/// `char::from_u32` of the standard library gives the character with the code
/// `i`, and gives one exactly when `i` is a Unicode scalar value: below
/// `0xD800`, or from `0xE000` up to `0x10FFFF`. Assumed, not proved.
pub assume_specification[ char::from_u32 ](i: u32) -> (r: Option<char>)
    ensures
        r is Some <==> (i < 0xD800 || (0xE000 <= i && i <= 0x10FFFF)),
        r matches Some(c) ==> c as u32 == i,
;

/// How deep arrays and objects may nest.
pub const MAX_DEPTH: usize = 128;

/// A JSON value.
#[derive(Debug)]
pub enum Json {
    Null,
    Bool(bool),
    /// A number, as it was written.
    Number(String),
    /// A string, with its escapes resolved.
    Text(String),
    Array(Vec<Json>),
    /// An object: its members in the order in which they were written.
    Object(Vec<Member>),
}

/// One member of an object.
#[derive(Debug)]
pub struct Member {
    pub name: String,
    pub value: Json,
}

/// The mathematical value of a [`Json`].
pub enum JsonView {
    Null,
    Bool(bool),
    Number(Seq<char>),
    Text(Seq<char>),
    Array(Seq<JsonView>),
    Object(Seq<MemberView>),
}

/// The mathematical value of a [`Member`].
pub struct MemberView {
    pub name: Seq<char>,
    pub value: JsonView,
}

impl View for Json {
    type V = JsonView;

    open spec fn view(&self) -> JsonView
        decreases self,
    {
        match self {
            Json::Null => JsonView::Null,
            Json::Bool(b) => JsonView::Bool(*b),
            Json::Number(n) => JsonView::Number(n@),
            Json::Text(t) => JsonView::Text(t@),
            Json::Array(items) => JsonView::Array(
                Seq::new(
                    items@.len(),
                    |i: int|
                        if 0 <= i < items@.len() {
                            items@[i].view()
                        } else {
                            JsonView::Null
                        },
                ),
            ),
            Json::Object(members) => JsonView::Object(
                Seq::new(
                    members@.len(),
                    |i: int|
                        if 0 <= i < members@.len() {
                            MemberView {
                                name: members@[i].name@,
                                value: members@[i].value.view(),
                            }
                        } else {
                            MemberView { name: Seq::empty(), value: JsonView::Null }
                        },
                ),
            ),
        }
    }
}

/// The values of `items`, in order.
pub open spec fn element_views(items: Seq<Json>) -> Seq<JsonView> {
    Seq::new(items.len(), |i: int| items[i]@)
}

/// The names and values of `members`, in order.
pub open spec fn member_views(members: Seq<Member>) -> Seq<MemberView> {
    Seq::new(
        members.len(),
        |i: int| MemberView { name: members[i].name@, value: members[i].value@ },
    )
}

/// The value of an array is the sequence of the values of its items.
pub proof fn lemma_array_view(items: Vec<Json>)
    ensures
        Json::Array(items)@ == JsonView::Array(element_views(items@)),
{
    assert(Json::Array(items)@->Array_0 =~= element_views(items@));
}

/// The value of an object is the sequence of its members' names and values.
pub proof fn lemma_object_view(members: Vec<Member>)
    ensures
        Json::Object(members)@ == JsonView::Object(member_views(members@)),
{
    assert(Json::Object(members)@->Object_0 =~= member_views(members@));
}

/// Whether the character at `pos` is `c`.
pub open spec fn has_char(s: Seq<char>, pos: int, c: char) -> bool {
    0 <= pos < s.len() && s[pos] == c
}

/// Whether `c` is white space between JSON tokens.
pub open spec fn is_ws(c: char) -> bool {
    c == ' ' || c == '\t' || c == '\n' || c == '\r'
}

/// The first position from `pos` on that holds no white space.
pub open spec fn skip_ws(s: Seq<char>, pos: int) -> int
    decreases s.len() - pos,
{
    if 0 <= pos < s.len() && is_ws(s[pos]) {
        skip_ws(s, pos + 1)
    } else {
        pos
    }
}

/// The first position from `pos` on that holds no digit.
pub open spec fn digits_end(s: Seq<char>, pos: int) -> int
    decreases s.len() - pos,
{
    if 0 <= pos < s.len() && is_digit(s[pos]) {
        digits_end(s, pos + 1)
    } else {
        pos
    }
}

/// Where the exponent that may start at `pos` ends, if it is well formed.
pub open spec fn exponent_end(s: Seq<char>, pos: int) -> Option<int> {
    if has_char(s, pos, 'e') || has_char(s, pos, 'E') {
        let digits = if has_char(s, pos + 1, '+') || has_char(s, pos + 1, '-') {
            pos + 2
        } else {
            pos + 1
        };
        if digits_end(s, digits) == digits {
            None
        } else {
            Some(digits_end(s, digits))
        }
    } else {
        Some(pos)
    }
}

/// Where the fraction that may start at `pos` ends, if it is well formed.
pub open spec fn fraction_end(s: Seq<char>, pos: int) -> Option<int> {
    if has_char(s, pos, '.') {
        if digits_end(s, pos + 1) == pos + 1 {
            None
        } else {
            Some(digits_end(s, pos + 1))
        }
    } else {
        Some(pos)
    }
}

/// Where the number that starts at `pos` ends, if one starts there: an
/// optional minus sign, digits without a leading zero, then an optional
/// fraction and an optional exponent.
pub open spec fn number_end(s: Seq<char>, pos: int) -> Option<int> {
    let first = if has_char(s, pos, '-') {
        pos + 1
    } else {
        pos
    };
    let whole = digits_end(s, first);
    if whole == first || (has_char(s, first, '0') && whole > first + 1) {
        None
    } else {
        match fraction_end(s, whole) {
            None => None,
            Some(after) => exponent_end(s, after),
        }
    }
}

/// The value of a hexadecimal digit.
pub open spec fn hex_value(c: char) -> Option<int> {
    if '0' <= c && c <= '9' {
        Some(c as int - '0' as int)
    } else if 'a' <= c && c <= 'f' {
        Some(c as int - 'a' as int + 10)
    } else if 'A' <= c && c <= 'F' {
        Some(c as int - 'A' as int + 10)
    } else {
        None
    }
}

/// The number written by the four hexadecimal digits at `pos`.
pub open spec fn hex4(s: Seq<char>, pos: int) -> Option<int> {
    if 0 <= pos && pos + 4 <= s.len() {
        match (
            hex_value(s[pos]),
            hex_value(s[pos + 1]),
            hex_value(s[pos + 2]),
            hex_value(s[pos + 3]),
        ) {
            (Some(a), Some(b), Some(c), Some(d)) => Some(((a * 16 + b) * 16 + c) * 16 + d),
            _ => None,
        }
    } else {
        None
    }
}

/// The character with the code `code`.
pub open spec fn char_of(code: int) -> char {
    code as char
}

/// What the digits after `\u` at `pos` stand for, and where the escape ends.
/// The first half of a surrogate pair must be followed by the escaped second half.
pub open spec fn unicode_escape(s: Seq<char>, pos: int) -> Option<(char, int)> {
    match hex4(s, pos) {
        None => None,
        Some(unit) => {
            if 0xD800 <= unit < 0xDC00 {
                if has_char(s, pos + 4, '\\') && has_char(s, pos + 5, 'u') {
                    match hex4(s, pos + 6) {
                        Some(low) => if 0xDC00 <= low < 0xE000 {
                            Some(
                                (
                                    char_of(0x10000 + (unit - 0xD800) * 0x400 + (low - 0xDC00)),
                                    pos + 10,
                                ),
                            )
                        } else {
                            None
                        },
                        None => None,
                    }
                } else {
                    None
                }
            } else if 0xDC00 <= unit < 0xE000 {
                None
            } else {
                Some((char_of(unit), pos + 4))
            }
        },
    }
}

/// What the escape stands for whose character after the backslash is at
/// `pos`, and where the escape ends.
pub open spec fn escape_at(s: Seq<char>, pos: int) -> Option<(char, int)> {
    if !(0 <= pos < s.len()) {
        None
    } else if s[pos] == '"' {
        Some(('"', pos + 1))
    } else if s[pos] == '\\' {
        Some(('\\', pos + 1))
    } else if s[pos] == '/' {
        Some(('/', pos + 1))
    } else if s[pos] == 'b' {
        Some(('\u{8}', pos + 1))
    } else if s[pos] == 'f' {
        Some(('\u{c}', pos + 1))
    } else if s[pos] == 'n' {
        Some(('\n', pos + 1))
    } else if s[pos] == 'r' {
        Some(('\r', pos + 1))
    } else if s[pos] == 't' {
        Some(('\t', pos + 1))
    } else if s[pos] == 'u' {
        unicode_escape(s, pos + 1)
    } else {
        None
    }
}

/// Whether `c` is a control character, which a string may hold only escaped.
pub open spec fn is_control(c: char) -> bool {
    (c as u32) < 0x20
}

/// The rest of a string whose body continues at `pos`: the text read so far,
/// `acc`, followed by the characters up to the closing quote, and the position
/// after that quote.
pub open spec fn string_from(s: Seq<char>, pos: int, acc: Seq<char>) -> Option<(Seq<char>, int)>
    decreases s.len() - pos,
{
    if !(0 <= pos < s.len()) {
        None
    } else if s[pos] == '"' {
        Some((acc, pos + 1))
    } else if s[pos] == '\\' {
        match escape_at(s, pos + 1) {
            Some((c, next)) => if pos < next <= s.len() {
                string_from(s, next, acc.push(c))
            } else {
                None
            },
            None => None,
        }
    } else if is_control(s[pos]) {
        None
    } else {
        string_from(s, pos + 1, acc.push(s[pos]))
    }
}

/// Whether `word` stands in `s` at `pos`.
pub open spec fn has_word(s: Seq<char>, pos: int, word: Seq<char>) -> bool {
    0 <= pos && pos + word.len() <= s.len() && s.subrange(pos, pos + word.len()) == word
}

/// The value that starts at `pos`, and the position after it, when at most
/// `depth` further levels of arrays and objects may be opened.
pub open spec fn value_at(s: Seq<char>, pos: int, depth: nat) -> Option<(JsonView, int)>
    decreases depth, s.len() - pos, 0int,
{
    if !(0 <= pos < s.len()) {
        None
    } else if s[pos] == 'n' {
        if has_word(s, pos, seq!['n', 'u', 'l', 'l']) {
            Some((JsonView::Null, pos + 4))
        } else {
            None
        }
    } else if s[pos] == 't' {
        if has_word(s, pos, seq!['t', 'r', 'u', 'e']) {
            Some((JsonView::Bool(true), pos + 4))
        } else {
            None
        }
    } else if s[pos] == 'f' {
        if has_word(s, pos, seq!['f', 'a', 'l', 's', 'e']) {
            Some((JsonView::Bool(false), pos + 5))
        } else {
            None
        }
    } else if s[pos] == '"' {
        match string_from(s, pos + 1, Seq::empty()) {
            Some((text, end)) => Some((JsonView::Text(text), end)),
            None => None,
        }
    } else if s[pos] == '[' {
        if depth == 0 {
            None
        } else if has_char(s, skip_ws(s, pos + 1), ']') {
            Some((JsonView::Array(Seq::empty()), skip_ws(s, pos + 1) + 1))
        } else {
            match elements_from(s, skip_ws(s, pos + 1), Seq::empty(), (depth - 1) as nat) {
                Some((items, end)) => Some((JsonView::Array(items), end)),
                None => None,
            }
        }
    } else if s[pos] == '{' {
        if depth == 0 {
            None
        } else if has_char(s, skip_ws(s, pos + 1), '}') {
            Some((JsonView::Object(Seq::empty()), skip_ws(s, pos + 1) + 1))
        } else {
            match members_from(s, skip_ws(s, pos + 1), Seq::empty(), (depth - 1) as nat) {
                Some((members, end)) => Some((JsonView::Object(members), end)),
                None => None,
            }
        }
    } else {
        match number_end(s, pos) {
            Some(end) => Some((JsonView::Number(s.subrange(pos, end)), end)),
            None => None,
        }
    }
}

/// The rest of an array whose next item starts at `pos`: the items read so
/// far, `acc`, followed by the items up to the closing bracket, and the
/// position after that bracket.
pub open spec fn elements_from(s: Seq<char>, pos: int, acc: Seq<JsonView>, depth: nat) -> Option<
    (Seq<JsonView>, int),
>
    decreases depth, s.len() - pos, 1int,
{
    match value_at(s, pos, depth) {
        None => None,
        Some((item, end)) => {
            let mark = skip_ws(s, end);
            if has_char(s, mark, ',') {
                let next = skip_ws(s, mark + 1);
                if pos < next <= s.len() {
                    elements_from(s, next, acc.push(item), depth)
                } else {
                    None
                }
            } else if has_char(s, mark, ']') {
                Some((acc.push(item), mark + 1))
            } else {
                None
            }
        },
    }
}

/// The rest of an object whose next member starts at `pos`: the members read
/// so far, `acc`, followed by the members up to the closing brace, and the
/// position after that brace.
pub open spec fn members_from(
    s: Seq<char>,
    pos: int,
    acc: Seq<MemberView>,
    depth: nat,
) -> Option<(Seq<MemberView>, int)>
    decreases depth, s.len() - pos, 1int,
{
    if !has_char(s, pos, '"') {
        None
    } else {
        match string_from(s, pos + 1, Seq::empty()) {
            None => None,
            Some((name, after_name)) => {
                let colon = skip_ws(s, after_name);
                let start = skip_ws(s, colon + 1);
                if !has_char(s, colon, ':') || !(pos < start <= s.len()) {
                    None
                } else {
                    match value_at(s, start, depth) {
                        None => None,
                        Some((value, end)) => {
                            let mark = skip_ws(s, end);
                            if has_char(s, mark, ',') {
                                let next = skip_ws(s, mark + 1);
                                if pos < next <= s.len() {
                                    members_from(s, next, acc.push(MemberView { name, value }), depth)
                                } else {
                                    None
                                }
                            } else if has_char(s, mark, '}') {
                                Some((acc.push(MemberView { name, value }), mark + 1))
                            } else {
                                None
                            }
                        },
                    }
                }
            },
        }
    }
}

/// The value that `s` writes: one JSON value, with nothing but white space
/// before and after it.
pub open spec fn parse_spec(s: Seq<char>) -> Option<JsonView> {
    match value_at(s, skip_ws(s, 0), MAX_DEPTH as nat) {
        Some((value, end)) => if skip_ws(s, end) == s.len() {
            Some(value)
        } else {
            None
        },
        None => None,
    }
}

/// A character is the character of its own code, and its code fits in 32 bits.
pub proof fn lemma_char_of_code(c: char)
    ensures
        char_of(c as int) == c,
        0 <= c as int <= 0x10FFFF,
        (c as u32) as int == c as int,
{
}

/// Executable form of [`is_ws`].
fn char_is_ws(c: char) -> (r: bool)
    ensures
        r == is_ws(c),
{
    c == ' ' || c == '\t' || c == '\n' || c == '\r'
}

/// Executable form of [`skip_ws`].
fn skip_spaces(s: &Vec<char>, pos: usize) -> (r: usize)
    requires
        pos <= s.len(),
    ensures
        r == skip_ws(s@, pos as int),
        pos <= r <= s.len(),
{
    let mut k: usize = pos;
    while k < s.len() && char_is_ws(s[k])
        invariant
            pos <= k <= s.len(),
            skip_ws(s@, pos as int) == skip_ws(s@, k as int),
        decreases s.len() - k,
    {
        k += 1;
    }
    k
}

/// Executable form of [`digits_end`].
fn scan_digits(s: &Vec<char>, pos: usize) -> (r: usize)
    requires
        pos <= s.len(),
    ensures
        r == digits_end(s@, pos as int),
        pos <= r <= s.len(),
{
    let mut k: usize = pos;
    while k < s.len() && '0' <= s[k] && s[k] <= '9'
        invariant
            pos <= k <= s.len(),
            digits_end(s@, pos as int) == digits_end(s@, k as int),
        decreases s.len() - k,
    {
        k += 1;
    }
    k
}

/// Executable form of [`number_end`].
fn scan_number(s: &Vec<char>, pos: usize) -> (r: Option<usize>)
    requires
        pos <= s.len(),
    ensures
        match r {
            Some(end) => number_end(s@, pos as int) == Some(end as int) && pos < end <= s.len(),
            None => number_end(s@, pos as int) is None,
        },
{
    let first = if pos < s.len() && s[pos] == '-' {
        pos + 1
    } else {
        pos
    };
    let whole = scan_digits(s, first);
    if whole == first || (s[first] == '0' && whole > first + 1) {
        return None;
    }
    let mut after = whole;
    if whole < s.len() && s[whole] == '.' {
        let fraction = scan_digits(s, whole + 1);
        if fraction == whole + 1 {
            return None;
        }
        after = fraction;
    }
    if after < s.len() && (s[after] == 'e' || s[after] == 'E') {
        let mut digits = after + 1;
        if digits < s.len() && (s[digits] == '+' || s[digits] == '-') {
            digits = digits + 1;
        }
        let end = scan_digits(s, digits);
        if end == digits {
            return None;
        }
        return Some(end);
    }
    Some(after)
}

/// Executable form of [`hex_value`].
fn hex_digit(c: char) -> (r: Option<u32>)
    ensures
        match r {
            Some(v) => hex_value(c) == Some(v as int) && v < 16,
            None => hex_value(c) is None,
        },
{
    if '0' <= c && c <= '9' {
        Some(c as u32 - '0' as u32)
    } else if 'a' <= c && c <= 'f' {
        Some(c as u32 - 'a' as u32 + 10)
    } else if 'A' <= c && c <= 'F' {
        Some(c as u32 - 'A' as u32 + 10)
    } else {
        None
    }
}

/// Executable form of [`hex4`].
fn read_hex4(s: &Vec<char>, pos: usize) -> (r: Option<u32>)
    requires
        pos <= s.len(),
    ensures
        match r {
            Some(v) => hex4(s@, pos as int) == Some(v as int) && v < 0x10000,
            None => hex4(s@, pos as int) is None,
        },
{
    if s.len() - pos < 4 {
        return None;
    }
    match (hex_digit(s[pos]), hex_digit(s[pos + 1]), hex_digit(s[pos + 2]), hex_digit(s[pos + 3])) {
        (Some(a), Some(b), Some(c), Some(d)) => Some(((a * 16 + b) * 16 + c) * 16 + d),
        _ => None,
    }
}

/// Executable form of [`unicode_escape`].
fn read_unicode_escape(s: &Vec<char>, pos: usize) -> (r: Option<(char, usize)>)
    requires
        pos <= s.len(),
    ensures
        match r {
            Some((c, end)) => unicode_escape(s@, pos as int) == Some((c, end as int)) && pos < end
                <= s.len(),
            None => unicode_escape(s@, pos as int) is None,
        },
{
    let unit = match read_hex4(s, pos) {
        Some(unit) => unit,
        None => { return None; },
    };
    if 0xD800 <= unit && unit < 0xDC00 {
        if s.len() - pos < 6 || s[pos + 4] != '\\' || s[pos + 5] != 'u' {
            return None;
        }
        let low = match read_hex4(s, pos + 6) {
            Some(low) => low,
            None => { return None; },
        };
        if !(0xDC00 <= low && low < 0xE000) {
            return None;
        }
        let code: u32 = 0x10000 + (unit - 0xD800) * 0x400 + (low - 0xDC00);
        match char::from_u32(code) {
            Some(c) => {
                proof {
                    lemma_char_of_code(c);
                }
                Some((c, pos + 10))
            },
            None => None,
        }
    } else if 0xDC00 <= unit && unit < 0xE000 {
        None
    } else {
        match char::from_u32(unit) {
            Some(c) => {
                proof {
                    lemma_char_of_code(c);
                }
                Some((c, pos + 4))
            },
            None => None,
        }
    }
}

/// Executable form of [`escape_at`].
fn read_escape(s: &Vec<char>, pos: usize) -> (r: Option<(char, usize)>)
    requires
        pos <= s.len(),
    ensures
        match r {
            Some((c, end)) => escape_at(s@, pos as int) == Some((c, end as int)) && pos < end
                <= s.len(),
            None => escape_at(s@, pos as int) is None,
        },
{
    if pos >= s.len() {
        return None;
    }
    let c = s[pos];
    if c == '"' {
        Some(('"', pos + 1))
    } else if c == '\\' {
        Some(('\\', pos + 1))
    } else if c == '/' {
        Some(('/', pos + 1))
    } else if c == 'b' {
        Some(('\u{8}', pos + 1))
    } else if c == 'f' {
        Some(('\u{c}', pos + 1))
    } else if c == 'n' {
        Some(('\n', pos + 1))
    } else if c == 'r' {
        Some(('\r', pos + 1))
    } else if c == 't' {
        Some(('\t', pos + 1))
    } else if c == 'u' {
        read_unicode_escape(s, pos + 1)
    } else {
        None
    }
}

/// Executable form of [`string_from`], for a string whose body starts at `pos`.
fn read_string(s: &Vec<char>, pos: usize) -> (r: Option<(String, usize)>)
    requires
        pos <= s.len(),
    ensures
        match r {
            Some((text, end)) => string_from(s@, pos as int, Seq::empty()) == Some(
                (text@, end as int),
            ) && pos < end <= s.len(),
            None => string_from(s@, pos as int, Seq::empty()) is None,
        },
{
    let mut acc: Vec<char> = Vec::new();
    let mut k: usize = pos;
    loop
        invariant
            pos <= k <= s.len(),
            string_from(s@, pos as int, Seq::empty()) == string_from(s@, k as int, acc@),
        decreases s.len() - k,
    {
        if k >= s.len() {
            return None;
        }
        let c = s[k];
        if c == '"' {
            return Some((string_of(&acc), k + 1));
        } else if c == '\\' {
            match read_escape(s, k + 1) {
                Some((escaped, next)) => {
                    acc.push(escaped);
                    k = next;
                },
                None => {
                    return None;
                },
            }
        } else if (c as u32) < 0x20 {
            return None;
        } else {
            acc.push(c);
            k += 1;
        }
    }
}

/// Executable form of [`value_at`].
fn read_value(s: &Vec<char>, pos: usize, depth: usize) -> (r: Option<(Json, usize)>)
    requires
        pos <= s.len(),
    ensures
        match r {
            Some((value, end)) => value_at(s@, pos as int, depth as nat) == Some(
                (value@, end as int),
            ) && pos < end <= s.len(),
            None => value_at(s@, pos as int, depth as nat) is None,
        },
    decreases depth, 0nat,
{
    if pos >= s.len() {
        return None;
    }
    let c = s[pos];
    if c == 'n' {
        if s.len() - pos >= 4 && s[pos + 1] == 'u' && s[pos + 2] == 'l' && s[pos + 3] == 'l' {
            assert(s@.subrange(pos as int, pos + 4) =~= seq!['n', 'u', 'l', 'l']);
            Some((Json::Null, pos + 4))
        } else {
            assert(!has_word(s@, pos as int, seq!['n', 'u', 'l', 'l'])) by {
                if has_word(s@, pos as int, seq!['n', 'u', 'l', 'l']) {
                    lemma_word_chars(s@, pos as int, seq!['n', 'u', 'l', 'l']);
                }
            }
            None
        }
    } else if c == 't' {
        if s.len() - pos >= 4 && s[pos + 1] == 'r' && s[pos + 2] == 'u' && s[pos + 3] == 'e' {
            assert(s@.subrange(pos as int, pos + 4) =~= seq!['t', 'r', 'u', 'e']);
            Some((Json::Bool(true), pos + 4))
        } else {
            assert(!has_word(s@, pos as int, seq!['t', 'r', 'u', 'e'])) by {
                if has_word(s@, pos as int, seq!['t', 'r', 'u', 'e']) {
                    lemma_word_chars(s@, pos as int, seq!['t', 'r', 'u', 'e']);
                }
            }
            None
        }
    } else if c == 'f' {
        if s.len() - pos >= 5 && s[pos + 1] == 'a' && s[pos + 2] == 'l' && s[pos + 3] == 's' && s[pos
            + 4] == 'e' {
            assert(s@.subrange(pos as int, pos + 5) =~= seq!['f', 'a', 'l', 's', 'e']);
            Some((Json::Bool(false), pos + 5))
        } else {
            assert(!has_word(s@, pos as int, seq!['f', 'a', 'l', 's', 'e'])) by {
                if has_word(s@, pos as int, seq!['f', 'a', 'l', 's', 'e']) {
                    lemma_word_chars(s@, pos as int, seq!['f', 'a', 'l', 's', 'e']);
                }
            }
            None
        }
    } else if c == '"' {
        match read_string(s, pos + 1) {
            Some((text, end)) => Some((Json::Text(text), end)),
            None => None,
        }
    } else if c == '[' {
        if depth == 0 {
            return None;
        }
        let start = skip_spaces(s, pos + 1);
        if start < s.len() && s[start] == ']' {
            let items: Vec<Json> = Vec::new();
            proof {
                lemma_array_view(items);
                assert(element_views(items@) =~= Seq::<JsonView>::empty());
            }
            return Some((Json::Array(items), start + 1));
        }
        match read_elements(s, start, depth - 1) {
            Some((items, end)) => {
                proof {
                    lemma_array_view(items);
                }
                Some((Json::Array(items), end))
            },
            None => None,
        }
    } else if c == '{' {
        if depth == 0 {
            return None;
        }
        let start = skip_spaces(s, pos + 1);
        if start < s.len() && s[start] == '}' {
            let members: Vec<Member> = Vec::new();
            proof {
                lemma_object_view(members);
                assert(member_views(members@) =~= Seq::<MemberView>::empty());
            }
            return Some((Json::Object(members), start + 1));
        }
        match read_members(s, start, depth - 1) {
            Some((members, end)) => {
                proof {
                    lemma_object_view(members);
                }
                Some((Json::Object(members), end))
            },
            None => None,
        }
    } else {
        match scan_number(s, pos) {
            Some(end) => Some((Json::Number(string_of_range(s, pos, end)), end)),
            None => None,
        }
    }
}

/// Where a word stands, each of its characters stands.
proof fn lemma_word_chars(s: Seq<char>, pos: int, word: Seq<char>)
    requires
        has_word(s, pos, word),
    ensures
        forall|k: int| 0 <= k < word.len() ==> s[pos + k] == #[trigger] word[k],
{
    assert forall|k: int| 0 <= k < word.len() implies s[pos + k] == #[trigger] word[k] by {
        assert(s.subrange(pos, pos + word.len())[k] == s[pos + k]);
    }
}

/// Executable form of [`elements_from`], for an array whose first item starts at `pos`.
fn read_elements(s: &Vec<char>, pos: usize, depth: usize) -> (r: Option<(Vec<Json>, usize)>)
    requires
        pos <= s.len(),
    ensures
        match r {
            Some((items, end)) => elements_from(s@, pos as int, Seq::empty(), depth as nat)
                == Some((element_views(items@), end as int)) && pos < end <= s.len(),
            None => elements_from(s@, pos as int, Seq::empty(), depth as nat) is None,
        },
    decreases depth, 1nat,
{
    let mut items: Vec<Json> = Vec::new();
    let mut k: usize = pos;
    assert(element_views(items@) =~= Seq::<JsonView>::empty());
    loop
        invariant
            pos <= k <= s.len(),
            elements_from(s@, pos as int, Seq::empty(), depth as nat) == elements_from(
                s@,
                k as int,
                element_views(items@),
                depth as nat,
            ),
        decreases s.len() - k,
    {
        let (item, end) = match read_value(s, k, depth) {
            Some(found) => found,
            None => {
                return None;
            },
        };
        let mark = skip_spaces(s, end);
        if mark < s.len() && s[mark] == ',' {
            let next = skip_spaces(s, mark + 1);
            proof {
                assert(element_views(items@.push(item)) =~= element_views(items@).push(item@));
            }
            items.push(item);
            k = next;
        } else if mark < s.len() && s[mark] == ']' {
            proof {
                assert(element_views(items@.push(item)) =~= element_views(items@).push(item@));
            }
            items.push(item);
            return Some((items, mark + 1));
        } else {
            return None;
        }
    }
}

/// Executable form of [`members_from`], for an object whose first member starts at `pos`.
fn read_members(s: &Vec<char>, pos: usize, depth: usize) -> (r: Option<(Vec<Member>, usize)>)
    requires
        pos <= s.len(),
    ensures
        match r {
            Some((members, end)) => members_from(s@, pos as int, Seq::empty(), depth as nat)
                == Some((member_views(members@), end as int)) && pos < end <= s.len(),
            None => members_from(s@, pos as int, Seq::empty(), depth as nat) is None,
        },
    decreases depth, 1nat,
{
    let mut members: Vec<Member> = Vec::new();
    let mut k: usize = pos;
    assert(member_views(members@) =~= Seq::<MemberView>::empty());
    loop
        invariant
            pos <= k <= s.len(),
            members_from(s@, pos as int, Seq::empty(), depth as nat) == members_from(
                s@,
                k as int,
                member_views(members@),
                depth as nat,
            ),
        decreases s.len() - k,
    {
        if k >= s.len() || s[k] != '"' {
            return None;
        }
        let (name, after_name) = match read_string(s, k + 1) {
            Some(found) => found,
            None => {
                return None;
            },
        };
        let colon = skip_spaces(s, after_name);
        if colon >= s.len() || s[colon] != ':' {
            return None;
        }
        let start = skip_spaces(s, colon + 1);
        let (value, end) = match read_value(s, start, depth) {
            Some(found) => found,
            None => {
                return None;
            },
        };
        let mark = skip_spaces(s, end);
        let member = Member { name, value };
        proof {
            assert(member_views(members@.push(member)) =~= member_views(members@).push(
                MemberView { name: member.name@, value: member.value@ },
            ));
        }
        if mark < s.len() && s[mark] == ',' {
            let next = skip_spaces(s, mark + 1);
            members.push(member);
            k = next;
        } else if mark < s.len() && s[mark] == '}' {
            members.push(member);
            return Some((members, mark + 1));
        } else {
            return None;
        }
    }
}

/// Reads the JSON value that `chars` writes.
pub fn parse_chars(chars: &Vec<char>) -> (r: Option<Json>)
    ensures
        match r {
            Some(value) => parse_spec(chars@) == Some(value@),
            None => parse_spec(chars@) is None,
        },
{
    let start = skip_spaces(chars, 0);
    match read_value(chars, start, MAX_DEPTH) {
        Some((value, end)) => {
            if skip_spaces(chars, end) == chars.len() {
                Some(value)
            } else {
                None
            }
        },
        None => None,
    }
}

/// Reads the JSON value that `text` writes: one value, with nothing but white
/// space around it. Gives `None` for any other text.
pub fn parse(text: &str) -> (r: Option<Json>)
    ensures
        match r {
            Some(value) => parse_spec(text@) == Some(value@),
            None => parse_spec(text@) is None,
        },
{
    let chars = chars_of(text);
    parse_chars(&chars)
}

/// The value of the last member of `members` that is called `name`.
pub open spec fn find_member(members: Seq<MemberView>, name: Seq<char>) -> Option<JsonView>
    decreases members.len(),
{
    if members.len() == 0 {
        None
    } else if members.last().name == name {
        Some(members.last().value)
    } else {
        find_member(members.drop_last(), name)
    }
}

/// The text of the last member of `members` that is called `name`, where it is a string.
pub open spec fn find_text(members: Seq<MemberView>, name: Seq<char>) -> Option<Seq<char>> {
    match find_member(members, name) {
        Some(JsonView::Text(t)) => Some(t),
        _ => None,
    }
}

/// Executable form of [`find_member`].
pub fn member_named<'a>(members: &'a Vec<Member>, name: &str) -> (r: Option<&'a Json>)
    ensures
        match r {
            Some(value) => find_member(member_views(members@), name@) == Some(value@),
            None => find_member(member_views(members@), name@) is None,
        },
{
    let wanted = chars_of(name);
    let ghost all = member_views(members@);
    let mut i: usize = members.len();
    assert(all.take(i as int) =~= all);
    while i > 0
        invariant
            i <= members.len(),
            all == member_views(members@),
            wanted@ == name@,
            find_member(all, name@) == find_member(all.take(i as int), name@),
        decreases i,
    {
        let candidate = chars_of(members[i - 1].name.as_str());
        proof {
            assert(all.take(i as int).last() == all[i - 1]);
            assert(all.take(i as int).drop_last() =~= all.take(i - 1));
        }
        if chars_equal(&candidate, &wanted) {
            return Some(&members[i - 1].value);
        }
        i -= 1;
    }
    None
}

/// Executable form of [`find_text`].
pub fn text_named<'a>(members: &'a Vec<Member>, name: &str) -> (r: Option<&'a String>)
    ensures
        match r {
            Some(text) => find_text(member_views(members@), name@) == Some(text@),
            None => find_text(member_views(members@), name@) is None,
        },
{
    match member_named(members, name) {
        Some(Json::Text(t)) => Some(t),
        _ => None,
    }
}

impl Json {
    /// A copy of this value.
    #[verifier::loop_isolation(false)]
    pub fn duplicate(&self) -> (r: Json)
        ensures
            r@ == self@,
        decreases self,
    {
        match self {
            Json::Null => Json::Null,
            Json::Bool(b) => Json::Bool(*b),
            Json::Number(n) => Json::Number(n.clone()),
            Json::Text(t) => Json::Text(t.clone()),
            Json::Array(items) => {
                let mut copies: Vec<Json> = Vec::new();
                let mut i: usize = 0;
                while i < items.len()
                    invariant
                        i <= items.len(),
                        copies@.len() == i,
                        forall|k: int| 0 <= k < i ==> copies@[k]@ == items@[k]@,
                    decreases items.len() - i,
                {
                    assert(decreases_to!(items => items[i as int]));
                    let copy = items[i].duplicate();
                    copies.push(copy);
                    i += 1;
                }
                proof {
                    lemma_array_view(copies);
                    lemma_array_view(*items);
                    assert(element_views(copies@) =~= element_views(items@));
                }
                Json::Array(copies)
            },
            Json::Object(members) => {
                let mut copies: Vec<Member> = Vec::new();
                let mut i: usize = 0;
                while i < members.len()
                    invariant
                        i <= members.len(),
                        copies@.len() == i,
                        forall|k: int|
                            0 <= k < i ==> copies@[k].name@ == members@[k].name@ && copies@[k].value@
                                == members@[k].value@,
                    decreases members.len() - i,
                {
                    assert(decreases_to!(members => members[i as int]));
                    let value = members[i].value.duplicate();
                    copies.push(Member { name: members[i].name.clone(), value });
                    i += 1;
                }
                proof {
                    lemma_object_view(copies);
                    lemma_object_view(*members);
                    assert(member_views(copies@) =~= member_views(members@));
                }
                Json::Object(copies)
            },
        }
    }
}

/// The character that writes the hexadecimal digit `d`, for `d` below sixteen.
pub open spec fn hex_char(d: int) -> char {
    if d == 0 {
        '0'
    } else if d == 1 {
        '1'
    } else if d == 2 {
        '2'
    } else if d == 3 {
        '3'
    } else if d == 4 {
        '4'
    } else if d == 5 {
        '5'
    } else if d == 6 {
        '6'
    } else if d == 7 {
        '7'
    } else if d == 8 {
        '8'
    } else if d == 9 {
        '9'
    } else if d == 10 {
        'a'
    } else if d == 11 {
        'b'
    } else if d == 12 {
        'c'
    } else if d == 13 {
        'd'
    } else if d == 14 {
        'e'
    } else {
        'f'
    }
}

/// How one character of a string is written: a quote, a backslash and the
/// control characters escaped, every other character as it is.
pub open spec fn escaped_char(c: char) -> Seq<char> {
    if c == '"' {
        seq!['\\', '"']
    } else if c == '\\' {
        seq!['\\', '\\']
    } else if c == '\n' {
        seq!['\\', 'n']
    } else if c == '\r' {
        seq!['\\', 'r']
    } else if c == '\t' {
        seq!['\\', 't']
    } else if is_control(c) {
        seq!['\\', 'u', '0', '0', hex_char((c as int) / 16), hex_char((c as int) % 16)]
    } else {
        seq![c]
    }
}

/// The characters of `text`, each written as [`escaped_char`] says.
pub open spec fn escaped(text: Seq<char>) -> Seq<char>
    decreases text.len(),
{
    if text.len() == 0 {
        Seq::empty()
    } else {
        escaped(text.drop_last()) + escaped_char(text.last())
    }
}

/// How a string is written: its escaped characters between quotes.
pub open spec fn rendered_text(text: Seq<char>) -> Seq<char> {
    seq!['"'] + escaped(text) + seq!['"']
}

/// How a value is written: without white space, members and items separated
/// by commas, a number as it is held.
pub open spec fn rendered(value: JsonView) -> Seq<char>
    decreases value, 0nat,
{
    match value {
        JsonView::Null => seq!['n', 'u', 'l', 'l'],
        JsonView::Bool(true) => seq!['t', 'r', 'u', 'e'],
        JsonView::Bool(false) => seq!['f', 'a', 'l', 's', 'e'],
        JsonView::Number(n) => n,
        JsonView::Text(t) => rendered_text(t),
        JsonView::Array(items) => seq!['['] + rendered_items(items, items.len()) + seq![']'],
        JsonView::Object(members) => seq!['{'] + rendered_members(members, members.len())
            + seq!['}'],
    }
}

/// How the first `n` of `items` are written.
pub open spec fn rendered_items(items: Seq<JsonView>, n: nat) -> Seq<char>
    decreases items, n,
{
    if n == 0 || n > items.len() {
        Seq::empty()
    } else if n == 1 {
        rendered(items[0])
    } else {
        rendered_items(items, (n - 1) as nat) + seq![','] + rendered(items[n - 1])
    }
}

/// How one member is written: its name, a colon, its value.
pub open spec fn rendered_member(members: Seq<MemberView>, i: int) -> Seq<char>
    recommends
        0 <= i < members.len(),
    decreases members, 0nat, 0nat,
{
    if 0 <= i < members.len() {
        rendered_text(members[i].name) + seq![':'] + rendered(members[i].value)
    } else {
        Seq::empty()
    }
}

/// How the first `n` of `members` are written.
pub open spec fn rendered_members(members: Seq<MemberView>, n: nat) -> Seq<char>
    decreases members, n, 1nat,
{
    if n == 0 || n > members.len() {
        Seq::empty()
    } else if n == 1 {
        rendered_member(members, 0)
    } else {
        rendered_members(members, (n - 1) as nat) + seq![','] + rendered_member(
            members,
            n - 1,
        )
    }
}

/// Executable form of [`hex_char`].
fn hex_digit_char(d: u32) -> (c: char)
    requires
        d < 16,
    ensures
        c == hex_char(d as int),
{
    if d == 0 {
        '0'
    } else if d == 1 {
        '1'
    } else if d == 2 {
        '2'
    } else if d == 3 {
        '3'
    } else if d == 4 {
        '4'
    } else if d == 5 {
        '5'
    } else if d == 6 {
        '6'
    } else if d == 7 {
        '7'
    } else if d == 8 {
        '8'
    } else if d == 9 {
        '9'
    } else if d == 10 {
        'a'
    } else if d == 11 {
        'b'
    } else if d == 12 {
        'c'
    } else if d == 13 {
        'd'
    } else if d == 14 {
        'e'
    } else {
        'f'
    }
}

/// Appends one character of a string as it is written.
fn write_escaped_char(out: &mut Vec<char>, c: char)
    ensures
        final(out)@ == old(out)@ + escaped_char(c),
{
    if c == '"' {
        out.push('\\');
        out.push('"');
    } else if c == '\\' {
        out.push('\\');
        out.push('\\');
    } else if c == '\n' {
        out.push('\\');
        out.push('n');
    } else if c == '\r' {
        out.push('\\');
        out.push('r');
    } else if c == '\t' {
        out.push('\\');
        out.push('t');
    } else if (c as u32) < 0x20 {
        let code = c as u32;
        out.push('\\');
        out.push('u');
        out.push('0');
        out.push('0');
        out.push(hex_digit_char(code / 16));
        out.push(hex_digit_char(code % 16));
    } else {
        out.push(c);
    }
    assert(out@ =~= old(out)@ + escaped_char(c));
}

/// Appends a string as it is written.
fn write_text(out: &mut Vec<char>, text: &str)
    ensures
        final(out)@ == old(out)@ + rendered_text(text@),
{
    let chars = chars_of(text);
    out.push('"');
    let mut i: usize = 0;
    assert(chars@.take(0) =~= Seq::<char>::empty());
    assert(out@ =~= old(out)@ + seq!['"'] + escaped(chars@.take(0)));
    while i < chars.len()
        invariant
            i <= chars.len(),
            out@ == old(out)@ + seq!['"'] + escaped(chars@.take(i as int)),
        decreases chars.len() - i,
    {
        let ghost before = out@;
        write_escaped_char(out, chars[i]);
        proof {
            assert(chars@.take(i + 1).drop_last() =~= chars@.take(i as int));
            assert(chars@.take(i + 1).last() == chars@[i as int]);
            assert(out@ =~= old(out)@ + seq!['"'] + escaped(chars@.take(i + 1)));
        }
        i += 1;
    }
    assert(chars@.take(chars.len() as int) =~= chars@);
    out.push('"');
    assert(out@ =~= old(out)@ + rendered_text(text@));
}

/// Appends a value as it is written.
#[verifier::loop_isolation(false)]
fn write_value(out: &mut Vec<char>, value: &Json)
    ensures
        final(out)@ == old(out)@ + rendered(value@),
    decreases value,
{
    match value {
        Json::Null => {
            out.push('n');
            out.push('u');
            out.push('l');
            out.push('l');
            assert(out@ =~= old(out)@ + rendered(value@));
        },
        Json::Bool(b) => {
            if *b {
                out.push('t');
                out.push('r');
                out.push('u');
                out.push('e');
            } else {
                out.push('f');
                out.push('a');
                out.push('l');
                out.push('s');
                out.push('e');
            }
            assert(out@ =~= old(out)@ + rendered(value@));
        },
        Json::Number(n) => {
            let chars = chars_of(n.as_str());
            let mut i: usize = 0;
            while i < chars.len()
                invariant
                    i <= chars.len(),
                    out@ == old(out)@ + chars@.take(i as int),
                decreases chars.len() - i,
            {
                out.push(chars[i]);
                assert(chars@.take(i + 1) =~= chars@.take(i as int).push(chars@[i as int]));
                i += 1;
            }
            assert(chars@.take(chars.len() as int) =~= chars@);
        },
        Json::Text(t) => {
            write_text(out, t.as_str());
        },
        Json::Array(items) => {
            let ghost views = element_views(items@);
            proof {
                lemma_array_view(*items);
            }
            out.push('[');
            let mut i: usize = 0;
            assert(out@ =~= old(out)@ + seq!['['] + rendered_items(views, 0));
            while i < items.len()
                invariant
                    i <= items.len(),
                    out@ == old(out)@ + seq!['['] + rendered_items(views, i as nat),
                decreases items.len() - i,
            {
                if i > 0 {
                    out.push(',');
                }
                let ghost before = out@;
                assert(decreases_to!(items => items[i as int]));
                write_value(out, &items[i]);
                proof {
                    assert(views[i as int] == items@[i as int]@);
                    assert(out@ =~= old(out)@ + seq!['['] + rendered_items(views, (i + 1) as nat));
                }
                i += 1;
            }
            out.push(']');
            assert(out@ =~= old(out)@ + rendered(value@));
        },
        Json::Object(members) => {
            let ghost views = member_views(members@);
            proof {
                lemma_object_view(*members);
            }
            out.push('{');
            let mut i: usize = 0;
            assert(out@ =~= old(out)@ + seq!['{'] + rendered_members(views, 0));
            while i < members.len()
                invariant
                    i <= members.len(),
                    out@ == old(out)@ + seq!['{'] + rendered_members(views, i as nat),
                decreases members.len() - i,
            {
                if i > 0 {
                    out.push(',');
                }
                let ghost before = out@;
                write_text(out, members[i].name.as_str());
                out.push(':');
                assert(decreases_to!(members => members[i as int]));
                write_value(out, &members[i].value);
                proof {
                    assert(views[i as int].name == members@[i as int].name@);
                    assert(views[i as int].value == members@[i as int].value@);
                    assert(out@ =~= before + rendered_member(views, i as int));
                    assert(out@ =~= old(out)@ + seq!['{'] + rendered_members(views, (i + 1) as nat));
                }
                i += 1;
            }
            out.push('}');
            assert(out@ =~= old(out)@ + rendered(value@));
        },
    }
}

/// Writes a value as JSON text, without white space.
pub fn render(value: &Json) -> (r: String)
    ensures
        r@ == rendered(value@),
{
    let mut out: Vec<char> = Vec::new();
    write_value(&mut out, value);
    string_of(&out)
}

} // verus!
