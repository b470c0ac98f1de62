//! What is written as JSON reads back as what was written.
//!
//! The laws of this module tie the two halves of the JSON module together.
//! The text that rendering gives for a value is text that parsing accepts,
//! and parsing it gives the value back. Every value that parsing gives can
//! be rendered, and reads back as itself. The request that is sent to the
//! compiler is such a value.

use vstd::prelude::*;
use crate::json::{
    lemma_char_of_code,
    elements_from,
    members_from,
    parse_spec,
    rendered,
    rendered_items,
    rendered_member,
    rendered_members,
    value_at,
    JsonView,
    MemberView,
    MAX_DEPTH,
    char_of,
    digits_end,
    escape_at,
    escaped,
    escaped_char,
    fraction_end,
    has_char,
    has_word,
    hex4,
    hex_char,
    hex_value,
    is_control,
    is_ws,
    number_end,
    skip_ws,
    string_from,
    unicode_escape,
};
use crate::invoke::invocation_of;
use crate::request::{
    member,
    remappings_json,
    request_json,
    settings_json,
    source_member,
    sources_json,
    CompilationRequestView,
    SourceFileView,
};
use crate::text::{all_digits, decimal, is_digit, lemma_decimal_shape};

verus! {

/// Whether `n` is the text of one JSON number.
pub open spec fn is_number_text(n: Seq<char>) -> bool {
    number_end(n, 0) == Some(n.len() as int)
}

/// Whether what stands at `pos` cannot continue a number: the end of the
/// text, or a character that is no digit, full stop or exponent mark.
pub open spec fn ends_value(s: Seq<char>, pos: int) -> bool {
    pos == s.len() || (0 <= pos < s.len() && !is_digit(s[pos]) && s[pos] != '.' && s[pos] != 'e'
        && s[pos] != 'E')
}

/// The digits that start at `pos` end within the text, and at a character
/// that is no digit.
pub proof fn lemma_digits_end_bounds(s: Seq<char>, pos: int)
    requires
        0 <= pos <= s.len(),
    ensures
        pos <= digits_end(s, pos) <= s.len(),
        forall|k: int| pos <= k < digits_end(s, pos) ==> is_digit(#[trigger] s[k]),
        digits_end(s, pos) == s.len() || !is_digit(s[digits_end(s, pos)]),
    decreases s.len() - pos,
{
    if pos < s.len() && is_digit(s[pos]) {
        lemma_digits_end_bounds(s, pos + 1);
    }
}

/// Digits end in a text where they end in a word of it, when no digit
/// follows the word.
pub proof fn lemma_digits_end_embedded(s: Seq<char>, pos: int, n: Seq<char>, k: int)
    requires
        has_word(s, pos, n),
        0 <= k <= n.len(),
        pos + n.len() == s.len() || !is_digit(s[pos + n.len()]),
    ensures
        digits_end(s, pos + k) == pos + digits_end(n, k),
    decreases n.len() - k,
{
    if k < n.len() {
        assert(s.subrange(pos, pos + n.len())[k] == s[pos + k]);
        if is_digit(n[k]) {
            lemma_digits_end_embedded(s, pos, n, k + 1);
        }
    }
}

/// A character of a word of a text is the character of the text at its place.
pub proof fn lemma_word_char(s: Seq<char>, pos: int, word: Seq<char>, k: int)
    requires
        has_word(s, pos, word),
        0 <= k < word.len(),
    ensures
        s[pos + k] == word[k],
        0 <= pos + k < s.len(),
{
    assert(s.subrange(pos, pos + word.len())[k] == s[pos + k]);
}

/// A part of a word of a text is a word of the text.
pub proof fn lemma_word_part(s: Seq<char>, pos: int, word: Seq<char>, from: int, to: int)
    requires
        has_word(s, pos, word),
        0 <= from <= to <= word.len(),
    ensures
        has_word(s, pos + from, word.subrange(from, to)),
{
    assert(s.subrange(pos + from, pos + to) =~= s.subrange(pos, pos + word.len()).subrange(
        from,
        to,
    ));
}

/// The text of a number starts with a minus sign or a digit.
pub proof fn lemma_number_starts(n: Seq<char>)
    requires
        is_number_text(n),
    ensures
        n.len() > 0,
        n[0] == '-' || is_digit(n[0]),
{
    let first: int = if has_char(n, 0, '-') {
        1
    } else {
        0
    };
    if n.len() == 0 {
        assert(digits_end(n, first) == first);
    } else if first == 0 {
        if !is_digit(n[0]) {
            assert(digits_end(n, 0) == 0);
        }
    }
}

/// A number that stands in a text, followed by nothing that could continue
/// it, is read there, and read to its end.
pub proof fn lemma_number_embedded(s: Seq<char>, pos: int, n: Seq<char>)
    requires
        is_number_text(n),
        has_word(s, pos, n),
        ends_value(s, pos + n.len()),
    ensures
        number_end(s, pos) == Some(pos + n.len()),
{
    lemma_number_starts(n);
    let len = n.len() as int;
    lemma_word_char(s, pos, n, 0);
    let first: int = if has_char(n, 0, '-') {
        1
    } else {
        0
    };
    assert(has_char(s, pos, '-') == has_char(n, 0, '-'));
    lemma_digits_end_bounds(n, first);
    lemma_digits_end_embedded(s, pos, n, first);
    let whole = digits_end(n, first);
    assert(digits_end(s, pos + first) == pos + whole);
    assert(whole != first);
    lemma_word_char(s, pos, n, first);
    assert(has_char(s, pos + first, '0') == has_char(n, first, '0'));
    // The fraction.
    if whole < len {
        lemma_word_char(s, pos, n, whole);
    }
    assert(has_char(s, pos + whole, '.') == has_char(n, whole, '.'));
    let after: int = if has_char(n, whole, '.') {
        digits_end(n, whole + 1)
    } else {
        whole
    };
    if has_char(n, whole, '.') {
        lemma_digits_end_bounds(n, whole + 1);
        lemma_digits_end_embedded(s, pos, n, whole + 1);
    }
    assert(fraction_end(n, whole) == Some(after));
    assert(fraction_end(s, pos + whole) == Some(pos + after));
    // The exponent.
    if after < len {
        lemma_word_char(s, pos, n, after);
    }
    assert(has_char(s, pos + after, 'e') == has_char(n, after, 'e'));
    assert(has_char(s, pos + after, 'E') == has_char(n, after, 'E'));
    if has_char(n, after, 'e') || has_char(n, after, 'E') {
        if after + 1 < len {
            lemma_word_char(s, pos, n, after + 1);
        } else {
            assert(digits_end(n, after + 1) == after + 1);
            assert(digits_end(n, after + 2) == after + 2);
        }
        let digits: int = if has_char(n, after + 1, '+') || has_char(n, after + 1, '-') {
            after + 2
        } else {
            after + 1
        };
        if digits > len {
            assert(digits_end(n, digits) == digits);
        }
        lemma_digits_end_bounds(n, digits);
        lemma_digits_end_embedded(s, pos, n, digits);
    }
}

/// The value of the character of a hexadecimal digit is the digit.
pub proof fn lemma_hex_char_value(d: int)
    requires
        0 <= d < 16,
    ensures
        hex_value(hex_char(d)) == Some(d),
{
}

/// Writing a text in two parts is writing its parts one after the other.
pub proof fn lemma_escaped_concat(a: Seq<char>, b: Seq<char>)
    ensures
        escaped(a + b) == escaped(a) + escaped(b),
    decreases b.len(),
{
    if b.len() == 0 {
        assert(a + b =~= a);
        assert(escaped(a) + escaped(b) =~= escaped(a));
    } else {
        assert((a + b).drop_last() =~= a + b.drop_last());
        assert((a + b).last() == b.last());
        lemma_escaped_concat(a, b.drop_last());
        assert(escaped(a + b) =~= escaped(a) + escaped(b));
    }
}

/// A text is written as its first character, written, and then the rest, written.
pub proof fn lemma_escaped_front(t: Seq<char>)
    requires
        t.len() > 0,
    ensures
        escaped(t) == escaped_char(t[0]) + escaped(t.drop_first()),
{
    let head = seq![t[0]];
    assert(t =~= head + t.drop_first());
    lemma_escaped_concat(head, t.drop_first());
    assert(head.drop_last() =~= Seq::<char>::empty());
    assert(head.last() == t[0]);
    assert(escaped(head.drop_last()) =~= Seq::<char>::empty());
    assert(escaped(head) =~= escaped_char(t[0]));
}

/// A character that is written as itself is read as itself.
proof fn lemma_plain_char_reads_back(s: Seq<char>, pos: int, acc: Seq<char>, c: char)
    requires
        0 <= pos < s.len(),
        s[pos] == c,
        c != '"',
        c != '\\',
        !is_control(c),
    ensures
        string_from(s, pos, acc) == string_from(s, pos + 1, acc.push(c)),
{
}

/// A character that is written as a backslash and one more character is
/// read as itself.
proof fn lemma_short_escape_reads_back(s: Seq<char>, pos: int, acc: Seq<char>, c: char)
    requires
        0 <= pos,
        pos + 2 <= s.len(),
        c == '"' || c == '\\' || c == '\n' || c == '\r' || c == '\t',
        s[pos] == '\\',
        s[pos + 1] == escaped_char(c)[1],
    ensures
        string_from(s, pos, acc) == string_from(s, pos + 2, acc.push(c)),
{
    assert(escape_at(s, pos + 1) == Some((c, pos + 2)));
}

/// A control character that is written by its code is read as itself.
proof fn lemma_code_escape_reads_back(s: Seq<char>, pos: int, acc: Seq<char>, c: char)
    requires
        0 <= pos,
        pos + 6 <= s.len(),
        is_control(c),
        s[pos] == '\\',
        s[pos + 1] == 'u',
        s[pos + 2] == '0',
        s[pos + 3] == '0',
        s[pos + 4] == hex_char((c as int) / 16),
        s[pos + 5] == hex_char((c as int) % 16),
    ensures
        string_from(s, pos, acc) == string_from(s, pos + 6, acc.push(c)),
{
    let code = c as int;
    lemma_char_of_code(c);
    assert(0 <= code < 32);
    lemma_hex_char_value(code / 16);
    lemma_hex_char_value(code % 16);
    lemma_hex_char_value(0);
    assert(hex_value(s[pos + 2]) == Some(0int));
    assert(hex_value(s[pos + 3]) == Some(0int));
    assert(hex_value(s[pos + 4]) == Some(code / 16));
    assert(hex_value(s[pos + 5]) == Some(code % 16));
    assert(hex4(s, pos + 2) == Some(code));
    assert(unicode_escape(s, pos + 2) == Some((c, pos + 6)));
    assert(escape_at(s, pos + 1) == Some((c, pos + 6)));
}

/// One character that stands written in a text is read as itself.
proof fn lemma_char_reads_back(s: Seq<char>, pos: int, acc: Seq<char>, c: char)
    requires
        has_word(s, pos, escaped_char(c)),
    ensures
        string_from(s, pos, acc) == string_from(s, pos + escaped_char(c).len(), acc.push(c)),
{
    let e = escaped_char(c);
    lemma_word_char(s, pos, e, 0);
    if c == '"' || c == '\\' || c == '\n' || c == '\r' || c == '\t' {
        lemma_word_char(s, pos, e, 1);
        lemma_short_escape_reads_back(s, pos, acc, c);
    } else if is_control(c) {
        lemma_word_char(s, pos, e, 1);
        lemma_word_char(s, pos, e, 2);
        lemma_word_char(s, pos, e, 3);
        lemma_word_char(s, pos, e, 4);
        lemma_word_char(s, pos, e, 5);
        lemma_code_escape_reads_back(s, pos, acc, c);
    } else {
        lemma_plain_char_reads_back(s, pos, acc, c);
    }
}

/// A string that stands written in a text, closing quote included, is read
/// there as the text it was written from, up to after the quote.
pub proof fn lemma_string_reads_back(s: Seq<char>, pos: int, acc: Seq<char>, t: Seq<char>)
    requires
        has_word(s, pos, escaped(t) + seq!['"']),
    ensures
        string_from(s, pos, acc) == Some((acc + t, pos + escaped(t).len() + 1)),
    decreases t.len(),
{
    let word = escaped(t) + seq!['"'];
    if t.len() == 0 {
        lemma_word_char(s, pos, word, 0);
        assert(acc + t =~= acc);
    } else {
        let c = t[0];
        let rest = t.drop_first();
        lemma_escaped_front(t);
        let e = escaped_char(c);
        let split = e.len() as int;
        assert(word =~= e + (escaped(rest) + seq!['"']));
        lemma_word_part(s, pos, word, 0, split);
        assert(word.subrange(0, split) =~= e);
        lemma_word_part(s, pos, word, split, word.len() as int);
        assert(word.subrange(split, word.len() as int) =~= escaped(rest) + seq!['"']);
        lemma_char_reads_back(s, pos, acc, c);
        lemma_string_reads_back(s, pos + split, acc.push(c), rest);
        assert(acc.push(c) + rest =~= acc + t);
    }
}

/// Whether `value` can be written and read back when at most `depth` levels
/// of arrays and objects may be opened: its numbers are number texts, and it
/// nests no deeper than `depth`.
pub open spec fn renders_within(value: JsonView, depth: nat) -> bool
    decreases value,
{
    match value {
        JsonView::Number(n) => is_number_text(n),
        JsonView::Array(items) => depth > 0 && forall|i: int|
            0 <= i < items.len() ==> renders_within(#[trigger] items[i], (depth - 1) as nat),
        JsonView::Object(members) => depth > 0 && forall|i: int|
            0 <= i < members.len() ==> renders_within(
                (#[trigger] members[i]).value,
                (depth - 1) as nat,
            ),
        _ => true,
    }
}

/// Whether `c` can be the first character of a written value.
pub open spec fn opens_value(c: char) -> bool {
    c == 'n' || c == 't' || c == 'f' || c == '"' || c == '[' || c == '{' || c == '-' || is_digit(c)
}

/// A written value is not empty, and its first character tells its kind.
pub proof fn lemma_rendered_starts(value: JsonView, depth: nat)
    requires
        renders_within(value, depth),
    ensures
        rendered(value).len() > 0,
        opens_value(rendered(value)[0]),
        match value {
            JsonView::Null => rendered(value)[0] == 'n',
            JsonView::Bool(b) => rendered(value)[0] == (if b {
                't'
            } else {
                'f'
            }),
            JsonView::Number(n) => rendered(value)[0] == '-' || is_digit(rendered(value)[0]),
            JsonView::Text(_) => rendered(value)[0] == '"',
            JsonView::Array(_) => rendered(value)[0] == '[',
            JsonView::Object(_) => rendered(value)[0] == '{',
        },
{
    match value {
        JsonView::Number(n) => {
            lemma_number_starts(n);
        },
        _ => {},
    }
}

/// Where no white space stands, none is skipped.
pub proof fn lemma_nothing_to_skip(s: Seq<char>, pos: int)
    requires
        !(0 <= pos < s.len()) || !is_ws(s[pos]),
    ensures
        skip_ws(s, pos) == pos,
{
}

/// Where the item `k` starts in the written items.
pub open spec fn item_start(items: Seq<JsonView>, k: int) -> int {
    if k <= 0 {
        0
    } else {
        (rendered_items(items, k as nat).len() + 1) as int
    }
}

/// Where the member `k` starts in the written members.
pub open spec fn member_start(members: Seq<MemberView>, k: int) -> int {
    if k <= 0 {
        0
    } else {
        (rendered_members(members, k as nat).len() + 1) as int
    }
}

/// The first `j` items, written, open the first `n` items, written, and a
/// comma follows them there when `j` is less than `n`.
pub proof fn lemma_items_layout(items: Seq<JsonView>, j: nat, n: nat)
    requires
        1 <= j <= n <= items.len(),
    ensures
        rendered_items(items, j).len() <= rendered_items(items, n).len(),
        rendered_items(items, n).subrange(0, rendered_items(items, j).len() as int)
            == rendered_items(items, j),
        j < n ==> rendered_items(items, j).len() < rendered_items(items, n).len()
            && rendered_items(items, n)[rendered_items(items, j).len() as int] == ',',
    decreases n - j,
{
    let whole = rendered_items(items, n);
    let part = rendered_items(items, j);
    if j == n {
        assert(whole.subrange(0, part.len() as int) =~= part);
    } else {
        let before = rendered_items(items, (n - 1) as nat);
        assert(whole == before + seq![','] + rendered(items[n - 1]));
        lemma_items_layout(items, j, (n - 1) as nat);
        assert(whole.subrange(0, part.len() as int) =~= before.subrange(0, part.len() as int));
        if j == n - 1 {
            assert(whole[before.len() as int] == ',');
        } else {
            assert(whole[part.len() as int] == before[part.len() as int]);
        }
    }
}

/// The first `j` members, written, open the first `n` members, written, and
/// a comma follows them there when `j` is less than `n`.
pub proof fn lemma_members_layout(members: Seq<MemberView>, j: nat, n: nat)
    requires
        1 <= j <= n <= members.len(),
    ensures
        rendered_members(members, j).len() <= rendered_members(members, n).len(),
        rendered_members(members, n).subrange(0, rendered_members(members, j).len() as int)
            == rendered_members(members, j),
        j < n ==> rendered_members(members, j).len() < rendered_members(members, n).len()
            && rendered_members(members, n)[rendered_members(members, j).len() as int] == ',',
    decreases n - j,
{
    let whole = rendered_members(members, n);
    let part = rendered_members(members, j);
    if j == n {
        assert(whole.subrange(0, part.len() as int) =~= part);
    } else {
        let before = rendered_members(members, (n - 1) as nat);
        assert(whole == before + seq![','] + rendered_member(members, n - 1));
        lemma_members_layout(members, j, (n - 1) as nat);
        assert(whole.subrange(0, part.len() as int) =~= before.subrange(0, part.len() as int));
        if j == n - 1 {
            assert(whole[before.len() as int] == ',');
        } else {
            assert(whole[part.len() as int] == before[part.len() as int]);
        }
    }
}

/// The item `k` stands written at its start in the written items, and ends
/// where the first `k + 1` items end.
pub proof fn lemma_item_place(items: Seq<JsonView>, k: int)
    requires
        0 <= k < items.len(),
    ensures
        item_start(items, k) + rendered(items[k]).len() == rendered_items(
            items,
            (k + 1) as nat,
        ).len(),
        rendered_items(items, items.len()).len() >= rendered_items(items, (k + 1) as nat).len(),
        rendered_items(items, items.len()).subrange(
            item_start(items, k),
            rendered_items(items, (k + 1) as nat).len() as int,
        ) == rendered(items[k]),
        k + 1 < items.len() ==> rendered_items(items, (k + 1) as nat).len() < rendered_items(
            items,
            items.len(),
        ).len() && rendered_items(items, items.len())[rendered_items(
            items,
            (k + 1) as nat,
        ).len() as int] == ',',
{
    let n = items.len();
    let upto = rendered_items(items, (k + 1) as nat);
    lemma_items_layout(items, (k + 1) as nat, n);
    let whole = rendered_items(items, n);
    if k == 0 {
        assert(upto == rendered(items[0]));
        assert(whole.subrange(0, upto.len() as int) =~= rendered(items[0]));
    } else {
        let before = rendered_items(items, k as nat);
        assert(upto == before + seq![','] + rendered(items[k]));
        assert(whole.subrange(item_start(items, k), upto.len() as int) =~= whole.subrange(
            0,
            upto.len() as int,
        ).subrange(item_start(items, k), upto.len() as int));
        assert(upto.subrange(item_start(items, k), upto.len() as int) =~= rendered(items[k]));
    }
}

/// The member `k` stands written at its start in the written members, and
/// ends where the first `k + 1` members end.
pub proof fn lemma_member_place(members: Seq<MemberView>, k: int)
    requires
        0 <= k < members.len(),
    ensures
        member_start(members, k) + rendered_member(members, k).len() == rendered_members(
            members,
            (k + 1) as nat,
        ).len(),
        rendered_members(members, members.len()).len() >= rendered_members(
            members,
            (k + 1) as nat,
        ).len(),
        rendered_members(members, members.len()).subrange(
            member_start(members, k),
            rendered_members(members, (k + 1) as nat).len() as int,
        ) == rendered_member(members, k),
        k + 1 < members.len() ==> rendered_members(members, (k + 1) as nat).len()
            < rendered_members(members, members.len()).len() && rendered_members(
            members,
            members.len(),
        )[rendered_members(members, (k + 1) as nat).len() as int] == ',',
{
    let n = members.len();
    let upto = rendered_members(members, (k + 1) as nat);
    lemma_members_layout(members, (k + 1) as nat, n);
    let whole = rendered_members(members, n);
    if k == 0 {
        assert(upto == rendered_member(members, 0));
        assert(whole.subrange(0, upto.len() as int) =~= rendered_member(members, 0));
    } else {
        let before = rendered_members(members, k as nat);
        assert(upto == before + seq![','] + rendered_member(members, k));
        assert(whole.subrange(member_start(members, k), upto.len() as int) =~= whole.subrange(
            0,
            upto.len() as int,
        ).subrange(member_start(members, k), upto.len() as int));
        assert(upto.subrange(member_start(members, k), upto.len() as int) =~= rendered_member(
            members,
            k,
        ));
    }
}

/// A value that stands written in a text, followed by nothing that could
/// continue a number, is read there as itself, and read to its end.
pub proof fn lemma_value_reads_back(s: Seq<char>, pos: int, value: JsonView, depth: nat)
    requires
        renders_within(value, depth),
        has_word(s, pos, rendered(value)),
        ends_value(s, pos + rendered(value).len()),
    ensures
        value_at(s, pos, depth) == Some((value, pos + rendered(value).len())),
    decreases value, 0nat,
{
    let word = rendered(value);
    lemma_rendered_starts(value, depth);
    lemma_word_char(s, pos, word, 0);
    match value {
        JsonView::Null => {},
        JsonView::Bool(b) => {},
        JsonView::Number(n) => {
            lemma_number_embedded(s, pos, n);
            assert(s.subrange(pos, pos + n.len()) == n);
        },
        JsonView::Text(t) => {
            assert(word =~= seq!['"'] + (escaped(t) + seq!['"']));
            lemma_word_part(s, pos, word, 1, word.len() as int);
            assert(word.subrange(1, word.len() as int) =~= escaped(t) + seq!['"']);
            lemma_string_reads_back(s, pos + 1, Seq::empty(), t);
            assert(Seq::<char>::empty() + t =~= t);
        },
        JsonView::Array(items) => {
            let inner = rendered_items(items, items.len());
            assert(word =~= seq!['['] + (inner + seq![']']));
            lemma_word_part(s, pos, word, 1, word.len() as int);
            assert(word.subrange(1, word.len() as int) =~= inner + seq![']']);
            lemma_word_char(s, pos, word, 1);
            if items.len() == 0 {
                assert(inner.len() == 0);
                lemma_nothing_to_skip(s, pos + 1);
                assert(items =~= Seq::<JsonView>::empty());
            } else {
                lemma_item_place(items, 0);
                lemma_rendered_starts(items[0], (depth - 1) as nat);
                assert(inner[0] == rendered(items[0])[0]) by {
                    assert(inner.subrange(0, rendered(items[0]).len() as int)[0] == inner[0]);
                }
                lemma_nothing_to_skip(s, pos + 1);
                assert(items.take(0) =~= Seq::<JsonView>::empty());
                lemma_items_read_back(s, pos + 1, items, 0, (depth - 1) as nat);
            }
        },
        JsonView::Object(members) => {
            let inner = rendered_members(members, members.len());
            assert(word =~= seq!['{'] + (inner + seq!['}']));
            lemma_word_part(s, pos, word, 1, word.len() as int);
            assert(word.subrange(1, word.len() as int) =~= inner + seq!['}']);
            lemma_word_char(s, pos, word, 1);
            if members.len() == 0 {
                assert(inner.len() == 0);
                lemma_nothing_to_skip(s, pos + 1);
                assert(members =~= Seq::<MemberView>::empty());
            } else {
                lemma_member_place(members, 0);
                assert(inner[0] == '"') by {
                    assert(inner.subrange(0, rendered_member(members, 0).len() as int)[0]
                        == inner[0]);
                }
                lemma_nothing_to_skip(s, pos + 1);
                assert(members.take(0) =~= Seq::<MemberView>::empty());
                lemma_members_read_back(s, pos + 1, members, 0, (depth - 1) as nat);
            }
        },
    }
}

/// Items that stand written in a text, closing bracket included, are read
/// back from any item on: with the items before it read already, the rest
/// is read, and all the items are given.
pub proof fn lemma_items_read_back(
    s: Seq<char>,
    base: int,
    items: Seq<JsonView>,
    k: int,
    depth: nat,
)
    requires
        0 <= k < items.len(),
        forall|i: int| 0 <= i < items.len() ==> renders_within(#[trigger] items[i], depth),
        has_word(s, base, rendered_items(items, items.len()) + seq![']']),
    ensures
        elements_from(s, base + item_start(items, k), items.take(k), depth) == Some(
            (items, base + rendered_items(items, items.len()).len() + 1),
        ),
    decreases items, items.len() - k,
{
    let inner = rendered_items(items, items.len());
    let word = inner + seq![']'];
    let item = items[k];
    let start = item_start(items, k);
    let end = rendered_items(items, (k + 1) as nat).len() as int;
    lemma_item_place(items, k);
    lemma_word_part(s, base, word, start, end);
    assert(word.subrange(start, end) =~= inner.subrange(start, end));
    lemma_word_char(s, base, word, end);
    assert(ends_value(s, base + end));
    lemma_value_reads_back(s, base + start, item, depth);
    lemma_nothing_to_skip(s, base + end);
    assert(items.take(k).push(item) =~= items.take(k + 1));
    if k + 1 < items.len() {
        assert(word[end] == ',');
        lemma_item_place(items, k + 1);
        lemma_rendered_starts(items[k + 1], depth);
        let next_end = rendered_items(items, (k + 2) as nat).len() as int;
        assert(word[end + 1] == rendered(items[k + 1])[0]) by {
            assert(inner.subrange(end + 1, next_end)[0] == inner[end + 1]);
        }
        lemma_word_char(s, base, word, end + 1);
        lemma_nothing_to_skip(s, base + end + 1);
        lemma_items_read_back(s, base, items, k + 1, depth);
    } else {
        assert(end == inner.len());
        assert(word[end] == ']');
        assert(items.take(k + 1) =~= items);
    }
}

/// Members that stand written in a text, closing brace included, are read
/// back from any member on: with the members before it read already, the
/// rest is read, and all the members are given.
pub proof fn lemma_members_read_back(
    s: Seq<char>,
    base: int,
    members: Seq<MemberView>,
    k: int,
    depth: nat,
)
    requires
        0 <= k < members.len(),
        forall|i: int|
            0 <= i < members.len() ==> renders_within((#[trigger] members[i]).value, depth),
        has_word(s, base, rendered_members(members, members.len()) + seq!['}']),
    ensures
        members_from(s, base + member_start(members, k), members.take(k), depth) == Some(
            (members, base + rendered_members(members, members.len()).len() + 1),
        ),
    decreases members, members.len() - k,
{
    let inner = rendered_members(members, members.len());
    let word = inner + seq!['}'];
    let member = members[k];
    let written = rendered_member(members, k);
    let start = member_start(members, k);
    let end = rendered_members(members, (k + 1) as nat).len() as int;
    lemma_member_place(members, k);
    lemma_word_part(s, base, word, start, end);
    assert(word.subrange(start, end) =~= inner.subrange(start, end));
    // The name.
    let name_len = escaped(member.name).len() as int;
    assert(written =~= seq!['"'] + (escaped(member.name) + seq!['"']) + seq![':'] + rendered(
        member.value,
    ));
    lemma_word_char(s, base + start, written, 0);
    lemma_word_part(s, base + start, written, 1, name_len + 2);
    assert(written.subrange(1, name_len + 2) =~= escaped(member.name) + seq!['"']);
    lemma_string_reads_back(s, base + start + 1, Seq::empty(), member.name);
    assert(Seq::<char>::empty() + member.name =~= member.name);
    let colon = base + start + name_len + 2;
    lemma_word_char(s, base + start, written, name_len + 2);
    lemma_nothing_to_skip(s, colon);
    // The value.
    lemma_rendered_starts(member.value, depth);
    lemma_word_char(s, base + start, written, name_len + 3);
    lemma_nothing_to_skip(s, colon + 1);
    lemma_word_part(s, base + start, written, name_len + 3, written.len() as int);
    assert(written.subrange(name_len + 3, written.len() as int) =~= rendered(member.value));
    lemma_word_char(s, base, word, end);
    assert(ends_value(s, base + end));
    lemma_value_reads_back(s, colon + 1, member.value, depth);
    lemma_nothing_to_skip(s, base + end);
    assert(members.take(k).push(MemberView { name: member.name, value: member.value })
        =~= members.take(k + 1));
    if k + 1 < members.len() {
        assert(word[end] == ',');
        lemma_member_place(members, k + 1);
        let next_end = rendered_members(members, (k + 2) as nat).len() as int;
        assert(word[end + 1] == '"') by {
            assert(inner.subrange(end + 1, next_end)[0] == inner[end + 1]);
        }
        lemma_word_char(s, base, word, end + 1);
        lemma_nothing_to_skip(s, base + end + 1);
        lemma_members_read_back(s, base, members, k + 1, depth);
    } else {
        assert(end == inner.len());
        assert(word[end] == '}');
        assert(members.take(k + 1) =~= members);
    }
}

/// What is written reads back: the text that rendering gives for a value
/// whose numbers are number texts, and that nests no deeper than parsing
/// follows, is parsed as that value.
pub proof fn lemma_rendered_reads_back(value: JsonView)
    requires
        renders_within(value, MAX_DEPTH as nat),
    ensures
        parse_spec(rendered(value)) == Some(value),
{
    let s = rendered(value);
    lemma_rendered_starts(value, MAX_DEPTH as nat);
    lemma_nothing_to_skip(s, 0);
    assert(s.subrange(0, s.len() as int) =~= s);
    lemma_value_reads_back(s, 0, value, MAX_DEPTH as nat);
    lemma_nothing_to_skip(s, s.len() as int);
}

/// Where only digits stand up to the end of a text, the digits end with the text.
pub proof fn lemma_all_digits_end(s: Seq<char>, pos: int)
    requires
        0 <= pos <= s.len(),
        all_digits(s),
    ensures
        digits_end(s, pos) == s.len(),
    decreases s.len() - pos,
{
    if pos < s.len() {
        assert(is_digit(s[pos]));
        lemma_all_digits_end(s, pos + 1);
    }
}

/// The decimal numeral of a number is the text of a JSON number.
pub proof fn lemma_decimal_is_number(n: nat)
    ensures
        is_number_text(decimal(n)),
{
    let d = decimal(n);
    lemma_decimal_shape(n);
    assert(is_digit(d[0]));
    lemma_all_digits_end(d, 0);
    if d[0] == '0' {
        assert(n == 0);
        assert(d.len() == 1);
    }
}

/// The object `sources` of a request can be written and read back.
proof fn lemma_sources_render(sources: Seq<SourceFileView>, depth: nat)
    requires
        depth >= 2,
    ensures
        renders_within(sources_json(sources), depth),
{
    let listed = sources_json(sources)->Object_0;
    assert forall|i: int| 0 <= i < listed.len() implies renders_within(
        (#[trigger] listed[i]).value,
        (depth - 1) as nat,
    ) by {
        let inner = listed[i].value->Object_0;
        assert(listed[i] == source_member(sources[i]));
        assert forall|j: int| 0 <= j < inner.len() implies renders_within(
            (#[trigger] inner[j]).value,
            (depth - 2) as nat,
        ) by {
            assert(inner[j].value is Text);
        }
    }
}

/// The array `remappings` of a request can be written and read back.
proof fn lemma_remappings_render(remappings: Seq<Seq<char>>, depth: nat)
    requires
        depth >= 1,
    ensures
        renders_within(remappings_json(remappings), depth),
{
    let listed = remappings_json(remappings)->Array_0;
    assert forall|i: int| 0 <= i < listed.len() implies renders_within(
        #[trigger] listed[i],
        (depth - 1) as nat,
    ) by {
        assert(listed[i] is Text);
    }
}

/// The object `settings` of a request can be written and read back.
proof fn lemma_settings_render(request: CompilationRequestView, depth: nat)
    requires
        depth >= 4,
    ensures
        renders_within(settings_json(request), depth),
{
    let listed = settings_json(request)->Object_0;
    lemma_remappings_render(request.settings.remappings, (depth - 1) as nat);
    lemma_decimal_is_number(request.settings.optimizer_runs);
    let optimizer = listed[1].value;
    assert(renders_within(optimizer, (depth - 1) as nat)) by {
        let inner = optimizer->Object_0;
        assert forall|j: int| 0 <= j < inner.len() implies renders_within(
            (#[trigger] inner[j]).value,
            (depth - 2) as nat,
        ) by {
            if j == 0 {
                assert(inner[j].value is Bool);
            } else {
                assert(j == 1);
                assert(inner[j].value == JsonView::Number(
                    decimal(request.settings.optimizer_runs),
                ));
            }
        }
    }
    let selection = listed[2].value;
    assert(renders_within(selection, (depth - 1) as nat)) by {
        let files = selection->Object_0;
        assert forall|j: int| 0 <= j < files.len() implies renders_within(
            (#[trigger] files[j]).value,
            (depth - 2) as nat,
        ) by {
            assert(j == 0);
            let contracts = files[0].value->Object_0;
            assert forall|m: int| 0 <= m < contracts.len() implies renders_within(
                (#[trigger] contracts[m]).value,
                (depth - 3) as nat,
            ) by {
                assert(m == 0);
                let outputs = contracts[0].value->Array_0;
                assert forall|q: int| 0 <= q < outputs.len() implies renders_within(
                    #[trigger] outputs[q],
                    (depth - 4) as nat,
                ) by {
                    assert(q == 0 || q == 1);
                    assert(outputs[q] is Text);
                }
            }
        }
    }
    assert forall|i: int| 0 <= i < listed.len() implies renders_within(
        (#[trigger] listed[i]).value,
        (depth - 1) as nat,
    ) by {
        if i == 0 {
        } else if i == 1 {
        } else if i == 2 {
        } else {
            assert(i == 3);
            assert(listed[i].value is Bool);
        }
    }
}

/// Every request can be written and read back: the text sent to the
/// compiler is JSON, and says what the request says.
pub proof fn lemma_request_reads_back(request: CompilationRequestView)
    ensures
        parse_spec(rendered(request_json(request))) == Some(request_json(request)),
{
    let depth = MAX_DEPTH as nat;
    let listed = request_json(request)->Object_0;
    lemma_sources_render(request.sources, (depth - 1) as nat);
    lemma_settings_render(request, (depth - 1) as nat);
    assert forall|i: int| 0 <= i < listed.len() implies renders_within(
        (#[trigger] listed[i]).value,
        (depth - 1) as nat,
    ) by {
        if i == 0 {
            assert(listed[i].value is Text);
        } else if i == 1 {
        } else {
            assert(i == 2);
        }
    }
    lemma_rendered_reads_back(request_json(request));
}

/// The input of every prepared invocation is JSON that says what the
/// request says.
pub proof fn lemma_invocation_input_is_the_request(
    compiler_path: Seq<char>,
    request: CompilationRequestView,
)
    requires
        invocation_of(compiler_path, request) is Ok,
    ensures
        parse_spec(invocation_of(compiler_path, request)->Ok_0.input) == Some(
            request_json(request),
        ),
{
    lemma_request_reads_back(request);
}

/// Digits that end within a part of a text end at the same place in the
/// part taken by itself.
pub proof fn lemma_digits_end_cut(s: Seq<char>, pos: int, end: int, from: int)
    requires
        0 <= pos <= from <= digits_end(s, from) <= end <= s.len(),
    ensures
        digits_end(s.subrange(pos, end), from - pos) == digits_end(s, from) - pos,
    decreases s.len() - from,
{
    let part = s.subrange(pos, end);
    if from < end {
        assert(part[from - pos] == s[from]);
        if is_digit(s[from]) {
            lemma_digits_end_bounds(s, from + 1);
            lemma_digits_end_cut(s, pos, end, from + 1);
        }
    }
}

/// What is read as a number is the text of a number.
pub proof fn lemma_number_cut(s: Seq<char>, pos: int, end: int)
    requires
        0 <= pos <= s.len(),
        number_end(s, pos) == Some(end),
    ensures
        pos < end <= s.len(),
        is_number_text(s.subrange(pos, end)),
{
    let first: int = if has_char(s, pos, '-') {
        pos + 1
    } else {
        pos
    };
    lemma_digits_end_bounds(s, first);
    let whole = digits_end(s, first);
    let after: int = if has_char(s, whole, '.') {
        digits_end(s, whole + 1)
    } else {
        whole
    };
    if has_char(s, whole, '.') {
        lemma_digits_end_bounds(s, whole + 1);
    }
    let marked = has_char(s, after, 'e') || has_char(s, after, 'E');
    let digits: int = if has_char(s, after + 1, '+') || has_char(s, after + 1, '-') {
        after + 2
    } else {
        after + 1
    };
    if marked {
        if digits > s.len() {
            assert(digits_end(s, digits) == digits);
        }
        lemma_digits_end_bounds(s, digits);
    }
    assert(pos < end <= s.len());
    let part = s.subrange(pos, end);
    assert(forall|k: int| 0 <= k < part.len() ==> part[k] == s[pos + k]);
    lemma_digits_end_cut(s, pos, end, first);
    if has_char(s, whole, '.') {
        lemma_digits_end_cut(s, pos, end, whole + 1);
    }
    if marked {
        lemma_digits_end_cut(s, pos, end, digits);
    }
    assert(has_char(part, 0, '-') == has_char(s, pos, '-'));
    assert(has_char(part, first - pos, '0') == has_char(s, first, '0'));
    assert(has_char(part, whole - pos, '.') == has_char(s, whole, '.'));
    assert(fraction_end(part, whole - pos) == Some(after - pos));
    assert(has_char(part, after - pos, 'e') == has_char(s, after, 'e'));
    assert(has_char(part, after - pos, 'E') == has_char(s, after, 'E'));
    if marked {
        assert(has_char(part, after + 1 - pos, '+') == has_char(s, after + 1, '+'));
        assert(has_char(part, after + 1 - pos, '-') == has_char(s, after + 1, '-'));
    }
}

/// A value that is read from a text can be written and read back.
pub proof fn lemma_read_value_renders(s: Seq<char>, pos: int, depth: nat)
    requires
        value_at(s, pos, depth) is Some,
    ensures
        renders_within((value_at(s, pos, depth)->0).0, depth),
    decreases depth, s.len() - pos, 0int,
{
    let value = (value_at(s, pos, depth)->0).0;
    if s[pos] == '[' {
        let start = skip_ws(s, pos + 1);
        if !has_char(s, start, ']') {
            lemma_read_items_render(s, start, Seq::empty(), (depth - 1) as nat);
        }
    } else if s[pos] == '{' {
        let start = skip_ws(s, pos + 1);
        if !has_char(s, start, '}') {
            lemma_read_members_render(s, start, Seq::empty(), (depth - 1) as nat);
        }
    } else if s[pos] == 'n' || s[pos] == 't' || s[pos] == 'f' || s[pos] == '"' {
    } else {
        lemma_number_cut(s, pos, number_end(s, pos)->0);
    }
}

/// Items that are read from a text can be written and read back, when the
/// items read before them can.
pub proof fn lemma_read_items_render(s: Seq<char>, pos: int, acc: Seq<JsonView>, depth: nat)
    requires
        elements_from(s, pos, acc, depth) is Some,
        forall|i: int| 0 <= i < acc.len() ==> renders_within(#[trigger] acc[i], depth),
    ensures
        forall|i: int|
            0 <= i < (elements_from(s, pos, acc, depth)->0).0.len() ==> renders_within(
                #[trigger] (elements_from(s, pos, acc, depth)->0).0[i],
                depth,
            ),
    decreases depth, s.len() - pos, 1int,
{
    lemma_read_value_renders(s, pos, depth);
    let item = (value_at(s, pos, depth)->0).0;
    let end = (value_at(s, pos, depth)->0).1;
    let mark = skip_ws(s, end);
    let more = acc.push(item);
    assert forall|i: int| 0 <= i < more.len() implies renders_within(#[trigger] more[i], depth) by {
        if i < acc.len() {
            assert(more[i] == acc[i]);
        }
    }
    if has_char(s, mark, ',') {
        lemma_read_items_render(s, skip_ws(s, mark + 1), more, depth);
    }
}

/// Members that are read from a text can be written and read back, when the
/// members read before them can.
pub proof fn lemma_read_members_render(
    s: Seq<char>,
    pos: int,
    acc: Seq<MemberView>,
    depth: nat,
)
    requires
        members_from(s, pos, acc, depth) is Some,
        forall|i: int| 0 <= i < acc.len() ==> renders_within((#[trigger] acc[i]).value, depth),
    ensures
        forall|i: int|
            0 <= i < (members_from(s, pos, acc, depth)->0).0.len() ==> renders_within(
                (#[trigger] (members_from(s, pos, acc, depth)->0).0[i]).value,
                depth,
            ),
    decreases depth, s.len() - pos, 1int,
{
    let name = (string_from(s, pos + 1, Seq::empty())->0).0;
    let after_name = (string_from(s, pos + 1, Seq::empty())->0).1;
    let colon = skip_ws(s, after_name);
    let start = skip_ws(s, colon + 1);
    lemma_read_value_renders(s, start, depth);
    let value = (value_at(s, start, depth)->0).0;
    let end = (value_at(s, start, depth)->0).1;
    let mark = skip_ws(s, end);
    let more = acc.push(MemberView { name, value });
    assert forall|i: int| 0 <= i < more.len() implies renders_within(
        (#[trigger] more[i]).value,
        depth,
    ) by {
        if i < acc.len() {
            assert(more[i] == acc[i]);
        }
    }
    if has_char(s, mark, ',') {
        lemma_read_members_render(s, skip_ws(s, mark + 1), more, depth);
    }
}

/// What was read can be written and read again: writing a value that was
/// parsed from a text gives a text that is parsed as the same value.
pub proof fn lemma_parsed_reads_back(s: Seq<char>)
    requires
        parse_spec(s) is Some,
    ensures
        parse_spec(rendered(parse_spec(s)->0)) == parse_spec(s),
{
    lemma_read_value_renders(s, skip_ws(s, 0), MAX_DEPTH as nat);
    lemma_rendered_reads_back(parse_spec(s)->0);
}

} // verus!
