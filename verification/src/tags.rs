//! The tags of the markup, and the literal text between them.
//!
//! A tag is `<`, a body, and the first `>` after it. Four bodies are tags:
//!
//! | body                         | tag                         |
//! |------------------------------|-----------------------------|
//! | `s` and at least one more    | style, with parameters      |
//! | `s`                          | style reset                 |
//! | `#` and hex digits           | colour                      |
//! | `#`                          | colour reset                |
//!
//! Text runs up to the next `<s` or `<#`; any other `<` is text.

use crate::number::{decimal_literal, is_decimal_literal};
use crate::style::{opt_view, Action, ActionView, StyleUpdate, StyleUpdateView};
use crate::text::{find_char, has_char, index_of, lemma_find_char, piece, string_of};
use vstd::prelude::*;

verus! {

/// An ASCII hex digit, in either case.
pub open spec fn is_hex(c: char) -> bool {
    ('0' <= c && c <= '9') || ('a' <= c && c <= 'f') || ('A' <= c && c <= 'F')
}

/// Every character is a hex digit. This holds of the empty text.
pub open spec fn all_hex(s: Seq<char>) -> bool {
    forall|i: int| 0 <= i < s.len() ==> is_hex(#[trigger] s[i])
}

/// The index of the `>` that closes the tag at the front of `s`: the first `>`, where
/// `s` begins with `<` and holds one.
pub open spec fn tag_close(s: Seq<char>) -> Option<int> {
    if s.len() > 0 && s[0] == '<' && find_char(s, '>', 0) < s.len() {
        Some(find_char(s, '>', 0))
    } else {
        None
    }
}

/// What stands between `<` and the `>` that closes it.
pub open spec fn tag_body(s: Seq<char>) -> Option<Seq<char>> {
    match tag_close(s) {
        Some(close) => Some(s.subrange(1, close)),
        None => None,
    }
}

/// The first three fields of a body, which commas separate. The first is always there.
pub struct Fields {
    pub first: Seq<char>,
    pub second: Option<Seq<char>>,
    pub third: Option<Seq<char>>,
}

/// The fields of `body`. What follows a third comma belongs to no field.
pub open spec fn fields_of(body: Seq<char>) -> Fields {
    let c0 = find_char(body, ',', 0);
    let c1 = find_char(body, ',', c0 + 1);
    let c2 = find_char(body, ',', c1 + 1);
    Fields {
        first: body.subrange(0, c0),
        second: if c0 < body.len() {
            Some(body.subrange(c0 + 1, c1))
        } else {
            None
        },
        third: if c0 < body.len() && c1 < body.len() {
            Some(body.subrange(c1 + 1, c2))
        } else {
            None
        },
    }
}

/// What the size field sets: the literal after the marker `s`, or the default where
/// that is empty or no decimal literal.
pub open spec fn size_of_field(first: Seq<char>) -> Option<Seq<char>> {
    if decimal_literal(first.skip(1)) {
        Some(first.skip(1))
    } else {
        None
    }
}

/// What a font field sets: the name, or the default where the field is empty.
pub open spec fn font_of_field(field: Seq<char>) -> Option<Seq<char>> {
    if field.len() == 0 {
        None
    } else {
        Some(field)
    }
}

/// What a flags field sets: bold where it holds `B` and italic where it holds `I`, or
/// both defaults where the field is empty.
pub open spec fn flags_of_field(field: Seq<char>) -> Option<(bool, bool)> {
    if field.len() == 0 {
        None
    } else {
        Some((field.contains('B'), field.contains('I')))
    }
}

/// What the style tag with body `body` sets. The size is always set; font and flags
/// only where their field is there.
pub open spec fn style_update_of(body: Seq<char>) -> StyleUpdateView {
    let fields = fields_of(body);
    StyleUpdateView {
        size: Some(size_of_field(fields.first)),
        font: match fields.second {
            Some(f) => Some(font_of_field(f)),
            None => None,
        },
        flags: match fields.third {
            Some(f) => Some(flags_of_field(f)),
            None => None,
        },
    }
}

/// The body of a style tag with parameters: the marker `s` and at least one more
/// character.
pub open spec fn is_style_body(body: Seq<char>) -> bool {
    body.len() >= 2 && body[0] == 's'
}

/// The body of a colour tag: `#` and at least one hex digit, nothing else.
pub open spec fn is_color_body(body: Seq<char>) -> bool {
    body.len() >= 2 && body[0] == '#' && all_hex(body.skip(1))
}

/// The style tag with parameters at the front of `s`: what it sets, and its length.
pub open spec fn style_tag(s: Seq<char>) -> Option<(StyleUpdateView, int)> {
    match tag_body(s) {
        Some(body) => if is_style_body(body) {
            Some((style_update_of(body), body.len() as int + 2))
        } else {
            None
        },
        None => None,
    }
}

/// The colour tag at the front of `s`: its hex digits, and its length.
pub open spec fn color_tag(s: Seq<char>) -> Option<(Seq<char>, int)> {
    match tag_body(s) {
        Some(body) => if is_color_body(body) {
            Some((body.skip(1), body.len() as int + 2))
        } else {
            None
        },
        None => None,
    }
}

/// `s` begins with the three characters `<`, `mark`, `>`.
pub open spec fn bare_tag(s: Seq<char>, mark: char) -> bool {
    s.len() >= 3 && s[0] == '<' && s[1] == mark && s[2] == '>'
}

/// A tag may begin at `i`: `<` stands there, and `s` or `#` after it.
pub open spec fn opens_tag(s: Seq<char>, i: int) -> bool {
    0 <= i && i + 1 < s.len() && s[i] == '<' && (s[i + 1] == 's' || s[i + 1] == '#')
}

/// The first index at or after `from` at which a tag may begin, or `s.len()` when there
/// is none.
pub open spec fn next_opener(s: Seq<char>, from: int) -> int
    decreases s.len() - from,
{
    if from >= s.len() {
        s.len() as int
    } else if opens_tag(s, from) {
        from
    } else {
        next_opener(s, from + 1)
    }
}

/// How much of the front of `s` is literal text: everything before the first place at
/// which a tag may begin.
pub open spec fn text_len(s: Seq<char>) -> int {
    next_opener(s, 0)
}

/// The next step of a scan that has `s` left to read, and how many characters it takes;
/// `None` at the end of the input. A tag goes before text; text that takes no character
/// means that a tag begins here that is none of the four.
pub open spec fn next_action(s: Seq<char>) -> Option<(ActionView, int)> {
    if s.len() == 0 {
        None
    } else if let Some((update, n)) = style_tag(s) {
        Some((ActionView::UpdateStyle(update), n))
    } else if bare_tag(s, 's') {
        Some((ActionView::ResetStyle, 3))
    } else if let Some((hex, n)) = color_tag(s) {
        Some((ActionView::UpdateColor(hex), n))
    } else if bare_tag(s, '#') {
        Some((ActionView::ResetColor, 3))
    } else {
        Some((ActionView::AppendText(s.take(text_len(s))), text_len(s)))
    }
}

/// `next_opener` is the least index in range at which a tag may begin.
pub proof fn lemma_next_opener(s: Seq<char>, from: int)
    requires
        0 <= from <= s.len(),
    ensures
        from <= next_opener(s, from) <= s.len(),
        next_opener(s, from) < s.len() ==> opens_tag(s, next_opener(s, from)),
        forall|i: int| from <= i < next_opener(s, from) ==> !opens_tag(s, i),
    decreases s.len() - from,
{
    if from < s.len() && !opens_tag(s, from) {
        lemma_next_opener(s, from + 1);
    }
}

/// A step never takes more than is left, and a tag takes at least three characters.
pub proof fn lemma_next_action_len(s: Seq<char>)
    ensures
        match next_action(s) {
            Some((action, n)) => 0 <= n <= s.len() && (!(action is AppendText) ==> n >= 3),
            None => s.len() == 0,
        },
{
    lemma_find_char(s, '>', 0);
    lemma_next_opener(s, 0);
}

/// Whether `c` is an ASCII hex digit.
pub fn hex_digit(c: char) -> (b: bool)
    ensures
        b == is_hex(c),
{
    (c >= '0' && c <= '9') || (c >= 'a' && c <= 'f') || (c >= 'A' && c <= 'F')
}

/// Whether every character of `s` is a hex digit.
fn hex_only(s: &[char]) -> (b: bool)
    ensures
        b == all_hex(s@),
{
    let mut i: usize = 0;
    while i < s.len()
        invariant
            i <= s.len(),
            forall|j: int| 0 <= j < i ==> is_hex(#[trigger] s@[j]),
        decreases s.len() - i,
    {
        if !hex_digit(s[i]) {
            return false;
        }
        i += 1;
    }
    true
}

/// The index of the `>` that closes the tag at the front of `input`.
fn closing_index(input: &[char]) -> (r: Option<usize>)
    ensures
        match tag_close(input@) {
            Some(close) => r == Some(close as usize) && 1 <= close < input.len(),
            None => r is None,
        },
{
    if input.len() == 0 || input[0] != '<' {
        return None;
    }
    let close = index_of(input, '>', 0);
    proof {
        lemma_find_char(input@, '>', 0);
    }
    if close < input.len() {
        Some(close)
    } else {
        None
    }
}

/// Whether `input` begins with `<`, `mark`, `>`.
fn is_bare_tag(input: &[char], mark: char) -> (b: bool)
    ensures
        b == bare_tag(input@, mark),
{
    input.len() >= 3 && input[0] == '<' && input[1] == mark && input[2] == '>'
}

/// An optional name: none where the field is empty.
fn font_field(field: &[char]) -> (r: Option<String>)
    ensures
        opt_view(r) == font_of_field(field@),
{
    if field.len() == 0 {
        None
    } else {
        Some(string_of(field))
    }
}

/// Bold and italic as the field asks: none where it is empty.
fn flags_field(field: &[char]) -> (r: Option<(bool, bool)>)
    ensures
        r == flags_of_field(field@),
{
    if field.len() == 0 {
        None
    } else {
        Some((has_char(field, 'B'), has_char(field, 'I')))
    }
}

/// The size that the first field of a style tag sets.
fn size_field(first: &[char]) -> (r: Option<String>)
    requires
        first.len() >= 1,
    ensures
        opt_view(r) == size_of_field(first@),
{
    let literal = piece(first, 1, first.len());
    assert(literal@ =~= first@.skip(1));
    if is_decimal_literal(literal) {
        Some(string_of(literal))
    } else {
        None
    }
}

/// What the style tag with body `body` sets.
fn style_update(body: &[char]) -> (r: StyleUpdate)
    requires
        is_style_body(body@),
    ensures
        r@ == style_update_of(body@),
{
    let c0 = index_of(body, ',', 0);
    proof {
        lemma_find_char(body@, ',', 0);
    }
    let size = size_field(piece(body, 0, c0));
    let mut font: Option<Option<String>> = None;
    let mut flags: Option<Option<(bool, bool)>> = None;
    if c0 < body.len() {
        let c1 = index_of(body, ',', c0 + 1);
        font = Some(font_field(piece(body, c0 + 1, c1)));
        if c1 < body.len() {
            let c2 = index_of(body, ',', c1 + 1);
            flags = Some(flags_field(piece(body, c1 + 1, c2)));
        }
    }
    StyleUpdate { size: Some(size), font, flags }
}

/// Reads a style tag with parameters at the front of `input`: what it sets, and the
/// tag's length. `None` where no such tag stands there; the bare `<s>` is none.
pub fn parse_optional_param(input: &[char]) -> (r: Option<(usize, StyleUpdate)>)
    ensures
        match style_tag(input@) {
            Some((update, n)) => r matches Some((m, u)) && m == n && u@ == update,
            None => r is None,
        },
{
    match closing_index(input) {
        Some(close) => {
            let body = piece(input, 1, close);
            if body.len() >= 2 && body[0] == 's' {
                Some((close + 1, style_update(body)))
            } else {
                None
            }
        },
        None => None,
    }
}

/// Reads a colour tag at the front of `input`: its hex digits, and the tag's length.
/// `None` where no such tag stands there; the bare `<#>` is none.
pub fn parse_color(input: &[char]) -> (r: Option<(usize, String)>)
    ensures
        match color_tag(input@) {
            Some((hex, n)) => r matches Some((m, h)) && m == n && h@ == hex,
            None => r is None,
        },
{
    match closing_index(input) {
        Some(close) => {
            let body = piece(input, 1, close);
            if body.len() >= 2 && body[0] == '#' {
                let hex = piece(body, 1, body.len());
                assert(hex@ =~= body@.skip(1));
                if hex_only(hex) {
                    Some((close + 1, string_of(hex)))
                } else {
                    None
                }
            } else {
                None
            }
        },
        None => None,
    }
}

/// Reads literal text at the front of `input`, up to where the next tag may begin: its
/// length, and the text. `None` at the end of the input. The text is empty where a tag
/// may begin at the front.
pub fn parse_text_until_tag(input: &[char]) -> (r: Option<(usize, String)>)
    ensures
        input.len() == 0 ==> r is None,
        input.len() > 0 ==> (r matches Some((n, text)) && n == text_len(input@) && text@
            == input@.take(text_len(input@))),
{
    if input.len() == 0 {
        return None;
    }
    let mut i: usize = 0;
    while i < input.len() && !(input[i] == '<' && i + 1 < input.len() && (input[i + 1] == 's'
        || input[i + 1] == '#'))
        invariant
            i <= input.len(),
            next_opener(input@, 0) == next_opener(input@, i as int),
        decreases input.len() - i,
    {
        i += 1;
    }
    let text = piece(input, 0, i);
    assert(text@ =~= input@.take(i as int));
    Some((i, string_of(text)))
}

/// Reads the next step at the front of `input`, and how many characters it takes:
/// whichever tag stands there, or else literal text. `None` at the end of the input.
pub fn parse_action(input: &[char]) -> (r: Option<(usize, Action)>)
    ensures
        match next_action(input@) {
            Some((action, n)) => r matches Some((m, a)) && m == n && a@ == action,
            None => r is None,
        },
{
    if input.len() == 0 {
        return None;
    }
    if let Some((n, update)) = parse_optional_param(input) {
        return Some((n, Action::UpdateStyle(update)));
    }
    if is_bare_tag(input, 's') {
        return Some((3, Action::ResetStyle));
    }
    if let Some((n, hex)) = parse_color(input) {
        return Some((n, Action::UpdateColor(hex)));
    }
    if is_bare_tag(input, '#') {
        return Some((3, Action::ResetColor));
    }
    match parse_text_until_tag(input) {
        Some((n, text)) => Some((n, Action::AppendText(text))),
        None => None,
    }
}

} // verus!
