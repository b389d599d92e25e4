//! The markup parser: from a text with inline tags to the list of its styled runs.

use crate::style::{
    apply_action, extend, plain_style, restyle, runs_of, ActionView, Run, Style, StyleUpdateView,
    StyleView, TextElement,
};
use crate::number::decimal_literal;
use crate::tags::{
    all_hex, is_style_body, lemma_next_action_len, lemma_next_opener, next_action, opens_tag,
    parse_action, style_update_of, tag_body, text_len,
};
use crate::text::{lemma_find_char, lemma_find_char_is, piece, string_of, to_chars};
use vstd::prelude::*;

verus! {

/// The runs of a scan that has `s` left to read, carries the style `st` and has emitted
/// `runs`: step by step to the end of the input. `Err` holds what was left where a step
/// took no character.
pub open spec fn scan(s: Seq<char>, st: StyleView, runs: Seq<Run>) -> Result<Seq<Run>, Seq<char>>
    decreases s.len(),
{
    match next_action(s) {
        None => Ok(runs),
        Some((action, n)) => if 0 < n <= s.len() {
            scan(s.skip(n), restyle(st, action), extend(runs, st, action))
        } else {
            Err(s)
        },
    }
}

/// The runs of `input`: those of a scan from its first character, in the plain style.
pub open spec fn parse_spec(input: Seq<char>) -> Result<Seq<Run>, Seq<char>> {
    scan(input, plain_style(), Seq::empty())
}

/// What holds of every style that a scan carries: a size is a decimal literal, a font
/// name is not empty, and a colour is hex digits, at least one.
pub open spec fn style_wf(st: StyleView) -> bool {
    &&& st.size matches Some(literal) ==> decimal_literal(literal)
    &&& st.font matches Some(name) ==> name.len() > 0
    &&& st.color matches Some(hex) ==> hex.len() > 0 && all_hex(hex)
}

/// What holds of every run that a scan emits: its style is as `style_wf` says, and its
/// text is not empty.
pub open spec fn run_wf(run: Run) -> bool {
    style_wf(run.style) && run.text.len() > 0
}

/// The text of the error for a scan that stopped with `rest` unread.
pub uninterp spec fn stall_message(rest: Seq<char>) -> Seq<char>;

/// The message with which nom reports a repetition whose parser took no input: the
/// `Display` text of `nom::Err::Error` around a `nom::error::Error` with the code
/// `ErrorKind::Many0`, which names `rest`, the input left at that point. It is a
/// function of `rest` alone.
#[verifier::external_body]
fn describe_stall(rest: &str) -> (message: String)
    ensures
        message@ == stall_message(rest@),
{
    nom::Err::Error(nom::error::Error::new(rest, nom::error::ErrorKind::Many0)).to_string()
}

/// Scans `input` into its runs, in input order. Tags change the style that later text
/// is given; text between tags becomes a run that carries the style in force where it
/// stands. No run has empty text.
///
/// Fails where a tag begins (`<s` or `<#`) that is none of the four tags, and hands back
/// the input from that point on.
pub fn scan_markup(input: &str) -> (r: Result<Vec<TextElement>, String>)
    ensures
        match parse_spec(input@) {
            Ok(runs) => r matches Ok(elements) && runs_of(elements@) == runs,
            Err(rest) => r matches Err(left) && left@ == rest,
        },
        r matches Ok(elements) ==> forall|i: int|
            0 <= i < elements.len() ==> run_wf(#[trigger] elements[i]@),
{
    let chars = to_chars(input);
    let all = chars.as_slice();
    let mut elements: Vec<TextElement> = Vec::new();
    let mut style = Style::default();
    let mut pos: usize = 0;
    assert(input@.skip(0) =~= input@);
    assert(runs_of(elements@) =~= Seq::<Run>::empty());
    while pos < all.len()
        invariant
            pos <= all.len(),
            all@ == input@,
            parse_spec(input@) == scan(input@.skip(pos as int), style@, runs_of(elements@)),
        decreases all.len() - pos,
    {
        let rest = piece(all, pos, all.len());
        assert(rest@ =~= input@.skip(pos as int));
        proof {
            lemma_next_action_len(rest@);
        }
        match parse_action(rest) {
            Some((n, action)) => {
                if n == 0 {
                    return Err(string_of(rest));
                }
                let next = apply_action(elements, style, action);
                elements = next.0;
                style = next.1;
                assert(rest@.skip(n as int) =~= input@.skip(pos + n));
                pos = pos + n;
            },
            None => {
                assert(false);
            },
        }
    }
    proof {
        assert(input@.skip(pos as int).len() == 0);
        lemma_runs_well_formed(input@);
        let runs = parse_spec(input@)->Ok_0;
        assert(runs == runs_of(elements@));
        assert forall|i: int| 0 <= i < elements.len() implies run_wf(#[trigger] elements[i]@) by {
            assert(run_wf(runs[i]));
            assert(runs[i] == elements[i]@);
        }
    }
    Ok(elements)
}

/// Parses `input` into its runs, as `scan_markup` does.
///
/// Fails where a tag begins (`<s` or `<#`) that is none of the four tags; the error is
/// a message that names the input from that point on.
pub fn parse_markup(input: &str) -> (r: Result<Vec<TextElement>, String>)
    ensures
        match parse_spec(input@) {
            Ok(runs) => r matches Ok(elements) && runs_of(elements@) == runs,
            Err(rest) => r matches Err(message) && message@ == stall_message(rest),
        },
        r matches Ok(elements) ==> forall|i: int|
            0 <= i < elements.len() ==> run_wf(#[trigger] elements[i]@),
{
    match scan_markup(input) {
        Ok(elements) => Ok(elements),
        Err(left) => Err(describe_stall(left.as_str())),
    }
}

/// A tag written out: `<`, the body, `>`.
pub open spec fn tag_text(body: Seq<char>) -> Seq<char> {
    seq!['<'] + body + seq!['>']
}

/// The style after a style reset: only the colour is left.
pub open spec fn color_only(st: StyleView) -> StyleView {
    StyleView { size: None, font: None, is_bold: None, is_italic: None, color: st.color }
}

/// The tag `<body>` at the front of a text closes at its own `>` when the body holds
/// none.
proof fn lemma_tag_front(body: Seq<char>, rest: Seq<char>)
    requires
        !body.contains('>'),
    ensures
        tag_body(tag_text(body) + rest) == Some(body),
        (tag_text(body) + rest).skip(body.len() as int + 2) == rest,
{
    let s = tag_text(body) + rest;
    let close = body.len() as int + 1;
    assert(s[0] == '<');
    assert(s[close] == '>');
    assert forall|i: int| 0 <= i < close implies s[i] != '>' by {
        if i > 0 {
            assert(s[i] == body[i - 1]);
            assert(body.contains(body[i - 1]));
        }
    }
    lemma_find_char_is(s, '>', 0, close);
    assert(s.subrange(1, close) =~= body);
    assert(s.skip(body.len() as int + 2) =~= rest);
}

/// Literal text becomes one run in the style in force, and leaves the style as it is.
///
/// Text is what holds no place at which a tag may begin, and ends at such a place or at
/// the end of the input. So a `<` that begins neither `<s` nor `<#`, as in `<other>`,
/// stays in the text as it is written.
pub proof fn lemma_text_step(text: Seq<char>, rest: Seq<char>, st: StyleView, runs: Seq<Run>)
    requires
        text.len() > 0,
        forall|i: int| 0 <= i < text.len() ==> !opens_tag(text + rest, i),
        rest.len() == 0 || opens_tag(text + rest, text.len() as int),
    ensures
        scan(text + rest, st, runs) == scan(rest, st, runs.push(Run { style: st, text })),
{
    let s = text + rest;
    lemma_find_char(s, '>', 0);
    lemma_next_opener(s, 0);
    assert(!opens_tag(s, 0));
    assert(text_len(s) == text.len());
    assert(s.take(text.len() as int) =~= text);
    assert(s.skip(text.len() as int) =~= rest);
}

/// A text in which no tag may begin is one run: the whole text, in the plain style.
pub proof fn lemma_plain_text(input: Seq<char>)
    requires
        input.len() > 0,
        forall|i: int| 0 <= i < input.len() ==> !opens_tag(input, i),
    ensures
        parse_spec(input) == Ok::<Seq<Run>, Seq<char>>(
            seq![Run { style: plain_style(), text: input }],
        ),
{
    let none = Seq::<char>::empty();
    assert(input + none =~= input);
    lemma_text_step(input, none, plain_style(), Seq::empty());
    assert(Seq::<Run>::empty().push(Run { style: plain_style(), text: input }) =~= seq![
        Run { style: plain_style(), text: input },
    ]);
}

/// The bare tag `<s>` puts size, font, bold and italic back to their defaults at once,
/// leaves the colour as it is, and emits nothing.
pub proof fn lemma_style_reset_step(rest: Seq<char>, st: StyleView, runs: Seq<Run>)
    ensures
        scan(tag_text(seq!['s']) + rest, st, runs) == scan(rest, color_only(st), runs),
        color_only(st).color == st.color,
{
    let s = tag_text(seq!['s']) + rest;
    assert(!seq!['s'].contains('>'));
    lemma_tag_front(seq!['s'], rest);
    assert(s[0] == '<' && s[1] == 's' && s[2] == '>');
}

/// The bare tag `<#>` puts the colour back to its default, leaves every other field as
/// it is, and emits nothing.
pub proof fn lemma_color_reset_step(rest: Seq<char>, st: StyleView, runs: Seq<Run>)
    ensures
        scan(tag_text(seq!['#']) + rest, st, runs) == scan(
            rest,
            StyleView { color: None, ..st },
            runs,
        ),
{
    let s = tag_text(seq!['#']) + rest;
    assert(!seq!['#'].contains('>'));
    lemma_tag_front(seq!['#'], rest);
    assert(s[0] == '<' && s[1] == '#' && s[2] == '>');
    assert(seq!['#'].skip(1) =~= Seq::<char>::empty());
}

/// A colour tag sets the colour to its hex digits, as written, leaves every other field
/// as it is, and emits nothing.
pub proof fn lemma_color_step(hex: Seq<char>, rest: Seq<char>, st: StyleView, runs: Seq<Run>)
    requires
        hex.len() > 0,
        all_hex(hex),
    ensures
        scan(tag_text(seq!['#'] + hex) + rest, st, runs) == scan(
            rest,
            StyleView { color: Some(hex), ..st },
            runs,
        ),
{
    let body = seq!['#'] + hex;
    let s = tag_text(body) + rest;
    assert forall|i: int| 0 <= i < body.len() implies body[i] != '>' by {
        if i > 0 {
            assert(body[i] == hex[i - 1]);
        }
    }
    lemma_tag_front(body, rest);
    assert(body.skip(1) =~= hex);
    assert(s[1] == '#');
}

/// A style tag with parameters sets what its fields say, leaves the colour as it is,
/// and emits nothing.
pub proof fn lemma_style_step(body: Seq<char>, rest: Seq<char>, st: StyleView, runs: Seq<Run>)
    requires
        is_style_body(body),
        !body.contains('>'),
    ensures
        scan(tag_text(body) + rest, st, runs) == scan(
            rest,
            restyle(st, ActionView::UpdateStyle(style_update_of(body))),
            runs,
        ),
        restyle(st, ActionView::UpdateStyle(style_update_of(body))).color == st.color,
{
    lemma_tag_front(body, rest);
}

/// Style and colour are two channels. A step that sets or resets the colour leaves
/// size, font, bold and italic as they are; a step that sets or resets those leaves the
/// colour as it is; text leaves the whole style as it is.
pub proof fn lemma_channels(st: StyleView, action: ActionView)
    ensures
        (action is UpdateColor || action is ResetColor) ==> {
            &&& restyle(st, action).size == st.size
            &&& restyle(st, action).font == st.font
            &&& restyle(st, action).is_bold == st.is_bold
            &&& restyle(st, action).is_italic == st.is_italic
        },
        (action is UpdateStyle || action is ResetStyle) ==> restyle(st, action).color == st.color,
        action is AppendText ==> restyle(st, action) == st,
{
}

/// What a style update leaves unmentioned stays as it is.
pub proof fn lemma_update_keeps_unmentioned(st: StyleView, update: StyleUpdateView)
    ensures
        update.size is None ==> restyle(st, ActionView::UpdateStyle(update)).size == st.size,
        update.font is None ==> restyle(st, ActionView::UpdateStyle(update)).font == st.font,
        update.flags is None ==> {
            &&& restyle(st, ActionView::UpdateStyle(update)).is_bold == st.is_bold
            &&& restyle(st, ActionView::UpdateStyle(update)).is_italic == st.is_italic
        },
{
}

/// A step of a scan leaves the style well-formed.
pub proof fn lemma_step_keeps_style_wf(s: Seq<char>, st: StyleView)
    requires
        style_wf(st),
    ensures
        next_action(s) matches Some((action, _)) ==> style_wf(restyle(st, action)),
{
    lemma_find_char(s, '>', 0);
    if let Some(body) = tag_body(s) {
        lemma_find_char(body, ',', 0);
    }
}

/// A scan keeps the runs it has and adds only well-formed runs: if the style it starts
/// with and the runs it starts with are well-formed, so is every run of the result.
pub proof fn lemma_scan_well_formed(s: Seq<char>, st: StyleView, runs: Seq<Run>)
    requires
        style_wf(st),
        forall|i: int| 0 <= i < runs.len() ==> run_wf(#[trigger] runs[i]),
    ensures
        scan(s, st, runs) matches Ok(all) ==> {
            &&& all.len() >= runs.len()
            &&& all.take(runs.len() as int) == runs
            &&& forall|i: int| 0 <= i < all.len() ==> run_wf(#[trigger] all[i])
        },
    decreases s.len(),
{
    match next_action(s) {
        None => {
            assert(runs.take(runs.len() as int) =~= runs);
        },
        Some((action, n)) => {
            if 0 < n <= s.len() {
                let next = extend(runs, st, action);
                lemma_step_keeps_style_wf(s, st);
                lemma_scan_well_formed(s.skip(n), restyle(st, action), next);
                if let Ok(all) = scan(s, st, runs) {
                    assert(all.take(runs.len() as int) =~= all.take(next.len() as int).take(
                        runs.len() as int,
                    ));
                    assert(next.take(runs.len() as int) =~= runs);
                }
            }
        },
    }
}

/// Every run of a parse is well-formed. In particular no run has empty text: two tags
/// with no text between them emit nothing for the gap.
pub proof fn lemma_runs_well_formed(input: Seq<char>)
    ensures
        parse_spec(input) matches Ok(runs) ==> forall|i: int|
            0 <= i < runs.len() ==> run_wf(#[trigger] runs[i]),
{
    lemma_scan_well_formed(input, plain_style(), Seq::empty());
}

/// Where a scan fails, what it names is the end of the input it was given, from a place
/// at which a tag may begin.
pub proof fn lemma_scan_error(s: Seq<char>, st: StyleView, runs: Seq<Run>)
    ensures
        scan(s, st, runs) matches Err(rest) ==> {
            &&& opens_tag(rest, 0)
            &&& rest.len() <= s.len()
            &&& rest == s.skip(s.len() - rest.len())
        },
    decreases s.len(),
{
    lemma_next_action_len(s);
    lemma_next_opener(s, 0);
    match next_action(s) {
        None => {},
        Some((action, n)) => {
            if 0 < n <= s.len() {
                lemma_scan_error(s.skip(n), restyle(st, action), extend(runs, st, action));
                if let Err(rest) = scan(s, st, runs) {
                    assert(s.skip(n).skip(s.skip(n).len() - rest.len()) =~= s.skip(
                        s.len() - rest.len(),
                    ));
                }
            } else {
                assert(s.skip(0) =~= s);
            }
        },
    }
}

} // verus!
