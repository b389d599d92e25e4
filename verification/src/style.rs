//! Styles and runs: the data the markup parser produces, and how a tag changes the
//! style that the following text is given.

use vstd::prelude::*;

verus! {

/// A style as plain values. `None` in a field means: use the document's default.
pub struct StyleView {
    /// The size, as the decimal literal that set it.
    pub size: Option<Seq<char>>,
    pub font: Option<Seq<char>>,
    pub is_bold: Option<bool>,
    pub is_italic: Option<bool>,
    /// The colour, as hex digits without `#`.
    pub color: Option<Seq<char>>,
}

/// A run as plain values: a piece of literal text and the style in force where it stood.
pub struct Run {
    pub style: StyleView,
    pub text: Seq<char>,
}

/// A change to size, font and emphasis. In each field the outer `None` means: not
/// mentioned, keep what is there; `Some(None)` means: back to the default.
pub struct StyleUpdateView {
    pub size: Option<Option<Seq<char>>>,
    pub font: Option<Option<Seq<char>>>,
    /// Bold and italic, set together.
    pub flags: Option<Option<(bool, bool)>>,
}

/// One step of a scan, as plain values.
pub enum ActionView {
    UpdateStyle(StyleUpdateView),
    ResetStyle,
    UpdateColor(Seq<char>),
    ResetColor,
    AppendText(Seq<char>),
}

/// The style before any tag: every field at its default.
pub open spec fn plain_style() -> StyleView {
    StyleView { size: None, font: None, is_bold: None, is_italic: None, color: None }
}

/// The style that holds after `action`, given the style `st` before it.
pub open spec fn restyle(st: StyleView, action: ActionView) -> StyleView {
    match action {
        ActionView::UpdateStyle(u) => StyleView {
            size: match u.size {
                Some(s) => s,
                None => st.size,
            },
            font: match u.font {
                Some(f) => f,
                None => st.font,
            },
            is_bold: match u.flags {
                Some(Some(pair)) => Some(pair.0),
                Some(None) => None,
                None => st.is_bold,
            },
            is_italic: match u.flags {
                Some(Some(pair)) => Some(pair.1),
                Some(None) => None,
                None => st.is_italic,
            },
            color: st.color,
        },
        ActionView::ResetStyle => StyleView {
            size: None,
            font: None,
            is_bold: None,
            is_italic: None,
            color: st.color,
        },
        ActionView::UpdateColor(c) => StyleView { color: Some(c), ..st },
        ActionView::ResetColor => StyleView { color: None, ..st },
        ActionView::AppendText(_) => st,
    }
}

/// The runs that exist after `action`: text that is not empty adds one run, which carries
/// the style `st` in force at that moment; nothing else adds or changes a run.
pub open spec fn extend(runs: Seq<Run>, st: StyleView, action: ActionView) -> Seq<Run> {
    match action {
        ActionView::AppendText(t) => if t.len() > 0 {
            runs.push(Run { style: st, text: t })
        } else {
            runs
        },
        _ => runs,
    }
}

/// The characters of an optional string.
pub open spec fn opt_view(o: Option<String>) -> Option<Seq<char>> {
    match o {
        Some(s) => Some(s@),
        None => None,
    }
}

/// The characters of an optional change to a string.
pub open spec fn opt2_view(o: Option<Option<String>>) -> Option<Option<Seq<char>>> {
    match o {
        Some(inner) => Some(opt_view(inner)),
        None => None,
    }
}

/// One contiguous piece of literal text with the style that was in force where it stood.
#[derive(Debug, PartialEq, Clone)]
pub struct TextElement {
    /// The size as a decimal literal, such as `12.5`.
    pub size: Option<String>,
    pub font: Option<String>,
    pub is_bold: Option<bool>,
    pub is_italic: Option<bool>,
    /// The colour as hex digits, without `#`.
    pub color: Option<String>,
    pub text: String,
}

impl View for TextElement {
    type V = Run;

    open spec fn view(&self) -> Run {
        Run {
            style: StyleView {
                size: opt_view(self.size),
                font: opt_view(self.font),
                is_bold: self.is_bold,
                is_italic: self.is_italic,
                color: opt_view(self.color),
            },
            text: self.text@,
        }
    }
}

/// The runs that a list of elements stands for.
pub open spec fn runs_of(elements: Seq<TextElement>) -> Seq<Run> {
    elements.map_values(|e: TextElement| e@)
}

/// The style that a scan carries from tag to tag.
#[derive(Debug, Clone)]
pub struct Style {
    pub size: Option<String>,
    pub font: Option<String>,
    pub is_bold: Option<bool>,
    pub is_italic: Option<bool>,
    pub color: Option<String>,
}

impl View for Style {
    type V = StyleView;

    open spec fn view(&self) -> StyleView {
        StyleView {
            size: opt_view(self.size),
            font: opt_view(self.font),
            is_bold: self.is_bold,
            is_italic: self.is_italic,
            color: opt_view(self.color),
        }
    }
}

impl Default for Style {
    fn default() -> (st: Style)
        ensures
            st@ == plain_style(),
    {
        Style { size: None, font: None, is_bold: None, is_italic: None, color: None }
    }
}

/// What a style tag with parameters sets.
#[derive(Debug)]
pub struct StyleUpdate {
    pub size: Option<Option<String>>,
    pub font: Option<Option<String>>,
    pub flags: Option<Option<(bool, bool)>>,
}

impl View for StyleUpdate {
    type V = StyleUpdateView;

    open spec fn view(&self) -> StyleUpdateView {
        StyleUpdateView { size: opt2_view(self.size), font: opt2_view(self.font), flags: self.flags }
    }
}

/// One step of a scan: a tag's effect on the style, or a piece of literal text.
#[derive(Debug)]
pub enum Action {
    UpdateStyle(StyleUpdate),
    ResetStyle,
    UpdateColor(String),
    ResetColor,
    AppendText(String),
}

impl View for Action {
    type V = ActionView;

    open spec fn view(&self) -> ActionView {
        match self {
            Action::UpdateStyle(u) => ActionView::UpdateStyle(u@),
            Action::ResetStyle => ActionView::ResetStyle,
            Action::UpdateColor(c) => ActionView::UpdateColor(c@),
            Action::ResetColor => ActionView::ResetColor,
            Action::AppendText(t) => ActionView::AppendText(t@),
        }
    }
}

/// A copy of an optional string.
pub fn clone_opt(o: &Option<String>) -> (r: Option<String>)
    ensures
        r == *o,
{
    match o {
        Some(s) => Some(s.clone()),
        None => None,
    }
}

/// Performs one step: changes the style as a tag asks, or adds the text as a run that
/// carries the style in force. Empty text adds no run.
pub fn apply_action(elements: Vec<TextElement>, style: Style, action: Action) -> (r: (
    Vec<TextElement>,
    Style,
))
    ensures
        runs_of(r.0@) == extend(runs_of(elements@), style@, action@),
        r.1@ == restyle(style@, action@),
{
    let mut elements = elements;
    let mut style = style;
    let ghost before = style@;
    let ghost runs = runs_of(elements@);
    match action {
        Action::UpdateStyle(u) => {
            if let Some(s) = u.size {
                style.size = s;
            }
            if let Some(f) = u.font {
                style.font = f;
            }
            if let Some(fl) = u.flags {
                if let Some((b, i)) = fl {
                    style.is_bold = Some(b);
                    style.is_italic = Some(i);
                } else {
                    style.is_bold = None;
                    style.is_italic = None;
                }
            }
        },
        Action::ResetStyle => {
            style.size = None;
            style.font = None;
            style.is_bold = None;
            style.is_italic = None;
        },
        Action::UpdateColor(color) => {
            style.color = Some(color);
        },
        Action::ResetColor => {
            style.color = None;
        },
        Action::AppendText(text) => {
            if !text.as_str().is_empty() {
                let element = TextElement {
                    size: clone_opt(&style.size),
                    font: clone_opt(&style.font),
                    is_bold: style.is_bold,
                    is_italic: style.is_italic,
                    color: clone_opt(&style.color),
                    text,
                };
                assert(element@ == (Run { style: before, text: text@ }));
                elements.push(element);
                assert(runs_of(elements@) =~= runs.push(element@));
            }
        },
    }
    (elements, style)
}

} // verus!
