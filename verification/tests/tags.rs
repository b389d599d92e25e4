use text_split::style::{apply_action, Action, Style, StyleUpdate, TextElement};
use text_split::tags::{
    hex_digit, parse_action, parse_color, parse_optional_param, parse_text_until_tag,
};
use text_split::text::{contains_seq, has_char, index_of, matches_at, piece, to_chars};

fn chars(s: &str) -> Vec<char> {
    s.chars().collect()
}

#[test]
fn chars_of_a_text() {
    assert_eq!(to_chars("a縦b"), vec!['a', '縦', 'b']);
    assert_eq!(to_chars(""), Vec::<char>::new());
}

#[test]
fn searches() {
    let s = chars("a,b,,c");
    assert_eq!(index_of(&s, ',', 0), 1);
    assert_eq!(index_of(&s, ',', 1), 1);
    assert_eq!(index_of(&s, ',', 2), 3);
    assert_eq!(index_of(&s, ',', 5), 6);
    assert_eq!(index_of(&s, 'x', 0), 6);
    assert!(has_char(&s, 'c'));
    assert!(!has_char(&s, 'd'));
    assert!(contains_seq(&s, &chars(",,")));
    assert!(contains_seq(&s, &chars("")));
    assert!(contains_seq(&s, &chars("a,b,,c")));
    assert!(!contains_seq(&s, &chars("a,b,,c ")));
    assert!(!contains_seq(&s, &chars(",,,")));
}

#[test]
fn style_tag_with_parameters() {
    let (n, update) = parse_optional_param(&chars("<s12,Arial,B>rest")).unwrap();
    assert_eq!(n, 13);
    assert_eq!(update.size, Some(Some("12".to_string())));
    assert_eq!(update.font, Some(Some("Arial".to_string())));
    assert_eq!(update.flags, Some(Some((true, false))));
    let (n, update) = parse_optional_param(&chars("<s,>")).unwrap();
    assert_eq!(n, 4);
    assert_eq!(update.size, Some(None));
    assert_eq!(update.font, Some(None));
    assert_eq!(update.flags, None);
    let (n, update) = parse_optional_param(&chars("<s3>")).unwrap();
    assert_eq!(n, 4);
    assert_eq!(update.size, Some(Some("3".to_string())));
    assert_eq!(update.font, None);
    assert_eq!(update.flags, None);
}

#[test]
fn what_is_no_style_tag_with_parameters() {
    assert!(parse_optional_param(&chars("<s>")).is_none());
    assert!(parse_optional_param(&chars("<s12")).is_none());
    assert!(parse_optional_param(&chars("<#12>")).is_none());
    assert!(parse_optional_param(&chars("<>")).is_none());
    assert!(parse_optional_param(&chars("s12>")).is_none());
    assert!(parse_optional_param(&chars(" <s12>")).is_none());
    assert!(parse_optional_param(&chars("")).is_none());
}

#[test]
fn color_tag() {
    assert_eq!(parse_color(&chars("<#09afAF>x")), Some((9, "09afAF".to_string())));
    assert_eq!(parse_color(&chars("<#1>")), Some((4, "1".to_string())));
    assert_eq!(parse_color(&chars("<#>")), None);
    assert_eq!(parse_color(&chars("<#g>")), None);
    assert_eq!(parse_color(&chars("<#12")), None);
    assert_eq!(parse_color(&chars("<#12<#34>")), None);
    assert_eq!(parse_color(&chars("<12>")), None);
    assert_eq!(parse_color(&chars("")), None);
}

#[test]
fn text_up_to_the_next_tag() {
    assert_eq!(parse_text_until_tag(&chars("abc<s>def")), Some((3, "abc".to_string())));
    assert_eq!(parse_text_until_tag(&chars("abc<#>def")), Some((3, "abc".to_string())));
    assert_eq!(parse_text_until_tag(&chars("abc<#1>d<s>")), Some((3, "abc".to_string())));
    assert_eq!(parse_text_until_tag(&chars("a<b<c<sd")), Some((5, "a<b<c".to_string())));
    assert_eq!(parse_text_until_tag(&chars("abc")), Some((3, "abc".to_string())));
    assert_eq!(parse_text_until_tag(&chars("abc<")), Some((4, "abc<".to_string())));
    assert_eq!(parse_text_until_tag(&chars("<s")), Some((0, String::new())));
    assert_eq!(parse_text_until_tag(&chars("")), None);
}

#[test]
fn tags_go_before_text() {
    assert!(parse_action(&chars("")).is_none());
    let (n, action) = parse_action(&chars("<s>x")).unwrap();
    assert_eq!((n, format!("{:?}", action)), (3, "ResetStyle".to_string()));
    let (n, action) = parse_action(&chars("<#>x")).unwrap();
    assert_eq!((n, format!("{:?}", action)), (3, "ResetColor".to_string()));
    let (n, action) = parse_action(&chars("<#ab>x")).unwrap();
    assert_eq!((n, format!("{:?}", action)), (5, "UpdateColor(\"ab\")".to_string()));
    let (n, action) = parse_action(&chars("x<#ab>")).unwrap();
    assert_eq!((n, format!("{:?}", action)), (1, "AppendText(\"x\")".to_string()));
    let (n, action) = parse_action(&chars("<#ab")).unwrap();
    assert_eq!((n, format!("{:?}", action)), (0, "AppendText(\"\")".to_string()));
    let (n, _) = parse_action(&chars("<s1>x")).unwrap();
    assert_eq!(n, 4);
}

#[test]
fn hex_digits() {
    assert!("0123456789abcdefABCDEF".chars().all(hex_digit));
    assert!(!"gG/:@`ｆ ".chars().any(hex_digit));
}

#[test]
fn pieces_and_matches() {
    let s = chars("abcdef");
    assert_eq!(piece(&s, 2, 4), &['c', 'd']);
    assert_eq!(piece(&s, 6, 6), &[] as &[char]);
    assert!(matches_at(&s, &chars("cd"), 2));
    assert!(!matches_at(&s, &chars("cd"), 3));
    assert!(!matches_at(&s, &chars("fg"), 5));
    assert!(matches_at(&s, &chars(""), 6));
    assert!(!matches_at(&s, &chars(""), 7));
}

fn styled() -> Style {
    Style {
        size: Some("12".to_string()),
        font: Some("Arial".to_string()),
        is_bold: Some(true),
        is_italic: Some(false),
        color: Some("ff0000".to_string()),
    }
}

#[test]
fn the_first_style_is_plain() {
    let style = Style::default();
    assert_eq!(
        (style.size, style.font, style.is_bold, style.is_italic, style.color),
        (None, None, None, None, None)
    );
}

#[test]
fn text_becomes_a_run_in_the_style_in_force() {
    let (elements, style) =
        apply_action(Vec::new(), styled(), Action::AppendText("abc".to_string()));
    assert_eq!(
        elements,
        vec![TextElement {
            size: Some("12".to_string()),
            font: Some("Arial".to_string()),
            is_bold: Some(true),
            is_italic: Some(false),
            color: Some("ff0000".to_string()),
            text: "abc".to_string(),
        }]
    );
    assert_eq!(style.color, Some("ff0000".to_string()));
    let (elements, _) = apply_action(elements, style, Action::AppendText(String::new()));
    assert_eq!(elements.len(), 1);
}

#[test]
fn tags_change_the_style_and_emit_nothing() {
    let (elements, style) = apply_action(Vec::new(), styled(), Action::ResetStyle);
    assert!(elements.is_empty());
    assert_eq!(
        (style.size, style.font, style.is_bold, style.is_italic, style.color),
        (None, None, None, None, Some("ff0000".to_string()))
    );
    let (_, style) = apply_action(Vec::new(), styled(), Action::ResetColor);
    assert_eq!(
        (style.size, style.font, style.is_bold, style.is_italic, style.color),
        (Some("12".to_string()), Some("Arial".to_string()), Some(true), Some(false), None)
    );
    let (_, style) = apply_action(Vec::new(), styled(), Action::UpdateColor("00f".to_string()));
    assert_eq!(
        (style.size, style.font, style.is_bold, style.is_italic, style.color),
        (
            Some("12".to_string()),
            Some("Arial".to_string()),
            Some(true),
            Some(false),
            Some("00f".to_string())
        )
    );
    let update = StyleUpdate { size: Some(None), font: None, flags: Some(Some((false, true))) };
    let (_, style) = apply_action(Vec::new(), styled(), Action::UpdateStyle(update));
    assert_eq!(
        (style.size, style.font, style.is_bold, style.is_italic, style.color),
        (None, Some("Arial".to_string()), Some(false), Some(true), Some("ff0000".to_string()))
    );
    let update = StyleUpdate { size: None, font: Some(None), flags: Some(None) };
    let (_, style) = apply_action(Vec::new(), styled(), Action::UpdateStyle(update));
    assert_eq!(
        (style.size, style.font, style.is_bold, style.is_italic, style.color),
        (Some("12".to_string()), None, None, None, Some("ff0000".to_string()))
    );
}
