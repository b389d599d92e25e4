use text_split::parser::{parse_markup, scan_markup};
use text_split::style::TextElement;

fn size(element: &TextElement) -> Option<f32> {
    element.size.as_ref().map(|literal| literal.parse::<f32>().unwrap())
}

#[test]
fn test_color_reset() {
    let input = "<#ff0000>red text<#>default text";
    let result = parse_markup(input).unwrap();
    assert_eq!(result.len(), 2);
    assert_eq!(result[0].text, "red text");
    assert_eq!(result[0].color, Some("ff0000".to_string()));
    assert_eq!(result[1].text, "default text");
    assert_eq!(result[1].color, None);
}

#[test]
fn test_style_carryover_after_color_reset() {
    let input = "<s12,,I><#ff0000>italic and red<#>italic only";
    let result = parse_markup(input).unwrap();
    assert_eq!(result.len(), 2);
    assert_eq!(result[0].text, "italic and red");
    assert_eq!(size(&result[0]), Some(12.0));
    assert_eq!(result[0].is_italic, Some(true));
    assert_eq!(result[0].color, Some("ff0000".to_string()));
    assert_eq!(result[1].text, "italic only");
    assert_eq!(size(&result[1]), Some(12.0));
    assert_eq!(result[1].is_italic, Some(true));
    assert_eq!(result[1].color, None);
}

#[test]
fn test_treat_unrecognized_tags_as_text() {
    let input = "Initial Text<other>Tag<s12.5,,><#FF0000>Hello World!";
    let result = parse_markup(input);
    assert!(result.is_ok(), "Parse failed: {:?}", result.err());
    let elements = result.unwrap();
    assert_eq!(elements.len(), 2);
    assert_eq!(elements[0].text, "Initial Text<other>Tag");
    assert_eq!(elements[1].text, "Hello World!");
    assert_eq!(size(&elements[1]), Some(12.5));
    assert_eq!(elements[1].color, Some("FF0000".to_string()));
}

#[test]
fn test_color_only_element() {
    let input = "Before<#123456>Colored Text";
    let result = parse_markup(input).unwrap();
    assert_eq!(result.len(), 2);
    assert_eq!(result[0].text, "Before");
    assert_eq!(result[1].color, Some("123456".to_string()));
    assert_eq!(result[1].text, "Colored Text");
}

#[test]
fn test_no_trailing_text() {
    let input = "<s10,Comic Sans MS,B><#123456>";
    let result = parse_markup(input).unwrap();
    assert!(result.is_empty());
}

#[test]
fn test_consecutive_tags() {
    let input = "<s10><#ff0000>text";
    let result = parse_markup(input).unwrap();
    assert_eq!(result.len(), 1);
    assert_eq!(size(&result[0]), Some(10.0));
    assert_eq!(result[0].color, Some("ff0000".to_string()));
    assert_eq!(result[0].text, "text");
}

#[test]
fn test_style_reset() {
    let input = "<s50,Arial,B><#123>bold, 50px, red<s>normal text";
    let result = parse_markup(input).unwrap();
    assert_eq!(result.len(), 2);

    let el1 = &result[0];
    assert_eq!(el1.text, "bold, 50px, red");
    assert_eq!(size(el1), Some(50.0));
    assert_eq!(el1.font, Some("Arial".to_string()));
    assert_eq!(el1.is_bold, Some(true));
    assert_eq!(el1.color, Some("123".to_string()));

    let el2 = &result[1];
    assert_eq!(el2.text, "normal text");
    assert_eq!(size(el2), None);
    assert_eq!(el2.font, None);
    assert_eq!(el2.is_bold, None);
    assert_eq!(el2.color, Some("123".to_string())); // color is preserved
}

#[test]
fn test_empty_size_resets_size() {
    let input = "<s50>size 50<s,Arial>size reset, font Arial<s>back to default";
    let result = parse_markup(input).unwrap();
    assert_eq!(result.len(), 3);

    assert_eq!(size(&result[0]), Some(50.0));
    assert_eq!(result[0].font, None);

    assert_eq!(size(&result[1]), None);
    assert_eq!(result[1].font, Some("Arial".to_string()));

    assert_eq!(size(&result[2]), None);
    assert_eq!(result[2].font, None);
}

fn plain(text: &str) -> TextElement {
    TextElement {
        size: None,
        font: None,
        is_bold: None,
        is_italic: None,
        color: None,
        text: text.to_string(),
    }
}

#[test]
fn plain_text_is_one_plain_run() {
    assert_eq!(parse_markup("just some words").unwrap(), vec![plain("just some words")]);
    assert_eq!(parse_markup("テキスト").unwrap(), vec![plain("テキスト")]);
    assert_eq!(parse_markup("a < b > c").unwrap(), vec![plain("a < b > c")]);
}

#[test]
fn empty_input_has_no_runs() {
    assert_eq!(parse_markup("").unwrap(), Vec::<TextElement>::new());
}

#[test]
fn unrecognized_tags_stay_in_the_text() {
    assert_eq!(parse_markup("<other>").unwrap(), vec![plain("<other>")]);
    assert_eq!(parse_markup("a<b>c</b>d").unwrap(), vec![plain("a<b>c</b>d")]);
    assert_eq!(parse_markup("<S12>upper case").unwrap(), vec![plain("<S12>upper case")]);
    assert_eq!(parse_markup("x<").unwrap(), vec![plain("x<")]);
    let result = parse_markup("<#00ff00>x<other>y").unwrap();
    assert_eq!(result.len(), 1);
    assert_eq!(result[0].text, "x<other>y");
    assert_eq!(result[0].color, Some("00ff00".to_string()));
}

#[test]
fn style_persists_until_reset_or_overridden() {
    let result = parse_markup("<s20,Meiryo,BI>a<#abc>b<#>c<s30>d<s,,x>e<s>f").unwrap();
    assert_eq!(result.len(), 6);
    // a: what the tag set
    assert_eq!(result[0].size, Some("20".to_string()));
    assert_eq!(result[0].font, Some("Meiryo".to_string()));
    assert_eq!(result[0].is_bold, Some(true));
    assert_eq!(result[0].is_italic, Some(true));
    assert_eq!(result[0].color, None);
    // b: a colour tag changes the colour only
    assert_eq!(result[1], TextElement { color: Some("abc".to_string()), text: "b".to_string(), ..result[0].clone() });
    // c: a colour reset changes the colour only
    assert_eq!(result[2], TextElement { text: "c".to_string(), ..result[0].clone() });
    // d: a tag with a size only overrides the size and keeps the rest
    assert_eq!(result[3], TextElement { size: Some("30".to_string()), text: "d".to_string(), ..result[0].clone() });
    // e: empty size and font go back to the default; flags without B and I switch both off
    assert_eq!(
        result[4],
        TextElement {
            size: None,
            font: None,
            is_bold: Some(false),
            is_italic: Some(false),
            color: None,
            text: "e".to_string(),
        }
    );
    // f: the bare tag clears all four
    assert_eq!(result[5], plain("f"));
}

#[test]
fn bare_style_tag_keeps_the_color() {
    let result = parse_markup("<#fedcba><s9,Arial,BI>x<s>y").unwrap();
    assert_eq!(result.len(), 2);
    assert_eq!(result[0].color, Some("fedcba".to_string()));
    assert_eq!(
        result[1],
        TextElement { color: Some("fedcba".to_string()), ..plain("y") }
    );
}

#[test]
fn bare_color_tag_clears_the_color_only() {
    let result = parse_markup("<s9,Arial,BI><#fedcba>x<#>y").unwrap();
    assert_eq!(result.len(), 2);
    assert_eq!(result[0].color, Some("fedcba".to_string()));
    assert_eq!(result[1], TextElement { color: None, text: "y".to_string(), ..result[0].clone() });
    assert_eq!(result[1].size, Some("9".to_string()));
    assert_eq!(result[1].font, Some("Arial".to_string()));
    assert_eq!(result[1].is_bold, Some(true));
    assert_eq!(result[1].is_italic, Some(true));
}

#[test]
fn adjacent_tags_emit_nothing_for_the_gap() {
    assert_eq!(parse_markup("<s><#><s><#>").unwrap(), Vec::<TextElement>::new());
    let result = parse_markup("a<s1><s2><#1><#2>b").unwrap();
    assert_eq!(result.len(), 2);
    assert!(result.iter().all(|run| !run.text.is_empty()));
    assert_eq!(result[1].size, Some("2".to_string()));
    assert_eq!(result[1].color, Some("2".to_string()));
}

#[test]
fn color_keeps_its_case() {
    let result = parse_markup("<#AbCdEf>x").unwrap();
    assert_eq!(result[0].color, Some("AbCdEf".to_string()));
}

#[test]
fn flags_field() {
    let bold = parse_markup("<s,,B>x").unwrap();
    assert_eq!((bold[0].is_bold, bold[0].is_italic), (Some(true), Some(false)));
    let italic = parse_markup("<s,,I>x").unwrap();
    assert_eq!((italic[0].is_bold, italic[0].is_italic), (Some(false), Some(true)));
    let both = parse_markup("<s,,IB>x").unwrap();
    assert_eq!((both[0].is_bold, both[0].is_italic), (Some(true), Some(true)));
    let neither = parse_markup("<s,,none>x").unwrap();
    assert_eq!((neither[0].is_bold, neither[0].is_italic), (Some(false), Some(false)));
    let reset = parse_markup("<s,,B><s,,>x").unwrap();
    assert_eq!((reset[0].is_bold, reset[0].is_italic), (None, None));
    let untouched = parse_markup("<s,,B><s5,Arial>x").unwrap();
    assert_eq!((untouched[0].is_bold, untouched[0].is_italic), (Some(true), Some(false)));
    let fourth_field = parse_markup("<s,,B,I>x").unwrap();
    assert_eq!((fourth_field[0].is_bold, fourth_field[0].is_italic), (Some(true), Some(false)));
}

#[test]
fn malformed_size_is_no_size() {
    let result = parse_markup("<s40>a<s4x0>b<span>c").unwrap();
    assert_eq!(result.len(), 3);
    assert_eq!(size(&result[0]), Some(40.0));
    assert_eq!(result[1].size, None);
    assert_eq!(result[2].size, None);
    assert_eq!(result[2].text, "c");
}

#[test]
fn size_literals() {
    for literal in ["12", "12.5", ".5", "5.", "-3", "+3", "1e2", "2.5E-1", "inf", "NaN"] {
        let input = format!("<s{}>x", literal);
        let result = parse_markup(&input).unwrap();
        assert_eq!(result[0].size, Some(literal.to_string()));
        assert!(literal.parse::<f32>().is_ok());
    }
}

#[test]
fn style_tag_runs_to_the_first_closing_bracket() {
    let result = parse_markup("<s8,A<#>b>c").unwrap();
    assert_eq!(result.len(), 1);
    assert_eq!(result[0].text, "b>c");
    assert_eq!(result[0].size, Some("8".to_string()));
    assert_eq!(result[0].font, Some("A<#".to_string()));
}

#[test]
fn nearest_tag_ends_the_text() {
    let first_style = parse_markup("ab<s7>cd<#1>ef").unwrap();
    assert_eq!(first_style.len(), 3);
    assert_eq!(first_style[0], plain("ab"));
    assert_eq!(first_style[1].text, "cd");
    assert_eq!(first_style[2].text, "ef");
    let first_color = parse_markup("ab<#1>cd<s7>ef").unwrap();
    assert_eq!(first_color.len(), 3);
    assert_eq!(first_color[0], plain("ab"));
    assert_eq!(first_color[1].size, None);
    assert_eq!(first_color[2].size, Some("7".to_string()));
    let reset_first = parse_markup("<#1>ab<#>cd<#2>ef").unwrap();
    assert_eq!(reset_first.len(), 3);
    assert_eq!(reset_first[1].color, None);
    assert_eq!(reset_first[2].color, Some("2".to_string()));
}

#[test]
fn a_tag_that_does_not_close_is_an_error() {
    assert!(parse_markup("<s12").is_err());
    assert!(parse_markup("abc<s12").is_err());
    assert!(parse_markup("<#ff0000").is_err());
    assert!(parse_markup("<#").is_err());
    assert!(parse_markup("x<s").is_err());
}

#[test]
fn a_color_that_is_not_hex_is_an_error() {
    assert!(parse_markup("<#xyz>text").is_err());
    assert!(parse_markup("<#12 34>text").is_err());
    assert!(parse_markup("text<#ff00zz>").is_err());
}

#[test]
fn the_error_names_the_rest_of_the_input() {
    assert_eq!(
        parse_markup("abc<#xyz>def"),
        Err("Parsing Error: Error { input: \"<#xyz>def\", code: Many0 }".to_string())
    );
    assert_eq!(
        parse_markup("<s12"),
        Err("Parsing Error: Error { input: \"<s12\", code: Many0 }".to_string())
    );
    let expected =
        nom::Err::Error(nom::error::Error::new("<#>\"", nom::error::ErrorKind::Many0)).to_string();
    assert_ne!(parse_markup("a<#\"<#>\"").unwrap_err(), expected);
    assert_eq!(
        parse_markup("a<#\"<#>\"").unwrap_err(),
        nom::Err::Error(nom::error::Error::new("<#\"<#>\"", nom::error::ErrorKind::Many0))
            .to_string()
    );
}

#[test]
fn scan_hands_back_the_rest_of_the_input() {
    assert_eq!(scan_markup("abc<#xyz>def"), Err("<#xyz>def".to_string()));
    assert_eq!(scan_markup("<s1>a<#2>b<s"), Err("<s".to_string()));
    assert_eq!(scan_markup("<#"), Err("<#".to_string()));
    assert_eq!(scan_markup("テキスト<sテキスト"), Err("<sテキスト".to_string()));
}

#[test]
fn scan_and_parse_give_the_same_runs() {
    for input in ["", "abc", "<s12,,I><#ff0000>italic and red<#>italic only", "a<b>c<s>d"] {
        assert_eq!(scan_markup(input).ok(), parse_markup(input).ok());
    }
}

#[test]
fn every_size_of_a_parse_is_a_number() {
    let result =
        parse_markup("<s1>a<s-2.5>b<s.5e3>c<sinf>d<sNaN>e<s1x>f<s>g<s+>h<s1.>i").unwrap();
    let sizes: Vec<Option<&str>> = result.iter().map(|run| run.size.as_deref()).collect();
    assert_eq!(
        sizes,
        vec![
            Some("1"),
            Some("-2.5"),
            Some(".5e3"),
            Some("inf"),
            Some("NaN"),
            None,
            None,
            None,
            Some("1."),
        ]
    );
    for run in &result {
        if let Some(literal) = &run.size {
            assert!(literal.parse::<f32>().is_ok());
        }
    }
}
