use text_split::number::{digit, digits_only, is_decimal_literal};

fn chars(s: &str) -> Vec<char> {
    s.chars().collect()
}

#[test]
fn digits() {
    assert!("0123456789".chars().all(digit));
    assert!(!"/:aA٣ ".chars().any(digit));
    assert!(digits_only(&chars("0123456789")));
    assert!(digits_only(&chars("")));
    assert!(!digits_only(&chars("12a")));
}

#[test]
fn literals_of_the_grammar() {
    for s in [
        "0", "12", "007", "12.5", "5.", ".5", "+1", "-1", "+.5", "-5.", "1e5", "1E5", "1e+5", "1e-5",
        "1.5e10", ".5e1", "5.e1", "inf", "Inf", "INF", "+inf", "-inf", "infinity", "Infinity",
        "-INFINITY", "nan", "NaN", "+nan", "-NAN", "1e0000000000000000000000001",
        "123456789012345678901234567890123456789012345678901234567890",
    ] {
        assert!(is_decimal_literal(&chars(s)), "{:?}", s);
    }
}

#[test]
fn texts_outside_the_grammar() {
    for s in [
        "", "+", "-", ".", "+.", "e5", ".e5", "1e", "1e+", "1e-", "1e5.0", "1.2.3", "1..2", "+-1",
        "--1", "1+", " 1", "1 ", "1 2", "0x10", "1_000", "1,5", "1f", "12px", "in", "infi",
        "infinit", "infinityy", "na", "nann", "i", "1inf", "inf1", "١٢", "１２", "1é5", "ｅ",
    ] {
        assert!(!is_decimal_literal(&chars(s)), "{:?}", s);
    }
}

#[test]
fn the_grammar_is_that_of_float_parsing() {
    let alphabet = ['0', '7', '.', '+', '-', 'e', 'E', 'i', 'n', 'f', 'a', 'N', ' '];
    let mut texts: Vec<String> = vec![String::new()];
    let mut from = 0;
    for _ in 0..4 {
        let upto = texts.len();
        for i in from..upto {
            for c in alphabet {
                let mut next = texts[i].clone();
                next.push(c);
                texts.push(next);
            }
        }
        from = upto;
    }
    assert_eq!(texts.len(), 1 + 13 + 13 * 13 + 13 * 13 * 13 + 13 * 13 * 13 * 13);
    for s in &texts {
        assert_eq!(is_decimal_literal(&chars(s)), s.parse::<f32>().is_ok(), "{:?}", s);
    }
    for s in ["infinity", "-Infinity", "+iNfInItY", "infinit", "infinityy", "1.5e-10", "1.5e-"] {
        assert_eq!(is_decimal_literal(&chars(s)), s.parse::<f32>().is_ok(), "{:?}", s);
    }
}

