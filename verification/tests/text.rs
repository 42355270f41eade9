use bliss_mixer::fields::split_fields;
use bliss_mixer::trim::{is_white_space_char, trimmed};

fn strs(v: &[String]) -> Vec<&str> {
    v.iter().map(|s| s.as_str()).collect()
}

#[test]
fn split_matches_std_split() {
    for (text, sep) in [
        ("a,b,c", ','),
        ("", ','),
        (",", ','),
        ("a,,b,", ','),
        ("Rock; Electronic", ';'),
        ("no separator", ';'),
        ("ä;ö;ü", ';'),
    ] {
        let ours = split_fields(text, sep);
        let std: Vec<&str> = text.split(sep).collect();
        assert_eq!(strs(&ours), std);
    }
}

#[test]
fn split_exact_fields() {
    assert_eq!(strs(&split_fields("1,2,,3", ',')), vec!["1", "2", "", "3"]);
    assert_eq!(strs(&split_fields("", ';')), vec![""]);
    assert_eq!(strs(&split_fields(";", ';')), vec!["", ""]);
}

#[test]
fn split_then_join_gives_back_the_text() {
    for text in ["a;b", ";;", "", "Rock; Pop ;Jazz", "x"] {
        let joined = split_fields(text, ';').join(";");
        assert_eq!(joined, text);
    }
}

#[test]
fn fields_hold_no_separator() {
    for field in split_fields("a;b;;c;", ';') {
        assert!(!field.contains(';'));
    }
}

#[test]
fn trim_matches_std_trim() {
    for text in [
        "",
        "   ",
        "  Rock ",
        "\tJazz\n",
        "\u{a0}Folk\u{3000}",
        "\u{2003}x y\u{2029}",
        "no-trim",
        "\u{200b}zero width\u{200b}",
    ] {
        assert_eq!(trimmed(text), text.trim());
    }
}

#[test]
fn trim_is_idempotent() {
    for text in ["  a b  ", "\t\n", "x"] {
        assert_eq!(trimmed(trimmed(text)), trimmed(text));
    }
}

#[test]
fn white_space_matches_std() {
    for c in [' ', '\t', '\n', '\r', '\u{b}', '\u{c}', '\u{85}', '\u{a0}', '\u{1680}', '\u{2000}',
        '\u{200a}', '\u{2028}', '\u{2029}', '\u{202f}', '\u{205f}', '\u{3000}', 'a', '\u{200b}',
        '\u{180e}', '\u{feff}', '0', ';']
    {
        assert_eq!(is_white_space_char(c), c.is_whitespace(), "{:?}", c);
    }
}
