use promptbank::input::{
    is_bound, is_whitespace, parse_substitution, parse_substitutions, parse_tags,
    tags_from_answer, trim, unbound_variables,
};

fn texts(items: &[&str]) -> Vec<String> {
    items.iter().map(|s| s.to_string()).collect()
}

fn binding(key: &str, value: &str) -> (String, String) {
    (key.to_string(), value.to_string())
}

#[test]
fn tags_are_split_at_commas_and_trimmed() {
    assert_eq!(parse_tags("a, b ,c"), texts(&["a", "b", "c"]));
    assert_eq!(parse_tags("  one tag  "), texts(&["one tag"]));
    assert_eq!(parse_tags("a,,b,"), texts(&["a", "", "b", ""]));
    assert_eq!(parse_tags(""), texts(&[""]));
    assert_eq!(parse_tags(","), texts(&["", ""]));
    assert_eq!(parse_tags("\ta\u{a0},\u{3000}b\n"), texts(&["a", "b"]));
    assert_eq!(parse_tags(" , "), texts(&["", ""]));
}

#[test]
fn tags_agree_with_split_and_trim() {
    for text in ["x , y", " lead", "trail ", "a,b,,c ,", "  ", "é , ü"] {
        let expected: Vec<String> = text.split(',').map(|s| s.trim().to_string()).collect();
        assert_eq!(parse_tags(text), expected);
    }
}

#[test]
fn empty_answer_gives_no_tags() {
    assert_eq!(tags_from_answer(""), Vec::<String>::new());
    assert_eq!(tags_from_answer("a, b"), texts(&["a", "b"]));
    assert_eq!(tags_from_answer(" "), texts(&[""]));
}

#[test]
fn white_space_is_what_the_standard_library_takes_for_it() {
    for n in 0..=0x10FFFFu32 {
        if let Some(c) = char::from_u32(n) {
            assert_eq!(is_whitespace(c), c.is_whitespace(), "code point {:#x}", n);
        }
    }
}

#[test]
fn white_space_on_given_characters() {
    for c in [' ', '\t', '\n', '\r', '\u{b}', '\u{c}', '\u{85}', '\u{a0}', '\u{1680}'] {
        assert!(is_whitespace(c));
    }
    for c in ['\u{2000}', '\u{200a}', '\u{2028}', '\u{2029}', '\u{202f}', '\u{205f}', '\u{3000}'] {
        assert!(is_whitespace(c));
    }
    for c in ['a', '0', '_', '\u{8}', '\u{e}', '\u{200b}', '\u{180e}', '\u{feff}'] {
        assert!(!is_whitespace(c));
    }
}

#[test]
fn trim_agrees_with_the_standard_library() {
    for text in [" a ", "\u{3000}x y\u{2028}", "\u{200b}z\u{200b}", "\u{85}\u{a0}", "é "] {
        assert_eq!(trim(text), text.trim());
    }
}

#[test]
fn trim_removes_white_space_at_both_ends() {
    assert_eq!(trim("  a b  "), "a b");
    assert_eq!(trim("a"), "a");
    assert_eq!(trim("   "), "");
    assert_eq!(trim(""), "");
    assert_eq!(trim("\n\tx\r\n"), "x");
}

#[test]
fn substitution_is_cut_at_first_equals() {
    assert_eq!(parse_substitution("key=value"), Some(binding("key", "value")));
    assert_eq!(parse_substitution("k=a=b"), Some(binding("k", "a=b")));
    assert_eq!(parse_substitution("=v"), Some(binding("", "v")));
    assert_eq!(parse_substitution("k="), Some(binding("k", "")));
    assert_eq!(parse_substitution("="), Some(binding("", "")));
    assert_eq!(parse_substitution("novalue"), None);
    assert_eq!(parse_substitution(""), None);
}

#[test]
fn substitutions_keep_order_and_skip_others() {
    let args = texts(&["a=1", "junk", "b=2", "a=3"]);
    assert_eq!(
        parse_substitutions(&args),
        vec![binding("a", "1"), binding("b", "2"), binding("a", "3")]
    );
    assert_eq!(parse_substitutions(&Vec::new()), Vec::<(String, String)>::new());
}

#[test]
fn unbound_variables_are_those_without_value() {
    let subs = vec![binding("b", "2")];
    assert_eq!(unbound_variables(&texts(&["a", "b", "c"]), &subs), texts(&["a", "c"]));
    assert_eq!(unbound_variables(&texts(&["a", "b", "a"]), &subs), texts(&["a"]));
    assert_eq!(unbound_variables(&texts(&["b"]), &subs), Vec::<String>::new());
    assert_eq!(unbound_variables(&Vec::new(), &subs), Vec::<String>::new());
    assert_eq!(unbound_variables(&texts(&["x", "y"]), &Vec::new()), texts(&["x", "y"]));
}

#[test]
fn is_bound_looks_at_keys() {
    let subs = vec![binding("a", "b")];
    assert!(is_bound(&subs, "a"));
    assert!(!is_bound(&subs, "b"));
}
