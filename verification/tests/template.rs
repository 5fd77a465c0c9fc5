use promptbank::template::{extract_variables, placeholder_chars, render, replace_chars};
use promptbank::text::{chars_of, contains_chars, matches_at, same_text, string_of};

fn names(items: &[&str]) -> Vec<String> {
    items.iter().map(|s| s.to_string()).collect()
}

fn pair(key: &str, value: &str) -> (String, String) {
    (key.to_string(), value.to_string())
}

fn chars(s: &str) -> Vec<char> {
    s.chars().collect()
}

#[test]
fn extract_collapses_duplicates_in_first_occurrence_order() {
    assert_eq!(extract_variables("{{a}} text {{b}} more {{a}}"), names(&["a", "b"]));
}

#[test]
fn extract_keeps_occurrence_order_not_alphabetical() {
    assert_eq!(extract_variables("{{zeta}}{{alpha}}{{mid}}"), names(&["zeta", "alpha", "mid"]));
}

#[test]
fn extract_of_text_without_placeholders_is_empty() {
    assert_eq!(extract_variables("no braces here"), Vec::<String>::new());
    assert_eq!(extract_variables(""), Vec::<String>::new());
    assert_eq!(extract_variables("{single} }} {"), Vec::<String>::new());
}

#[test]
fn extract_ignores_empty_name() {
    assert_eq!(extract_variables("{{}} and {{x}}"), names(&["x"]));
}

#[test]
fn extract_drops_dangling_opening() {
    assert_eq!(extract_variables("{{a}} then {{rest of text"), names(&["a"]));
    assert_eq!(extract_variables("{{never closed"), Vec::<String>::new());
    assert_eq!(extract_variables("{{almost}"), Vec::<String>::new());
}

#[test]
fn extract_takes_any_characters_as_name() {
    assert_eq!(extract_variables("{{ spaced }}{{a b}}{{é}}"), names(&[" spaced ", "a b", "é"]));
}

#[test]
fn extract_resumes_right_after_closing() {
    assert_eq!(extract_variables("{{a}}{{b}}"), names(&["a", "b"]));
    assert_eq!(extract_variables("{{{a}}}"), names(&["{a"]));
    assert_eq!(extract_variables("{{a{{b}}c}}"), names(&["a{{b"]));
}

#[test]
fn extract_twice_gives_the_same() {
    let content = "{{x}} {{y}} {{x}} {{}} {{z";
    assert_eq!(extract_variables(content), extract_variables(content));
    assert_eq!(extract_variables(content), names(&["x", "y"]));
}

#[test]
fn extract_of_template_made_of_result_gives_result_again() {
    for content in ["{{a}} text {{b}} more {{a}}", "{{x}b}} {{ y }}{{}}{{{z}}", "none", "{{p}}}{{q"] {
        let variables = extract_variables(content);
        let mut template = String::new();
        for name in &variables {
            template.push_str("{{");
            template.push_str(name);
            template.push_str("}}");
        }
        assert_eq!(extract_variables(&template), variables);
    }
}

#[test]
fn render_leaves_unmatched_placeholders_verbatim() {
    let subs = vec![pair("name", "World")];
    assert_eq!(render("Hi {{name}}, {{missing}}", &subs), "Hi World, {{missing}}");
}

#[test]
fn render_without_substitutions_returns_content() {
    assert_eq!(render("Hi {{name}}", &[]), "Hi {{name}}");
}

#[test]
fn render_replaces_every_occurrence() {
    let subs = vec![pair("a", "1")];
    assert_eq!(render("{{a}}+{{a}}={{b}}", &subs), "1+1={{b}}");
}

#[test]
fn render_applies_substitutions_in_order_over_rewritten_text() {
    let subs = vec![pair("a", "{{b}}"), pair("b", "done")];
    assert_eq!(render("{{a}} and {{b}}", &subs), "done and done");
    let reversed = vec![pair("b", "done"), pair("a", "{{b}}")];
    assert_eq!(render("{{a}} and {{b}}", &reversed), "{{b}} and done");
}

#[test]
fn render_with_unused_key_changes_nothing() {
    let subs = vec![pair("other", "x")];
    assert_eq!(render("plain {{name}} text", &subs), "plain {{name}} text");
}

#[test]
fn render_handles_non_ascii_text() {
    let subs = vec![pair("名", "世界")];
    assert_eq!(render("héllo {{名}}!", &subs), "héllo 世界!");
}

#[test]
fn replace_takes_occurrences_left_to_right_without_overlap() {
    assert_eq!(replace_chars(&chars("aaaa"), &chars("aa"), &chars("b")), chars("bb"));
    assert_eq!(replace_chars(&chars("aaa"), &chars("aa"), &chars("b")), chars("ba"));
    assert_eq!(replace_chars(&chars("abc"), &chars("x"), &chars("y")), chars("abc"));
    assert_eq!(replace_chars(&chars("abc"), &chars(""), &chars("y")), chars("abc"));
    assert_eq!(replace_chars(&chars("abcabc"), &chars("bc"), &chars("")), chars("aa"));
}

#[test]
fn placeholder_wraps_key_in_braces() {
    assert_eq!(placeholder_chars("name"), chars("{{name}}"));
    assert_eq!(placeholder_chars(""), chars("{{}}"));
}

#[test]
fn chars_and_string_round_trip() {
    assert_eq!(chars_of("héllo"), vec!['h', 'é', 'l', 'l', 'o']);
    assert_eq!(string_of(&vec!['h', 'é', 'y']), "héy");
    assert_eq!(string_of(&chars_of("")), "");
}

#[test]
fn matches_at_and_contains() {
    assert!(matches_at(&chars("hello"), &chars("ll"), 2));
    assert!(!matches_at(&chars("hello"), &chars("ll"), 1));
    assert!(!matches_at(&chars("hello"), &chars("lo"), 4));
    assert!(matches_at(&chars("hello"), &chars(""), 5));
    assert!(!matches_at(&chars("hello"), &chars(""), 6));
    assert!(contains_chars(&chars("hello"), &chars("lo")));
    assert!(contains_chars(&chars("hello"), &chars("")));
    assert!(contains_chars(&chars(""), &chars("")));
    assert!(!contains_chars(&chars("hello"), &chars("ol")));
    assert!(!contains_chars(&chars("hi"), &chars("high")));
}

#[test]
fn same_text_compares_characters() {
    assert!(same_text("abc", "abc"));
    assert!(!same_text("abc", "abd"));
    assert!(!same_text("abc", "ab"));
    assert!(same_text("", ""));
}
