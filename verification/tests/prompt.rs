use promptbank::error::PromptBankError;
use promptbank::prompt::{short_id, Prompt, PromptCategory};
use std::str::FromStr;

fn moment(secs: i64) -> chrono::NaiveDateTime {
    chrono::DateTime::from_timestamp(secs, 0).unwrap().naive_utc()
}

fn sample(content: &str) -> Prompt {
    Prompt::new(
        "greeting".to_string(),
        PromptCategory::Task,
        "says hello".to_string(),
        content.to_string(),
        vec!["demo".to_string()],
    )
}

#[test]
fn category_labels() {
    assert_eq!(PromptCategory::System.to_string(), "system");
    assert_eq!(PromptCategory::Skill.to_string(), "skill");
    assert_eq!(PromptCategory::Agent.to_string(), "agent");
    assert_eq!(PromptCategory::Role.to_string(), "role");
    assert_eq!(PromptCategory::Task.to_string(), "task");
    assert_eq!(PromptCategory::Template.to_string(), "template");
    assert_eq!(PromptCategory::Custom("mine".to_string()).to_string(), "custom:mine");
    assert_eq!(PromptCategory::Custom(String::new()).to_string(), "custom:");
}

#[test]
fn category_parses_fixed_words_in_any_case() {
    assert_eq!(PromptCategory::parse("system").unwrap(), PromptCategory::System);
    assert_eq!(PromptCategory::parse("SKILL").unwrap(), PromptCategory::Skill);
    assert_eq!(PromptCategory::parse("Agent").unwrap(), PromptCategory::Agent);
    assert_eq!(PromptCategory::parse("rOlE").unwrap(), PromptCategory::Role);
    assert_eq!(PromptCategory::parse("task").unwrap(), PromptCategory::Task);
    assert_eq!(PromptCategory::parse("TEMPLATE").unwrap(), PromptCategory::Template);
}

#[test]
fn category_parses_custom_and_lowers_its_name() {
    assert_eq!(
        PromptCategory::parse("custom:Mine").unwrap(),
        PromptCategory::Custom("mine".to_string())
    );
    assert_eq!(PromptCategory::parse("CUSTOM:").unwrap(), PromptCategory::Custom(String::new()));
    assert_eq!(
        PromptCategory::parse("custom:a:b").unwrap(),
        PromptCategory::Custom("a:b".to_string())
    );
}

#[test]
fn category_rejects_other_text_with_lowered_text() {
    match PromptCategory::parse("Bogus") {
        Err(PromptBankError::InvalidCategory(text)) => assert_eq!(text, "bogus"),
        other => panic!("unexpected: {:?}", other),
    }
    assert!(matches!(PromptCategory::parse(""), Err(PromptBankError::InvalidCategory(_))));
    assert!(matches!(PromptCategory::parse(" system"), Err(PromptBankError::InvalidCategory(_))));
    assert!(matches!(PromptCategory::parse("custom"), Err(PromptBankError::InvalidCategory(_))));
    assert!(matches!(PromptCategory::parse("systems"), Err(PromptBankError::InvalidCategory(_))));
}

#[test]
fn category_from_label_is_exact() {
    assert_eq!(PromptCategory::from_label("role").unwrap(), PromptCategory::Role);
    assert_eq!(
        PromptCategory::from_label("custom:Mine").unwrap(),
        PromptCategory::Custom("Mine".to_string())
    );
    match PromptCategory::from_label("Role") {
        Err(PromptBankError::InvalidCategory(text)) => assert_eq!(text, "Role"),
        other => panic!("unexpected: {:?}", other),
    }
}

#[test]
fn category_label_round_trip() {
    let all = vec![
        PromptCategory::System,
        PromptCategory::Skill,
        PromptCategory::Agent,
        PromptCategory::Role,
        PromptCategory::Task,
        PromptCategory::Template,
        PromptCategory::Custom("Any Name".to_string()),
        PromptCategory::Custom("system".to_string()),
    ];
    for c in all {
        assert_eq!(PromptCategory::from_label(&c.to_string()).unwrap(), c);
    }
}

#[test]
fn category_from_str_trait() {
    assert_eq!(PromptCategory::from_str("Task").unwrap(), PromptCategory::Task);
    let parsed: PromptCategory = "custom:x".parse().unwrap();
    assert_eq!(parsed, PromptCategory::Custom("x".to_string()));
}

#[test]
fn category_equality_and_clone() {
    let c = PromptCategory::Custom("a".to_string());
    assert_eq!(c.clone(), c);
    assert_ne!(c, PromptCategory::Custom("b".to_string()));
    assert_ne!(PromptCategory::System, PromptCategory::Skill);
    assert_ne!(PromptCategory::Custom("system".to_string()), PromptCategory::System);
}

#[test]
fn error_messages() {
    assert_eq!(PromptBankError::Io("gone".to_string()).to_string(), "IO error: gone");
    assert_eq!(PromptBankError::Json("bad".to_string()).to_string(), "JSON error: bad");
    assert_eq!(
        PromptBankError::PromptNotFound("abc".to_string()).to_string(),
        "Prompt not found: abc"
    );
    assert_eq!(
        PromptBankError::InvalidCategory("x".to_string()).to_string(),
        "Invalid prompt category: x"
    );
    assert_eq!(PromptBankError::Storage("s".to_string()).to_string(), "Storage error: s");
    assert_eq!(PromptBankError::Clipboard("c".to_string()).to_string(), "Clipboard error: c");
    assert_eq!(PromptBankError::InvalidInput("".to_string()).to_string(), "Invalid input: ");
}

#[test]
fn error_clone_keeps_kind_and_text() {
    let e = PromptBankError::Storage("no home".to_string());
    assert_eq!(e.clone().to_string(), "Storage error: no home");
    assert!(matches!(e.clone(), PromptBankError::Storage(_)));
}

#[test]
fn short_id_takes_eight_characters() {
    assert_eq!(short_id("0123456789abcdef"), "01234567");
    assert_eq!(short_id("67e55044-10b1-426f-9247-bb680e5fe0c8"), "67e55044");
    assert_eq!(short_id("12345678"), "12345678");
    assert_eq!(short_id("abc"), "abc");
    assert_eq!(short_id(""), "");
}

#[test]
fn new_prompt_has_fresh_hex_id_and_extracted_variables() {
    let p = sample("Hello {{who}}, from {{me}} to {{who}}");
    assert_eq!(p.id.chars().count(), 8);
    assert!(p.id.chars().all(|c| c.is_ascii_digit() || ('a'..='f').contains(&c)));
    assert_eq!(p.name, "greeting");
    assert_eq!(p.category, PromptCategory::Task);
    assert_eq!(p.description, "says hello");
    assert_eq!(p.content, "Hello {{who}}, from {{me}} to {{who}}");
    assert_eq!(p.tags, vec!["demo".to_string()]);
    assert_eq!(p.variables, vec!["who".to_string(), "me".to_string()]);
    assert_eq!(p.created_at, p.updated_at);
}

#[test]
fn new_prompts_get_different_ids() {
    let a = sample("x");
    let b = sample("x");
    let c = sample("x");
    assert!(a.id != b.id || b.id != c.id);
}

#[test]
fn with_identity_sets_every_field() {
    let p = Prompt::with_identity(
        "abcd1234".to_string(),
        moment(1_700_000_000),
        "n".to_string(),
        PromptCategory::Custom("k".to_string()),
        "d".to_string(),
        "{{v}}".to_string(),
        vec!["t1".to_string(), "t2".to_string()],
    );
    assert_eq!(p.id, "abcd1234");
    assert_eq!(p.name, "n");
    assert_eq!(p.category, PromptCategory::Custom("k".to_string()));
    assert_eq!(p.description, "d");
    assert_eq!(p.content, "{{v}}");
    assert_eq!(p.tags, vec!["t1".to_string(), "t2".to_string()]);
    assert_eq!(p.variables, vec!["v".to_string()]);
    assert_eq!(p.created_at, moment(1_700_000_000));
    assert_eq!(p.updated_at, moment(1_700_000_000));
}

#[test]
fn update_content_recomputes_variables() {
    let mut p = sample("{{x}}");
    assert_eq!(p.variables, vec!["x".to_string()]);
    let id = p.id.clone();
    let created = p.created_at;
    p.update_content("{{y}} {{z}}".to_string());
    assert_eq!(p.variables, vec!["y".to_string(), "z".to_string()]);
    assert_eq!(p.content, "{{y}} {{z}}");
    assert_eq!(p.id, id);
    assert_eq!(p.name, "greeting");
    assert_eq!(p.created_at, created);
    assert!(p.updated_at >= created);
}

#[test]
fn update_content_at_sets_the_time() {
    let mut p = Prompt::with_identity(
        "00000000".to_string(),
        moment(10),
        "n".to_string(),
        PromptCategory::System,
        "d".to_string(),
        "{{a}}".to_string(),
        Vec::new(),
    );
    p.update_content_at("none".to_string(), moment(20));
    assert_eq!(p.content, "none");
    assert_eq!(p.variables, Vec::<String>::new());
    assert_eq!(p.created_at, moment(10));
    assert_eq!(p.updated_at, moment(20));
}

#[test]
fn prompt_render_uses_content() {
    let p = sample("Hi {{name}}, {{missing}}");
    let subs = vec![("name".to_string(), "World".to_string())];
    assert_eq!(p.render(&subs), "Hi World, {{missing}}");
    assert_eq!(p.content, "Hi {{name}}, {{missing}}");
}

#[test]
fn prompt_extract_variables_matches_engine() {
    assert_eq!(
        Prompt::extract_variables("{{a}} text {{b}} more {{a}}"),
        vec!["a".to_string(), "b".to_string()]
    );
}

#[test]
fn prompt_clone_copies_every_field() {
    let p = sample("{{q}}");
    let c = p.clone();
    assert_eq!(c.id, p.id);
    assert_eq!(c.name, p.name);
    assert_eq!(c.category, p.category);
    assert_eq!(c.description, p.description);
    assert_eq!(c.content, p.content);
    assert_eq!(c.tags, p.tags);
    assert_eq!(c.variables, p.variables);
    assert_eq!(c.created_at, p.created_at);
    assert_eq!(c.updated_at, p.updated_at);
}
