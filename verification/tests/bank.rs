use promptbank::bank::PromptBank;
use promptbank::error::PromptBankError;
use promptbank::prompt::{Prompt, PromptCategory};

fn at(secs: i64) -> chrono::NaiveDateTime {
    chrono::DateTime::from_timestamp(secs, 0).unwrap().naive_utc()
}

fn record(id: &str, name: &str) -> Prompt {
    Prompt::with_identity(
        id.to_string(),
        at(100),
        name.to_string(),
        PromptCategory::Task,
        format!("about {}", name),
        format!("content of {}", name),
        Vec::new(),
    )
}

fn described(
    id: &str,
    name: &str,
    category: PromptCategory,
    description: &str,
    tags: &[&str],
    content: &str,
) -> Prompt {
    Prompt::with_identity(
        id.to_string(),
        at(100),
        name.to_string(),
        category,
        description.to_string(),
        content.to_string(),
        tags.iter().map(|t| t.to_string()).collect(),
    )
}

fn ids(list: &[&Prompt]) -> Vec<String> {
    list.iter().map(|p| p.id.clone()).collect()
}

fn bank_ids(bank: &PromptBank) -> Vec<String> {
    bank.prompts.iter().map(|p| p.id.clone()).collect()
}

fn bank_of(prompts: Vec<Prompt>) -> PromptBank {
    let mut bank = PromptBank::new();
    for p in prompts {
        bank.add(p);
    }
    bank
}

#[test]
fn new_bank_is_empty_with_version() {
    let bank = PromptBank::new();
    assert!(bank.prompts.is_empty());
    assert_eq!(bank.version, "1.0");
}

#[test]
fn default_bank_is_empty_without_version() {
    let bank = PromptBank::default();
    assert!(bank.prompts.is_empty());
    assert_eq!(bank.version, "");
}

#[test]
fn lookup_by_id_and_by_name_succeeds() {
    let bank = bank_of(vec![record("id1", "first"), record("id2", "second")]);
    assert_eq!(bank.get("id2").unwrap().name, "second");
    assert_eq!(bank.get("second").unwrap().id, "id2");
    assert_eq!(bank.get("id1").unwrap().name, "first");
    assert_eq!(bank.get("first").unwrap().id, "id1");
}

#[test]
fn lookup_of_nonexistent_key_returns_none() {
    let bank = bank_of(vec![record("id1", "first")]);
    assert!(bank.get("nope").is_none());
    assert!(bank.get("").is_none());
    assert!(bank.get("ID1").is_none());
    assert!(PromptBank::new().get("id1").is_none());
    assert_eq!(bank.position("nope"), None);
}

#[test]
fn find_gives_the_prompt_or_the_not_found_error() {
    let bank = bank_of(vec![record("a", "x"), record("x", "y")]);
    assert_eq!(bank.find("a").unwrap().name, "x");
    assert_eq!(bank.find("y").unwrap().id, "x");
    assert_eq!(bank.find("x").unwrap().name, "y");
    match bank.find("missing") {
        Err(PromptBankError::PromptNotFound(key)) => assert_eq!(key, "missing"),
        other => panic!("unexpected: {:?}", other.map(|p| p.id.clone())),
    }
    assert!(matches!(PromptBank::new().find(""), Err(PromptBankError::PromptNotFound(_))));
}

#[test]
fn lookup_prefers_id_over_earlier_name() {
    let bank = bank_of(vec![record("a", "x"), record("x", "y")]);
    assert_eq!(bank.position("x"), Some(1));
    assert_eq!(bank.get("x").unwrap().name, "y");
}

#[test]
fn lookup_returns_first_of_equal_names() {
    let bank = bank_of(vec![record("a", "same"), record("b", "same"), record("c", "same")]);
    assert_eq!(bank.position("same"), Some(0));
    assert_eq!(bank.get("same").unwrap().id, "a");
}

#[test]
fn lookup_returns_first_of_equal_ids() {
    let bank = bank_of(vec![record("k", "one"), record("dup", "two"), record("dup", "three")]);
    assert_eq!(bank.position("dup"), Some(1));
}

#[test]
fn add_appends_without_checking_uniqueness() {
    let mut bank = PromptBank::new();
    bank.add(record("a", "n"));
    bank.add(record("a", "n"));
    bank.add(record("b", "m"));
    assert_eq!(bank_ids(&bank), vec!["a", "a", "b"]);
    assert_eq!(bank.version, "1.0");
}

#[test]
fn get_mut_changes_the_found_prompt_only() {
    let mut bank = bank_of(vec![record("a", "one"), record("b", "two")]);
    bank.get_mut("two").unwrap().update_content("{{new}}".to_string());
    assert_eq!(bank.prompts[1].content, "{{new}}");
    assert_eq!(bank.prompts[1].variables, vec!["new".to_string()]);
    assert_eq!(bank.prompts[0].content, "content of one");
    assert!(bank.get_mut("three").is_none());
}

#[test]
fn delete_removes_and_reports() {
    let mut bank = bank_of(vec![record("a", "one"), record("b", "two"), record("c", "three")]);
    assert!(bank.delete("b"));
    assert_eq!(bank_ids(&bank), vec!["a", "c"]);
    assert!(bank.delete("three"));
    assert_eq!(bank_ids(&bank), vec!["a"]);
    assert!(bank.get("b").is_none());
}

#[test]
fn delete_of_nonexistent_key_leaves_bank_unchanged() {
    let mut bank = bank_of(vec![record("a", "one"), record("b", "two")]);
    assert!(!bank.delete("zzz"));
    assert_eq!(bank_ids(&bank), vec!["a", "b"]);
    let mut empty = PromptBank::new();
    assert!(!empty.delete("a"));
    assert!(empty.prompts.is_empty());
}

#[test]
fn delete_removes_every_match_by_id_or_name() {
    let mut bank = bank_of(vec![
        record("a", "k"),
        record("k", "two"),
        record("c", "three"),
        record("d", "k"),
    ]);
    assert!(bank.delete("k"));
    assert_eq!(bank_ids(&bank), vec!["c"]);
}

#[test]
fn list_by_category_matches_exactly() {
    let bank = bank_of(vec![
        described("1", "a", PromptCategory::System, "", &[], ""),
        described("2", "b", PromptCategory::Custom("x".to_string()), "", &[], ""),
        described("3", "c", PromptCategory::System, "", &[], ""),
        described("4", "d", PromptCategory::Custom("y".to_string()), "", &[], ""),
        described("5", "e", PromptCategory::Custom("system".to_string()), "", &[], ""),
    ]);
    assert_eq!(ids(&bank.list_by_category(&PromptCategory::System)), vec!["1", "3"]);
    assert_eq!(ids(&bank.list_by_category(&PromptCategory::Custom("x".to_string()))), vec!["2"]);
    assert_eq!(
        ids(&bank.list_by_category(&PromptCategory::Custom("X".to_string()))),
        Vec::<String>::new()
    );
    assert_eq!(ids(&bank.list_by_category(&PromptCategory::Role)), Vec::<String>::new());
}

#[test]
fn list_with_and_without_category() {
    let bank = bank_of(vec![
        described("1", "a", PromptCategory::System, "", &[], ""),
        described("2", "b", PromptCategory::Task, "", &[], ""),
    ]);
    assert_eq!(ids(&bank.list(None).unwrap()), vec!["1", "2"]);
    assert_eq!(ids(&bank.list(Some("TASK")).unwrap()), vec!["2"]);
    assert_eq!(ids(&bank.list(Some("agent")).unwrap()), Vec::<String>::new());
    match bank.list(Some("Wrong")) {
        Err(PromptBankError::InvalidCategory(text)) => assert_eq!(text, "wrong"),
        other => panic!("unexpected: {:?}", other.map(|l| l.len())),
    }
}

#[test]
fn search_is_case_insensitive_on_description() {
    let bank = bank_of(vec![
        described("1", "alpha", PromptCategory::Task, "all about FOO here", &["t"], "body"),
        described("2", "beta", PromptCategory::Task, "nothing", &["other"], "text"),
    ]);
    assert_eq!(ids(&bank.search("foo")), vec!["1"]);
    assert_eq!(ids(&bank.search("FoO")), vec!["1"]);
    assert_eq!(ids(&bank.search("absent")), Vec::<String>::new());
}

#[test]
fn search_looks_at_name_tags_and_content() {
    let bank = bank_of(vec![
        described("1", "Needle one", PromptCategory::Task, "", &[], ""),
        described("2", "b", PromptCategory::Task, "", &["x", "my-NEEDLE"], ""),
        described("3", "c", PromptCategory::Task, "", &[], "a needle in content"),
        described("4", "d", PromptCategory::Custom("needle".to_string()), "", &[], ""),
        described("needle", "e", PromptCategory::Task, "", &[], ""),
    ]);
    assert_eq!(ids(&bank.search("needle")), vec!["1", "2", "3"]);
    assert_eq!(ids(&bank.search("")), vec!["1", "2", "3", "4", "needle"]);
}

#[test]
fn import_replaces_without_merge() {
    let mut bank = bank_of(vec![record("a", "one")]);
    let mut other = bank_of(vec![record("b", "two"), record("c", "three")]);
    other.version = "2.0".to_string();
    assert_eq!(bank.import(other, false), 2);
    assert_eq!(bank_ids(&bank), vec!["b", "c"]);
    assert_eq!(bank.version, "2.0");
}

#[test]
fn import_with_merge_skips_present_ids() {
    let mut bank = bank_of(vec![record("a", "one"), record("b", "two")]);
    let mut other = bank_of(vec![
        record("b", "other two"),
        record("c", "three"),
        record("c", "again"),
        record("one", "name of another"),
    ]);
    other.version = "2.0".to_string();
    assert_eq!(bank.import(other, true), 4);
    assert_eq!(bank_ids(&bank), vec!["a", "b", "c", "one"]);
    assert_eq!(bank.prompts[1].name, "two");
    assert_eq!(bank.prompts[2].name, "three");
    assert_eq!(bank.version, "1.0");
}

#[test]
fn has_id_looks_at_ids_only() {
    let bank = bank_of(vec![record("a", "one")]);
    assert!(bank.has_id("a"));
    assert!(!bank.has_id("one"));
}

#[test]
fn edit_reports_missing_unchanged_and_changed() {
    let mut bank = bank_of(vec![record("a", "one"), record("b", "two")]);
    match bank.edit_at("zzz", "x".to_string(), at(200)) {
        Err(PromptBankError::PromptNotFound(key)) => assert_eq!(key, "zzz"),
        other => panic!("unexpected: {:?}", other),
    }
    assert_eq!(bank.edit_at("two", "content of two".to_string(), at(200)).unwrap(), false);
    assert_eq!(bank.prompts[1].updated_at, at(100));
    assert_eq!(bank.edit_at("two", "now {{v}}".to_string(), at(200)).unwrap(), true);
    assert_eq!(bank.prompts[1].content, "now {{v}}");
    assert_eq!(bank.prompts[1].variables, vec!["v".to_string()]);
    assert_eq!(bank.prompts[1].updated_at, at(200));
    assert_eq!(bank.prompts[1].created_at, at(100));
    assert_eq!(bank.prompts[0].content, "content of one");
    assert_eq!(bank.edit("a", "fresh".to_string()).unwrap(), true);
    assert_eq!(bank.prompts[0].content, "fresh");
    assert!(matches!(bank.edit("none", "x".to_string()), Err(PromptBankError::PromptNotFound(_))));
}

#[test]
fn count_by_category_in_first_occurrence_order() {
    let bank = bank_of(vec![
        described("1", "a", PromptCategory::Task, "", &[], ""),
        described("2", "b", PromptCategory::Custom("x".to_string()), "", &[], ""),
        described("3", "c", PromptCategory::Task, "", &[], ""),
        described("4", "d", PromptCategory::System, "", &[], ""),
        described("5", "e", PromptCategory::Task, "", &[], ""),
        described("6", "f", PromptCategory::Custom("x".to_string()), "", &[], ""),
    ]);
    assert_eq!(
        bank.count_by_category(),
        vec![("task".to_string(), 3), ("custom:x".to_string(), 2), ("system".to_string(), 1)]
    );
    assert_eq!(PromptBank::new().count_by_category(), Vec::<(String, usize)>::new());
}
