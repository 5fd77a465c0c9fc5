use promptbank::community::{Community, CommunityIndex, CommunityPrompt, CommunityPromptEntry};
use promptbank::error::PromptBankError;
use promptbank::prompt::PromptCategory;

fn entry(name: &str, category: &str, description: &str, tags: &[&str]) -> CommunityPromptEntry {
    CommunityPromptEntry {
        name: name.to_string(),
        category: category.to_string(),
        description: description.to_string(),
        author: "someone".to_string(),
        path: format!("prompts/{}.json", name),
        tags: tags.iter().map(|t| t.to_string()).collect(),
        downloads: 7,
    }
}

fn shared(category: &str) -> CommunityPrompt {
    CommunityPrompt {
        name: "shared".to_string(),
        category: category.to_string(),
        description: "a shared prompt".to_string(),
        content: "Do {{thing}} with {{tool}}".to_string(),
        tags: vec!["t".to_string()],
        variables: vec!["stale".to_string()],
        author: "someone".to_string(),
        version: "1".to_string(),
    }
}

fn entry_names(list: &[&CommunityPromptEntry]) -> Vec<String> {
    list.iter().map(|e| e.name.clone()).collect()
}

#[test]
fn repo_url_points_at_repository() {
    assert_eq!(Community::repo_url(), "https://github.com/ff-vivek/promptbank-community");
}

#[test]
fn fetch_addresses() {
    assert_eq!(
        Community::index_url(),
        "https://raw.githubusercontent.com/ff-vivek/promptbank-community/main/index.json"
    );
    assert_eq!(
        Community::prompt_url("prompts/a.json"),
        "https://raw.githubusercontent.com/ff-vivek/promptbank-community/main/prompts/a.json"
    );
}

#[test]
fn community_search_looks_at_name_description_and_tags() {
    let index = CommunityIndex {
        version: "1".to_string(),
        prompts: vec![
            entry("Code Review", "skill", "reviews", &[]),
            entry("b", "task", "helps with CODE", &[]),
            entry("c", "task", "other", &["x", "encoder"]),
            entry("d", "custom:code", "other", &[]),
            entry("e", "task", "nothing", &["none"]),
        ],
    };
    assert_eq!(entry_names(&Community::search(&index, "code")), vec!["Code Review", "b", "c"]);
    assert_eq!(entry_names(&Community::search(&index, "CODE")), vec!["Code Review", "b", "c"]);
    assert_eq!(entry_names(&Community::search(&index, "")).len(), 5);
}

#[test]
fn community_search_does_not_look_at_category_author_or_path() {
    let index = CommunityIndex {
        version: "1".to_string(),
        prompts: vec![CommunityPromptEntry {
            name: "n".to_string(),
            category: "skill".to_string(),
            description: "d".to_string(),
            author: "a".to_string(),
            path: "p".to_string(),
            tags: Vec::new(),
            downloads: 0,
        }],
    };
    assert!(Community::search(&index, "skill").is_empty());
    assert!(Community::search(&index, "a").is_empty());
    assert!(Community::search(&index, "p").is_empty());
    assert_eq!(entry_names(&Community::search(&index, "n")), vec!["n"]);
    assert_eq!(entry_names(&Community::search(&index, "D")), vec!["n"]);
}

#[test]
fn community_entry_clone_copies_every_field() {
    let e = entry("Name", "task", "Desc", &["a", "b"]);
    let c = e.clone();
    assert_eq!(c.name, e.name);
    assert_eq!(c.category, e.category);
    assert_eq!(c.description, e.description);
    assert_eq!(c.author, e.author);
    assert_eq!(c.path, e.path);
    assert_eq!(c.tags, e.tags);
    assert_eq!(c.downloads, 7);
}

#[test]
fn community_entry_mentions() {
    let e = entry("Name", "task", "Desc", &["Tag"]);
    assert!(e.mentions(&"tag".chars().collect()));
    assert!(e.mentions(&"esc".chars().collect()));
    assert!(e.mentions(&"nam".chars().collect()));
    assert!(!e.mentions(&"ask".chars().collect()));
    assert!(!e.mentions(&"Tag".chars().collect()));
}

#[test]
fn to_local_prompt_reads_category_and_extracts_variables() {
    let p = Community::to_local_prompt(shared("Skill")).unwrap();
    assert_eq!(p.name, "shared");
    assert_eq!(p.category, PromptCategory::Skill);
    assert_eq!(p.description, "a shared prompt");
    assert_eq!(p.content, "Do {{thing}} with {{tool}}");
    assert_eq!(p.tags, vec!["t".to_string()]);
    assert_eq!(p.variables, vec!["thing".to_string(), "tool".to_string()]);
    assert_eq!(p.id.chars().count(), 8);
    assert_eq!(p.created_at, p.updated_at);
}

#[test]
fn to_local_prompt_rejects_unknown_category() {
    match Community::to_local_prompt(shared("Nonsense")) {
        Err(PromptBankError::InvalidCategory(text)) => assert_eq!(text, "nonsense"),
        other => panic!("unexpected: {:?}", other.map(|p| p.name)),
    }
}
