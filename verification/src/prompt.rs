//! The record model: a prompt, its category, and how both are made and
//! changed.

use crate::error::PromptBankError;
use crate::outside::{is_lower_hex, lowercase, now_utc, random_uuid_text};
use crate::template::{extract_variables, pairs_of, render, rendered, variables_of};
use crate::text::{chars_of, matches_at, same_text, string_of_range};
use chrono::NaiveDateTime;
use vstd::prelude::*;
use vstd::std_specs::cmp::PartialEqSpecImpl;
use vstd::string::StringExecFns;

verus! {

/// What a prompt is for: one of six fixed kinds, or a kind that the user
/// names.
#[derive(Debug)]
pub enum PromptCategory {
    System,
    Skill,
    Agent,
    Role,
    Task,
    Template,
    Custom(String),
}

/// A category as a mathematical value.
pub enum CategoryView {
    System,
    Skill,
    Agent,
    Role,
    Task,
    Template,
    Custom(Seq<char>),
}

impl View for PromptCategory {
    type V = CategoryView;

    open spec fn view(&self) -> CategoryView {
        match self {
            PromptCategory::System => CategoryView::System,
            PromptCategory::Skill => CategoryView::Skill,
            PromptCategory::Agent => CategoryView::Agent,
            PromptCategory::Role => CategoryView::Role,
            PromptCategory::Task => CategoryView::Task,
            PromptCategory::Template => CategoryView::Template,
            PromptCategory::Custom(name) => CategoryView::Custom(name@),
        }
    }
}

impl CategoryView {
    /// The text that stands for the category: the lower-case word of a fixed
    /// kind, or `custom:` followed by the name of a custom one.
    pub open spec fn label(self) -> Seq<char> {
        match self {
            CategoryView::System => "system"@,
            CategoryView::Skill => "skill"@,
            CategoryView::Agent => "agent"@,
            CategoryView::Role => "role"@,
            CategoryView::Task => "task"@,
            CategoryView::Template => "template"@,
            CategoryView::Custom(name) => "custom:"@ + name,
        }
    }
}

/// The category that a label stands for, if any: the six words stand for the
/// fixed kinds, and a label that begins with `custom:` for the custom kind
/// named by the rest of it.
pub open spec fn category_of_label(label: Seq<char>) -> Option<CategoryView> {
    if label == "system"@ {
        Some(CategoryView::System)
    } else if label == "skill"@ {
        Some(CategoryView::Skill)
    } else if label == "agent"@ {
        Some(CategoryView::Agent)
    } else if label == "role"@ {
        Some(CategoryView::Role)
    } else if label == "task"@ {
        Some(CategoryView::Task)
    } else if label == "template"@ {
        Some(CategoryView::Template)
    } else if "custom:"@.is_prefix_of(label) {
        Some(CategoryView::Custom(label.skip("custom:"@.len() as int)))
    } else {
        None
    }
}

/// What parsing a label gives: the category it stands for, or the error that
/// carries the label.
pub open spec fn parsed_as(
    label: Seq<char>,
    result: Result<PromptCategory, PromptBankError>,
) -> bool {
    match category_of_label(label) {
        Some(category) => result matches Ok(c) && c@ == category,
        None => result matches Err(PromptBankError::InvalidCategory(text)) && text@ == label,
    }
}

/// A label is read back as the category it was written for: the text of a
/// category stands for that category and for no other.
pub proof fn lemma_label_round_trip(category: CategoryView)
    ensures
        category_of_label(category.label()) == Some(category),
{
    reveal_strlit("system");
    reveal_strlit("skill");
    reveal_strlit("agent");
    reveal_strlit("role");
    reveal_strlit("task");
    reveal_strlit("template");
    reveal_strlit("custom:");
    let label = category.label();
    match category {
        CategoryView::Custom(name) => {
            assert(label[0] == 'c' && label[1] == 'u' && label[6] == ':');
            assert(label.skip(7) =~= name);
        },
        CategoryView::System => {},
        CategoryView::Skill => {
            assert(label[1] == 'k');
        },
        CategoryView::Agent => {
            assert(label[0] == 'a');
        },
        CategoryView::Role => {
            assert(label[0] == 'r');
        },
        CategoryView::Task => {
            assert(label[1] == 'a');
        },
        CategoryView::Template => {
            assert(label[1] == 'e');
        },
    }
}

impl Clone for PromptCategory {
    fn clone(&self) -> (copy: Self)
        ensures
            copy@ == self@,
    {
        match self {
            PromptCategory::System => PromptCategory::System,
            PromptCategory::Skill => PromptCategory::Skill,
            PromptCategory::Agent => PromptCategory::Agent,
            PromptCategory::Role => PromptCategory::Role,
            PromptCategory::Task => PromptCategory::Task,
            PromptCategory::Template => PromptCategory::Template,
            PromptCategory::Custom(name) => PromptCategory::Custom(name.clone()),
        }
    }
}

impl PartialEq for PromptCategory {
    fn eq(&self, other: &Self) -> (same: bool) {
        match (self, other) {
            (PromptCategory::System, PromptCategory::System) => true,
            (PromptCategory::Skill, PromptCategory::Skill) => true,
            (PromptCategory::Agent, PromptCategory::Agent) => true,
            (PromptCategory::Role, PromptCategory::Role) => true,
            (PromptCategory::Task, PromptCategory::Task) => true,
            (PromptCategory::Template, PromptCategory::Template) => true,
            (PromptCategory::Custom(a), PromptCategory::Custom(b)) => same_text(
                a.as_str(),
                b.as_str(),
            ),
            _ => false,
        }
    }
}

impl PartialEqSpecImpl for PromptCategory {
    open spec fn obeys_eq_spec() -> bool {
        true
    }

    open spec fn eq_spec(&self, other: &Self) -> bool {
        self@ == other@
    }
}

impl Eq for PromptCategory {

}

impl PromptCategory {
    /// The text that stands for the category.
    pub fn to_string(&self) -> (label: String)
        ensures
            label@ == self@.label(),
    {
        match self {
            PromptCategory::System => String::from_str("system"),
            PromptCategory::Skill => String::from_str("skill"),
            PromptCategory::Agent => String::from_str("agent"),
            PromptCategory::Role => String::from_str("role"),
            PromptCategory::Task => String::from_str("task"),
            PromptCategory::Template => String::from_str("template"),
            PromptCategory::Custom(name) => {
                let mut label = String::from_str("custom:");
                label.append(name.as_str());
                label
            },
        }
    }

    /// Reads a category from its label, which must be written exactly: in
    /// lower case, with nothing around it.
    pub fn from_label(label: &str) -> (result: Result<PromptCategory, PromptBankError>)
        ensures
            parsed_as(label@, result),
    {
        if same_text(label, "system") {
            Ok(PromptCategory::System)
        } else if same_text(label, "skill") {
            Ok(PromptCategory::Skill)
        } else if same_text(label, "agent") {
            Ok(PromptCategory::Agent)
        } else if same_text(label, "role") {
            Ok(PromptCategory::Role)
        } else if same_text(label, "task") {
            Ok(PromptCategory::Task)
        } else if same_text(label, "template") {
            Ok(PromptCategory::Template)
        } else {
            let chars = chars_of(label);
            let prefix = chars_of("custom:");
            if matches_at(&chars, &prefix, 0) {
                let name = string_of_range(&chars, prefix.len(), chars.len());
                Ok(PromptCategory::Custom(name))
            } else {
                Err(PromptBankError::InvalidCategory(String::from_str(label)))
            }
        }
    }

    /// Reads a category from a text without regard to case: the text is put
    /// into lower case and then read as a label.
    pub fn parse(s: &str) -> (result: Result<PromptCategory, PromptBankError>)
        ensures
            parsed_as(lowercase(s@), result),
    {
        let lower = s.to_lowercase();
        PromptCategory::from_label(lower.as_str())
    }
}

impl std::str::FromStr for PromptCategory {
    type Err = PromptBankError;

    /// Reads a category from a text without regard to case, as `parse` does:
    /// the category that the text in lower case stands for, or the error that
    /// carries that lower-case text.
    fn from_str(s: &str) -> (result: Result<Self, Self::Err>)
        ensures
            parsed_as(lowercase(s@), result),
    {
        PromptCategory::parse(s)
    }
}

/// A single prompt of the bank.
#[derive(Debug)]
pub struct Prompt {
    /// Short identifier, given at creation and never changed.
    pub id: String,
    /// The label that the user gave; a second key to find the prompt by.
    pub name: String,
    pub category: PromptCategory,
    pub description: String,
    /// The text of the prompt, which may hold placeholders.
    pub content: String,
    pub tags: Vec<String>,
    /// The variables of `content`.
    pub variables: Vec<String>,
    pub created_at: NaiveDateTime,
    pub updated_at: NaiveDateTime,
}

/// A prompt as a mathematical value.
pub struct PromptView {
    pub id: Seq<char>,
    pub name: Seq<char>,
    pub category: CategoryView,
    pub description: Seq<char>,
    pub content: Seq<char>,
    pub tags: Seq<Seq<char>>,
    pub variables: Seq<Seq<char>>,
    pub created_at: NaiveDateTime,
    pub updated_at: NaiveDateTime,
}

impl View for Prompt {
    type V = PromptView;

    open spec fn view(&self) -> PromptView {
        PromptView {
            id: self.id@,
            name: self.name@,
            category: self.category@,
            description: self.description@,
            content: self.content@,
            tags: self.tags.deep_view(),
            variables: self.variables.deep_view(),
            created_at: self.created_at,
            updated_at: self.updated_at,
        }
    }
}

impl PromptView {
    /// Whether `variables` holds the variables of `content`.
    pub open spec fn well_formed(self) -> bool {
        self.variables == variables_of(self.content)
    }

    /// Whether the prompt answers to `key`: by its id or by its name.
    pub open spec fn has_key(self, key: Seq<char>) -> bool {
        self.id == key || self.name == key
    }
}

/// The identifier made from a UUID's text: its first eight characters, or
/// all of it where it has fewer.
pub open spec fn short_id_of(text: Seq<char>) -> Seq<char> {
    if text.len() >= 8 {
        text.take(8)
    } else {
        text
    }
}

/// Cuts the identifier of a prompt out of a UUID's text.
pub fn short_id(text: &str) -> (id: String)
    ensures
        id@ == short_id_of(text@),
{
    let chars = chars_of(text);
    let end: usize = if chars.len() >= 8 {
        8
    } else {
        chars.len()
    };
    let id = string_of_range(&chars, 0, end);
    id
}

/// A copy of a list of strings.
pub fn clone_strings(list: &Vec<String>) -> (copy: Vec<String>)
    ensures
        copy.deep_view() == list.deep_view(),
{
    let mut copy: Vec<String> = Vec::new();
    let mut i: usize = 0;
    while i < list.len()
        invariant
            i <= list.len(),
            copy.len() == i,
            forall|k: int| 0 <= k < i ==> copy@[k]@ == list@[k]@,
        decreases list.len() - i,
    {
        copy.push(list[i].clone());
        i += 1;
    }
    copy
}

impl Clone for Prompt {
    fn clone(&self) -> (copy: Self)
        ensures
            copy@ == self@,
    {
        Prompt {
            id: self.id.clone(),
            name: self.name.clone(),
            category: self.category.clone(),
            description: self.description.clone(),
            content: self.content.clone(),
            tags: clone_strings(&self.tags),
            variables: clone_strings(&self.variables),
            created_at: self.created_at,
            updated_at: self.updated_at,
        }
    }
}

impl Prompt {
    /// Makes a prompt with the identifier and the moment of creation given.
    /// Its variables are those of `content`.
    pub fn with_identity(
        id: String,
        created_at: NaiveDateTime,
        name: String,
        category: PromptCategory,
        description: String,
        content: String,
        tags: Vec<String>,
    ) -> (prompt: Prompt)
        ensures
            prompt.id == id,
            prompt.name == name,
            prompt.category == category,
            prompt.description == description,
            prompt.content == content,
            prompt.tags == tags,
            prompt.variables.deep_view() == variables_of(content@),
            prompt.created_at == created_at,
            prompt.updated_at == created_at,
            prompt@.well_formed(),
    {
        let variables = extract_variables(content.as_str());
        Prompt {
            id,
            name,
            category,
            description,
            content,
            tags,
            variables,
            created_at,
            updated_at: created_at,
        }
    }

    /// Makes a new prompt. It gets a fresh identifier of eight hexadecimal
    /// digits, cut from a random UUID, and the present moment as the time of
    /// both its creation and its last update. Its variables are those of
    /// `content`.
    pub fn new(
        name: String,
        category: PromptCategory,
        description: String,
        content: String,
        tags: Vec<String>,
    ) -> (prompt: Prompt)
        ensures
            prompt.id@.len() == 8,
            forall|i: int| 0 <= i < 8 ==> is_lower_hex(#[trigger] prompt.id@[i]),
            prompt.name == name,
            prompt.category == category,
            prompt.description == description,
            prompt.content == content,
            prompt.tags == tags,
            prompt.variables.deep_view() == variables_of(content@),
            prompt.updated_at == prompt.created_at,
            prompt@.well_formed(),
    {
        let now = now_utc();
        let uuid = random_uuid_text();
        let id = short_id(uuid.as_str());
        Prompt::with_identity(id, now, name, category, description, content, tags)
    }

    /// Finds the variables of a template.
    pub fn extract_variables(content: &str) -> (variables: Vec<String>)
        ensures
            variables.deep_view() == variables_of(content@),
    {
        extract_variables(content)
    }

    /// Renders the content with the substitutions given, applied in their
    /// order. The prompt itself stays as it is.
    pub fn render(&self, substitutions: &[(String, String)]) -> (result: String)
        ensures
            result@ == rendered(self.content@, pairs_of(substitutions@)),
    {
        render(self.content.as_str(), substitutions)
    }

    /// Replaces the content at the moment given: the variables are found
    /// anew and the time of the last update is set. Nothing else changes.
    pub fn update_content_at(&mut self, content: String, now: NaiveDateTime)
        ensures
            final(self).content == content,
            final(self).variables.deep_view() == variables_of(content@),
            final(self).updated_at == now,
            final(self).id == old(self).id,
            final(self).name == old(self).name,
            final(self).category == old(self).category,
            final(self).description == old(self).description,
            final(self).tags == old(self).tags,
            final(self).created_at == old(self).created_at,
            final(self)@.well_formed(),
    {
        self.variables = extract_variables(content.as_str());
        self.content = content;
        self.updated_at = now;
    }

    /// Replaces the content now: the variables are found anew and the time
    /// of the last update is taken from the clock. Nothing else changes.
    pub fn update_content(&mut self, content: String)
        ensures
            final(self).content == content,
            final(self).variables.deep_view() == variables_of(content@),
            final(self).id == old(self).id,
            final(self).name == old(self).name,
            final(self).category == old(self).category,
            final(self).description == old(self).description,
            final(self).tags == old(self).tags,
            final(self).created_at == old(self).created_at,
            final(self)@.well_formed(),
    {
        let now = now_utc();
        self.update_content_at(content, now);
    }
}

} // verus!
