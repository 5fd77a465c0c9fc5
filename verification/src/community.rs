//! The community's shared prompts: the index that lists them, the document
//! that holds one, where both are fetched from, and how the index is
//! searched.

use crate::error::PromptBankError;
use crate::outside::{is_lower_hex, lowercase};
use crate::prompt::{category_of_label, clone_strings, Prompt, PromptCategory};
use crate::template::variables_of;
use crate::text::{chars_of, lowered_contains, occurs_in};
use vstd::prelude::*;
use vstd::string::StringExecFns;

verus! {

/// The repository that holds the shared prompts.
pub const COMMUNITY_REPO: &'static str = "ff-vivek/promptbank-community";

/// The address below which the repository's files are served.
pub const RAW_BASE_URL: &'static str =
    "https://raw.githubusercontent.com/ff-vivek/promptbank-community/main";

/// The list of the shared prompts.
#[derive(Debug)]
pub struct CommunityIndex {
    pub version: String,
    pub prompts: Vec<CommunityPromptEntry>,
}

/// One line of the index.
#[derive(Debug)]
pub struct CommunityPromptEntry {
    pub name: String,
    pub category: String,
    pub description: String,
    pub author: String,
    /// Where the prompt's document lies, relative to the base address.
    pub path: String,
    pub tags: Vec<String>,
    pub downloads: u64,
}

/// The document of one shared prompt.
#[derive(Debug)]
pub struct CommunityPrompt {
    pub name: String,
    pub category: String,
    pub description: String,
    pub content: String,
    pub tags: Vec<String>,
    pub variables: Vec<String>,
    pub author: String,
    pub version: String,
}

/// The operations on the community's prompts.
pub struct Community;

/// Whether the lower-case form of the name, of the description or of a tag
/// of an entry holds `needle`. The category, the author and the path are not
/// looked at.
pub open spec fn entry_mentions(e: CommunityPromptEntry, needle: Seq<char>) -> bool {
    ||| occurs_in(lowercase(e.name@), needle)
    ||| occurs_in(lowercase(e.description@), needle)
    ||| exists|t: int|
        0 <= t < e.tags@.len() && occurs_in(lowercase((#[trigger] e.tags@[t])@), needle)
}

/// The entries that mention `needle`.
pub open spec fn entries_mentioning(
    entries: Seq<CommunityPromptEntry>,
    needle: Seq<char>,
) -> Seq<CommunityPromptEntry> {
    entries.filter(|e: CommunityPromptEntry| entry_mentions(e, needle))
}

/// The entries that a sequence of references points to.
pub open spec fn entry_targets(refs: Seq<&CommunityPromptEntry>) -> Seq<CommunityPromptEntry> {
    refs.map_values(|r: &CommunityPromptEntry| *r)
}

impl Clone for CommunityPromptEntry {
    fn clone(&self) -> (copy: Self)
        ensures
            copy.name == self.name,
            copy.category == self.category,
            copy.description == self.description,
            copy.author == self.author,
            copy.path == self.path,
            copy.tags.deep_view() == self.tags.deep_view(),
            copy.downloads == self.downloads,
    {
        CommunityPromptEntry {
            name: self.name.clone(),
            category: self.category.clone(),
            description: self.description.clone(),
            author: self.author.clone(),
            path: self.path.clone(),
            tags: clone_strings(&self.tags),
            downloads: self.downloads,
        }
    }
}

impl CommunityPromptEntry {
    /// Tests whether the entry mentions `needle`, which is compared with
    /// the lower-case form of the name, the description and each tag.
    pub fn mentions(&self, needle: &Vec<char>) -> (b: bool)
        ensures
            b == entry_mentions(*self, needle@),
    {
        if lowered_contains(self.name.as_str(), needle) {
            return true;
        }
        if lowered_contains(self.description.as_str(), needle) {
            return true;
        }
        let mut t: usize = 0;
        while t < self.tags.len()
            invariant
                t <= self.tags.len(),
                forall|k: int|
                    0 <= k < t ==> !occurs_in(lowercase((#[trigger] self.tags@[k])@), needle@),
            decreases self.tags.len() - t,
        {
            if lowered_contains(self.tags[t].as_str(), needle) {
                return true;
            }
            t += 1;
        }
        false
    }
}

impl Community {
    /// The address of the index.
    pub fn index_url() -> (url: String)
        ensures
            url@ == RAW_BASE_URL@ + "/index.json"@,
    {
        let mut url = String::from_str(RAW_BASE_URL);
        url.append("/index.json");
        url
    }

    /// The address of the document that lies at `path`.
    pub fn prompt_url(path: &str) -> (url: String)
        ensures
            url@ == RAW_BASE_URL@ + "/"@ + path@,
    {
        let mut url = String::from_str(RAW_BASE_URL);
        url.append("/");
        url.append(path);
        url
    }

    /// Makes a prompt of the bank out of a shared one. Its category is read
    /// without regard to case; its variables are found in its content, not
    /// taken from the document; it gets an id and a time of its own.
    pub fn to_local_prompt(community_prompt: CommunityPrompt) -> (result: Result<
        Prompt,
        PromptBankError,
    >)
        ensures
            match category_of_label(lowercase(community_prompt.category@)) {
                Some(category) => result matches Ok(prompt) && {
                    &&& prompt.name == community_prompt.name
                    &&& prompt.category@ == category
                    &&& prompt.description == community_prompt.description
                    &&& prompt.content == community_prompt.content
                    &&& prompt.tags == community_prompt.tags
                    &&& prompt.variables.deep_view() == variables_of(community_prompt.content@)
                    &&& prompt.updated_at == prompt.created_at
                    &&& prompt.id@.len() == 8
                    &&& forall|i: int| 0 <= i < 8 ==> is_lower_hex(#[trigger] prompt.id@[i])
                },
                None => result matches Err(PromptBankError::InvalidCategory(text)) && text@
                    == lowercase(community_prompt.category@),
            },
    {
        match PromptCategory::parse(community_prompt.category.as_str()) {
            Ok(category) => Ok(
                Prompt::new(
                    community_prompt.name,
                    category,
                    community_prompt.description,
                    community_prompt.content,
                    community_prompt.tags,
                ),
            ),
            Err(e) => Err(e),
        }
    }

    /// The entries of the index that mention the query, in the order of the
    /// index, found as the bank finds its prompts. Case is disregarded: the
    /// lower-case form of the query is sought in the lower-case form of the
    /// name, the description and the tags.
    pub fn search<'a>(index: &'a CommunityIndex, query: &str) -> (list: Vec<
        &'a CommunityPromptEntry,
    >)
        ensures
            entry_targets(list@) == entries_mentioning(index.prompts@, lowercase(query@)),
    {
        let lower = query.to_lowercase();
        let needle = chars_of(lower.as_str());
        let mut list: Vec<&CommunityPromptEntry> = Vec::new();
        let mut i: usize = 0;
        while i < index.prompts.len()
            invariant
                i <= index.prompts.len(),
                needle@ == lowercase(query@),
                entry_targets(list@) == entries_mentioning(index.prompts@.take(i as int), needle@),
            decreases index.prompts.len() - i,
        {
            proof {
                crate::bank::lemma_filter_step(
                    index.prompts@,
                    |e: CommunityPromptEntry| entry_mentions(e, needle@),
                    i as int,
                );
            }
            if index.prompts[i].mentions(&needle) {
                list.push(&index.prompts[i]);
            }
            i += 1;
        }
        proof {
            assert(index.prompts@.take(index.prompts.len() as int) =~= index.prompts@);
        }
        list
    }

    /// The address of the repository, for those who want to contribute.
    pub fn repo_url() -> (url: String)
        ensures
            url@ == "https://github.com/"@ + COMMUNITY_REPO@,
    {
        let mut url = String::from_str("https://github.com/");
        url.append(COMMUNITY_REPO);
        url
    }
}

} // verus!
