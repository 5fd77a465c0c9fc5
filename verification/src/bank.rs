//! The bank: the prompts in the order in which they were added, and the
//! operations that find, add and remove them.

use crate::error::PromptBankError;
use crate::outside::{lowercase, now_utc};
use crate::prompt::{category_of_label, CategoryView, Prompt, PromptCategory, PromptView};
use crate::template::variables_of;
use crate::text::{chars_of, lowered_contains, occurs_in, same_text};
use chrono::NaiveDateTime;
use vstd::prelude::*;
use vstd::string::StringExecFns;

verus! {

/// All the prompts, with the version of the format they are kept in.
#[derive(Debug)]
pub struct PromptBank {
    pub prompts: Vec<Prompt>,
    pub version: String,
}

/// Whether some prompt has `key` as its id.
pub open spec fn some_id_is(prompts: Seq<Prompt>, key: Seq<char>) -> bool {
    exists|j: int| 0 <= j < prompts.len() && (#[trigger] prompts[j]).id@ == key
}

/// Whether some prompt answers to `key`, by id or by name.
pub open spec fn some_has_key(prompts: Seq<Prompt>, key: Seq<char>) -> bool {
    exists|j: int| 0 <= j < prompts.len() && (#[trigger] prompts[j])@.has_key(key)
}

/// Whether `i` is the position of the prompt that a lookup of `key` finds:
/// the first prompt with that id, or, where no prompt has that id, the first
/// with that name.
pub open spec fn found_at(prompts: Seq<Prompt>, key: Seq<char>, i: int) -> bool {
    &&& 0 <= i < prompts.len()
    &&& if some_id_is(prompts, key) {
        &&& prompts[i].id@ == key
        &&& forall|j: int| 0 <= j < i ==> (#[trigger] prompts[j]).id@ != key
    } else {
        &&& prompts[i].name@ == key
        &&& forall|j: int| 0 <= j < i ==> (#[trigger] prompts[j]).name@ != key
    }
}

/// What a lookup of `key` answers: the position found, or nothing where no
/// prompt answers to the key.
pub open spec fn lookup_gives(prompts: Seq<Prompt>, key: Seq<char>, answer: Option<int>) -> bool {
    match answer {
        Some(i) => found_at(prompts, key, i),
        None => !some_has_key(prompts, key),
    }
}

/// The prompts that remain when those that answer to `key` are removed.
pub open spec fn without_key(prompts: Seq<Prompt>, key: Seq<char>) -> Seq<Prompt> {
    prompts.filter(|p: Prompt| !p@.has_key(key))
}

/// The prompts of a category.
pub open spec fn of_category(prompts: Seq<Prompt>, category: CategoryView) -> Seq<Prompt> {
    prompts.filter(|p: Prompt| p.category@ == category)
}

/// What listing the prompts gives: all of them where no category is named,
/// those of the category that the text names without regard to case, or the
/// error that carries the text in lower case where it names none.
pub open spec fn listing_gives(
    prompts: Seq<Prompt>,
    category: Option<&str>,
    result: Result<Vec<&Prompt>, PromptBankError>,
) -> bool {
    match category {
        None => result matches Ok(list) && targets(list@) == prompts,
        Some(text) => match category_of_label(lowercase(text@)) {
            Some(c) => result matches Ok(list) && targets(list@) == of_category(prompts, c),
            None => result matches Err(PromptBankError::InvalidCategory(label)) && label@
                == lowercase(text@),
        },
    }
}

/// What replacing the content of the prompt at position `i` gives. Where
/// the content is what the prompt already holds, `false`, and the prompts
/// unchanged; else `true`, and in the prompt's place a prompt with the new
/// content, its variables and the moment `now` as the time of the update,
/// all else as before.
pub open spec fn edit_of_found_gives(
    before: Seq<Prompt>,
    i: int,
    content: Seq<char>,
    now: NaiveDateTime,
    after: Seq<Prompt>,
    result: Result<bool, PromptBankError>,
) -> bool {
    if before[i].content@ == content {
        &&& result == Ok::<bool, PromptBankError>(false)
        &&& after == before
    } else {
        &&& result == Ok::<bool, PromptBankError>(true)
        &&& after.len() == before.len()
        &&& forall|j: int| 0 <= j < before.len() && j != i ==> #[trigger] after[j] == before[j]
        &&& edited(before[i], content, now, after[i])
    }
}

/// What replacing the content of the prompt that `key` finds gives. Where
/// no prompt answers to the key, the error that carries the key, and the
/// bank unchanged; else what replacing the content of the prompt found
/// gives. The version stays.
pub open spec fn edit_gives(
    before: PromptBank,
    key: Seq<char>,
    content: Seq<char>,
    now: NaiveDateTime,
    after: PromptBank,
    result: Result<bool, PromptBankError>,
) -> bool {
    &&& after.version == before.version
    &&& if !some_has_key(before.prompts@, key) {
        &&& result matches Err(PromptBankError::PromptNotFound(text)) && text@ == key
        &&& after.prompts@ == before.prompts@
    } else {
        exists|i: int|
            #[trigger] found_at(before.prompts@, key, i) && edit_of_found_gives(
                before.prompts@,
                i,
                content,
                now,
                after.prompts@,
                result,
            )
    }
}

/// Whether `after` is `before` with the content replaced at the moment
/// `now`.
pub open spec fn edited(
    before: Prompt,
    content: Seq<char>,
    now: NaiveDateTime,
    after: Prompt,
) -> bool {
    &&& after.content@ == content
    &&& after.variables.deep_view() == variables_of(content)
    &&& after.updated_at == now
    &&& after.id == before.id
    &&& after.name == before.name
    &&& after.category == before.category
    &&& after.description == before.description
    &&& after.tags == before.tags
    &&& after.created_at == before.created_at
}

/// Whether the lower-case form of the name, of the description, of a tag or
/// of the content holds `needle`.
pub open spec fn mentions(p: PromptView, needle: Seq<char>) -> bool {
    ||| occurs_in(lowercase(p.name), needle)
    ||| occurs_in(lowercase(p.description), needle)
    ||| exists|t: int| 0 <= t < p.tags.len() && occurs_in(lowercase(#[trigger] p.tags[t]), needle)
    ||| occurs_in(lowercase(p.content), needle)
}

/// The prompts that mention `needle`.
pub open spec fn mentioning(prompts: Seq<Prompt>, needle: Seq<char>) -> Seq<Prompt> {
    prompts.filter(|p: Prompt| mentions(p@, needle))
}

/// The prompts after a merge: the existing ones, then each incoming prompt
/// in turn unless a prompt with its id is already there, be it an existing
/// one or one that the merge has added before.
pub open spec fn merged(existing: Seq<Prompt>, incoming: Seq<Prompt>) -> Seq<Prompt>
    decreases incoming.len(),
{
    if incoming.len() == 0 {
        existing
    } else {
        let so_far = merged(existing, incoming.drop_last());
        if some_id_is(so_far, incoming.last().id@) {
            so_far
        } else {
            so_far.push(incoming.last())
        }
    }
}

/// The labels of the prompts' categories, in the order of the prompts.
pub open spec fn labels_of(prompts: Seq<Prompt>) -> Seq<Seq<char>> {
    prompts.map_values(|p: Prompt| p.category@.label())
}

/// How often `label` stands in `labels`.
pub open spec fn count_of(labels: Seq<Seq<char>>, label: Seq<char>) -> nat
    decreases labels.len(),
{
    if labels.len() == 0 {
        0
    } else if labels.last() == label {
        count_of(labels.drop_last(), label) + 1
    } else {
        count_of(labels.drop_last(), label)
    }
}

/// The labels of a list, each once, in the order in which they first occur.
pub open spec fn distinct(labels: Seq<Seq<char>>) -> Seq<Seq<char>>
    decreases labels.len(),
{
    if labels.len() == 0 {
        Seq::empty()
    } else {
        let before = distinct(labels.drop_last());
        if before.contains(labels.last()) {
            before
        } else {
            before.push(labels.last())
        }
    }
}

/// Whether `tally` counts `labels`: it holds each label that occurs, once,
/// in the order of first occurrence, with the number of its occurrences.
pub open spec fn tallies(tally: Seq<(String, usize)>, labels: Seq<Seq<char>>) -> bool {
    &&& tally.len() == distinct(labels).len()
    &&& forall|k: int|
        0 <= k < tally.len() ==> (#[trigger] tally[k]).0@ == distinct(labels)[k] && tally[k].1
            == count_of(labels, distinct(labels)[k])
}

/// No label occurs more often than the list is long.
pub proof fn lemma_count_bounded(labels: Seq<Seq<char>>, label: Seq<char>)
    ensures
        count_of(labels, label) <= labels.len(),
    decreases labels.len(),
{
    if labels.len() > 0 {
        lemma_count_bounded(labels.drop_last(), label);
    }
}

/// The prompts that a sequence of references points to.
pub open spec fn targets(refs: Seq<&Prompt>) -> Seq<Prompt> {
    refs.map_values(|r: &Prompt| *r)
}

/// Filtering the first `i + 1` entries is filtering the first `i` and then
/// deciding on entry `i`.
pub proof fn lemma_filter_step<A>(s: Seq<A>, pred: spec_fn(A) -> bool, i: int)
    requires
        0 <= i < s.len(),
    ensures
        s.take(i + 1).filter(pred) == if pred(s[i]) {
            s.take(i).filter(pred).push(s[i])
        } else {
            s.take(i).filter(pred)
        },
{
    reveal(Seq::filter);
    assert(s.take(i + 1).drop_last() =~= s.take(i));
}

impl Prompt {
    /// Tests whether the prompt answers to `key`: by its id or by its name.
    pub fn has_key(&self, key: &str) -> (b: bool)
        ensures
            b == self@.has_key(key@),
    {
        same_text(self.id.as_str(), key) || same_text(self.name.as_str(), key)
    }

    /// Tests whether the prompt mentions `needle`, which is compared with
    /// the lower-case form of the name, the description, each tag and the
    /// content.
    pub fn mentions(&self, needle: &Vec<char>) -> (b: bool)
        ensures
            b == mentions(self@, needle@),
    {
        if lowered_contains(self.name.as_str(), needle) {
            return true;
        }
        if lowered_contains(self.description.as_str(), needle) {
            return true;
        }
        let mut t: usize = 0;
        while t < self.tags.len()
            invariant
                t <= self.tags.len(),
                forall|k: int|
                    0 <= k < t ==> !occurs_in(lowercase(#[trigger] self@.tags[k]), needle@),
            decreases self.tags.len() - t,
        {
            if lowered_contains(self.tags[t].as_str(), needle) {
                proof {
                    assert(self@.tags[t as int] == self.tags@[t as int]@);
                }
                return true;
            }
            t += 1;
        }
        lowered_contains(self.content.as_str(), needle)
    }
}

impl Default for PromptBank {
    /// A bank without prompts and without a version.
    fn default() -> (bank: PromptBank)
        ensures
            bank.prompts@.len() == 0,
            bank.version@.len() == 0,
    {
        PromptBank { prompts: Vec::new(), version: String::new() }
    }
}

impl PromptBank {
    /// An empty bank of the current format version.
    pub fn new() -> (bank: PromptBank)
        ensures
            bank.prompts@.len() == 0,
            bank.version@ == "1.0"@,
    {
        PromptBank { prompts: Vec::new(), version: String::from_str("1.0") }
    }

    /// Adds a prompt at the end. Nothing is asked of its id or name.
    pub fn add(&mut self, prompt: Prompt)
        ensures
            final(self).prompts@ == old(self).prompts@.push(prompt),
            final(self).version == old(self).version,
    {
        self.prompts.push(prompt);
    }

    /// The position of the prompt that `key` finds: the first prompt with
    /// that id, else the first with that name.
    pub fn position(&self, key: &str) -> (answer: Option<usize>)
        ensures
            lookup_gives(
                self.prompts@,
                key@,
                match answer {
                    Some(i) => Some(i as int),
                    None => None,
                },
            ),
    {
        let mut by_name: Option<usize> = None;
        let mut i: usize = 0;
        while i < self.prompts.len()
            invariant
                i <= self.prompts.len(),
                forall|j: int| 0 <= j < i ==> (#[trigger] self.prompts@[j]).id@ != key@,
                match by_name {
                    Some(n) => n < i && self.prompts@[n as int].name@ == key@ && forall|j: int|
                        0 <= j < n ==> (#[trigger] self.prompts@[j]).name@ != key@,
                    None => forall|j: int|
                        0 <= j < i ==> (#[trigger] self.prompts@[j]).name@ != key@,
                },
            decreases self.prompts.len() - i,
        {
            if same_text(self.prompts[i].id.as_str(), key) {
                return Some(i);
            }
            if by_name.is_none() && same_text(self.prompts[i].name.as_str(), key) {
                by_name = Some(i);
            }
            i += 1;
        }
        by_name
    }

    /// Looks a prompt up by its id or, failing that, by its name.
    pub fn get(&self, key: &str) -> (found: Option<&Prompt>)
        ensures
            match found {
                Some(p) => exists|i: int|
                    found_at(self.prompts@, key@, i) && *p == #[trigger] self.prompts@[i],
                None => !some_has_key(self.prompts@, key@),
            },
    {
        match self.position(key) {
            Some(i) => Some(&self.prompts[i]),
            None => None,
        }
    }

    /// Looks a prompt up as `get` does, for a command that needs it: the
    /// prompt found, or the error that carries the key where no prompt
    /// answers to it.
    pub fn find(&self, key: &str) -> (result: Result<&Prompt, PromptBankError>)
        ensures
            match result {
                Ok(p) => exists|i: int|
                    found_at(self.prompts@, key@, i) && *p == #[trigger] self.prompts@[i],
                Err(e) => {
                    &&& !some_has_key(self.prompts@, key@)
                    &&& e matches PromptBankError::PromptNotFound(text) && text@ == key@
                },
            },
    {
        match self.get(key) {
            Some(p) => Ok(p),
            None => Err(PromptBankError::PromptNotFound(String::from_str(key))),
        }
    }

    /// Looks a prompt up as `get` does, to change it. What the caller
    /// writes through the reference is what the bank then holds in that
    /// place; nothing else changes.
    pub fn get_mut(&mut self, key: &str) -> (found: Option<&mut Prompt>)
        ensures
            match found {
                Some(p) => exists|i: int|
                    found_at(old(self).prompts@, key@, i) && *p == #[trigger] old(
                        self,
                    ).prompts@[i] && final(self).prompts@ == old(self).prompts@.update(
                        i,
                        *final(p),
                    ) && final(self).version == old(self).version,
                None => !some_has_key(old(self).prompts@, key@) && *final(self) == *old(self),
            },
    {
        match self.position(key) {
            Some(i) => Some(&mut self.prompts[i]),
            None => None,
        }
    }

    /// Removes every prompt that answers to `key`, by id or by name, and
    /// says whether there was one. The others keep their order.
    pub fn delete(&mut self, key: &str) -> (removed: bool)
        ensures
            final(self).prompts@ == without_key(old(self).prompts@, key@),
            final(self).version == old(self).version,
            removed == some_has_key(old(self).prompts@, key@),
            removed == (final(self).prompts@.len() != old(self).prompts@.len()),
    {
        let mut all: Vec<Prompt> = Vec::new();
        core::mem::swap(&mut self.prompts, &mut all);
        let ghost before = all@;
        let mut removed = false;
        for p in it: all
            invariant
                it.seq() == before,
                self.version == old(self).version,
                self.prompts@ == without_key(before.take(it.index() as int), key@),
                removed == some_has_key(before.take(it.index() as int), key@),
                removed == (self.prompts@.len() != it.index()),
                self.prompts@.len() <= it.index(),
        {
            proof {
                lemma_filter_step(before, |p: Prompt| !p@.has_key(key@), it.index() as int);
                let next = before.take(it.index() + 1);
                if p@.has_key(key@) {
                    assert(next[it.index() as int] == p);
                }
            }
            if p.has_key(key) {
                removed = true;
            } else {
                self.prompts.push(p);
            }
        }
        proof {
            assert(before.take(before.len() as int) =~= before);
        }
        removed
    }

    /// The prompts of a category, in the order of the bank. A custom
    /// category is matched by its name, character for character.
    pub fn list_by_category(&self, category: &PromptCategory) -> (list: Vec<&Prompt>)
        ensures
            targets(list@) == of_category(self.prompts@, category@),
    {
        let mut list: Vec<&Prompt> = Vec::new();
        let mut i: usize = 0;
        while i < self.prompts.len()
            invariant
                i <= self.prompts.len(),
                targets(list@) == of_category(self.prompts@.take(i as int), category@),
            decreases self.prompts.len() - i,
        {
            proof {
                lemma_filter_step(
                    self.prompts@,
                    |p: Prompt| p.category@ == category@,
                    i as int,
                );
            }
            if self.prompts[i].category == *category {
                list.push(&self.prompts[i]);
            }
            i += 1;
        }
        proof {
            assert(self.prompts@.take(self.prompts.len() as int) =~= self.prompts@);
        }
        list
    }

    /// The prompts that mention the query, in the order of the bank. Case is
    /// disregarded: the lower-case form of the query is sought in the
    /// lower-case form of the name, the description, the tags and the
    /// content.
    pub fn search(&self, query: &str) -> (list: Vec<&Prompt>)
        ensures
            targets(list@) == mentioning(self.prompts@, lowercase(query@)),
    {
        let lower = query.to_lowercase();
        let needle = chars_of(lower.as_str());
        let mut list: Vec<&Prompt> = Vec::new();
        let mut i: usize = 0;
        while i < self.prompts.len()
            invariant
                i <= self.prompts.len(),
                needle@ == lowercase(query@),
                targets(list@) == mentioning(self.prompts@.take(i as int), needle@),
            decreases self.prompts.len() - i,
        {
            proof {
                lemma_filter_step(self.prompts@, |p: Prompt| mentions(p@, needle@), i as int);
            }
            if self.prompts[i].mentions(&needle) {
                list.push(&self.prompts[i]);
            }
            i += 1;
        }
        proof {
            assert(self.prompts@.take(self.prompts.len() as int) =~= self.prompts@);
        }
        list
    }

    /// Tests whether some prompt has `id` as its id.
    pub fn has_id(&self, id: &str) -> (b: bool)
        ensures
            b == some_id_is(self.prompts@, id@),
    {
        let mut i: usize = 0;
        while i < self.prompts.len()
            invariant
                i <= self.prompts.len(),
                forall|j: int| 0 <= j < i ==> (#[trigger] self.prompts@[j]).id@ != id@,
            decreases self.prompts.len() - i,
        {
            if same_text(self.prompts[i].id.as_str(), id) {
                return true;
            }
            i += 1;
        }
        false
    }

    /// Takes in the prompts of another bank and says how many it held. With
    /// `merge`, each of them is added at the end unless its id is already
    /// present, and the version stays; without, the other bank replaces this
    /// one.
    pub fn import(&mut self, imported: PromptBank, merge: bool) -> (count: usize)
        ensures
            count == imported.prompts@.len(),
            merge ==> final(self).prompts@ == merged(old(self).prompts@, imported.prompts@)
                && final(self).version == old(self).version,
            !merge ==> *final(self) == imported,
    {
        let count = imported.prompts.len();
        if merge {
            let PromptBank { prompts, version: _ } = imported;
            let ghost incoming = prompts@;
            for p in it: prompts
                invariant
                    it.seq() == incoming,
                    self.version == old(self).version,
                    self.prompts@ == merged(old(self).prompts@, incoming.take(it.index() as int)),
            {
                proof {
                    assert(incoming.take(it.index() + 1).drop_last() =~= incoming.take(
                        it.index() as int,
                    ));
                }
                if !self.has_id(p.id.as_str()) {
                    self.prompts.push(p);
                }
            }
            proof {
                assert(incoming.take(incoming.len() as int) =~= incoming);
            }
        } else {
            *self = imported;
        }
        count
    }

    /// Lists the prompts: all of them, or those of the category that the
    /// text names.
    pub fn list(&self, category: Option<&str>) -> (result: Result<Vec<&Prompt>, PromptBankError>)
        ensures
            listing_gives(self.prompts@, category, result),
    {
        match category {
            Some(text) => match PromptCategory::parse(text) {
                Ok(c) => Ok(self.list_by_category(&c)),
                Err(e) => Err(e),
            },
            None => {
                let mut list: Vec<&Prompt> = Vec::new();
                let mut i: usize = 0;
                while i < self.prompts.len()
                    invariant
                        i <= self.prompts.len(),
                        targets(list@) == self.prompts@.take(i as int),
                    decreases self.prompts.len() - i,
                {
                    let ghost before = list@;
                    list.push(&self.prompts[i]);
                    proof {
                        assert(targets(list@) =~= targets(before).push(self.prompts@[i as int]));
                    }
                    i += 1;
                }
                proof {
                    assert(self.prompts@.take(self.prompts.len() as int) =~= self.prompts@);
                }
                Ok(list)
            },
        }
    }

    /// Replaces the content of the prompt that `key` finds, at the moment
    /// given, and says whether anything changed.
    pub fn edit_at(&mut self, key: &str, content: String, now: NaiveDateTime) -> (result: Result<
        bool,
        PromptBankError,
    >)
        ensures
            edit_gives(*old(self), key@, content@, now, *final(self), result),
    {
        match self.position(key) {
            None => Err(PromptBankError::PromptNotFound(String::from_str(key))),
            Some(i) => {
                if same_text(self.prompts[i].content.as_str(), content.as_str()) {
                    Ok(false)
                } else {
                    self.prompts[i].update_content_at(content, now);
                    Ok(true)
                }
            },
        }
    }

    /// Replaces the content of the prompt that `key` finds and says whether
    /// anything changed. The time of the update is taken from the clock.
    pub fn edit(&mut self, key: &str, content: String) -> (result: Result<bool, PromptBankError>)
        ensures
            exists|now: NaiveDateTime|
                edit_gives(*old(self), key@, content@, now, *final(self), result),
    {
        let now = now_utc();
        self.edit_at(key, content, now)
    }

    /// Counts the prompts by category: for the label of each category that
    /// occurs, in the order of first occurrence, the number of prompts that
    /// have it.
    pub fn count_by_category(&self) -> (tally: Vec<(String, usize)>)
        ensures
            tallies(tally@, labels_of(self.prompts@)),
    {
        let ghost labels = labels_of(self.prompts@);
        let mut tally: Vec<(String, usize)> = Vec::new();
        let mut i: usize = 0;
        while i < self.prompts.len()
            invariant
                i <= self.prompts.len(),
                labels == labels_of(self.prompts@),
                tallies(tally@, labels.take(i as int)),
            decreases self.prompts.len() - i,
        {
            let label = self.prompts[i].category.to_string();
            let ghost upto = labels.take(i as int);
            let ghost next = labels.take(i + 1);
            let ghost before = tally@;
            proof {
                assert(next.drop_last() =~= upto);
                lemma_count_bounded(upto, label@);
            }
            let mut k: usize = 0;
            while k < tally.len() && !same_text(tally[k].0.as_str(), label.as_str())
                invariant
                    k <= tally.len(),
                    forall|m: int| 0 <= m < k ==> (#[trigger] tally@[m]).0@ != label@,
                decreases tally.len() - k,
            {
                k += 1;
            }
            if k < tally.len() {
                let n = tally[k].1;
                tally[k].1 = n + 1;
                proof {
                    lemma_distinct_no_duplicates(upto);
                }
            } else {
                proof {
                    if distinct(upto).contains(label@) {
                        let m = choose|m: int|
                            0 <= m < distinct(upto).len() && distinct(upto)[m] == label@;
                        assert(before[m].0@ == label@);
                    }
                    lemma_count_absent(upto, label@);
                }
                tally.push((label, 1));
            }
            i += 1;
        }
        proof {
            assert(labels.take(self.prompts.len() as int) =~= labels);
        }
        tally
    }
}

/// No label stands twice among the distinct labels of a list.
pub proof fn lemma_distinct_no_duplicates(labels: Seq<Seq<char>>)
    ensures
        forall|a: int, b: int|
            0 <= a < b < distinct(labels).len() ==> distinct(labels)[a] != distinct(labels)[b],
    decreases labels.len(),
{
    if labels.len() > 0 {
        let before = distinct(labels.drop_last());
        lemma_distinct_no_duplicates(labels.drop_last());
    }
}

/// A label that is not among the distinct labels of a list does not occur in
/// it.
pub proof fn lemma_count_absent(labels: Seq<Seq<char>>, label: Seq<char>)
    requires
        !distinct(labels).contains(label),
    ensures
        count_of(labels, label) == 0,
    decreases labels.len(),
{
    if labels.len() > 0 {
        let before = distinct(labels.drop_last());
        if before.contains(label) {
            let m = choose|m: int| 0 <= m < before.len() && before[m] == label;
            assert(distinct(labels)[m] == label);
        }
        if labels.last() == label {
            if !before.contains(label) {
                assert(distinct(labels)[before.len() as int] == label);
            }
        }
        lemma_count_absent(labels.drop_last(), label);
    }
}

} // verus!
