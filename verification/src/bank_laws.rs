//! What holds of the bank's operations for every bank and every key.

use crate::bank::{
    edit_gives, found_at, merged, some_has_key, some_id_is, without_key, PromptBank,
};
use crate::error::PromptBankError;
use crate::prompt::Prompt;
use chrono::NaiveDateTime;
use vstd::prelude::*;

verus! {

/// Whether no two prompts have the same id.
pub open spec fn ids_distinct(prompts: Seq<Prompt>) -> bool {
    forall|i: int, j: int|
        0 <= i < j < prompts.len() ==> (#[trigger] prompts[i]).id@ != (#[trigger] prompts[j]).id@
}

/// A lookup has at most one answer.
pub proof fn lemma_lookup_unique(prompts: Seq<Prompt>, key: Seq<char>, i: int, j: int)
    requires
        found_at(prompts, key, i),
        found_at(prompts, key, j),
    ensures
        i == j,
{
}

/// A lookup finds a prompt exactly when some prompt answers to the key, and
/// the prompt it finds answers to the key.
pub proof fn lemma_lookup_finds(prompts: Seq<Prompt>, key: Seq<char>)
    ensures
        some_has_key(prompts, key) <==> exists|i: int| found_at(prompts, key, i),
        forall|i: int| found_at(prompts, key, i) ==> (#[trigger] prompts[i])@.has_key(key),
{
    if some_has_key(prompts, key) {
        if some_id_is(prompts, key) {
            let by_id = |p: Prompt| p.id@ == key;
            lemma_first_exists(prompts, by_id);
            let i = choose|i: int| #[trigger] is_first(prompts, by_id, i);
            assert(found_at(prompts, key, i));
        } else {
            let by_name = |p: Prompt| p.name@ == key;
            lemma_first_exists(prompts, by_name);
            let i = choose|i: int| #[trigger] is_first(prompts, by_name, i);
            assert(found_at(prompts, key, i));
        }
    }
}

/// Whether `i` is the first position whose prompt satisfies `pred`.
pub open spec fn is_first(prompts: Seq<Prompt>, pred: spec_fn(Prompt) -> bool, i: int) -> bool {
    &&& 0 <= i < prompts.len()
    &&& pred(prompts[i])
    &&& forall|j: int| 0 <= j < i ==> !pred(#[trigger] prompts[j])
}

/// Where some prompt satisfies a condition, there is a first one that does.
pub proof fn lemma_first_exists(prompts: Seq<Prompt>, pred: spec_fn(Prompt) -> bool)
    requires
        exists|w: int| 0 <= w < prompts.len() && pred(#[trigger] prompts[w]),
    ensures
        exists|i: int| #[trigger] is_first(prompts, pred, i),
    decreases prompts.len(),
{
    let front = prompts.drop_last();
    if exists|w: int| 0 <= w < front.len() && pred(#[trigger] front[w]) {
        lemma_first_exists(front, pred);
        let i = choose|i: int| #[trigger] is_first(front, pred, i);
        assert(is_first(prompts, pred, i)) by {
            assert forall|j: int| 0 <= j < i implies !pred(#[trigger] prompts[j]) by {
                assert(prompts[j] == front[j]);
            }
        }
    } else {
        let i = prompts.len() - 1;
        assert(is_first(prompts, pred, i)) by {
            assert forall|j: int| 0 <= j < i implies !pred(#[trigger] prompts[j]) by {
                assert(front[j] == prompts[j]);
            }
        }
    }
}

/// A prompt that has been added is found by its id and by its name: each of
/// the two keys finds a prompt that answers to it.
pub proof fn lemma_added_is_found(prompts: Seq<Prompt>, added: Prompt)
    ensures
        exists|i: int| found_at(prompts.push(added), added.id@, i),
        exists|i: int| found_at(prompts.push(added), added.name@, i),
{
    let after = prompts.push(added);
    assert(after[prompts.len() as int]@.has_key(added.id@));
    lemma_lookup_finds(after, added.id@);
    lemma_lookup_finds(after, added.name@);
}

/// Where no other prompt has the id or the name of a prompt that has been
/// added, a lookup by either finds that very prompt.
pub proof fn lemma_added_is_found_itself(prompts: Seq<Prompt>, added: Prompt, key: Seq<char>)
    requires
        added@.has_key(key),
        !some_has_key(prompts, key),
    ensures
        found_at(prompts.push(added), key, prompts.len() as int),
{
    assert(prompts.push(added)[prompts.len() as int] == added);
}

/// What deleting by a key leaves: no prompt that answers to the key, every
/// other prompt, and nothing that was not there.
pub proof fn lemma_delete_removes(prompts: Seq<Prompt>, key: Seq<char>)
    ensures
        !some_has_key(without_key(prompts, key), key),
        forall|i: int|
            0 <= i < prompts.len() && !(#[trigger] prompts[i])@.has_key(key) ==> without_key(
                prompts,
                key,
            ).contains(prompts[i]),
        forall|i: int|
            0 <= i < without_key(prompts, key).len() ==> prompts.contains(
                #[trigger] without_key(prompts, key)[i],
            ),
        without_key(prompts, key).len() <= prompts.len(),
{
    let pred = |p: Prompt| !p@.has_key(key);
    let rest = without_key(prompts, key);
    assert forall|i: int| 0 <= i < rest.len() implies prompts.contains(#[trigger] rest[i]) by {
        lemma_filter_came_from(prompts, pred, i);
    }
}

/// Every entry that a filter keeps is an entry of what was filtered.
pub proof fn lemma_filter_came_from(prompts: Seq<Prompt>, pred: spec_fn(Prompt) -> bool, i: int)
    requires
        0 <= i < prompts.filter(pred).len(),
    ensures
        prompts.contains(prompts.filter(pred)[i]),
    decreases prompts.len(),
{
    reveal(Seq::filter);
    if prompts.len() > 0 && i < prompts.drop_last().filter(pred).len() {
        lemma_filter_came_from(prompts.drop_last(), pred, i);
    }
}

/// Deleting by a key that no prompt answers to leaves the bank as it is.
pub proof fn lemma_delete_absent(prompts: Seq<Prompt>, key: Seq<char>)
    requires
        !some_has_key(prompts, key),
    ensures
        without_key(prompts, key) == prompts,
    decreases prompts.len(),
{
    reveal(Seq::filter);
    if prompts.len() > 0 {
        lemma_delete_absent(prompts.drop_last(), key);
    }
}

/// Deleting by a key that some prompt answers to makes the bank shorter.
pub proof fn lemma_delete_present(prompts: Seq<Prompt>, key: Seq<char>)
    requires
        some_has_key(prompts, key),
    ensures
        without_key(prompts, key).len() < prompts.len(),
    decreases prompts.len(),
{
    reveal(Seq::filter);
    let pred = |p: Prompt| !p@.has_key(key);
    let front = prompts.drop_last();
    front.lemma_filter_len(pred);
    if !prompts.last()@.has_key(key) {
        let j = choose|j: int| 0 <= j < prompts.len() && (#[trigger] prompts[j])@.has_key(key);
        assert(front[j] == prompts[j]);
        lemma_delete_present(front, key);
    }
}

/// A merge keeps the existing prompts in their places, and after it every
/// incoming id is present.
pub proof fn lemma_merge_keeps(existing: Seq<Prompt>, incoming: Seq<Prompt>)
    ensures
        existing.is_prefix_of(merged(existing, incoming)),
        forall|k: int|
            0 <= k < incoming.len() ==> some_id_is(
                merged(existing, incoming),
                (#[trigger] incoming[k]).id@,
            ),
    decreases incoming.len(),
{
    if incoming.len() > 0 {
        let front = incoming.drop_last();
        let so_far = merged(existing, front);
        let all = merged(existing, incoming);
        lemma_merge_keeps(existing, front);
        assert(so_far.is_prefix_of(all));
        assert forall|k: int| 0 <= k < incoming.len() implies some_id_is(
            all,
            (#[trigger] incoming[k]).id@,
        ) by {
            if k < front.len() {
                assert(front[k] == incoming[k]);
            } else if !some_id_is(so_far, incoming.last().id@) {
                assert(all[so_far.len() as int].id@ == incoming[k].id@);
            }
        }
    }
}

/// A merge into a bank whose ids are distinct leaves them distinct.
pub proof fn lemma_merge_ids_distinct(existing: Seq<Prompt>, incoming: Seq<Prompt>)
    requires
        ids_distinct(existing),
    ensures
        ids_distinct(merged(existing, incoming)),
    decreases incoming.len(),
{
    if incoming.len() > 0 {
        lemma_merge_ids_distinct(existing, incoming.drop_last());
    }
}

/// Whether every prompt holds the variables of its content.
pub open spec fn all_well_formed(prompts: Seq<Prompt>) -> bool {
    forall|i: int| 0 <= i < prompts.len() ==> (#[trigger] prompts[i])@.well_formed()
}

/// Adding a prompt that holds the variables of its content to a bank of such
/// prompts gives a bank of such prompts.
pub proof fn lemma_add_keeps_well_formed(prompts: Seq<Prompt>, added: Prompt)
    requires
        all_well_formed(prompts),
        added@.well_formed(),
    ensures
        all_well_formed(prompts.push(added)),
{
}

/// Deleting from a bank whose prompts hold the variables of their content
/// leaves such a bank.
pub proof fn lemma_delete_keeps_well_formed(prompts: Seq<Prompt>, key: Seq<char>)
    requires
        all_well_formed(prompts),
    ensures
        all_well_formed(without_key(prompts, key)),
{
    lemma_delete_removes(prompts, key);
}

/// Merging two banks whose prompts hold the variables of their content
/// gives such a bank.
pub proof fn lemma_merge_keeps_well_formed(existing: Seq<Prompt>, incoming: Seq<Prompt>)
    requires
        all_well_formed(existing),
        all_well_formed(incoming),
    ensures
        all_well_formed(merged(existing, incoming)),
    decreases incoming.len(),
{
    if incoming.len() > 0 {
        lemma_merge_keeps_well_formed(existing, incoming.drop_last());
    }
}

/// Replacing the content of a prompt in a bank whose prompts hold the
/// variables of their content leaves such a bank, whatever the outcome.
pub proof fn lemma_edit_keeps_well_formed(
    before: PromptBank,
    key: Seq<char>,
    content: Seq<char>,
    now: NaiveDateTime,
    after: PromptBank,
    result: Result<bool, PromptBankError>,
)
    requires
        all_well_formed(before.prompts@),
        edit_gives(before, key, content, now, after, result),
    ensures
        all_well_formed(after.prompts@),
{
}

} // verus!
