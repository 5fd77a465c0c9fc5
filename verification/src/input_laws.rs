//! What holds of cutting a text at a separator, for every text.

use crate::input::{lemma_position_of, position_of, split_from, split_on};
use crate::text::joined;
use vstd::prelude::*;

verus! {

/// Joining a piece put in front of a non-empty list is the piece, the
/// separator, and the list joined.
pub proof fn lemma_joined_front(first: Seq<char>, rest: Seq<Seq<char>>, sep: Seq<char>)
    requires
        rest.len() > 0,
    ensures
        joined(seq![first] + rest, sep) == first + sep + joined(rest, sep),
    decreases rest.len(),
{
    let all = seq![first] + rest;
    if rest.len() == 1 {
        assert(joined(all.drop_last(), sep) == first);
    } else {
        assert(all.drop_last() =~= seq![first] + rest.drop_last());
        lemma_joined_front(first, rest.drop_last(), sep);
    }
}

/// Cutting a text gives at least one piece; no piece holds the separator;
/// and the pieces, joined with the separator between them, are the text.
pub proof fn lemma_split_from(s: Seq<char>, sep: char, from: int)
    requires
        0 <= from <= s.len(),
    ensures
        split_from(s, sep, from).len() >= 1,
        forall|k: int|
            0 <= k < split_from(s, sep, from).len() ==> !(#[trigger] split_from(
                s,
                sep,
                from,
            )[k]).contains(sep),
        joined(split_from(s, sep, from), seq![sep]) == s.subrange(from, s.len() as int),
    decreases s.len() - from,
{
    let cut = position_of(s, sep, from);
    let pieces = split_from(s, sep, from);
    lemma_position_of(s, sep, from);
    if cut < s.len() {
        let first = s.subrange(from, cut);
        let rest = split_from(s, sep, cut + 1);
        lemma_split_from(s, sep, cut + 1);
        lemma_joined_front(first, rest, seq![sep]);
    } else {
        assert(pieces == seq![s.subrange(from, s.len() as int)]);
    }
}

/// The pieces of a text, joined with the separator between them, are the
/// text again, and no piece holds the separator.
pub proof fn lemma_split_joins(s: Seq<char>, sep: char)
    ensures
        joined(split_on(s, sep), seq![sep]) == s,
        forall|k: int|
            0 <= k < split_on(s, sep).len() ==> !(#[trigger] split_on(s, sep)[k]).contains(sep),
{
    lemma_split_from(s, sep, 0);
}

} // verus!
