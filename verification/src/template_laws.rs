//! What holds of the template engine for every text: facts about the
//! variables of a template and about rendering, proved from the definitions.

use crate::template::{
    closing_at, first_occurrences, next_close, opening_at, placeholder, placeholders_from,
    rendered, replace_all, replace_from, variables_of, lemma_next_close,
};
use crate::text::{occurs_at, occurs_in};
use vstd::prelude::*;

verus! {

/// Whether `p` is the first position at which `x` stands in `names`.
pub open spec fn is_first_position(names: Seq<Seq<char>>, x: Seq<char>, p: int) -> bool {
    &&& 0 <= p < names.len()
    &&& names[p] == x
    &&& forall|t: int| 0 <= t < p ==> names[t] != x
}

/// Whether no entry of `names` is empty and none stands in it twice.
pub open spec fn distinct_nonempty(names: Seq<Seq<char>>) -> bool {
    &&& forall|a: int| 0 <= a < names.len() ==> (#[trigger] names[a]).len() > 0
    &&& forall|a: int, b: int| 0 <= a < b < names.len() ==> names[a] != names[b]
}

/// A name that stands in a sequence has a first position there.
pub proof fn lemma_first_position_exists(names: Seq<Seq<char>>, x: Seq<char>)
    requires
        names.contains(x),
    ensures
        exists|p: int| is_first_position(names, x, p),
    decreases names.len(),
{
    let front = names.drop_last();
    if front.contains(x) {
        lemma_first_position_exists(front, x);
        let p = choose|p: int| is_first_position(front, x, p);
        assert(is_first_position(names, x, p)) by {
            assert forall|t: int| 0 <= t < p implies names[t] != x by {
                assert(names[t] == front[t]);
            }
        }
    } else {
        let p = names.len() - 1;
        assert(is_first_position(names, x, p)) by {
            assert forall|t: int| 0 <= t < p implies names[t] != x by {
                assert(front[t] == names[t]);
            }
        }
    }
}

/// The names kept are exactly the non-empty names of the input.
pub proof fn lemma_first_occurrences_members(names: Seq<Seq<char>>)
    ensures
        forall|x: Seq<char>| #[trigger]
            first_occurrences(names).contains(x) <==> (names.contains(x) && x.len() > 0),
    decreases names.len(),
{
    if names.len() > 0 {
        let front = names.drop_last();
        let last = names.last();
        let kept = first_occurrences(front);
        lemma_first_occurrences_members(front);
        assert forall|x: Seq<char>| #[trigger]
            first_occurrences(names).contains(x) <==> (names.contains(x) && x.len() > 0) by {
            if names.contains(x) && x.len() > 0 {
                let w = choose|w: int| 0 <= w < names.len() && names[w] == x;
                if w < names.len() - 1 {
                    assert(front[w] == x);
                    assert(kept.contains(x));
                    let k = choose|k: int| 0 <= k < kept.len() && kept[k] == x;
                    if !(last.len() == 0 || kept.contains(last)) {
                        assert(kept.push(last)[k] == x);
                    }
                } else if !kept.contains(last) {
                    assert(kept.push(last)[kept.len() as int] == x);
                }
            }
            if first_occurrences(names).contains(x) {
                let r = first_occurrences(names);
                let k = choose|k: int| 0 <= k < r.len() && r[k] == x;
                if k < kept.len() {
                    assert(kept.contains(x));
                }
            }
        }
    }
}

/// Among the names kept none is empty and none is repeated.
pub proof fn lemma_first_occurrences_distinct(names: Seq<Seq<char>>)
    ensures
        distinct_nonempty(first_occurrences(names)),
    decreases names.len(),
{
    if names.len() > 0 {
        lemma_first_occurrences_distinct(names.drop_last());
    }
}

/// The names kept stand in the order in which they first occur in the input:
/// of two of them, the earlier one has the earlier first position.
pub proof fn lemma_first_occurrences_order(names: Seq<Seq<char>>, a: int, b: int)
    requires
        0 <= a < b < first_occurrences(names).len(),
    ensures
        exists|p: int, q: int|
            p < q && is_first_position(names, first_occurrences(names)[a], p)
                && is_first_position(names, first_occurrences(names)[b], q),
    decreases names.len(),
{
    let r = first_occurrences(names);
    let front = names.drop_last();
    let last = names.last();
    let kept = first_occurrences(front);
    if b < kept.len() {
        lemma_first_occurrences_order(front, a, b);
        let (p, q): (int, int) = choose|p: int, q: int|
            p < q && is_first_position(front, kept[a], p) && is_first_position(front, kept[b], q);
        assert(is_first_position(names, r[a], p)) by {
            assert forall|t: int| 0 <= t < p implies names[t] != r[a] by {
                assert(names[t] == front[t]);
            }
        }
        assert(is_first_position(names, r[b], q)) by {
            assert forall|t: int| 0 <= t < q implies names[t] != r[b] by {
                assert(names[t] == front[t]);
            }
        }
    } else {
        lemma_first_occurrences_members(front);
        assert(kept.contains(kept[a]));
        lemma_first_position_exists(front, kept[a]);
        let p = choose|p: int| is_first_position(front, kept[a], p);
        let q = names.len() - 1;
        assert(is_first_position(names, r[a], p)) by {
            assert forall|t: int| 0 <= t < p implies names[t] != r[a] by {
                assert(names[t] == front[t]);
            }
        }
        assert(is_first_position(names, r[b], q)) by {
            assert forall|t: int| 0 <= t < q implies names[t] != last by {
                if names[t] == last {
                    assert(front[t] == last);
                }
            }
        }
    }
}

/// A sequence of distinct non-empty names is kept as it is.
pub proof fn lemma_first_occurrences_of_distinct(names: Seq<Seq<char>>)
    requires
        distinct_nonempty(names),
    ensures
        first_occurrences(names) == names,
    decreases names.len(),
{
    if names.len() > 0 {
        lemma_first_occurrences_of_distinct(names.drop_last());
    }
}

/// Extracting is stable: the variables of a template hold no empty name and
/// no name twice, so that removing repetitions from them once more changes
/// nothing.
pub proof fn lemma_variables_stable(content: Seq<char>)
    ensures
        distinct_nonempty(variables_of(content)),
        first_occurrences(variables_of(content)) == variables_of(content),
{
    lemma_first_occurrences_distinct(placeholders_from(content, 0));
    lemma_first_occurrences_of_distinct(variables_of(content));
}

/// The variables of a template stand in the order in which their
/// placeholders first occur in it: of two of them, the earlier one has the
/// earlier first placeholder.
pub proof fn lemma_variables_ordered(content: Seq<char>, a: int, b: int)
    requires
        0 <= a < b < variables_of(content).len(),
    ensures
        exists|p: int, q: int|
            p < q && is_first_position(placeholders_from(content, 0), variables_of(content)[a], p)
                && is_first_position(
                placeholders_from(content, 0),
                variables_of(content)[b],
                q,
            ),
{
    lemma_first_occurrences_order(placeholders_from(content, 0), a, b);
}

/// Every placeholder name found from position `i` on stands in the text
/// between `{{` and `}}`.
pub proof fn lemma_placeholders_occur(s: Seq<char>, i: int, k: int)
    requires
        0 <= i,
        0 <= k < placeholders_from(s, i).len(),
    ensures
        occurs_in(s, placeholder(placeholders_from(s, i)[k])),
    decreases s.len() - i,
{
    if i < s.len() {
        if opening_at(s, i) {
            let j = next_close(s, i + 2);
            if i + 2 <= j && closing_at(s, j) {
                let name = s.subrange(i + 2, j);
                if k == 0 {
                    assert(s.subrange(i, i + placeholder(name).len()) =~= placeholder(name));
                    assert(occurs_at(s, placeholder(name), i));
                } else {
                    lemma_placeholders_occur(s, j + 2, k - 1);
                }
            }
        } else {
            lemma_placeholders_occur(s, i + 1, k);
        }
    }
}

/// Every variable of a template occurs in it as a placeholder.
pub proof fn lemma_variables_occur(content: Seq<char>, a: int)
    requires
        0 <= a < variables_of(content).len(),
    ensures
        occurs_in(content, placeholder(variables_of(content)[a])),
{
    let names = placeholders_from(content, 0);
    let x = variables_of(content)[a];
    lemma_first_occurrences_members(names);
    assert(variables_of(content).contains(x));
    let k = choose|k: int| 0 <= k < names.len() && names[k] == x;
    lemma_placeholders_occur(content, 0, k);
}

/// Replacing a pattern that does not occur from `i` on copies the rest.
pub proof fn lemma_replace_from_without_match(
    s: Seq<char>,
    pat: Seq<char>,
    to: Seq<char>,
    i: int,
)
    requires
        0 <= i <= s.len(),
        pat.len() > 0,
        forall|k: int| i <= k ==> !occurs_at(s, pat, k),
    ensures
        replace_from(s, pat, to, i) == s.subrange(i, s.len() as int),
    decreases s.len() - i,
{
    if i < s.len() {
        lemma_replace_from_without_match(s, pat, to, i + 1);
    }
}

/// Replacing a pattern that does not occur in a text leaves the text as it
/// is.
pub proof fn lemma_replace_without_match(s: Seq<char>, pat: Seq<char>, to: Seq<char>)
    requires
        !occurs_in(s, pat),
    ensures
        replace_all(s, pat, to) == s,
{
    if pat.len() > 0 {
        lemma_replace_from_without_match(s, pat, to, 0);
    }
}

/// Rendering leaves a text as it is where none of the keys supplied has a
/// placeholder in it: placeholders without a value stay verbatim.
pub proof fn lemma_render_without_match(
    content: Seq<char>,
    substitutions: Seq<(Seq<char>, Seq<char>)>,
)
    requires
        forall|n: int|
            0 <= n < substitutions.len() ==> !occurs_in(
                content,
                placeholder(#[trigger] substitutions[n].0),
            ),
    ensures
        rendered(content, substitutions) == content,
    decreases substitutions.len(),
{
    if substitutions.len() > 0 {
        let rest = substitutions.drop_first();
        lemma_replace_without_match(
            content,
            placeholder(substitutions[0].0),
            substitutions[0].1,
        );
        lemma_render_without_match(content, rest);
    }
}

/// Whether `n` can be the name of a placeholder: no `}` in it is followed by
/// another, and it does not end in `}`, so that the marker `}}` put behind it
/// is the first one.
pub open spec fn is_name(n: Seq<char>) -> bool {
    forall|k: int|
        0 <= k < n.len() ==> !(#[trigger] n[k] == '}' && (k + 1 == n.len() || n[k + 1] == '}'))
}

/// The template that holds one placeholder for each of the names, one after
/// the other.
pub open spec fn template_of(names: Seq<Seq<char>>) -> Seq<char>
    decreases names.len(),
{
    if names.len() == 0 {
        Seq::empty()
    } else {
        placeholder(names[0]) + template_of(names.drop_first())
    }
}

/// Where a closing marker stands at `j` and none stands between `from` and
/// `j`, the first closing marker from `from` on is the one at `j`.
pub proof fn lemma_next_close_is(s: Seq<char>, from: int, j: int)
    requires
        0 <= from <= j,
        closing_at(s, j),
        forall|k: int| from <= k < j ==> !closing_at(s, k),
    ensures
        next_close(s, from) == j,
    decreases j - from,
{
    if from < j {
        lemma_next_close_is(s, from + 1, j);
    }
}

/// Every placeholder name found in a text can be the name of a placeholder.
pub proof fn lemma_placeholders_are_names(s: Seq<char>, i: int, k: int)
    requires
        0 <= i,
        0 <= k < placeholders_from(s, i).len(),
    ensures
        is_name(placeholders_from(s, i)[k]),
    decreases s.len() - i,
{
    if i < s.len() {
        if opening_at(s, i) {
            let j = next_close(s, i + 2);
            lemma_next_close(s, i + 2);
            if i + 2 <= j && closing_at(s, j) {
                if k == 0 {
                    let name = s.subrange(i + 2, j);
                    assert forall|m: int| 0 <= m < name.len() implies !(#[trigger] name[m] == '}'
                        && (m + 1 == name.len() || name[m + 1] == '}')) by {
                        assert(!closing_at(s, i + 2 + m));
                        assert(name[m] == s[i + 2 + m]);
                        if m + 1 < name.len() {
                            assert(name[m + 1] == s[i + 2 + m + 1]);
                        }
                    }
                } else {
                    lemma_placeholders_are_names(s, j + 2, k - 1);
                }
            }
        } else {
            lemma_placeholders_are_names(s, i + 1, k);
        }
    }
}

/// Behind a text put in front, the first closing marker stands where it
/// stood, moved by the length of that text.
pub proof fn lemma_next_close_shift(pre: Seq<char>, rest: Seq<char>, k: int)
    requires
        0 <= k,
    ensures
        next_close(pre + rest, pre.len() + k) == pre.len() + next_close(rest, k),
    decreases rest.len() - k,
{
    let t = pre + rest;
    if k < rest.len() {
        assert(t[pre.len() + k] == rest[k]);
        if k + 1 < rest.len() {
            assert(t[pre.len() + k + 1] == rest[k + 1]);
        }
        if !closing_at(rest, k) {
            lemma_next_close_shift(pre, rest, k + 1);
        }
    }
}

/// Behind a text put in front, the placeholders are those of the text that
/// follows.
pub proof fn lemma_placeholders_shift(pre: Seq<char>, rest: Seq<char>, i: int)
    requires
        0 <= i,
    ensures
        placeholders_from(pre + rest, pre.len() + i) == placeholders_from(rest, i),
    decreases rest.len() - i,
{
    let t = pre + rest;
    let p = pre.len() as int;
    if i < rest.len() {
        assert(t[p + i] == rest[i]);
        if i + 1 < rest.len() {
            assert(t[p + i + 1] == rest[i + 1]);
        }
        if opening_at(rest, i) {
            let j = next_close(rest, i + 2);
            lemma_next_close_shift(pre, rest, i + 2);
            lemma_next_close(rest, i + 2);
            if i + 2 <= j && closing_at(rest, j) {
                assert(t[p + j] == rest[j]);
                assert(t[p + j + 1] == rest[j + 1]);
                assert(t.subrange(p + i + 2, p + j) =~= rest.subrange(i + 2, j));
                lemma_placeholders_shift(pre, rest, j + 2);
            } else {
                assert(j == rest.len());
            }
        } else {
            lemma_placeholders_shift(pre, rest, i + 1);
        }
    }
}

/// A placeholder in front of a text gives its name first, and then what the
/// text gives.
pub proof fn lemma_placeholder_in_front(name: Seq<char>, rest: Seq<char>)
    requires
        is_name(name),
    ensures
        placeholders_from(placeholder(name) + rest, 0) == seq![name] + placeholders_from(rest, 0),
{
    let pre = placeholder(name);
    let t = pre + rest;
    let end = 2 + name.len() as int;
    assert(pre.len() == end + 2);
    assert(t[0] == '{' && t[1] == '{');
    assert(t[end] == '}' && t[end + 1] == '}');
    assert forall|k: int| 2 <= k < end implies !closing_at(t, k) by {
        assert(t[k] == name[k - 2]);
        if k + 1 < end {
            assert(t[k + 1] == name[k - 2 + 1]);
        }
    }
    lemma_next_close_is(t, 2, end);
    assert(t.subrange(2, end) =~= name);
    lemma_placeholders_shift(pre, rest, 0);
}

/// The template made of names gives these names back, in their order.
pub proof fn lemma_template_placeholders(names: Seq<Seq<char>>)
    requires
        forall|k: int| 0 <= k < names.len() ==> is_name(#[trigger] names[k]),
    ensures
        placeholders_from(template_of(names), 0) == names,
    decreases names.len(),
{
    if names.len() > 0 {
        let rest = names.drop_first();
        assert forall|k: int| 0 <= k < rest.len() implies is_name(#[trigger] rest[k]) by {
            assert(rest[k] == names[k + 1]);
        }
        lemma_template_placeholders(rest);
        lemma_placeholder_in_front(names[0], template_of(rest));
        assert(seq![names[0]] + rest =~= names);
    } else {
        assert(names =~= Seq::empty());
    }
}

/// Extracting is idempotent: a template made of the variables of a text, one
/// placeholder for each in their order, has the same variables in the same
/// order.
pub proof fn lemma_extract_idempotent(content: Seq<char>)
    ensures
        variables_of(template_of(variables_of(content))) == variables_of(content),
{
    let found = placeholders_from(content, 0);
    let vars = variables_of(content);
    lemma_first_occurrences_members(found);
    assert forall|k: int| 0 <= k < vars.len() implies is_name(#[trigger] vars[k]) by {
        assert(vars.contains(vars[k]));
        let w = choose|w: int| 0 <= w < found.len() && found[w] == vars[k];
        lemma_placeholders_are_names(content, 0, w);
    }
    lemma_template_placeholders(vars);
    lemma_variables_stable(content);
}

} // verus!
