//! The template engine: placeholders of the form `{{name}}` inside a text,
//! how they are found and how they are replaced.

use crate::text::{chars_of, matches_at, occurs_at, string_of, string_of_range};
use vstd::prelude::*;

verus! {

/// Whether the two characters at `i` and `i + 1` are both `c`.
pub open spec fn pair_at(s: Seq<char>, i: int, c: char) -> bool {
    0 <= i && i + 1 < s.len() && s[i] == c && s[i + 1] == c
}

/// Whether an opening marker `{{` starts at `i`.
pub open spec fn opening_at(s: Seq<char>, i: int) -> bool {
    pair_at(s, i, '{')
}

/// Whether a closing marker `}}` starts at `i`.
pub open spec fn closing_at(s: Seq<char>, i: int) -> bool {
    pair_at(s, i, '}')
}

/// The position of the first closing marker at or after `from`, or the length
/// of `s` where there is none.
pub open spec fn next_close(s: Seq<char>, from: int) -> int
    decreases s.len() - from,
{
    if from < 0 || from >= s.len() {
        s.len() as int
    } else if closing_at(s, from) {
        from
    } else {
        next_close(s, from + 1)
    }
}

/// The names of all complete placeholders of `s` from position `i` on, in the
/// order in which they occur, empty names and repetitions included. A marker
/// `{{` that no `}}` follows opens no placeholder.
pub open spec fn placeholders_from(s: Seq<char>, i: int) -> Seq<Seq<char>>
    decreases s.len() - i,
{
    if i < 0 || i >= s.len() {
        Seq::empty()
    } else if opening_at(s, i) {
        let j = next_close(s, i + 2);
        if i + 2 <= j && closing_at(s, j) {
            seq![s.subrange(i + 2, j)] + placeholders_from(s, j + 2)
        } else {
            Seq::empty()
        }
    } else {
        placeholders_from(s, i + 1)
    }
}

/// `names` without its empty entries and with each name kept only where it
/// occurs first.
pub open spec fn first_occurrences(names: Seq<Seq<char>>) -> Seq<Seq<char>>
    decreases names.len(),
{
    if names.len() == 0 {
        Seq::empty()
    } else {
        let kept = first_occurrences(names.drop_last());
        let name = names.last();
        if name.len() == 0 || kept.contains(name) {
            kept
        } else {
            kept.push(name)
        }
    }
}

/// The variables of a template: the non-empty placeholder names of `s`, each
/// once, in the order of their first occurrence.
pub open spec fn variables_of(s: Seq<char>) -> Seq<Seq<char>> {
    first_occurrences(placeholders_from(s, 0))
}

/// `next_close` returns a position in range, a closing marker stands there
/// unless it is the end, and none stands between `from` and it.
pub proof fn lemma_next_close(s: Seq<char>, from: int)
    requires
        0 <= from <= s.len(),
    ensures
        from <= next_close(s, from) <= s.len(),
        next_close(s, from) < s.len() ==> closing_at(s, next_close(s, from)),
        forall|k: int| from <= k < next_close(s, from) ==> !closing_at(s, k),
    decreases s.len() - from,
{
    if from < s.len() && !closing_at(s, from) {
        lemma_next_close(s, from + 1);
    }
}

/// Tests whether `names` holds a string equal to `name`.
pub fn contains_name(names: &Vec<String>, name: &String) -> (b: bool)
    ensures
        b == names.deep_view().contains(name@),
{
    let mut k: usize = 0;
    while k < names.len()
        invariant
            k <= names.len(),
            forall|m: int| 0 <= m < k ==> names.deep_view()[m] != name@,
        decreases names.len() - k,
    {
        if names[k] == *name {
            proof {
                assert(names.deep_view()[k as int] == name@);
            }
            return true;
        }
        k += 1;
    }
    false
}

/// Finds the variables of a template: scans `content` from left to right and
/// collects the name of every complete placeholder `{{name}}`, skipping empty
/// names and names already collected.
pub fn extract_variables(content: &str) -> (variables: Vec<String>)
    ensures
        variables.deep_view() == variables_of(content@),
{
    let chars = chars_of(content);
    let mut variables: Vec<String> = Vec::new();
    let ghost mut seen: Seq<Seq<char>> = Seq::empty();
    let mut i: usize = 0;
    while i < chars.len()
        invariant
            chars@ == content@,
            i <= chars.len(),
            variables.deep_view() == first_occurrences(seen),
            seen + placeholders_from(chars@, i as int) == placeholders_from(chars@, 0),
        decreases chars.len() - i,
    {
        if chars.len() - i >= 2 && chars[i] == '{' && chars[i + 1] == '{' {
            let start = i + 2;
            let mut j: usize = start;
            while j < chars.len() && !(chars.len() - j >= 2 && chars[j] == '}' && chars[j + 1]
                == '}')
                invariant
                    start <= j <= chars.len(),
                    next_close(chars@, start as int) == next_close(chars@, j as int),
                decreases chars.len() - j,
            {
                j += 1;
            }
            if j < chars.len() {
                let name = string_of_range(&chars, start, j);
                let ghost found = name@;
                proof {
                    assert(seen.push(found).drop_last() =~= seen);
                    seen = seen.push(found);
                }
                let fresh = !name.as_str().is_empty() && !contains_name(&variables, &name);
                if fresh {
                    variables.push(name);
                }
                i = j + 2;
            } else {
                i = chars.len();
            }
        } else {
            i += 1;
        }
    }
    variables
}

/// The placeholder that stands for `key`: the key between `{{` and `}}`.
pub open spec fn placeholder(key: Seq<char>) -> Seq<char> {
    seq!['{', '{'] + key + seq!['}', '}']
}

/// `s` from position `i` on, with every occurrence of the non-empty `pat`
/// replaced by `to`. Occurrences are taken from left to right and do not
/// overlap.
pub open spec fn replace_from(s: Seq<char>, pat: Seq<char>, to: Seq<char>, i: int) -> Seq<char>
    decreases s.len() - i,
{
    if i < 0 || i >= s.len() || pat.len() == 0 {
        Seq::empty()
    } else if occurs_at(s, pat, i) {
        to + replace_from(s, pat, to, i + pat.len())
    } else {
        seq![s[i]] + replace_from(s, pat, to, i + 1)
    }
}

/// `s` with every occurrence of `pat` replaced by `to`; an empty `pat`
/// occurs nowhere.
pub open spec fn replace_all(s: Seq<char>, pat: Seq<char>, to: Seq<char>) -> Seq<char> {
    if pat.len() == 0 {
        s
    } else {
        replace_from(s, pat, to, 0)
    }
}

/// The text that results from applying the substitutions one after the
/// other, each to the text that the one before left: the pair `(key, value)`
/// replaces every placeholder `{{key}}` by `value`.
pub open spec fn rendered(content: Seq<char>, substitutions: Seq<(Seq<char>, Seq<char>)>) -> Seq<
    char,
>
    decreases substitutions.len(),
{
    if substitutions.len() == 0 {
        content
    } else {
        rendered(
            replace_all(content, placeholder(substitutions[0].0), substitutions[0].1),
            substitutions.drop_first(),
        )
    }
}

/// The substitutions as pairs of character sequences.
pub open spec fn pairs_of(substitutions: Seq<(String, String)>) -> Seq<(Seq<char>, Seq<char>)> {
    substitutions.map_values(|p: (String, String)| (p.0@, p.1@))
}

/// Replaces every occurrence of `pat` in `s` by `to`, from left to right.
pub fn replace_chars(s: &Vec<char>, pat: &Vec<char>, to: &Vec<char>) -> (out: Vec<char>)
    ensures
        out@ == replace_all(s@, pat@, to@),
{
    let mut out: Vec<char> = Vec::new();
    if pat.len() == 0 {
        let mut k: usize = 0;
        while k < s.len()
            invariant
                k <= s.len(),
                out@ == s@.take(k as int),
            decreases s.len() - k,
        {
            out.push(s[k]);
            k += 1;
        }
        return out;
    }
    let mut i: usize = 0;
    while i < s.len()
        invariant
            i <= s.len(),
            pat.len() > 0,
            out@ + replace_from(s@, pat@, to@, i as int) == replace_from(s@, pat@, to@, 0),
        decreases s.len() - i,
    {
        let ghost before = out@;
        if matches_at(s, pat, i) {
            let mut k: usize = 0;
            while k < to.len()
                invariant
                    k <= to.len(),
                    out@ == before + to@.take(k as int),
                decreases to.len() - k,
            {
                out.push(to[k]);
                k += 1;
            }
            i += pat.len();
        } else {
            out.push(s[i]);
            i += 1;
        }
    }
    out
}

/// Builds the placeholder `{{key}}` for a key.
pub fn placeholder_chars(key: &str) -> (pat: Vec<char>)
    ensures
        pat@ == placeholder(key@),
{
    let name = chars_of(key);
    let mut pat: Vec<char> = Vec::new();
    pat.push('{');
    pat.push('{');
    let mut k: usize = 0;
    while k < name.len()
        invariant
            k <= name.len(),
            pat@ == seq!['{', '{'] + name@.take(k as int),
        decreases name.len() - k,
    {
        pat.push(name[k]);
        k += 1;
    }
    pat.push('}');
    pat.push('}');
    pat
}

/// Renders a template: applies the substitutions in the order given, each
/// to the text that the one before produced. A placeholder whose key is not
/// supplied stays as it is.
pub fn render(content: &str, substitutions: &[(String, String)]) -> (result: String)
    ensures
        result@ == rendered(content@, pairs_of(substitutions@)),
{
    let mut text = chars_of(content);
    let mut n: usize = 0;
    proof {
        assert(pairs_of(substitutions@).skip(0) =~= pairs_of(substitutions@));
    }
    while n < substitutions.len()
        invariant
            n <= substitutions.len(),
            rendered(text@, pairs_of(substitutions@).skip(n as int)) == rendered(
                content@,
                pairs_of(substitutions@),
            ),
        decreases substitutions.len() - n,
    {
        let pat = placeholder_chars(substitutions[n].0.as_str());
        let to = chars_of(substitutions[n].1.as_str());
        proof {
            let rest = pairs_of(substitutions@).skip(n as int);
            assert(rest.drop_first() =~= pairs_of(substitutions@).skip(n + 1));
        }
        text = replace_chars(&text, &pat, &to);
        n += 1;
    }
    string_of(&text)
}

} // verus!
