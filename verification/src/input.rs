//! Reading what the user typed: lists of tags, `key=value` pairs, and which
//! variables are still without a value.

use crate::template::{contains_name, pairs_of};
use crate::text::{chars_of, same_text, string_of_range};
use vstd::prelude::*;

verus! {

/// Whether the character is white space: one of the code points to which
/// Unicode gives the property `White_Space`.
pub open spec fn whitespace(c: char) -> bool {
    let n = c as u32;
    ||| 0x09 <= n <= 0x0D
    ||| n == 0x20
    ||| n == 0x85
    ||| n == 0xA0
    ||| n == 0x1680
    ||| 0x2000 <= n <= 0x200A
    ||| n == 0x2028
    ||| n == 0x2029
    ||| n == 0x202F
    ||| n == 0x205F
    ||| n == 0x3000
}

/// Tests whether the character is white space.
pub fn is_whitespace(c: char) -> (b: bool)
    ensures
        b == whitespace(c),
{
    let n: u32 = c as u32;
    (0x09 <= n && n <= 0x0D) || n == 0x20 || n == 0x85 || n == 0xA0 || n == 0x1680 || (0x2000
        <= n && n <= 0x200A) || n == 0x2028 || n == 0x2029 || n == 0x202F || n == 0x205F || n
        == 0x3000
}

/// The first position at or after `from` where `c` stands in `s`, or the
/// length of `s` where it stands nowhere there.
pub open spec fn position_of(s: Seq<char>, c: char, from: int) -> int
    decreases s.len() - from,
{
    if from < 0 || from >= s.len() {
        s.len() as int
    } else if s[from] == c {
        from
    } else {
        position_of(s, c, from + 1)
    }
}

/// `position_of` answers with a position in range where `c` stands, unless
/// it is the end, and `c` does not stand between `from` and it.
pub proof fn lemma_position_of(s: Seq<char>, c: char, from: int)
    requires
        0 <= from <= s.len(),
    ensures
        from <= position_of(s, c, from) <= s.len(),
        position_of(s, c, from) < s.len() ==> s[position_of(s, c, from)] == c,
        forall|k: int| from <= k < position_of(s, c, from) ==> s[k] != c,
    decreases s.len() - from,
{
    if from < s.len() && s[from] != c {
        lemma_position_of(s, c, from + 1);
    }
}

/// The pieces into which the separator `sep` cuts `s` from `from` on. There
/// is one piece more than there are separators; a piece may be empty.
pub open spec fn split_from(s: Seq<char>, sep: char, from: int) -> Seq<Seq<char>>
    decreases s.len() - from,
{
    if from < 0 || from > s.len() {
        Seq::empty()
    } else {
        let cut = position_of(s, sep, from);
        if from <= cut < s.len() {
            seq![s.subrange(from, cut)] + split_from(s, sep, cut + 1)
        } else {
            seq![s.subrange(from, s.len() as int)]
        }
    }
}

/// The pieces into which the separator `sep` cuts `s`.
pub open spec fn split_on(s: Seq<char>, sep: char) -> Seq<Seq<char>> {
    split_from(s, sep, 0)
}

/// The first position at or after `from` whose character is no white space,
/// or the length of `s`.
pub open spec fn solid_start(s: Seq<char>, from: int) -> int
    decreases s.len() - from,
{
    if from < 0 || from >= s.len() {
        s.len() as int
    } else if !whitespace(s[from]) {
        from
    } else {
        solid_start(s, from + 1)
    }
}

/// The end of the last character before `upto` that is no white space, or
/// `low` where there is none down to there.
pub open spec fn solid_end(s: Seq<char>, low: int, upto: int) -> int
    decreases upto - low,
{
    if upto <= low || upto > s.len() || low < 0 {
        low
    } else if !whitespace(s[upto - 1]) {
        upto
    } else {
        solid_end(s, low, upto - 1)
    }
}

/// `s` without the white space at its start and at its end.
pub open spec fn trimmed(s: Seq<char>) -> Seq<char> {
    let start = solid_start(s, 0);
    s.subrange(start, solid_end(s, start, s.len() as int))
}

/// Each piece of a list, trimmed.
pub open spec fn all_trimmed(pieces: Seq<Seq<char>>) -> Seq<Seq<char>> {
    pieces.map_values(|piece: Seq<char>| trimmed(piece))
}

/// The tags that a comma-separated list names: its pieces, each without the
/// white space around it.
pub open spec fn tags_of(text: Seq<char>) -> Seq<Seq<char>> {
    all_trimmed(split_on(text, ','))
}

/// The pair that `key=value` stands for: what is before the first `=` and
/// what is after it. A text without `=` stands for none.
pub open spec fn pair_of(text: Seq<char>) -> Option<(Seq<char>, Seq<char>)> {
    let cut = position_of(text, '=', 0);
    if 0 <= cut < text.len() {
        Some((text.take(cut), text.skip(cut + 1)))
    } else {
        None
    }
}

/// The pairs that a list of texts stands for, in order; texts that stand for
/// none are passed over.
pub open spec fn pairs_among(texts: Seq<Seq<char>>) -> Seq<(Seq<char>, Seq<char>)>
    decreases texts.len(),
{
    if texts.len() == 0 {
        Seq::empty()
    } else {
        let before = pairs_among(texts.drop_last());
        match pair_of(texts.last()) {
            Some(pair) => before.push(pair),
            None => before,
        }
    }
}

/// The variables to ask the user for: those that are no key of a
/// substitution, each once, in their order.
pub open spec fn unbound(variables: Seq<Seq<char>>, keys: Seq<Seq<char>>) -> Seq<Seq<char>>
    decreases variables.len(),
{
    if variables.len() == 0 {
        Seq::empty()
    } else {
        let before = unbound(variables.drop_last(), keys);
        let name = variables.last();
        if keys.contains(name) || before.contains(name) {
            before
        } else {
            before.push(name)
        }
    }
}

/// The keys of a list of substitutions.
pub open spec fn keys_of(substitutions: Seq<(String, String)>) -> Seq<Seq<char>> {
    substitutions.map_values(|p: (String, String)| p.0@)
}

/// Removes the white space at the start and at the end of `chars[from..to]`
/// and returns what is left as a string.
pub fn trim_range(chars: &Vec<char>, from: usize, to: usize) -> (piece: String)
    requires
        from <= to <= chars.len(),
    ensures
        piece@ == trimmed(chars@.subrange(from as int, to as int)),
{
    let ghost part = chars@.subrange(from as int, to as int);
    let mut a: usize = from;
    while a < to && is_whitespace(chars[a])
        invariant
            from <= a <= to <= chars.len(),
            part == chars@.subrange(from as int, to as int),
            solid_start(part, 0) == solid_start(part, a - from),
        decreases to - a,
    {
        a += 1;
    }
    let mut b: usize = to;
    while b > a && is_whitespace(chars[b - 1])
        invariant
            from <= a <= b <= to <= chars.len(),
            part == chars@.subrange(from as int, to as int),
            solid_end(part, a - from, part.len() as int) == solid_end(part, a - from, b - from),
        decreases b - a,
    {
        b -= 1;
    }
    string_of_range(chars, a, b)
}

/// Removes the white space at the start and at the end of a text.
pub fn trim(text: &str) -> (piece: String)
    ensures
        piece@ == trimmed(text@),
{
    let chars = chars_of(text);
    proof {
        assert(chars@.subrange(0, chars.len() as int) =~= text@);
    }
    trim_range(&chars, 0, chars.len())
}

/// Reads a comma-separated list of tags: cuts the text at each comma and
/// trims every piece. An empty text gives one empty tag.
pub fn parse_tags(text: &str) -> (tags: Vec<String>)
    ensures
        tags.deep_view() == tags_of(text@),
{
    let chars = chars_of(text);
    let mut tags: Vec<String> = Vec::new();
    let mut start: usize = 0;
    let mut i: usize = 0;
    let ghost mut done: Seq<Seq<char>> = Seq::empty();
    while i < chars.len()
        invariant
            start <= i <= chars.len(),
            tags.deep_view() == all_trimmed(done),
            done + split_from(chars@, ',', start as int) == split_on(chars@, ','),
            position_of(chars@, ',', start as int) == position_of(chars@, ',', i as int),
        decreases chars.len() - i,
    {
        if chars[i] == ',' {
            let ghost before = tags.deep_view();
            let ghost piece = chars@.subrange(start as int, i as int);
            tags.push(trim_range(&chars, start, i));
            proof {
                assert(tags.deep_view() =~= before.push(trimmed(piece)));
                done = done.push(piece);
            }
            start = i + 1;
        }
        i += 1;
    }
    let ghost before = tags.deep_view();
    let ghost piece = chars@.subrange(start as int, chars.len() as int);
    tags.push(trim_range(&chars, start, chars.len()));
    proof {
        assert(tags.deep_view() =~= before.push(trimmed(piece)));
    }
    tags
}

/// Reads the answer to the question for tags: no tags where nothing was
/// typed, else the tags of the list typed.
pub fn tags_from_answer(answer: &str) -> (tags: Vec<String>)
    ensures
        tags.deep_view() == if answer@.len() == 0 {
            Seq::<Seq<char>>::empty()
        } else {
            tags_of(answer@)
        },
{
    if answer.is_empty() {
        Vec::new()
    } else {
        parse_tags(answer)
    }
}

/// Reads one substitution written as `key=value`. The key ends at the first
/// `=`; the value is all that follows, further `=` included.
pub fn parse_substitution(text: &str) -> (pair: Option<(String, String)>)
    ensures
        match pair {
            Some(p) => pair_of(text@) == Some((p.0@, p.1@)),
            None => pair_of(text@) is None,
        },
{
    let chars = chars_of(text);
    let mut i: usize = 0;
    while i < chars.len() && chars[i] != '='
        invariant
            i <= chars.len(),
            position_of(chars@, '=', 0) == position_of(chars@, '=', i as int),
        decreases chars.len() - i,
    {
        i += 1;
    }
    if i < chars.len() {
        let key = string_of_range(&chars, 0, i);
        let value = string_of_range(&chars, i + 1, chars.len());
        Some((key, value))
    } else {
        None
    }
}

/// Reads the substitutions given on the command line, in order. An argument
/// without `=` is passed over.
pub fn parse_substitutions(arguments: &Vec<String>) -> (substitutions: Vec<(String, String)>)
    ensures
        pairs_of(substitutions@) == pairs_among(arguments.deep_view()),
{
    let mut substitutions: Vec<(String, String)> = Vec::new();
    let mut i: usize = 0;
    while i < arguments.len()
        invariant
            i <= arguments.len(),
            pairs_of(substitutions@) == pairs_among(arguments.deep_view().take(i as int)),
        decreases arguments.len() - i,
    {
        proof {
            assert(arguments.deep_view().take(i + 1).drop_last() =~= arguments.deep_view().take(
                i as int,
            ));
        }
        if let Some(pair) = parse_substitution(arguments[i].as_str()) {
            substitutions.push(pair);
        }
        i += 1;
    }
    proof {
        assert(arguments.deep_view().take(arguments.len() as int) =~= arguments.deep_view());
    }
    substitutions
}

/// Tests whether a substitution has `name` as its key.
pub fn is_bound(substitutions: &Vec<(String, String)>, name: &str) -> (b: bool)
    ensures
        b == keys_of(substitutions@).contains(name@),
{
    let mut i: usize = 0;
    while i < substitutions.len()
        invariant
            i <= substitutions.len(),
            forall|k: int| 0 <= k < i ==> keys_of(substitutions@)[k] != name@,
        decreases substitutions.len() - i,
    {
        if same_text(substitutions[i].0.as_str(), name) {
            proof {
                assert(keys_of(substitutions@)[i as int] == name@);
            }
            return true;
        }
        i += 1;
    }
    false
}

/// The variables that the user is to be asked for: those of `variables`
/// that no substitution gives a value, each once, in their order.
pub fn unbound_variables(variables: &Vec<String>, substitutions: &Vec<(String, String)>) -> (asked:
    Vec<String>)
    ensures
        asked.deep_view() == unbound(variables.deep_view(), keys_of(substitutions@)),
{
    let mut asked: Vec<String> = Vec::new();
    let mut i: usize = 0;
    while i < variables.len()
        invariant
            i <= variables.len(),
            asked.deep_view() == unbound(
                variables.deep_view().take(i as int),
                keys_of(substitutions@),
            ),
        decreases variables.len() - i,
    {
        proof {
            assert(variables.deep_view().take(i + 1).drop_last() =~= variables.deep_view().take(
                i as int,
            ));
        }
        if !is_bound(substitutions, variables[i].as_str()) && !contains_name(
            &asked,
            &variables[i],
        ) {
            asked.push(variables[i].clone());
        }
        i += 1;
    }
    proof {
        assert(variables.deep_view().take(variables.len() as int) =~= variables.deep_view());
    }
    asked
}

} // verus!
