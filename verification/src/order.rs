//! The order of texts, character by character, and sorting by it.

use crate::text::chars_of;
use vstd::prelude::*;

verus! {

/// Whether `a`, read from position `i` on, comes before `b` or equals it,
/// given that both agree before `i`. The first position where they differ
/// decides, by the characters' code points; where one ends first, it comes
/// first.
pub open spec fn le_from(a: Seq<char>, b: Seq<char>, i: int) -> bool
    decreases a.len() - i,
{
    if i < 0 || i >= a.len() {
        true
    } else if i >= b.len() {
        false
    } else if a[i] != b[i] {
        (a[i] as u32) < (b[i] as u32)
    } else {
        le_from(a, b, i + 1)
    }
}

/// Whether `a` comes before `b` or equals it in the order of texts.
pub open spec fn text_le(a: Seq<char>, b: Seq<char>) -> bool {
    le_from(a, b, 0)
}

/// Whether each text of a list comes before the next or equals it.
pub open spec fn ordered(names: Seq<Seq<char>>) -> bool {
    forall|i: int| 0 <= i && i + 1 < names.len() ==> text_le(#[trigger] names[i], names[i + 1])
}

/// Whether `sorted` holds the texts of `names`, each as often as `names`
/// does, in order.
pub open spec fn sorted_form(sorted: Seq<Seq<char>>, names: Seq<Seq<char>>) -> bool {
    sorted.to_multiset() == names.to_multiset() && ordered(sorted)
}

/// Of two texts, one comes before the other or equals it.
pub proof fn lemma_le_total(a: Seq<char>, b: Seq<char>, i: int)
    requires
        0 <= i,
    ensures
        le_from(a, b, i) || le_from(b, a, i),
    decreases a.len() - i,
{
    if i < a.len() && i < b.len() {
        if a[i] == b[i] {
            lemma_le_total(a, b, i + 1);
        } else {
            lemma_code_points_differ(a[i], b[i]);
        }
    }
}

/// Different characters have different code points.
pub proof fn lemma_code_points_differ(c: char, d: char)
    requires
        c != d,
    ensures
        c as u32 != d as u32,
{
}

/// Two texts that agree before `i` and each come before the other from
/// there on are the same text.
pub proof fn lemma_le_antisymmetric(a: Seq<char>, b: Seq<char>, i: int)
    requires
        0 <= i <= a.len(),
        i <= b.len(),
        a.take(i) == b.take(i),
        le_from(a, b, i),
        le_from(b, a, i),
    ensures
        a == b,
    decreases a.len() - i,
{
    if i < a.len() && i < b.len() {
        assert(a.take(i + 1) =~= a.take(i).push(a[i]));
        assert(b.take(i + 1) =~= b.take(i).push(b[i]));
        lemma_le_antisymmetric(a, b, i + 1);
    } else {
        assert(a.take(i) =~= a);
    }
}

/// The order of texts is transitive.
pub proof fn lemma_le_transitive(a: Seq<char>, b: Seq<char>, c: Seq<char>, i: int)
    requires
        0 <= i,
        le_from(a, b, i),
        le_from(b, c, i),
    ensures
        le_from(a, c, i),
    decreases a.len() - i,
{
    if i < a.len() && i < b.len() && i < c.len() && a[i] == b[i] && b[i] == c[i] {
        lemma_le_transitive(a, b, c, i + 1);
    }
}

/// In an ordered list every text comes before every later one or equals it.
pub proof fn lemma_ordered_pairs(names: Seq<Seq<char>>, i: int, j: int)
    requires
        ordered(names),
        0 <= i <= j < names.len(),
    ensures
        text_le(names[i], names[j]),
    decreases j - i,
{
    if i == j {
        lemma_le_reflexive(names[i], 0);
    } else {
        lemma_ordered_pairs(names, i, j - 1);
        lemma_le_transitive(names[i], names[j - 1], names[j], 0);
    }
}

/// Every text comes before itself or equals it.
pub proof fn lemma_le_reflexive(a: Seq<char>, i: int)
    requires
        0 <= i,
    ensures
        le_from(a, a, i),
    decreases a.len() - i,
{
    if i < a.len() {
        lemma_le_reflexive(a, i + 1);
    }
}

/// A list has one sorted form only: two ordered lists that hold the same
/// texts equally often are the same list.
pub proof fn lemma_sorted_unique(a: Seq<Seq<char>>, b: Seq<Seq<char>>)
    requires
        ordered(a),
        ordered(b),
        a.to_multiset() == b.to_multiset(),
    ensures
        a == b,
    decreases a.len(),
{
    a.to_multiset_ensures();
    b.to_multiset_ensures();
    if a.len() > 0 {
        assert(a.to_multiset().count(a[0]) > 0);
        assert(b.to_multiset().count(b[0]) > 0);
        let j = choose|j: int| 0 <= j < b.len() && b[j] == a[0];
        let i = choose|i: int| 0 <= i < a.len() && a[i] == b[0];
        lemma_ordered_pairs(b, 0, j);
        lemma_ordered_pairs(a, 0, i);
        assert(a[0].take(0) =~= b[0].take(0));
        lemma_le_antisymmetric(a[0], b[0], 0);
        let ra = a.remove(0);
        let rb = b.remove(0);
        lemma_sorted_unique(ra, rb);
        assert(a =~= seq![a[0]] + ra);
    }
}

/// Tests whether `a` comes before `b` or equals it.
pub fn chars_le(a: &Vec<char>, b: &Vec<char>) -> (le: bool)
    ensures
        le == text_le(a@, b@),
{
    let mut i: usize = 0;
    while i < a.len()
        invariant
            i <= a.len(),
            text_le(a@, b@) == le_from(a@, b@, i as int),
        decreases a.len() - i,
    {
        if i >= b.len() {
            return false;
        }
        if a[i] != b[i] {
            return (a[i] as u32) < (b[i] as u32);
        }
        i += 1;
    }
    true
}

/// Tests whether one text comes before another or equals it.
pub fn text_le_exec(a: &str, b: &str) -> (le: bool)
    ensures
        le == text_le(a@, b@),
{
    let x = chars_of(a);
    let y = chars_of(b);
    chars_le(&x, &y)
}

/// Sorts a list of names into the order of texts.
pub fn sort_names(names: Vec<String>) -> (sorted: Vec<String>)
    ensures
        sorted_form(sorted.deep_view(), names.deep_view()),
{
    let ghost all = names.deep_view();
    let mut sorted: Vec<String> = Vec::new();
    proof {
        assert(all.take(0) =~= Seq::<Seq<char>>::empty());
        assert(sorted.deep_view() =~= Seq::<Seq<char>>::empty());
    }
    for name in it: names
        invariant
            it.seq().len() == all.len(),
            forall|k: int| 0 <= k < all.len() ==> (#[trigger] it.seq()[k])@ == all[k],
            sorted.len() == it.index(),
            sorted.deep_view().to_multiset() == all.take(it.index() as int).to_multiset(),
            ordered(sorted.deep_view()),
    {
        let ghost before = sorted.deep_view();
        let mut at: usize = 0;
        while at < sorted.len() && text_le_exec(sorted[at].as_str(), name.as_str())
            invariant
                at <= sorted.len(),
                before == sorted.deep_view(),
                forall|k: int| 0 <= k < at ==> text_le(#[trigger] before[k], name@),
            decreases sorted.len() - at,
        {
            at += 1;
        }
        sorted.insert(at, name);
        proof {
            let after = sorted.deep_view();
            assert(after =~= before.insert(at as int, name@));
            assert(after.remove(at as int) =~= before);
            vstd::seq_lib::to_multiset_remove(after, at as int);
            let upto = all.take(it.index() as int);
            let next = all.take(it.index() + 1);
            assert(next =~= upto.push(name@));
            vstd::seq_lib::to_multiset_build(upto, name@);
            assert(after.to_multiset().count(name@) > 0) by {
                after.to_multiset_ensures();
            }
            assert forall|i: int| 0 <= i && i + 1 < after.len() implies text_le(
                #[trigger] after[i],
                after[i + 1],
            ) by {
                if i == at {
                    lemma_le_total(before[i], name@, 0);
                }
            }
        }
    }
    proof {
        assert(all.take(all.len() as int) =~= all);
    }
    sorted
}

} // verus!
