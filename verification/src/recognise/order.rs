//! Text kept in one order.
//!
//! Characters are compared by their code points, which is how the bytes of two
//! strings compare.

use vstd::prelude::*;

use crate::text::characters;
#[allow(unused_imports)]
use crate::text::str_texts;

verus! {

/// Whether one piece of text stands before another or is it.
pub open spec fn not_after(one: Seq<char>, other: Seq<char>) -> bool
    decreases one.len(),
{
    if one.len() == 0 {
        true
    } else if other.len() == 0 {
        false
    } else if one[0] != other[0] {
        one[0] < other[0]
    } else {
        not_after(one.drop_first(), other.drop_first())
    }
}

/// Pieces of text in order.
pub open spec fn in_order(list: Seq<Seq<char>>) -> bool {
    forall|i: int, j: int|
        0 <= i <= j < list.len() ==> not_after(#[trigger] list[i], #[trigger] list[j])
}

/// Of any two pieces of text, one stands before the other or is it.
pub proof fn lemma_order_is_total(one: Seq<char>, other: Seq<char>)
    ensures
        not_after(one, other) || not_after(other, one),
    decreases one.len(),
{
    if one.len() > 0 && other.len() > 0 && one[0] == other[0] {
        lemma_order_is_total(one.drop_first(), other.drop_first());
    }
}

/// What stands before what stands before a third stands before the third.
pub proof fn lemma_order_is_transitive(one: Seq<char>, other: Seq<char>, third: Seq<char>)
    requires
        not_after(one, other),
        not_after(other, third),
    ensures
        not_after(one, third),
    decreases one.len(),
{
    if one.len() > 0 && other.len() > 0 && third.len() > 0 && one[0] == other[0] && other[0]
        == third[0] {
        lemma_order_is_transitive(one.drop_first(), other.drop_first(), third.drop_first());
    }
}

/// Two pieces of text that stand before each other are one.
pub proof fn lemma_order_is_strict(one: Seq<char>, other: Seq<char>)
    requires
        not_after(one, other),
        not_after(other, one),
    ensures
        one == other,
    decreases one.len(),
{
    if one.len() > 0 && other.len() > 0 && one[0] == other[0] {
        lemma_order_is_strict(one.drop_first(), other.drop_first());
        assert(one =~= seq![one[0]] + one.drop_first());
        assert(other =~= seq![other[0]] + other.drop_first());
    } else {
        assert(one =~= other);
    }
}

/// Whether one piece of text stands before another or is it.
pub fn stands_before(one: &str, other: &str) -> (answer: bool)
    ensures
        answer == not_after(one@, other@),
{
    let first = characters(one);
    let second = characters(other);
    let mut i: usize = 0;
    assert(one@.skip(0) =~= one@);
    assert(other@.skip(0) =~= other@);
    while i < first.len()
        invariant
            i <= first@.len(),
            i <= second@.len(),
            first@ == one@,
            second@ == other@,
            not_after(one@, other@) == not_after(one@.skip(i as int), other@.skip(i as int)),
        decreases first@.len() - i,
    {
        if i >= second.len() {
            return false;
        }
        if first[i] != second[i] {
            return first[i] < second[i];
        }
        assert(one@.skip(i as int).drop_first() =~= one@.skip(i + 1));
        assert(other@.skip(i as int).drop_first() =~= other@.skip(i + 1));
        i += 1;
    }
    true
}

/// Put a piece of text where it belongs in a list that is in order.
pub fn insert_in_order<'a>(list: &mut Vec<&'a str>, text: &'a str)
    requires
        in_order(str_texts(old(list)@)),
    ensures
        in_order(str_texts(final(list)@)),
        str_texts(final(list)@).to_multiset() == str_texts(old(list)@).to_multiset().insert(text@),
{
    let ghost before = str_texts(list@);
    let ghost placed = text@;
    let mut at: usize = list.len();
    while at > 0 && !stands_before(list[at - 1], text)
        invariant
            at <= list@.len(),
            before == str_texts(list@),
            placed == text@,
            in_order(before),
            forall|j: int|
                at <= j < before.len() ==> not_after(placed, #[trigger] before[j]),
        decreases at,
    {
        proof {
            assert(before[at - 1] == list@[at - 1]@);
            lemma_order_is_total(before[at - 1], placed);
            assert forall|j: int| at - 1 <= j < before.len() implies not_after(
                placed,
                #[trigger] before[j],
            ) by {
                lemma_order_is_transitive(placed, before[at - 1], before[j]);
            }
        }
        at -= 1;
    }
    list.insert(at, text);
    proof {
        let after = str_texts(list@);
        assert(after =~= before.insert(at as int, placed));
        vstd::seq_lib::to_multiset_insert(before, at as int, placed);
        if at > 0 {
            assert(before[at - 1] == after[at - 1]);
        }
        lemma_order_is_total(placed, placed);
        assert forall|i: int, j: int| 0 <= i <= j < after.len() implies not_after(
            #[trigger] after[i],
            #[trigger] after[j],
        ) by {
            if i < at {
                if j == at {
                    lemma_order_is_transitive(before[i], before[at - 1], placed);
                } else if j > at {
                    assert(after[j] == before[j - 1]);
                }
            } else if i == at {
                if j > at {
                    assert(after[j] == before[j - 1]);
                }
            } else {
                assert(after[i] == before[i - 1]);
                assert(after[j] == before[j - 1]);
            }
        }
    }
}

/// Two lists in order that hold the same text are one list.
pub proof fn law_one_order(one: Seq<Seq<char>>, other: Seq<Seq<char>>)
    requires
        in_order(one),
        in_order(other),
        one.to_multiset() == other.to_multiset(),
    ensures
        one == other,
    decreases one.len(),
{
    broadcast use vstd::seq_lib::group_to_multiset_ensures;

    vstd::seq_lib::to_multiset_len(one);
    vstd::seq_lib::to_multiset_len(other);
    if one.len() == 0 {
        assert(one =~= other);
    } else {
        let a = one.last();
        let b = other.last();
        assert(one.contains(a));
        assert(other.contains(b));
        assert(other.to_multiset().count(a) > 0);
        assert(one.to_multiset().count(b) > 0);
        let i = choose|i: int| 0 <= i < other.len() && other[i] == a;
        let j = choose|j: int| 0 <= j < one.len() && one[j] == b;
        assert(not_after(other[i], other[other.len() - 1]));
        assert(not_after(one[j], one[one.len() - 1]));
        lemma_order_is_strict(a, b);
        let shorter = one.drop_last();
        let also = other.drop_last();
        assert(shorter =~= one.remove(one.len() - 1));
        assert(also =~= other.remove(other.len() - 1));
        vstd::seq_lib::to_multiset_remove(one, one.len() - 1);
        vstd::seq_lib::to_multiset_remove(other, other.len() - 1);
        law_one_order(shorter, also);
        assert(one =~= shorter.push(a));
        assert(other =~= also.push(b));
    }
}

/// The same text as a list holds, in order.
pub open spec fn ordered(list: Seq<Seq<char>>) -> Seq<Seq<char>> {
    choose|sorted: Seq<Seq<char>>|
        in_order(sorted) && #[trigger] sorted.to_multiset() == list.to_multiset()
}

/// A list in order that holds the same text as another is the other in order.
pub proof fn lemma_that_is_the_order(sorted: Seq<Seq<char>>, list: Seq<Seq<char>>)
    requires
        in_order(sorted),
        sorted.to_multiset() == list.to_multiset(),
    ensures
        sorted == ordered(list),
        sorted.len() == list.len(),
        forall|text: Seq<char>| sorted.contains(text) <==> list.contains(text),
{
    broadcast use vstd::seq_lib::group_to_multiset_ensures;

    law_one_order(sorted, ordered(list));
    vstd::seq_lib::to_multiset_len(sorted);
    vstd::seq_lib::to_multiset_len(list);
    assert forall|text: Seq<char>| sorted.contains(text) <==> list.contains(text) by {
        vstd::seq_lib::to_multiset_contains(sorted, text);
        vstd::seq_lib::to_multiset_contains(list, text);
    }
}

/// A piece of text has a place in every list that is in order.
proof fn lemma_text_has_a_place(sorted: Seq<Seq<char>>, text: Seq<char>) -> (longer: Seq<Seq<char>>)
    requires
        in_order(sorted),
    ensures
        in_order(longer),
        longer.to_multiset() == sorted.to_multiset().insert(text),
    decreases sorted.len(),
{
    broadcast use vstd::seq_lib::group_to_multiset_ensures;

    lemma_order_is_total(text, text);
    if sorted.len() == 0 || not_after(sorted.last(), text) {
        let longer = sorted.push(text);
        assert forall|i: int, j: int| 0 <= i <= j < longer.len() implies not_after(
            #[trigger] longer[i],
            #[trigger] longer[j],
        ) by {
            if j == sorted.len() && i < j {
                assert(not_after(sorted[i], sorted[sorted.len() - 1]));
                lemma_order_is_transitive(sorted[i], sorted.last(), text);
            }
        }
        longer
    } else {
        let last = sorted.last();
        let shorter = sorted.drop_last();
        assert(in_order(shorter)) by {
            assert forall|i: int, j: int| 0 <= i <= j < shorter.len() implies not_after(
                #[trigger] shorter[i],
                #[trigger] shorter[j],
            ) by {
                assert(not_after(sorted[i], sorted[j]));
            }
        }
        let placed = lemma_text_has_a_place(shorter, text);
        lemma_order_is_total(last, text);
        lemma_order_is_total(last, last);
        assert(sorted =~= shorter.push(last));
        assert(sorted.to_multiset() =~= shorter.to_multiset().insert(last));
        let longer = placed.push(last);
        assert forall|i: int| 0 <= i < placed.len() implies not_after(
            #[trigger] placed[i],
            last,
        ) by {
            vstd::seq_lib::to_multiset_contains(placed, placed[i]);
            vstd::seq_lib::to_multiset_contains(shorter, placed[i]);
            assert(placed.contains(placed[i]));
            if placed[i] != text {
                assert(shorter.contains(placed[i]));
                let k = choose|k: int| 0 <= k < shorter.len() && shorter[k] == placed[i];
                assert(not_after(sorted[k], sorted[sorted.len() - 1]));
            }
        }
        assert(longer.to_multiset() =~= sorted.to_multiset().insert(text));
        longer
    }
}

/// Every list of text can be put in order.
pub proof fn law_any_list_has_an_order(list: Seq<Seq<char>>)
    ensures
        in_order(ordered(list)),
        ordered(list).to_multiset() == list.to_multiset(),
        ordered(list).len() == list.len(),
        forall|text: Seq<char>| ordered(list).contains(text) <==> list.contains(text),
        list.no_duplicates() ==> ordered(list).no_duplicates(),
    decreases list.len(),
{
    broadcast use vstd::seq_lib::group_to_multiset_ensures;

    if list.len() == 0 {
        lemma_that_is_the_order(list, list);
    } else {
        let shorter = list.drop_last();
        law_any_list_has_an_order(shorter);
        let longer = lemma_text_has_a_place(ordered(shorter), list.last());
        assert(list =~= shorter.push(list.last()));
        lemma_that_is_the_order(longer, list);
    }
    if list.no_duplicates() {
        list.lemma_multiset_has_no_duplicates();
        ordered(list).lemma_multiset_has_no_duplicates_conv();
    }
}

/// One text stands before another exactly where it is the beginning of it, or
/// where the first character in which they differ is the lower one.
pub proof fn law_the_first_difference_decides(one: Seq<char>, other: Seq<char>, at: int)
    requires
        0 <= at <= one.len(),
        at <= other.len(),
        forall|i: int| 0 <= i < at ==> one[i] == other[i],
    ensures
        at == one.len() ==> not_after(one, other),
        at == other.len() && at < one.len() ==> !not_after(one, other),
        at < one.len() && at < other.len() && one[at] < other[at] ==> not_after(one, other),
        at < one.len() && at < other.len() && one[at] > other[at] ==> !not_after(one, other),
    decreases at,
{
    if at > 0 {
        law_the_first_difference_decides(one.drop_first(), other.drop_first(), at - 1);
    }
}

} // verus!
