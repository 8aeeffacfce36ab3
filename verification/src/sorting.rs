//! Sorting a list of strings in raw string order.

use vstd::prelude::*;
use vstd::relations::sorted_by;
use vstd::seq_lib::{
    lemma_sorted_unique, to_multiset_build, to_multiset_contains, to_multiset_insert,
};

use crate::text::{lemma_string_order_total, str_le, string_le, string_order};

verus! {

/// The contents of a list of strings, in order.
pub open spec fn texts(strings: Seq<String>) -> Seq<Seq<char>> {
    Seq::new(strings.len(), |i: int| strings[i]@)
}

/// The list sorted ascending in raw string order.
pub open spec fn sorted_texts(list: Seq<Seq<char>>) -> Seq<Seq<char>> {
    list.sort_by(string_order())
}

/// What `sorted_texts` returns: a list in ascending order that holds every
/// string as often as the argument does, so the same strings, and none twice
/// where the argument holds none twice.
pub proof fn lemma_sorted_texts(list: Seq<Seq<char>>)
    ensures
        sorted_by(sorted_texts(list), string_order()),
        sorted_texts(list).to_multiset() == list.to_multiset(),
        sorted_texts(list).len() == list.len(),
        forall|text: Seq<char>| sorted_texts(list).contains(text) <==> list.contains(text),
        list.no_duplicates() ==> sorted_texts(list).no_duplicates(),
{
    let sorted = sorted_texts(list);
    lemma_string_order_total();
    list.lemma_sort_by_ensures(string_order());
    list.to_multiset_ensures();
    sorted.to_multiset_ensures();
    assert forall|text: Seq<char>| sorted.contains(text) <==> list.contains(text) by {
        to_multiset_contains(sorted, text);
        to_multiset_contains(list, text);
    }
    if list.no_duplicates() {
        list.lemma_multiset_has_no_duplicates();
        sorted.lemma_multiset_has_no_duplicates_conv();
    }
}

/// A list in ascending order that holds every string as often as `list` does
/// is `sorted_texts(list)`.
pub proof fn lemma_sorted_texts_unique(list: Seq<Seq<char>>, sorted: Seq<Seq<char>>)
    requires
        sorted_by(sorted, string_order()),
        sorted.to_multiset() == list.to_multiset(),
    ensures
        sorted == sorted_texts(list),
{
    lemma_string_order_total();
    lemma_sorted_texts(list);
    lemma_sorted_unique(sorted, sorted_texts(list), string_order());
}

/// A copy of the list, sorted ascending in raw string order.
pub fn sort_strings(strings: &Vec<String>) -> (r: Vec<String>)
    ensures
        texts(r@) == sorted_texts(texts(strings@)),
{
    let mut out: Vec<String> = Vec::new();
    let mut i: usize = 0;
    assert(texts(strings@).take(0) =~= texts(out@));
    while i < strings.len()
        invariant
            i <= strings.len(),
            sorted_by(texts(out@), string_order()),
            texts(out@).to_multiset() == texts(strings@).take(i as int).to_multiset(),
        decreases strings.len() - i,
    {
        let ghost x = strings@[i as int]@;
        let mut p: usize = 0;
        while p < out.len() && str_le(out[p].as_str(), strings[i].as_str())
            invariant
                i < strings.len(),
                x == strings@[i as int]@,
                p <= out.len(),
                forall|k: int| 0 <= k < p ==> string_le(#[trigger] texts(out@)[k], x),
            decreases out.len() - p,
        {
            p += 1;
        }
        let ghost before = texts(out@);
        out.insert(p, strings[i].clone());
        proof {
            let after = texts(out@);
            assert(after =~= before.insert(p as int, x));
            to_multiset_insert(before, p as int, x);
            assert(texts(strings@).take(i + 1) =~= texts(strings@).take(i as int).push(x));
            to_multiset_build(texts(strings@).take(i as int), x);
            lemma_string_order_total();
            let r = string_order();
            assert forall|a: int, b: int| 0 <= a < b < after.len() implies #[trigger] r(
                after[a],
                after[b],
            ) by {
                if b < p {
                    assert(r(before[a], before[b]));
                } else if b == p {
                    assert(string_le(before[a], x));
                } else if a < p {
                    assert(r(before[a], before[b - 1]));
                } else if a == p {
                    assert(!string_le(before[p as int], x));
                    assert(r(before[p as int], x) || r(x, before[p as int]));
                    if b - 1 > p {
                        assert(r(before[p as int], before[b - 1]));
                    }
                    assert(r(x, before[p as int]) && r(before[p as int], before[b - 1]) ==> r(
                        x,
                        before[b - 1],
                    ));
                } else {
                    assert(r(before[a - 1], before[b - 1]));
                }
            }
        }
        i += 1;
    }
    proof {
        assert(texts(strings@).take(i as int) =~= texts(strings@));
        lemma_sorted_texts_unique(texts(strings@), texts(out@));
    }
    out
}

} // verus!
