use vstd::prelude::*;

use crate::file_store::{entry_text, sorted_entries, store_json};
use crate::order::{lemma_lex_total_ordering, lex_order};

verus! {

proof fn lemma_same_keys_same_multiset(o1: Seq<Seq<char>>, o2: Seq<Seq<char>>)
    requires
        o1.no_duplicates(),
        o2.no_duplicates(),
        o1.to_set() == o2.to_set(),
    ensures
        o1.to_multiset() == o2.to_multiset(),
{
    broadcast use vstd::seq_lib::group_to_multiset_ensures;

    o1.lemma_multiset_has_no_duplicates();
    o2.lemma_multiset_has_no_duplicates();
    assert forall|x: Seq<char>| o1.to_multiset().count(x) == o2.to_multiset().count(x) by {
        assert(o1.to_set().contains(x) == o1.contains(x));
        assert(o2.to_set().contains(x) == o2.contains(x));
    }
    assert(o1.to_multiset() =~= o2.to_multiset());
}

proof fn lemma_map_keeps_multiset(
    o1: Seq<Seq<char>>,
    o2: Seq<Seq<char>>,
    f: spec_fn(Seq<char>) -> Seq<char>,
)
    requires
        o1.to_multiset() == o2.to_multiset(),
    ensures
        o1.map_values(f).to_multiset() == o2.map_values(f).to_multiset(),
    decreases o1.len(),
{
    broadcast use vstd::seq_lib::group_to_multiset_ensures;
    broadcast use vstd::multiset::group_multiset_axioms;

    if o1.len() == 0 {
        vstd::seq_lib::to_multiset_len(o1);
        vstd::seq_lib::to_multiset_len(o2);
        assert(o2.len() == 0);
        assert(o1.map_values(f) =~= Seq::<Seq<char>>::empty());
        assert(o2.map_values(f) =~= Seq::<Seq<char>>::empty());
    } else {
        let a = o1.last();
        assert(o1.contains(a)) by {
            assert(o1[o1.len() - 1] == a);
        }
        assert(o2.to_multiset().count(a) > 0);
        assert(o2.contains(a));
        let j = choose|j: int| 0 <= j < o2.len() && o2[j] == a;
        let r1 = o1.drop_last();
        let r2 = o2.remove(j);
        assert(o1 =~= r1.push(a));
        assert(r1.to_multiset() =~= o1.to_multiset().remove(a));
        assert(r2.to_multiset() =~= o2.to_multiset().remove(a));
        lemma_map_keeps_multiset(r1, r2, f);
        assert(o1.map_values(f) =~= r1.map_values(f).push(f(a)));
        assert(o2.map_values(f) =~= r2.map_values(f).insert(j, f(a)));
        vstd::seq_lib::to_multiset_insert(r2.map_values(f), j, f(a));
    }
}

/// The store text does not depend on the order in which keys were added:
/// the entries are written sorted.
pub proof fn law_store_json_order_free(
    m: Map<Seq<char>, Seq<char>>,
    o1: Seq<Seq<char>>,
    o2: Seq<Seq<char>>,
    index: Seq<Seq<char>>,
)
    requires
        o1.no_duplicates(),
        o2.no_duplicates(),
        o1.to_set() == m.dom(),
        o2.to_set() == m.dom(),
    ensures
        store_json(m, o1, index) == store_json(m, o2, index),
{
    let f = |k: Seq<char>| entry_text(k, m[k]);
    lemma_same_keys_same_multiset(o1, o2);
    lemma_map_keeps_multiset(o1, o2, f);
    let b1 = o1.map_values(f);
    let b2 = o2.map_values(f);
    lemma_lex_total_ordering();
    b1.lemma_sort_by_ensures(lex_order());
    b2.lemma_sort_by_ensures(lex_order());
    vstd::seq_lib::lemma_sorted_unique(b1.sort_by(lex_order()), b2.sort_by(lex_order()), lex_order());
    assert(sorted_entries(m, o1) == sorted_entries(m, o2));
}

} // verus!
