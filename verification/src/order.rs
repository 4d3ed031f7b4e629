//! The order of texts: character by character, as a dictionary has it.
use vstd::prelude::*;

use crate::text;

verus! {

/// Whether `a` stands before `b` or is the same: the first characters in which they differ decide,
/// and a text stands before any longer one that starts with it.
pub open spec fn at_most(a: Seq<char>, b: Seq<char>) -> bool
    decreases a.len(),
{
    if a.len() == 0 {
        true
    } else if b.len() == 0 {
        false
    } else if a[0] != b[0] {
        a[0] < b[0]
    } else {
        at_most(a.drop_first(), b.drop_first())
    }
}

/// `at_most` as a relation.
pub open spec fn text_order() -> spec_fn(Seq<char>, Seq<char>) -> bool {
    |a: Seq<char>, b: Seq<char>| at_most(a, b)
}

/// The texts in order.
pub open spec fn in_order(texts: Seq<Seq<char>>) -> Seq<Seq<char>> {
    texts.sort_by(text_order())
}

proof fn lemma_at_most_reflexive(a: Seq<char>)
    ensures
        at_most(a, a),
    decreases a.len(),
{
    if a.len() > 0 {
        lemma_at_most_reflexive(a.drop_first());
    }
}

proof fn lemma_at_most_antisymmetric(a: Seq<char>, b: Seq<char>)
    requires
        at_most(a, b),
        at_most(b, a),
    ensures
        a == b,
    decreases a.len(),
{
    if a.len() > 0 && b.len() > 0 {
        lemma_at_most_antisymmetric(a.drop_first(), b.drop_first());
        assert(a =~= seq![a[0]] + a.drop_first());
        assert(b =~= seq![b[0]] + b.drop_first());
    } else {
        assert(a =~= b);
    }
}

proof fn lemma_at_most_transitive(a: Seq<char>, b: Seq<char>, c: Seq<char>)
    requires
        at_most(a, b),
        at_most(b, c),
    ensures
        at_most(a, c),
    decreases a.len(),
{
    if a.len() > 0 && a[0] == b[0] && b[0] == c[0] {
        lemma_at_most_transitive(a.drop_first(), b.drop_first(), c.drop_first());
    }
}

proof fn lemma_at_most_total(a: Seq<char>, b: Seq<char>)
    ensures
        at_most(a, b) || at_most(b, a),
    decreases a.len(),
{
    if a.len() > 0 && b.len() > 0 && a[0] == b[0] {
        lemma_at_most_total(a.drop_first(), b.drop_first());
    }
}

/// Any two texts are in order one way or the other, and both ways only if they are the same.
pub proof fn law_text_order_is_total()
    ensures
        vstd::relations::total_ordering(text_order()),
{
    let r = text_order();
    assert forall|x: Seq<char>| #[trigger] r(x, x) by {
        lemma_at_most_reflexive(x);
    }
    assert forall|x: Seq<char>, y: Seq<char>| #[trigger] r(x, y) && #[trigger] r(y, x) implies x
        == y by {
        lemma_at_most_antisymmetric(x, y);
    }
    assert forall|x: Seq<char>, y: Seq<char>, z: Seq<char>| #[trigger]
        r(x, y) && #[trigger] r(y, z) implies r(x, z) by {
        lemma_at_most_transitive(x, y, z);
    }
    assert forall|x: Seq<char>, y: Seq<char>| #[trigger] r(x, y) || #[trigger] r(y, x) by {
        lemma_at_most_total(x, y);
    }
}

/// The order of a list of texts does not depend on how the list was ordered before.
pub proof fn law_order_forgets_the_list(a: Seq<Seq<char>>, b: Seq<Seq<char>>)
    requires
        a.to_multiset() == b.to_multiset(),
    ensures
        in_order(a) == in_order(b),
{
    law_text_order_is_total();
    a.lemma_sort_by_ensures(text_order());
    b.lemma_sort_by_ensures(text_order());
    vstd::seq_lib::lemma_sorted_unique(in_order(a), in_order(b), text_order());
}

/// A text stands before another, or is the same, exactly if the other starts with it or has a
/// greater character at the first place where they differ.
pub proof fn law_first_difference_decides(a: Seq<char>, b: Seq<char>)
    ensures
        at_most(a, b) <==> {
            ||| a.is_prefix_of(b)
            ||| exists|i: int|
                0 <= i < a.len() && i < b.len() && a.take(i) == b.take(i) && (#[trigger] a[i]) < b[i]
        },
    decreases a.len(),
{
    if a.len() == 0 {
        assert(a =~= b.subrange(0, 0));
    } else if b.len() > 0 {
        if a[0] != b[0] {
            if a.is_prefix_of(b) {
                assert(a[0] == b.subrange(0, a.len() as int)[0]);
            }
            assert(a.take(0) =~= b.take(0));
            if exists|i: int|
                0 <= i < a.len() && i < b.len() && a.take(i) == b.take(i) && (#[trigger] a[i]) < b[i] {
                let i = choose|i: int|
                    0 <= i < a.len() && i < b.len() && a.take(i) == b.take(i) && (#[trigger] a[i])
                        < b[i];
                if i > 0 {
                    assert(a.take(i)[0] == b.take(i)[0]);
                }
            }
        } else {
            let x = a.drop_first();
            let y = b.drop_first();
            law_first_difference_decides(x, y);
            if a.is_prefix_of(b) {
                assert(x =~= y.subrange(0, x.len() as int)) by {
                    assert forall|i: int| 0 <= i < x.len() implies x[i] == y[i] by {
                        assert(a[i + 1] == b.subrange(0, a.len() as int)[i + 1]);
                    }
                }
            }
            if x.is_prefix_of(y) {
                assert(a =~= b.subrange(0, a.len() as int)) by {
                    assert forall|i: int| 0 <= i < a.len() implies a[i] == b[i] by {
                        if i > 0 {
                            assert(x[i - 1] == y.subrange(0, x.len() as int)[i - 1]);
                        }
                    }
                }
            }
            if exists|i: int|
                0 <= i < a.len() && i < b.len() && a.take(i) == b.take(i) && (#[trigger] a[i]) < b[i] {
                let i = choose|i: int|
                    0 <= i < a.len() && i < b.len() && a.take(i) == b.take(i) && (#[trigger] a[i])
                        < b[i];
                assert(x[i - 1] < y[i - 1]);
                assert(x.take(i - 1) =~= a.take(i).drop_first());
                assert(y.take(i - 1) =~= b.take(i).drop_first());
            }
            if exists|i: int|
                0 <= i < x.len() && i < y.len() && x.take(i) == y.take(i) && (#[trigger] x[i]) < y[i] {
                let i = choose|i: int|
                    0 <= i < x.len() && i < y.len() && x.take(i) == y.take(i) && (#[trigger] x[i])
                        < y[i];
                assert(a[i + 1] < b[i + 1]);
                assert(a.take(i + 1) =~= seq![a[0]] + x.take(i));
                assert(b.take(i + 1) =~= seq![b[0]] + y.take(i));
            }
        }
    } else {
        if a.is_prefix_of(b) {
            assert(a.len() <= b.len());
        }
    }
}

/// The texts in order are the same texts, each as often as before, and none stands after one that
/// it should stand before.
pub proof fn law_order_keeps_the_texts(texts: Seq<Seq<char>>)
    ensures
        in_order(texts).to_multiset() == texts.to_multiset(),
        in_order(texts).len() == texts.len(),
        forall|i: int, j: int|
            0 <= i < j < texts.len() ==> at_most(
                #[trigger] in_order(texts)[i],
                #[trigger] in_order(texts)[j],
            ),
{
    law_text_order_is_total();
    texts.lemma_sort_by_ensures(text_order());
    vstd::seq_lib::to_multiset_len(texts);
    vstd::seq_lib::to_multiset_len(in_order(texts));
    assert forall|i: int, j: int| 0 <= i < j < texts.len() implies at_most(
        #[trigger] in_order(texts)[i],
        #[trigger] in_order(texts)[j],
    ) by {
        let r = text_order();
        assert(r(in_order(texts)[i], in_order(texts)[j]));
    }
}

/// Whether `a` stands before `b` or is the same.
fn is_at_most(a: &str, b: &str) -> (yes: bool)
    ensures
        yes == at_most(a@, b@),
{
    let left = text::chars_of(a);
    let right = text::chars_of(b);
    let mut i: usize = 0;
    assert(left@.skip(0) =~= left@ && right@.skip(0) =~= right@);
    while i < left.len()
        invariant
            i <= left@.len(),
            i <= right@.len(),
            left@ == a@,
            right@ == b@,
            at_most(left@.skip(i as int), right@.skip(i as int)) == at_most(left@, right@),
        decreases left@.len() - i,
    {
        if i == right.len() {
            return false;
        }
        if left[i] != right[i] {
            return left[i] < right[i];
        }
        assert(left@.skip(i as int).drop_first() =~= left@.skip(i + 1));
        assert(right@.skip(i as int).drop_first() =~= right@.skip(i + 1));
        i = i + 1;
    }
    true
}

/// The texts in order.
pub fn sort_texts<'a>(texts: &Vec<&'a str>) -> (sorted: Vec<&'a str>)
    ensures
        text::views(sorted@) == in_order(text::views(texts@)),
{
    let ghost all = text::views(texts@);
    let ghost r = text_order();
    let mut sorted: Vec<&'a str> = Vec::new();
    let mut i: usize = 0;
    proof {
        law_text_order_is_total();
        assert(text::views(sorted@) =~= all.take(0));
    }
    while i < texts.len()
        invariant
            i <= texts@.len(),
            all == text::views(texts@),
            r == text_order(),
            vstd::relations::total_ordering(r),
            vstd::relations::sorted_by(text::views(sorted@), r),
            text::views(sorted@).to_multiset() == all.take(i as int).to_multiset(),
        decreases texts@.len() - i,
    {
        let next = texts[i];
        let ghost before = text::views(sorted@);
        let mut at: usize = 0;
        while at < sorted.len() && is_at_most(sorted[at], next)
            invariant
                at <= sorted@.len(),
                before == text::views(sorted@),
                forall|j: int| 0 <= j < at ==> at_most(#[trigger] before[j], next@),
            decreases sorted@.len() - at,
        {
            assert(before[at as int] == sorted@[at as int]@);
            at = at + 1;
        }
        sorted.insert(at, next);
        proof {
            let after = text::views(sorted@);
            assert(after =~= before.insert(at as int, next@));
            if at < before.len() {
                assert(!at_most(before[at as int], next@));
                assert(r(before[at as int], next@) || r(next@, before[at as int]));
                assert(r(next@, before[at as int]));
            }
            assert forall|j: int, k: int| 0 <= j < k < after.len() implies #[trigger] r(
                after[j],
                after[k],
            ) by {
                if k < at {
                    assert(r(before[j], before[k]));
                } else if k == at {
                    assert(at_most(before[j], next@));
                } else if j < at {
                    assert(r(before[j], before[k - 1]));
                } else if j == at {
                    if k - 1 > at {
                        assert(r(before[at as int], before[k - 1]));
                        assert(r(next@, before[at as int]));
                    }
                } else {
                    assert(r(before[j - 1], before[k - 1]));
                }
            }
            vstd::seq_lib::to_multiset_insert(before, at as int, next@);
            let taken = all.take(i as int);
            vstd::seq_lib::to_multiset_build(taken, next@);
            assert(all.take(i + 1) =~= taken.push(next@));
        }
        i = i + 1;
    }
    proof {
        assert(all.take(texts@.len() as int) =~= all);
        all.lemma_sort_by_ensures(r);
        vstd::seq_lib::lemma_sorted_unique(text::views(sorted@), in_order(all), r);
    }
    sorted
}

} // verus!
