//! Stable arranging of items by an order.

use vstd::prelude::*;

use crate::text;

verus! {

/// Items that can be arranged.
pub trait Ranked: Sized {
    /// The item may stand before `other`.
    spec fn not_after(&self, other: &Self) -> bool;

    /// Whether the item may stand before `other`.
    fn ranks_before(&self, other: &Self) -> (r: bool)
        ensures
            r == self.not_after(other),
    ;
}

/// `s` with `x` put behind the last item that may stand before it.
pub open spec fn inserted<T>(s: Seq<T>, x: T, le: spec_fn(T, T) -> bool) -> Seq<T>
    decreases s.len(),
{
    if s.len() == 0 || le(s.last(), x) {
        s.push(x)
    } else {
        inserted(s.drop_last(), x, le).push(s.last())
    }
}

/// The items of `s` arranged by `le`; items that may stand either way round keep
/// their order.
pub open spec fn arranged<T>(s: Seq<T>, le: spec_fn(T, T) -> bool) -> Seq<T>
    decreases s.len(),
{
    if s.len() == 0 {
        Seq::empty()
    } else {
        inserted(arranged(s.drop_last(), le), s.last(), le)
    }
}

/// Every item may stand before the ones behind it.
pub open spec fn in_order<T>(s: Seq<T>, le: spec_fn(T, T) -> bool) -> bool {
    forall|i: int, j: int| 0 <= i < j < s.len() ==> le(#[trigger] s[i], #[trigger] s[j])
}

/// `le` orders any two items, consistently.
pub open spec fn is_order<T>(le: spec_fn(T, T) -> bool) -> bool {
    &&& forall|a: T, b: T| #[trigger] le(a, b) || le(b, a)
    &&& forall|a: T, b: T, c: T| #[trigger] le(a, b) && #[trigger] le(b, c) ==> le(a, c)
}

/// The order of a type of ranked items.
pub open spec fn ranking<T: Ranked>() -> spec_fn(T, T) -> bool {
    |a: T, b: T| a.not_after(&b)
}

/// Puts `x` behind the last item of `items` that may stand before it.
fn insert_ranked<T: Ranked>(items: &mut Vec<T>, x: T)
    ensures
        final(items)@ == inserted(old(items)@, x, ranking::<T>()),
{
    let ghost all = items@;
    let ghost le = ranking::<T>();
    let mut i: usize = items.len();
    assert(all.take(i as int) =~= all);
    assert(all.skip(i as int) =~= Seq::<T>::empty());
    assert(inserted(all, x, le) =~= inserted(all.take(i as int), x, le) + all.skip(i as int));
    while i > 0 && !items[i - 1].ranks_before(&x)
        invariant
            i <= items.len(),
            items@ == all,
            le == ranking::<T>(),
            inserted(all, x, le) == inserted(all.take(i as int), x, le) + all.skip(i as int),
        decreases i,
    {
        let ghost front = all.take(i as int);
        assert(front.drop_last() =~= all.take(i - 1));
        assert(inserted(front, x, le) + all.skip(i as int) =~= inserted(all.take(i - 1), x, le)
            + all.skip(i - 1));
        i -= 1;
    }
    items.insert(i, x);
    assert(items@ =~= all.take(i as int).push(x) + all.skip(i as int));
}

/// Arranges `items`; items that may stand either way round keep their order.
pub fn arrange<T: Ranked>(items: Vec<T>) -> (r: Vec<T>)
    ensures
        r@ == arranged(items@, ranking::<T>()),
{
    let ghost all = items@;
    let ghost le = ranking::<T>();
    let mut rest = items;
    let mut out: Vec<T> = Vec::new();
    let mut n: Ghost<int> = Ghost(0);
    assert(all.skip(0) =~= all);
    assert(all.take(0) =~= Seq::<T>::empty());
    while rest.len() > 0
        invariant
            0 <= n@ <= all.len(),
            rest@ == all.skip(n@),
            le == ranking::<T>(),
            out@ == arranged(all.take(n@), le),
        decreases rest.len(),
    {
        let x = rest.remove(0);
        assert(all.take(n@ + 1).drop_last() =~= all.take(n@));
        assert(rest@ =~= all.skip(n@ + 1));
        insert_ranked(&mut out, x);
        proof {
            n@ = n@ + 1;
        }
    }
    assert(all.take(n@) =~= all);
    out
}

/// Arranging puts the items in order.
pub proof fn law_arranged_is_in_order<T>(s: Seq<T>, le: spec_fn(T, T) -> bool)
    requires
        is_order(le),
    ensures
        in_order(arranged(s, le), le),
    decreases s.len(),
{
    if s.len() > 0 {
        law_arranged_is_in_order(s.drop_last(), le);
        lemma_inserted_in_order(arranged(s.drop_last(), le), s.last(), le);
    }
}

/// Arranging neither adds nor loses an item.
pub proof fn law_arranged_keeps_items<T>(s: Seq<T>, le: spec_fn(T, T) -> bool)
    ensures
        arranged(s, le).to_multiset() == s.to_multiset(),
        arranged(s, le).len() == s.len(),
    decreases s.len(),
{
    broadcast use vstd::seq_lib::group_to_multiset_ensures;

    if s.len() > 0 {
        law_arranged_keeps_items(s.drop_last(), le);
        lemma_inserted_keeps_items(arranged(s.drop_last(), le), s.last(), le);
        assert(s.drop_last().push(s.last()) =~= s);
        assert(s.to_multiset() =~= s.drop_last().to_multiset().insert(s.last()));
    }
}

/// Arranging what is in order already changes nothing.
pub proof fn law_arranged_twice<T>(s: Seq<T>, le: spec_fn(T, T) -> bool)
    requires
        is_order(le),
    ensures
        arranged(arranged(s, le), le) == arranged(s, le),
{
    law_arranged_is_in_order(s, le);
    lemma_arranged_in_order(arranged(s, le), le);
}

proof fn lemma_arranged_in_order<T>(s: Seq<T>, le: spec_fn(T, T) -> bool)
    requires
        in_order(s, le),
    ensures
        arranged(s, le) == s,
    decreases s.len(),
{
    if s.len() > 0 {
        lemma_arranged_in_order(s.drop_last(), le);
        if s.len() > 1 {
            assert(le(s[s.len() - 2], s[s.len() - 1]));
        }
        assert(s.drop_last().push(s.last()) =~= s);
    } else {
        assert(s =~= Seq::<T>::empty());
    }
}

proof fn lemma_inserted_in_order<T>(s: Seq<T>, x: T, le: spec_fn(T, T) -> bool)
    requires
        is_order(le),
        in_order(s, le),
    ensures
        in_order(inserted(s, x, le), le),
    decreases s.len(),
{
    if s.len() == 0 {
    } else if le(s.last(), x) {
        let after = s.push(x);
        assert forall|i: int, j: int| 0 <= i < j < after.len() implies le(
            #[trigger] after[i],
            #[trigger] after[j],
        ) by {
            if j == s.len() && i < s.len() - 1 {
                assert(le(s[i], s[s.len() - 1]));
            }
        }
    } else {
        let front = s.drop_last();
        let last = s.last();
        lemma_inserted_in_order(front, x, le);
        let middle = inserted(front, x, le);
        assert(le(x, last) || le(last, x));
        lemma_inserted_elements(front, x, le);
        assert forall|i: int| 0 <= i < middle.len() implies le(#[trigger] middle[i], last) by {
            if middle[i] != x {
                let k = choose|k: int| 0 <= k < front.len() && front[k] == middle[i];
                assert(s[k] == middle[i]);
                assert(le(s[k], s[s.len() - 1]));
            }
        }
    }
}

proof fn lemma_inserted_elements<T>(s: Seq<T>, x: T, le: spec_fn(T, T) -> bool)
    ensures
        forall|i: int|
            0 <= i < inserted(s, x, le).len() ==> {
                ||| (#[trigger] inserted(s, x, le)[i]) == x
                ||| exists|k: int| 0 <= k < s.len() && s[k] == inserted(s, x, le)[i]
            },
    decreases s.len(),
{
    if s.len() == 0 || le(s.last(), x) {
        let after = s.push(x);
        assert forall|i: int| 0 <= i < after.len() implies {
            ||| (#[trigger] after[i]) == x
            ||| exists|k: int| 0 <= k < s.len() && s[k] == after[i]
        } by {
            if i < s.len() {
                assert(s[i] == after[i]);
            }
        }
    } else {
        let front = s.drop_last();
        lemma_inserted_elements(front, x, le);
        let middle = inserted(front, x, le);
        let after = middle.push(s.last());
        assert forall|i: int| 0 <= i < after.len() implies {
            ||| (#[trigger] after[i]) == x
            ||| exists|k: int| 0 <= k < s.len() && s[k] == after[i]
        } by {
            if i < middle.len() {
                assert(after[i] == middle[i]);
                if middle[i] != x {
                    let k = choose|k: int| 0 <= k < front.len() && front[k] == middle[i];
                    assert(s[k] == after[i]);
                }
            } else {
                assert(s[s.len() - 1] == after[i]);
            }
        }
    }
}

proof fn lemma_inserted_keeps_items<T>(s: Seq<T>, x: T, le: spec_fn(T, T) -> bool)
    ensures
        inserted(s, x, le).to_multiset() == s.to_multiset().insert(x),
        inserted(s, x, le).len() == s.len() + 1,
    decreases s.len(),
{
    broadcast use vstd::seq_lib::group_to_multiset_ensures;

    if s.len() == 0 || le(s.last(), x) {
        assert(s.push(x).to_multiset() =~= s.to_multiset().insert(x));
    } else {
        let front = s.drop_last();
        lemma_inserted_keeps_items(front, x, le);
        assert(front.push(s.last()) =~= s);
        assert(s.to_multiset() =~= front.to_multiset().insert(s.last()));
        assert(inserted(s, x, le).to_multiset() =~= front.to_multiset().insert(x).insert(s.last()));
        assert(front.to_multiset().insert(x).insert(s.last()) =~= front.to_multiset().insert(
            s.last(),
        ).insert(x));
    }
}

/// What is arranged comes from what was to be arranged.
pub proof fn lemma_arranged_elements<T>(s: Seq<T>, le: spec_fn(T, T) -> bool)
    ensures
        forall|x: T| #[trigger] arranged(s, le).contains(x) ==> s.contains(x),
        arranged(s, le).len() == s.len(),
{
    broadcast use vstd::seq_lib::group_to_multiset_ensures;

    law_arranged_keeps_items(s, le);
    assert forall|x: T| #[trigger] arranged(s, le).contains(x) implies s.contains(x) by {
        assert(arranged(s, le).to_multiset().count(x) > 0);
    }
}

/// Arranging commutes with a map that keeps the order of the items at hand.
pub proof fn lemma_arranged_map<T, U>(
    s: Seq<T>,
    f: spec_fn(T) -> U,
    le: spec_fn(T, T) -> bool,
    le_image: spec_fn(U, U) -> bool,
)
    requires
        forall|a: T, b: T|
            s.contains(a) && s.contains(b) ==> #[trigger] le(a, b) == le_image(f(a), f(b)),
    ensures
        arranged(s.map_values(f), le_image) == arranged(s, le).map_values(f),
    decreases s.len(),
{
    if s.len() > 0 {
        let front = s.drop_last();
        assert forall|a: T| front.contains(a) implies s.contains(a) by {
            let i = choose|i: int| 0 <= i < front.len() && front[i] == a;
            assert(s[i] == a);
        }
        lemma_arranged_map(front, f, le, le_image);
        assert(s.map_values(f).drop_last() =~= front.map_values(f));
        lemma_arranged_elements(front, le);
        assert(s.contains(s[s.len() - 1]));
        lemma_inserted_map(arranged(front, le), s.last(), f, le, le_image);
    } else {
        assert(s.map_values(f) =~= Seq::<U>::empty());
        assert(arranged(s, le).map_values(f) =~= Seq::<U>::empty());
    }
}

proof fn lemma_inserted_map<T, U>(
    s: Seq<T>,
    x: T,
    f: spec_fn(T) -> U,
    le: spec_fn(T, T) -> bool,
    le_image: spec_fn(U, U) -> bool,
)
    requires
        forall|a: T| s.contains(a) ==> #[trigger] le(a, x) == le_image(f(a), f(x)),
    ensures
        inserted(s.map_values(f), f(x), le_image) == inserted(s, x, le).map_values(f),
    decreases s.len(),
{
    if s.len() > 0 {
        assert(s.contains(s[s.len() - 1]));
    }
    if s.len() == 0 || le(s.last(), x) {
        assert(s.push(x).map_values(f) =~= s.map_values(f).push(f(x)));
    } else {
        let front = s.drop_last();
        assert forall|a: T| front.contains(a) implies #[trigger] le(a, x) == le_image(
            f(a),
            f(x),
        ) by {
            let i = choose|i: int| 0 <= i < front.len() && front[i] == a;
            assert(s[i] == a);
        }
        lemma_inserted_map(front, x, f, le, le_image);
        assert(s.map_values(f).drop_last() =~= front.map_values(f));
        assert(inserted(front, x, le).push(s.last()).map_values(f) =~= inserted(
            front,
            x,
            le,
        ).map_values(f).push(f(s.last())));
    }
}

/// The order of texts.
pub open spec fn text_order() -> spec_fn(Seq<char>, Seq<char>) -> bool {
    |a: Seq<char>, b: Seq<char>| text::lex_le(a, b)
}

/// The lexicographic order of texts is an order.
pub proof fn lemma_text_order()
    ensures
        is_order(text_order()),
{
    let le = text_order();
    assert forall|a: Seq<char>, b: Seq<char>| #[trigger] le(a, b) || le(b, a) by {
        text::lemma_lex_total(a, b);
    }
    assert forall|a: Seq<char>, b: Seq<char>, c: Seq<char>| #[trigger]
        le(a, b) && #[trigger] le(b, c) implies le(a, c) by {
        text::lemma_lex_transitive(a, b, c);
    }
}

impl Ranked for String {
    open spec fn not_after(&self, other: &Self) -> bool {
        text::lex_le(self@, other@)
    }

    fn ranks_before(&self, other: &Self) -> (r: bool) {
        text::in_order(self.as_str(), other.as_str())
    }
}

/// Arranges texts in lexicographic order.
pub fn arrange_texts(items: Vec<String>) -> (r: Vec<String>)
    ensures
        text::texts(r@) == arranged(text::texts(items@), text_order()),
{
    let ghost all = items@;
    let r = arrange(items);
    proof {
        let f = |s: String| s@;
        lemma_arranged_map(all, f, ranking::<String>(), text_order());
        assert(all.map_values(f) =~= text::texts(all));
        assert(r@.map_values(f) =~= text::texts(r@));
    }
    r
}

/// What was to be arranged is among what is arranged.
pub proof fn lemma_arranged_holds<T>(s: Seq<T>, le: spec_fn(T, T) -> bool, x: T)
    requires
        s.contains(x),
    ensures
        arranged(s, le).contains(x),
{
    broadcast use vstd::seq_lib::group_to_multiset_ensures;

    law_arranged_keeps_items(s, le);
    assert(s.to_multiset().count(x) > 0);
    assert(arranged(s, le).to_multiset().count(x) > 0);
}

/// Of distinct items the arranged ones are distinct.
pub proof fn lemma_arranged_distinct<T>(s: Seq<T>, le: spec_fn(T, T) -> bool)
    requires
        s.no_duplicates(),
    ensures
        arranged(s, le).no_duplicates(),
{
    law_arranged_keeps_items(s, le);
    s.lemma_multiset_has_no_duplicates();
    arranged(s, le).lemma_multiset_has_no_duplicates_conv();
}

/// Items that may stand in either order keep the order in which they came.
pub proof fn law_arranged_is_stable<T>(s: Seq<T>, le: spec_fn(T, T) -> bool, a: T)
    requires
        is_order(le),
    ensures
        arranged(s, le).filter(|x: T| le(x, a) && le(a, x)) == s.filter(
            |x: T| le(x, a) && le(a, x),
        ),
    decreases s.len(),
{
    let tied = |x: T| le(x, a) && le(a, x);
    if s.len() > 0 {
        law_arranged_is_stable(s.drop_last(), le, a);
        lemma_inserted_is_stable(arranged(s.drop_last(), le), s.last(), le, a);
        assert(s.filter(tied) == if tied(s.last()) {
            s.drop_last().filter(tied).push(s.last())
        } else {
            s.drop_last().filter(tied)
        }) by {
            reveal(Seq::filter);
        }
    }
}

proof fn lemma_inserted_is_stable<T>(s: Seq<T>, x: T, le: spec_fn(T, T) -> bool, a: T)
    requires
        is_order(le),
    ensures
        inserted(s, x, le).filter(|y: T| le(y, a) && le(a, y)) == if le(x, a) && le(a, x) {
            s.filter(|y: T| le(y, a) && le(a, y)).push(x)
        } else {
            s.filter(|y: T| le(y, a) && le(a, y))
        },
    decreases s.len(),
{
    reveal(Seq::filter);
    let tied = |y: T| le(y, a) && le(a, y);
    if s.len() == 0 || le(s.last(), x) {
        assert(s.push(x).drop_last() =~= s);
    } else {
        let front = s.drop_last();
        lemma_inserted_is_stable(front, x, le, a);
        let middle = inserted(front, x, le);
        assert(middle.push(s.last()).drop_last() =~= middle);
        if tied(x) && tied(s.last()) {
            assert(le(s.last(), a) && le(a, x));
        }
    }
}

} // verus!
