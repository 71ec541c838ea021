//! Orders: the order of texts by their bytes, the order of finishers, and
//! sorting by a strict order.

use crate::text::{lemma_same_bytes_same_text, str_eq};
use crate::{deep, MaleOrFemale, Record, RecordView};
use vstd::prelude::*;
use vstd::utf8::encode_utf8;

verus! {

/// `a` comes before `b` in the order of the dictionary, byte for byte: at
/// the first place where they differ `a` has the smaller byte, or `a` ends
/// there and `b` goes on.
pub open spec fn bytes_before(a: Seq<u8>, b: Seq<u8>) -> bool
    decreases a.len(),
{
    if b.len() == 0 {
        false
    } else if a.len() == 0 {
        true
    } else if a[0] != b[0] {
        a[0] < b[0]
    } else {
        bytes_before(a.drop_first(), b.drop_first())
    }
}

/// Nothing comes before itself.
pub proof fn lemma_bytes_irreflexive(a: Seq<u8>)
    ensures
        !bytes_before(a, a),
    decreases a.len(),
{
    if a.len() > 0 {
        lemma_bytes_irreflexive(a.drop_first());
    }
}

/// What comes before something that comes before a third comes before the
/// third.
pub proof fn lemma_bytes_transitive(a: Seq<u8>, b: Seq<u8>, c: Seq<u8>)
    requires
        bytes_before(a, b),
        bytes_before(b, c),
    ensures
        bytes_before(a, c),
    decreases a.len(),
{
    if a.len() > 0 && b.len() > 0 && c.len() > 0 && a[0] == b[0] && b[0] == c[0] {
        lemma_bytes_transitive(a.drop_first(), b.drop_first(), c.drop_first());
    }
}

/// Of two different texts one comes before the other.
pub proof fn lemma_bytes_total(a: Seq<u8>, b: Seq<u8>)
    ensures
        bytes_before(a, b) || bytes_before(b, a) || a == b,
    decreases a.len(),
{
    if a.len() > 0 && b.len() > 0 && a[0] == b[0] {
        lemma_bytes_total(a.drop_first(), b.drop_first());
        if a.drop_first() == b.drop_first() {
            assert(a =~= seq![a[0]] + a.drop_first());
            assert(b =~= seq![b[0]] + b.drop_first());
        }
    } else if a.len() == 0 && b.len() == 0 {
        assert(a =~= b);
    }
}

/// The order after a common beginning is the order of the rests.
proof fn lemma_bytes_skip(a: Seq<u8>, b: Seq<u8>, k: int)
    requires
        0 <= k <= a.len(),
        k <= b.len(),
        a.subrange(0, k) == b.subrange(0, k),
    ensures
        bytes_before(a, b) == bytes_before(
            a.subrange(k, a.len() as int),
            b.subrange(k, b.len() as int),
        ),
    decreases k,
{
    if k == 0 {
        assert(a.subrange(0, a.len() as int) =~= a);
        assert(b.subrange(0, b.len() as int) =~= b);
    } else {
        assert(a[0] == a.subrange(0, k)[0]);
        assert(b[0] == b.subrange(0, k)[0]);
        assert(a.drop_first().subrange(0, k - 1) =~= a.subrange(0, k).drop_first());
        assert(b.drop_first().subrange(0, k - 1) =~= b.subrange(0, k).drop_first());
        lemma_bytes_skip(a.drop_first(), b.drop_first(), k - 1);
        assert(a.drop_first().subrange(k - 1, a.len() - 1) =~= a.subrange(k, a.len() as int));
        assert(b.drop_first().subrange(k - 1, b.len() - 1) =~= b.subrange(k, b.len() as int));
    }
}

/// Whether `a` comes before `b` in the order of the dictionary, byte for
/// byte.
pub fn bytes_less(a: &[u8], b: &[u8]) -> (r: bool)
    ensures
        r == bytes_before(a@, b@),
{
    let mut k: usize = 0;
    while k < a.len() && k < b.len()
        invariant
            k <= a.len(),
            k <= b.len(),
            a@.subrange(0, k as int) == b@.subrange(0, k as int),
        decreases a.len() - k,
    {
        if a[k] != b[k] {
            proof {
                lemma_bytes_skip(a@, b@, k as int);
            }
            return a[k] < b[k];
        }
        proof {
            assert(a@.subrange(0, k + 1) =~= a@.subrange(0, k as int).push(a@[k as int]));
            assert(b@.subrange(0, k + 1) =~= b@.subrange(0, k as int).push(b@[k as int]));
        }
        k += 1;
    }
    proof {
        lemma_bytes_skip(a@, b@, k as int);
    }
    k < b.len()
}

/// `a` comes before `b` in the order of texts, which is that of their
/// UTF-8 bytes.
pub open spec fn text_before(a: Seq<char>, b: Seq<char>) -> bool {
    bytes_before(encode_utf8(a), encode_utf8(b))
}

/// Whether `a` comes before `b` in the order of texts.
pub fn text_less(a: &str, b: &str) -> (r: bool)
    ensures
        r == text_before(a@, b@),
{
    bytes_less(a.as_bytes(), b.as_bytes())
}

/// A strict order on the values of a type, decided on the values as
/// specifications see them.
pub trait Ordered: DeepView + Sized {
    /// `a` comes before `b`.
    spec fn before(a: Self::V, b: Self::V) -> bool;

    /// Whether `self` comes before `other`.
    fn is_before(&self, other: &Self) -> (r: bool)
        ensures
            r == Self::before(self.deep_view(), other.deep_view()),
    ;

    /// Nothing comes before itself.
    proof fn lemma_irreflexive(a: Self::V)
        ensures
            !Self::before(a, a),
    ;

    /// What comes before something that comes before a third comes before
    /// the third.
    proof fn lemma_transitive(a: Self::V, b: Self::V, c: Self::V)
        requires
            Self::before(a, b),
            Self::before(b, c),
        ensures
            Self::before(a, c),
    ;
}

/// Of any two different values of `items` one comes before the other.
pub open spec fn total_among<T: Ordered>(items: Seq<T::V>) -> bool {
    forall|i: int, j: int|
        0 <= i < items.len() && 0 <= j < items.len() ==> T::before(
            #[trigger] items[i],
            #[trigger] items[j],
        ) || T::before(items[j], items[i]) || items[i] == items[j]
}

/// Each of `items` comes before all that follow it.
pub open spec fn strictly_sorted<T: Ordered>(items: Seq<T::V>) -> bool {
    forall|i: int, j: int| 0 <= i < j < items.len() ==> T::before(#[trigger] items[i], #[trigger] items[j])
}

/// `sorted` holds the values of `items`, each once, in order.
pub open spec fn is_sorted_of<T: Ordered>(sorted: Seq<T::V>, items: Seq<T::V>) -> bool {
    &&& strictly_sorted::<T>(sorted)
    &&& forall|x: T::V| sorted.contains(x) <==> items.contains(x)
}

/// The values of `items`, each once, in order.
pub open spec fn sorted_of<T: Ordered>(items: Seq<T::V>) -> Seq<T::V> {
    choose|sorted: Seq<T::V>| is_sorted_of::<T>(sorted, items)
}

/// Two sequences in strict order that hold the same values are the same
/// sequence.
pub proof fn lemma_sorted_unique<T: Ordered>(a: Seq<T::V>, b: Seq<T::V>)
    requires
        strictly_sorted::<T>(a),
        strictly_sorted::<T>(b),
        forall|x: T::V| a.contains(x) <==> b.contains(x),
    ensures
        a == b,
    decreases a.len(),
{
    if a.len() == 0 {
        if b.len() > 0 {
            assert(b.contains(b[0]));
            assert(a.contains(b[0]));
        }
        assert(a =~= b);
    } else {
        let top = a.last();
        assert(a.contains(top));
        assert(b.contains(top));
        let j = choose|j: int| 0 <= j < b.len() && b[j] == top;
        if j < b.len() - 1 {
            let other = b.last();
            assert(T::before(b[j], other));
            assert(b.contains(other));
            assert(a.contains(other));
            let i = choose|i: int| 0 <= i < a.len() && a[i] == other;
            if i < a.len() - 1 {
                assert(T::before(a[i], top));
                T::lemma_transitive(other, top, other);
            }
            T::lemma_irreflexive(other);
        }
        let a0 = a.drop_last();
        let b0 = b.drop_last();
        assert forall|x: T::V| a0.contains(x) <==> b0.contains(x) by {
            if a0.contains(x) {
                let i = choose|i: int| 0 <= i < a0.len() && a0[i] == x;
                assert(a[i] == x);
                assert(T::before(a[i], top));
                assert(a.contains(x));
                assert(b.contains(x));
                let k = choose|k: int| 0 <= k < b.len() && b[k] == x;
                if k == b.len() - 1 {
                    T::lemma_irreflexive(top);
                }
                assert(b0[k] == x);
            }
            if b0.contains(x) {
                let k = choose|k: int| 0 <= k < b0.len() && b0[k] == x;
                assert(b[k] == x);
                assert(T::before(b[k], top));
                assert(b.contains(x));
                assert(a.contains(x));
                let i = choose|i: int| 0 <= i < a.len() && a[i] == x;
                if i == a.len() - 1 {
                    T::lemma_irreflexive(top);
                }
                assert(a0[i] == x);
            }
        }
        assert(strictly_sorted::<T>(a0)) by {
            assert forall|i: int, k: int| 0 <= i < k < a0.len() implies T::before(
                #[trigger] a0[i],
                #[trigger] a0[k],
            ) by {
                assert(a0[i] == a[i] && a0[k] == a[k]);
            }
        }
        assert(strictly_sorted::<T>(b0)) by {
            assert forall|i: int, k: int| 0 <= i < k < b0.len() implies T::before(
                #[trigger] b0[i],
                #[trigger] b0[k],
            ) by {
                assert(b0[i] == b[i] && b0[k] == b[k]);
            }
        }
        lemma_sorted_unique::<T>(a0, b0);
        assert(a =~= a0.push(top));
        assert(b =~= b0.push(top));
    }
}

/// What holds the values of `items`, each once, in order, is what
/// `sorted_of` names.
pub proof fn lemma_sorted_of<T: Ordered>(sorted: Seq<T::V>, items: Seq<T::V>)
    requires
        is_sorted_of::<T>(sorted, items),
    ensures
        sorted == sorted_of::<T>(items),
        is_sorted_of::<T>(sorted_of::<T>(items), items),
{
    lemma_sorted_unique::<T>(sorted, sorted_of::<T>(items));
}

/// The place of `x` in a sequence in strict order, with every value of
/// which `x` can be compared and none of which it is: all before the place
/// come before `x`, and `x` comes before all from the place on.
proof fn lemma_place<T: Ordered>(sorted: Seq<T::V>, x: T::V) -> (place: int)
    requires
        strictly_sorted::<T>(sorted),
        forall|j: int|
            0 <= j < sorted.len() ==> T::before(#[trigger] sorted[j], x) || T::before(
                x,
                sorted[j],
            ),
    ensures
        0 <= place <= sorted.len(),
        forall|j: int| 0 <= j < place ==> T::before(#[trigger] sorted[j], x),
        forall|j: int| place <= j < sorted.len() ==> T::before(x, #[trigger] sorted[j]),
    decreases sorted.len(),
{
    if sorted.len() == 0 {
        0
    } else if T::before(sorted.last(), x) {
        assert forall|j: int| 0 <= j < sorted.len() implies T::before(#[trigger] sorted[j], x) by {
            if j < sorted.len() - 1 {
                assert(T::before(sorted[j], sorted[sorted.len() - 1]));
                T::lemma_transitive(sorted[j], sorted.last(), x);
            }
        }
        sorted.len() as int
    } else {
        let head = sorted.drop_last();
        assert forall|i: int, j: int| 0 <= i < j < head.len() implies T::before(
            #[trigger] head[i],
            #[trigger] head[j],
        ) by {
            assert(head[i] == sorted[i] && head[j] == sorted[j]);
        }
        assert forall|j: int| 0 <= j < head.len() implies T::before(#[trigger] head[j], x)
            || T::before(x, head[j]) by {
            assert(head[j] == sorted[j]);
        }
        let place = lemma_place::<T>(head, x);
        assert forall|j: int| 0 <= j < place implies T::before(#[trigger] sorted[j], x) by {
            assert(head[j] == sorted[j]);
        }
        assert forall|j: int| place <= j < sorted.len() implies T::before(
            x,
            #[trigger] sorted[j],
        ) by {
            if j < head.len() {
                assert(head[j] == sorted[j]);
            }
        }
        place
    }
}

/// A sequence that holds the values of `items`, each once, in order.
proof fn lemma_sorted_exists<T: Ordered>(items: Seq<T::V>) -> (sorted: Seq<T::V>)
    requires
        total_among::<T>(items),
    ensures
        is_sorted_of::<T>(sorted, items),
    decreases items.len(),
{
    if items.len() == 0 {
        let sorted = Seq::<T::V>::empty();
        assert forall|x: T::V| sorted.contains(x) <==> items.contains(x) by {
            if items.contains(x) {
                let i = choose|i: int| 0 <= i < items.len() && items[i] == x;
            }
        }
        sorted
    } else {
        let head = items.drop_last();
        let x = items.last();
        assert forall|i: int, j: int| 0 <= i < head.len() && 0 <= j < head.len() implies T::before(
            #[trigger] head[i],
            #[trigger] head[j],
        ) || T::before(head[j], head[i]) || head[i] == head[j] by {
            assert(head[i] == items[i] && head[j] == items[j]);
        }
        let before = lemma_sorted_exists::<T>(head);
        assert forall|y: T::V| items.contains(y) <==> (head.contains(y) || y == x) by {
            if items.contains(y) {
                let i = choose|i: int| 0 <= i < items.len() && items[i] == y;
                if i < head.len() {
                    assert(head[i] == y);
                }
            }
            if head.contains(y) {
                let i = choose|i: int| 0 <= i < head.len() && head[i] == y;
                assert(items[i] == y);
            }
            if y == x {
                assert(items[items.len() - 1] == y);
            }
        }
        if before.contains(x) {
            before
        } else {
            assert forall|j: int| 0 <= j < before.len() implies T::before(#[trigger] before[j], x)
                || T::before(x, before[j]) by {
                assert(before.contains(before[j]));
                assert(head.contains(before[j]));
                let i = choose|i: int| 0 <= i < head.len() && head[i] == before[j];
                assert(items[i] == before[j]);
                assert(T::before(items[i], items[items.len() - 1]) || T::before(
                    items[items.len() - 1],
                    items[i],
                ) || items[i] == items[items.len() - 1]);
            }
            let place = lemma_place::<T>(before, x);
            let sorted = before.insert(place, x);
            assert forall|i: int, j: int| 0 <= i < j < sorted.len() implies T::before(
                #[trigger] sorted[i],
                #[trigger] sorted[j],
            ) by {
                if j < place {
                    assert(sorted[i] == before[i] && sorted[j] == before[j]);
                } else if j == place {
                    assert(sorted[i] == before[i]);
                } else if i == place {
                    assert(sorted[j] == before[j - 1]);
                } else if i < place {
                    assert(sorted[i] == before[i] && sorted[j] == before[j - 1]);
                } else {
                    assert(sorted[i] == before[i - 1] && sorted[j] == before[j - 1]);
                }
            }
            assert forall|y: T::V| sorted.contains(y) <==> (before.contains(y) || y == x) by {
                if sorted.contains(y) {
                    let i = choose|i: int| 0 <= i < sorted.len() && sorted[i] == y;
                    if i < place {
                        assert(before[i] == y);
                    } else if i > place {
                        assert(before[i - 1] == y);
                    }
                }
                if before.contains(y) {
                    let i = choose|i: int| 0 <= i < before.len() && before[i] == y;
                    if i < place {
                        assert(sorted[i] == y);
                    } else {
                        assert(sorted[i + 1] == y);
                    }
                }
                if y == x {
                    assert(sorted[place] == y);
                }
            }
            sorted
        }
    }
}

/// Values among which the order is total can be put in order: `sorted_of`
/// holds them, each once, each before all that follow it.
pub proof fn lemma_sorted_of_is_sorted<T: Ordered>(items: Seq<T::V>)
    requires
        total_among::<T>(items),
    ensures
        is_sorted_of::<T>(sorted_of::<T>(items), items),
{
    let sorted = lemma_sorted_exists::<T>(items);
    lemma_sorted_of::<T>(sorted, items);
}

/// Where no value stands twice in `items`, what holds them in order is as
/// long as `items`, and holds no value twice either.
pub proof fn lemma_sorted_length<T: Ordered>(sorted: Seq<T::V>, items: Seq<T::V>)
    requires
        is_sorted_of::<T>(sorted, items),
        items.no_duplicates(),
    ensures
        sorted.no_duplicates(),
        sorted.len() == items.len(),
{
    assert forall|i: int, j: int|
        0 <= i < sorted.len() && 0 <= j < sorted.len() && i != j implies sorted[i]
        != sorted[j] by {
        if i < j {
            assert(T::before(sorted[i], sorted[j]));
        } else {
            assert(T::before(sorted[j], sorted[i]));
        }
        T::lemma_irreflexive(sorted[i]);
    }
    sorted.unique_seq_to_set();
    items.unique_seq_to_set();
    assert(sorted.to_set() =~= items.to_set());
}

/// `items` in order, each value once.
pub fn sorted_distinct<T: Ordered>(items: Vec<T>) -> (out: Vec<T>)
    requires
        total_among::<T>(items.deep_view()),
    ensures
        is_sorted_of::<T>(out.deep_view(), items.deep_view()),
        out.deep_view() == sorted_of::<T>(items.deep_view()),
{
    let ghost all = items.deep_view();
    let mut rest = items;
    let mut out: Vec<T> = Vec::new();
    proof {
        assert(rest.deep_view() =~= all);
    }
    loop
        invariant
            total_among::<T>(all),
            strictly_sorted::<T>(out.deep_view()),
            forall|x: T::V|
                all.contains(x) <==> (out.deep_view().contains(x) || rest.deep_view().contains(x)),
        ensures
            strictly_sorted::<T>(out.deep_view()),
            forall|x: T::V| out.deep_view().contains(x) <==> all.contains(x),
        decreases rest.len(),
    {
        let ghost rest_before = rest.deep_view();
        let ghost out_before = out.deep_view();
        let item = match rest.pop() {
            Some(item) => item,
            None => {
                proof {
                    assert forall|x: T::V| !rest.deep_view().contains(x) by {
                        if rest.deep_view().contains(x) {
                            let i = choose|i: int|
                                0 <= i < rest.deep_view().len() && rest.deep_view()[i] == x;
                        }
                    }
                }
                break ;
            },
        };
        proof {
            assert(rest_before =~= rest.deep_view().push(item.deep_view()));
            assert forall|x: T::V|
                rest_before.contains(x) <==> (rest.deep_view().contains(x) || x
                    == item.deep_view()) by {
                if rest_before.contains(x) {
                    let i = choose|i: int| 0 <= i < rest_before.len() && rest_before[i] == x;
                    if i < rest.deep_view().len() {
                        assert(rest.deep_view()[i] == x);
                    }
                }
                if rest.deep_view().contains(x) {
                    let i = choose|i: int|
                        0 <= i < rest.deep_view().len() && rest.deep_view()[i] == x;
                    assert(rest_before[i] == x);
                }
                if x == item.deep_view() {
                    assert(rest_before[rest_before.len() - 1] == x);
                }
            }
        }
        proof {
            assert(all.contains(item.deep_view()));
            assert forall|j: int| 0 <= j < out_before.len() implies T::before(
                item.deep_view(),
                #[trigger] out_before[j],
            ) || T::before(out_before[j], item.deep_view()) || item.deep_view()
                == out_before[j] by {
                assert(out_before.contains(out_before[j]));
                assert(all.contains(out_before[j]));
                let x = choose|x: int| 0 <= x < all.len() && all[x] == item.deep_view();
                let y = choose|y: int| 0 <= y < all.len() && all[y] == out_before[j];
                assert(T::before(all[x], all[y]) || T::before(all[y], all[x]) || all[x]
                    == all[y]);
            }
        }
        let mut at: usize = 0;
        while at < out.len() && out[at].is_before(&item)
            invariant
                at <= out.len(),
                out.deep_view() == out_before,
                forall|j: int|
                    0 <= j < at ==> T::before(#[trigger] out.deep_view()[j], item.deep_view()),
            decreases out.len() - at,
        {
            at += 1;
        }
        if at < out.len() && !item.is_before(&out[at]) {
            proof {
                assert(out_before[at as int] == item.deep_view());
                assert(out.deep_view().contains(item.deep_view()));
            }
        } else {
            proof {
                let v = item.deep_view();
                let after = out_before.insert(at as int, v);
                assert(deep(out@.insert(at as int, item)) =~= after);
                assert forall|i: int, j: int| 0 <= i < j < after.len() implies T::before(
                    #[trigger] after[i],
                    #[trigger] after[j],
                ) by {
                    if j < at {
                        assert(after[i] == out_before[i] && after[j] == out_before[j]);
                    } else if j == at {
                        assert(after[i] == out_before[i]);
                    } else if i == at {
                        assert(after[j] == out_before[j - 1]);
                        if j - 1 > at {
                            if v != out_before[at as int] {
                                T::lemma_transitive(v, out_before[at as int], out_before[j - 1]);
                            }
                        }
                    } else if i < at {
                        assert(after[i] == out_before[i] && after[j] == out_before[j - 1]);
                    } else {
                        assert(after[i] == out_before[i - 1] && after[j] == out_before[j - 1]);
                    }
                }
                assert forall|x: T::V| after.contains(x) <==> (out_before.contains(x) || x == v) by {
                    if after.contains(x) {
                        let i = choose|i: int| 0 <= i < after.len() && after[i] == x;
                        if i < at {
                            assert(out_before[i] == x);
                        } else if i > at {
                            assert(out_before[i - 1] == x);
                        }
                    }
                    if out_before.contains(x) {
                        let i = choose|i: int| 0 <= i < out_before.len() && out_before[i] == x;
                        if i < at {
                            assert(after[i] == x);
                        } else {
                            assert(after[i + 1] == x);
                        }
                    }
                    if x == v {
                        assert(after[at as int] == x);
                    }
                }
            }
            out.insert(at, item);
            proof {
                assert(out.deep_view() =~= deep(out@));
            }
        }
    }
    proof {
        let chosen = sorted_of::<T>(all);
        assert(is_sorted_of::<T>(out.deep_view(), all));
        lemma_sorted_unique::<T>(out.deep_view(), chosen);
    }
    out
}

/// The place of a category among the categories, an absent one first.
pub open spec fn category_rank(category: Option<MaleOrFemale>) -> nat {
    match category {
        None => 0,
        Some(MaleOrFemale::Male) => 1,
        Some(MaleOrFemale::Female) => 2,
        Some(MaleOrFemale::NonBinary) => 3,
    }
}

/// The place of a category among the categories.
fn rank_of(category: Option<MaleOrFemale>) -> (rank: u8)
    ensures
        rank == category_rank(category),
{
    match category {
        None => 0,
        Some(MaleOrFemale::Male) => 1,
        Some(MaleOrFemale::Female) => 2,
        Some(MaleOrFemale::NonBinary) => 3,
    }
}

/// The order of finishers: by name; under one name by time, the shorter
/// first; under one name and time by category, an absent one first.
pub open spec fn record_before(a: RecordView, b: RecordView) -> bool {
    if a.name != b.name {
        text_before(a.name, b.name)
    } else if a.nanos != b.nanos {
        a.nanos < b.nanos
    } else {
        category_rank(a.category) < category_rank(b.category)
    }
}

impl Ordered for Record {
    open spec fn before(a: RecordView, b: RecordView) -> bool {
        record_before(a, b)
    }

    fn is_before(&self, other: &Record) -> (r: bool) {
        if !str_eq(self.name.as_str(), other.name.as_str()) {
            text_less(self.name.as_str(), other.name.as_str())
        } else if !self.duration.is_same(&other.duration) {
            self.duration.is_less(&other.duration)
        } else {
            rank_of(self.category) < rank_of(other.category)
        }
    }

    proof fn lemma_irreflexive(a: RecordView) {
    }

    proof fn lemma_transitive(a: RecordView, b: RecordView, c: RecordView) {
        if a.name != b.name && b.name != c.name {
            lemma_bytes_transitive(encode_utf8(a.name), encode_utf8(b.name), encode_utf8(c.name));
            lemma_bytes_irreflexive(encode_utf8(a.name));
        }
    }

}

/// Of two different finishers one comes before the other.
pub proof fn lemma_record_total(a: RecordView, b: RecordView)
    ensures
        record_before(a, b) || record_before(b, a) || a == b,
{
    if a.name != b.name {
        lemma_bytes_total(encode_utf8(a.name), encode_utf8(b.name));
        if encode_utf8(a.name) == encode_utf8(b.name) {
            lemma_same_bytes_same_text(a.name, b.name);
        }
    }
}

/// `records` in the order of finishers, each once.
pub fn sort_and_dedup(records: Vec<Record>) -> (out: Vec<Record>)
    ensures
        is_sorted_of::<Record>(out.deep_view(), records.deep_view()),
        out.deep_view() == sorted_of::<Record>(records.deep_view()),
{
    proof {
        let all = records.deep_view();
        assert forall|i: int, j: int| 0 <= i < all.len() && 0 <= j < all.len() implies record_before(
            #[trigger] all[i],
            #[trigger] all[j],
        ) || record_before(all[j], all[i]) || all[i] == all[j] by {
            lemma_record_total(all[i], all[j]);
        }
    }
    sorted_distinct(records)
}

} // verus!
