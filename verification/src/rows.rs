//! Tables as lists of rows.

use crate::text;
use vstd::prelude::*;

verus! {

/// Removes the rows that do not fit; the others stay in their order.
pub(crate) fn retain_rows<T, F: Fn(&T) -> bool>(
    rows: &mut Vec<T>,
    keep: F,
    Ghost(fits): Ghost<spec_fn(T) -> bool>,
)
    requires
        forall|t: &T| call_requires(keep, (t,)),
        forall|t: &T, b: bool| call_ensures(keep, (t,), b) ==> b == fits(*t),
    ensures
        final(rows)@ == old(rows)@.filter(fits),
{
    let ghost start = rows@;
    let ghost mut seen: int = 0;
    let mut i: usize = 0;
    proof {
        reveal(Seq::filter);
        assert(start.take(0).filter(fits) =~= Seq::<T>::empty());
        assert(rows@ =~= start.take(0).filter(fits) + start.skip(0));
    }
    while i < rows.len()
        invariant
            forall|t: &T| call_requires(keep, (t,)),
            forall|t: &T, b: bool| call_ensures(keep, (t,), b) ==> b == fits(*t),
            0 <= seen <= start.len(),
            i == start.take(seen).filter(fits).len(),
            rows@ == start.take(seen).filter(fits) + start.skip(seen),
        decreases start.len() - seen,
    {
        proof {
            reveal(Seq::filter);
            assert(start.take(seen + 1).drop_last() =~= start.take(seen));
            assert(start.skip(seen)[0] == start[seen]);
        }
        let ghost kept = start.take(seen).filter(fits);
        if keep(&rows[i]) {
            assert(rows@ =~= kept.push(start[seen]) + start.skip(seen + 1));
            i += 1;
        } else {
            rows.remove(i);
            assert(rows@ =~= kept + start.skip(seen + 1));
        }
        proof {
            seen = seen + 1;
        }
    }
    proof {
        assert(start.take(seen) =~= start);
        assert(start.skip(seen) =~= Seq::<T>::empty());
        assert(rows@ =~= start.filter(fits));
    }
}

/// Whether an id is in a list.
pub(crate) fn holds_id(ids: &[i64], id: i64) -> (r: bool)
    ensures
        r == ids@.contains(id),
{
    let mut i: usize = 0;
    while i < ids.len()
        invariant
            i <= ids@.len(),
            forall|j: int| 0 <= j < i ==> ids@[j] != id,
        decreases ids@.len() - i,
    {
        if ids[i] == id {
            return true;
        }
        i += 1;
    }
    false
}

/// The rows that references lead to.
pub open spec fn values<T>(v: Seq<&T>) -> Seq<T> {
    Seq::new(v.len(), |i: int| *v[i])
}

/// Selects the rows that fit, in their order.
pub(crate) fn select_rows<'a, T, F: Fn(&T) -> bool>(
    rows: &'a Vec<T>,
    choose_row: F,
    Ghost(fits): Ghost<spec_fn(T) -> bool>,
) -> (r: Vec<&'a T>)
    requires
        forall|t: &T| call_requires(choose_row, (t,)),
        forall|t: &T, b: bool| call_ensures(choose_row, (t,), b) ==> b == fits(*t),
    ensures
        values(r@) == rows@.filter(fits),
{
    let mut out: Vec<&'a T> = Vec::new();
    let mut i: usize = 0;
    proof {
        reveal(Seq::filter);
        assert(rows@.take(0).filter(fits) =~= Seq::<T>::empty());
        assert(values(out@) =~= Seq::<T>::empty());
    }
    while i < rows.len()
        invariant
            forall|t: &T| call_requires(choose_row, (t,)),
            forall|t: &T, b: bool| call_ensures(choose_row, (t,), b) ==> b == fits(*t),
            i <= rows@.len(),
            values(out@) == rows@.take(i as int).filter(fits),
        decreases rows@.len() - i,
    {
        proof {
            reveal(Seq::filter);
            assert(rows@.take(i + 1).drop_last() =~= rows@.take(i as int));
        }
        let ghost before = values(out@);
        if choose_row(&rows[i]) {
            out.push(&rows[i]);
            assert(values(out@) =~= before.push(rows@[i as int]));
        }
        i += 1;
    }
    assert(rows@.take(i as int) =~= rows@);
    out
}

/// The place for a row among sorted rows: before the first that it comes before.
pub open spec fn place<T>(sorted: Seq<T>, row: T, less: spec_fn(T, T) -> bool, i: int) -> int
    decreases sorted.len() - i,
{
    if i < 0 || i >= sorted.len() || less(row, sorted[i]) {
        i
    } else {
        place(sorted, row, less, i + 1)
    }
}

/// The rows in order; rows of which neither comes before the other stay in the
/// order in which they were.
pub open spec fn sorted<T>(rows: Seq<T>, less: spec_fn(T, T) -> bool) -> Seq<T>
    decreases rows.len(),
{
    if rows.len() == 0 {
        rows
    } else {
        let before = sorted(rows.drop_last(), less);
        before.insert(place(before, rows.last(), less, 0), rows.last())
    }
}

pub(crate) proof fn lemma_place<T>(
    rows: Seq<T>,
    row: T,
    less: spec_fn(T, T) -> bool,
    i: int,
)
    requires
        0 <= i <= rows.len(),
    ensures
        i <= place(rows, row, less, i) <= rows.len(),
        forall|j: int|
            i <= j < place(rows, row, less, i) ==> !less(row, #[trigger] rows[j]),
        place(rows, row, less, i) < rows.len() ==> less(row, rows[place(rows, row, less, i)]),
    decreases rows.len() - i,
{
    if i < rows.len() && !less(row, rows[i]) {
        lemma_place(rows, row, less, i + 1);
    }
}

/// Sorting makes no row up.
pub(crate) proof fn lemma_sorted_from<T>(rows: Seq<T>, less: spec_fn(T, T) -> bool)
    ensures
        sorted(rows, less).len() == rows.len(),
        forall|i: int|
            0 <= i < rows.len() ==> rows.contains(#[trigger] sorted(rows, less)[i]),
    decreases rows.len(),
{
    if rows.len() > 0 {
        let init = rows.drop_last();
        let row = rows.last();
        lemma_sorted_from(init, less);
        let before = sorted(init, less);
        let after = sorted(rows, less);
        let p = place(before, row, less, 0);
        lemma_place(before, row, less, 0);
        assert forall|i: int| 0 <= i < rows.len() implies rows.contains(#[trigger] after[i]) by {
            if i == p {
                assert(rows[rows.len() - 1] == row);
            } else {
                let u = if i < p {
                    i
                } else {
                    i - 1
                };
                assert(after[i] == before[u]);
                assert(init.contains(before[u]));
                let k = choose|k: int| 0 <= k < init.len() && init[k] == before[u];
                assert(rows[k] == before[u]);
            }
        }
    }
}

/// Sorts references to rows.
pub(crate) fn sort_refs<'a, T, F: Fn(&T, &T) -> bool>(
    rows: &Vec<&'a T>,
    is_less: F,
    Ghost(less): Ghost<spec_fn(T, T) -> bool>,
) -> (r: Vec<&'a T>)
    requires
        forall|a: &T, b: &T| call_requires(is_less, (a, b)),
        forall|a: &T, b: &T, c: bool| call_ensures(is_less, (a, b), c) ==> c == less(*a, *b),
    ensures
        values(r@) == sorted(values(rows@), less),
{
    let ghost all = values(rows@);
    let mut out: Vec<&'a T> = Vec::new();
    let mut i: usize = 0;
    proof {
        assert(all.take(0) =~= Seq::<T>::empty());
        assert(values(out@) =~= Seq::<T>::empty());
    }
    while i < rows.len()
        invariant
            forall|a: &T, b: &T| call_requires(is_less, (a, b)),
            forall|a: &T, b: &T, c: bool|
                call_ensures(is_less, (a, b), c) ==> c == less(*a, *b),
            i <= rows@.len(),
            all == values(rows@),
            values(out@) == sorted(all.take(i as int), less),
        decreases rows@.len() - i,
    {
        let row: &'a T = rows[i];
        let ghost before = values(out@);
        assert(all.take(i + 1).drop_last() =~= all.take(i as int));
        assert(all.take(i + 1).last() == *row);
        let mut pos: usize = 0;
        while pos < out.len() && !is_less(row, out[pos])
            invariant
                forall|a: &T, b: &T| call_requires(is_less, (a, b)),
                forall|a: &T, b: &T, c: bool|
                    call_ensures(is_less, (a, b), c) ==> c == less(*a, *b),
                pos <= out@.len(),
                before == values(out@),
                place(before, *row, less, 0) == place(before, *row, less, pos as int),
            decreases out@.len() - pos,
        {
            pos += 1;
        }
        out.insert(pos, row);
        assert(values(out@) =~= before.insert(pos as int, *row));
        i += 1;
    }
    assert(all.take(i as int) =~= all);
    out
}

/// Sorts rows in place.
pub(crate) fn sort_rows<T, F: Fn(&T, &T) -> bool>(
    rows: &mut Vec<T>,
    is_less: F,
    Ghost(less): Ghost<spec_fn(T, T) -> bool>,
)
    requires
        forall|a: &T, b: &T| call_requires(is_less, (a, b)),
        forall|a: &T, b: &T, c: bool| call_ensures(is_less, (a, b), c) ==> c == less(*a, *b),
    ensures
        final(rows)@ == sorted(old(rows)@, less),
{
    let ghost start = rows@;
    let total: usize = rows.len();
    let mut i: usize = 0;
    proof {
        assert(start.take(0) =~= Seq::<T>::empty());
        assert(rows@ =~= sorted(start.take(0), less) + start.skip(0));
    }
    while i < total
        invariant
            forall|a: &T, b: &T| call_requires(is_less, (a, b)),
            forall|a: &T, b: &T, c: bool|
                call_ensures(is_less, (a, b), c) ==> c == less(*a, *b),
            i <= total,
            total == start.len(),
            rows@ == sorted(start.take(i as int), less) + start.skip(i as int),
        decreases total - i,
    {
        let ghost before = sorted(start.take(i as int), less);
        proof {
            lemma_sorted_from(start.take(i as int), less);
            assert(start.take(i + 1).drop_last() =~= start.take(i as int));
            assert(start.skip(i as int)[0] == start[i as int]);
        }
        let row = rows.remove(i);
        assert(row == start[i as int]);
        assert(rows@ =~= before + start.skip(i + 1));
        let mut pos: usize = 0;
        while pos < i && !is_less(&row, &rows[pos])
            invariant
                forall|a: &T, b: &T| call_requires(is_less, (a, b)),
                forall|a: &T, b: &T, c: bool|
                    call_ensures(is_less, (a, b), c) ==> c == less(*a, *b),
                pos <= i,
                i < total,
                total == start.len(),
                before.len() == i,
                rows@ == before + start.skip(i + 1),
                place(before, row, less, 0) == place(before, row, less, pos as int),
            decreases i - pos,
        {
            assert(rows@[pos as int] == before[pos as int]);
            pos += 1;
        }
        if pos < i {
            assert(rows@[pos as int] == before[pos as int]);
        }
        assert(place(before, row, less, 0) == pos);
        rows.insert(pos, row);
        assert(rows@ =~= before.insert(pos as int, row) + start.skip(i + 1));
        i += 1;
    }
    assert(start.take(i as int) =~= start);
    assert(rows@ =~= sorted(start, less));
}

/// No row comes before an earlier one.
pub open spec fn is_sorted<T>(rows: Seq<T>, less: spec_fn(T, T) -> bool) -> bool {
    forall|i: int, j: int|
        0 <= i < j < rows.len() ==> !less(#[trigger] rows[j], #[trigger] rows[i])
}

/// The relation is the order of a text that each row has.
pub open spec fn is_text_order<T>(less: spec_fn(T, T) -> bool, key: spec_fn(T) -> Seq<char>) -> bool {
    forall|a: T, b: T| #[trigger] less(a, b) == text::precedes(key(a), key(b))
}

/// The relation is an order in which rows may be equal: of two rows at most one
/// comes before the other, and what comes before a row comes before every row
/// that does not come before it.
pub open spec fn is_order<T>(less: spec_fn(T, T) -> bool) -> bool {
    &&& forall|a: T, b: T| #[trigger] less(a, b) ==> !less(b, a)
    &&& forall|a: T, b: T, c: T|
        #[trigger] less(a, b) && !less(c, b) ==> #[trigger] less(a, c)
}

/// Sorting puts the rows in order, and keeps every row.
pub proof fn law_sorted<T>(rows: Seq<T>, less: spec_fn(T, T) -> bool)
    requires
        is_order(less),
    ensures
        is_sorted(sorted(rows, less), less),
        sorted(rows, less).to_multiset() =~= rows.to_multiset(),
    decreases rows.len(),
{
    broadcast use vstd::seq_lib::group_to_multiset_ensures;

    if rows.len() > 0 {
        let init = rows.drop_last();
        let row = rows.last();
        law_sorted(init, less);
        let before = sorted(init, less);
        let p = place(before, row, less, 0);
        lemma_place(before, row, less, 0);
        let after = before.insert(p, row);
        assert forall|i: int, j: int| 0 <= i < j < after.len() implies !less(
            #[trigger] after[j],
            #[trigger] after[i],
        ) by {
            let u = if i < p {
                i
            } else {
                i - 1
            };
            let v = if j < p {
                j
            } else {
                j - 1
            };
            if i != p && j != p {
                assert(after[i] == before[u] && after[j] == before[v]);
            } else if j == p {
                assert(after[i] == before[i]);
            } else {
                assert(after[j] == before[v]);
                assert(less(row, before[p]));
                if v > p {
                    assert(!less(before[v], before[p]));
                }
                assert(less(row, before[v]));
            }
        }
        assert(rows =~= init.push(row));
    }
}

/// Rows of which none comes before another keep their order: those of a class of
/// such rows stand in the sorted list as they stood in the list.
pub proof fn law_equal_rows_keep_their_order<T>(
    rows: Seq<T>,
    less: spec_fn(T, T) -> bool,
    class: spec_fn(T) -> bool,
)
    requires
        is_order(less),
        forall|a: T, b: T| class(a) && class(b) ==> !#[trigger] less(a, b),
    ensures
        sorted(rows, less).filter(class) == rows.filter(class),
    decreases rows.len(),
{
    reveal(Seq::filter);
    if rows.len() > 0 {
        let init = rows.drop_last();
        let row = rows.last();
        law_equal_rows_keep_their_order(init, less, class);
        law_sorted(init, less);
        let before = sorted(init, less);
        let p = place(before, row, less, 0);
        lemma_place(before, row, less, 0);
        let head = before.take(p);
        let tail = before.skip(p);
        assert(before.insert(p, row) =~= head.push(row) + tail);
        assert(before =~= head + tail);
        Seq::filter_distributes_over_add(head.push(row), tail, class);
        Seq::filter_distributes_over_add(head, tail, class);
        assert(head.push(row).drop_last() =~= head);
        if class(row) {
            assert forall|i: int| 0 <= i < tail.len() implies !class(#[trigger] tail[i]) by {
                assert(tail[i] == before[p + i]);
                assert(less(row, before[p]));
                if i > 0 {
                    assert(!less(before[p + i], before[p]));
                }
                assert(less(row, before[p + i]));
            }
            lemma_none_fits(tail, class);
            assert(head.filter(class) + tail.filter(class) =~= head.filter(class));
            assert(head.filter(class).push(row) + tail.filter(class) =~= head.filter(class).push(
                row,
            ));
        }
    }
}

proof fn lemma_none_fits<T>(rows: Seq<T>, fits: spec_fn(T) -> bool)
    requires
        forall|i: int| 0 <= i < rows.len() ==> !fits(#[trigger] rows[i]),
    ensures
        rows.filter(fits) == Seq::<T>::empty(),
    decreases rows.len(),
{
    reveal(Seq::filter);
    if rows.len() > 0 {
        let init = rows.drop_last();
        assert forall|i: int| 0 <= i < init.len() implies !fits(#[trigger] init[i]) by {
            assert(init[i] == rows[i]);
        }
        lemma_none_fits(init, fits);
        assert(!fits(rows[rows.len() - 1]));
    }
}

/// Sorting rows and then reading what they stand for is the same as sorting what
/// they stand for.
pub(crate) proof fn lemma_sorted_map<T, U>(
    rows: Seq<T>,
    less: spec_fn(T, T) -> bool,
    value: spec_fn(T) -> U,
    less_value: spec_fn(U, U) -> bool,
)
    requires
        forall|a: T, b: T| #[trigger] less(a, b) == less_value(value(a), value(b)),
    ensures
        sorted(rows, less).map_values(value) == sorted(rows.map_values(value), less_value),
    decreases rows.len(),
{
    if rows.len() > 0 {
        let init = rows.drop_last();
        let row = rows.last();
        lemma_sorted_map(init, less, value, less_value);
        let before = sorted(init, less);
        assert(rows.map_values(value).drop_last() =~= init.map_values(value));
        lemma_place_map(before, row, less, value, less_value, 0);
        lemma_place(before, row, less, 0);
        let p = place(before, row, less, 0);
        assert(before.insert(p, row).map_values(value) =~= before.map_values(value).insert(
            p,
            value(row),
        ));
    } else {
        assert(sorted(rows, less).map_values(value) =~= sorted(
            rows.map_values(value),
            less_value,
        ));
    }
}

proof fn lemma_place_map<T, U>(
    rows: Seq<T>,
    row: T,
    less: spec_fn(T, T) -> bool,
    value: spec_fn(T) -> U,
    less_value: spec_fn(U, U) -> bool,
    i: int,
)
    requires
        0 <= i <= rows.len(),
        forall|a: T, b: T| #[trigger] less(a, b) == less_value(value(a), value(b)),
    ensures
        place(rows, row, less, i) == place(rows.map_values(value), value(row), less_value, i),
    decreases rows.len() - i,
{
    if i < rows.len() {
        assert(less(row, rows[i]) == less_value(value(row), value(rows[i])));
        if !less(row, rows[i]) {
            lemma_place_map(rows, row, less, value, less_value, i + 1);
        }
    }
}

/// The order of a text is an order, forwards and backwards.
pub(crate) proof fn lemma_text_order<T>(less: spec_fn(T, T) -> bool, key: spec_fn(T) -> Seq<char>)
    requires
        is_text_order(less, key) || is_text_order(|a: T, b: T| less(b, a), key),
    ensures
        is_order(less),
{
    let back = |a: T, b: T| less(b, a);
    assert forall|a: T, b: T| #[trigger] less(a, b) implies !less(b, a) by {
        text::law_order_is_total(key(a), key(b));
        assert(back(a, b) == less(b, a) && back(b, a) == less(a, b));
    }
    assert forall|a: T, b: T, c: T|
        #[trigger] less(a, b) && !less(c, b) implies #[trigger] less(a, c) by {
        let (x, y, z) = (key(a), key(b), key(c));
        text::law_order_is_total(x, z);
        text::law_order_is_total(y, z);
        text::law_order_is_transitive(z, x, y);
        text::law_order_is_transitive(y, x, z);
        text::law_order_is_transitive(x, y, z);
        text::law_order_is_transitive(z, y, x);
        assert(back(b, a) == less(a, b) && back(b, c) == less(c, b) && back(c, a) == less(a, c));
    }
}

/// Sorting by a text puts the rows in the order of their texts, and keeps every
/// row.
pub proof fn law_sorted_by_text<T>(
    rows: Seq<T>,
    less: spec_fn(T, T) -> bool,
    key: spec_fn(T) -> Seq<char>,
)
    requires
        is_text_order(less, key),
    ensures
        is_sorted(sorted(rows, less), less),
        sorted(rows, less).to_multiset() =~= rows.to_multiset(),
{
    lemma_text_order(less, key);
    law_sorted(rows, less);
}

/// A selection from rows in order is in order.
pub proof fn law_selection_stays_in_order<T>(
    rows: Seq<T>,
    less: spec_fn(T, T) -> bool,
    fits: spec_fn(T) -> bool,
)
    requires
        is_sorted(rows, less),
    ensures
        is_sorted(rows.filter(fits), less),
    decreases rows.len(),
{
    reveal(Seq::filter);
    if rows.len() > 0 {
        let init = rows.drop_last();
        let last = rows.last();
        assert(is_sorted(init, less)) by {
            assert forall|i: int, j: int| 0 <= i < j < init.len() implies !less(
                #[trigger] init[j],
                #[trigger] init[i],
            ) by {
                assert(rows[i] == init[i] && rows[j] == init[j]);
            }
        }
        law_selection_stays_in_order(init, less, fits);
        let kept = init.filter(fits);
        if fits(last) {
            let after = kept.push(last);
            assert(rows.filter(fits) =~= after);
            assert forall|i: int, j: int| 0 <= i < j < after.len() implies !less(
                #[trigger] after[j],
                #[trigger] after[i],
            ) by {
                if j == kept.len() {
                    assert(kept.contains(kept[i]));
                    init.lemma_filter_contains_rev(fits, kept[i]);
                    let k = choose|k: int| 0 <= k < init.len() && init[k] == kept[i];
                    assert(rows[k] == kept[i]);
                    assert(rows[rows.len() - 1] == last);
                }
            }
        } else {
            assert(rows.filter(fits) =~= kept);
        }
    } else {
        assert(rows.filter(fits) =~= rows);
    }
}

// --- Selections ---

/// `at` has the positions of the rows with a value, in order, and `out` their
/// values.
pub open spec fn picks<A, B>(
    rows: Seq<A>,
    value: spec_fn(A) -> Option<B>,
    out: Seq<B>,
    at: Seq<int>,
) -> bool {
    &&& at.len() == out.len()
    &&& forall|k: int|
        0 <= k < at.len() ==> 0 <= #[trigger] at[k] < rows.len() && value(rows[at[k]]) == Some(
            out[k],
        )
    &&& forall|k: int, l: int| 0 <= k < l < at.len() ==> #[trigger] at[k] < #[trigger] at[l]
    &&& forall|i: int|
        0 <= i < rows.len() && value(#[trigger] rows[i]) is Some ==> at.contains(i)
}

/// `out` has the value of every row that has one, in the order of the rows, and
/// nothing else.
pub open spec fn is_selection<A, B>(
    rows: Seq<A>,
    value: spec_fn(A) -> Option<B>,
    out: Seq<B>,
) -> bool {
    exists|at: Seq<int>| picks(rows, value, out, at)
}

pub(crate) proof fn lemma_selection_empty<A, B>(value: spec_fn(A) -> Option<B>)
    ensures
        is_selection(Seq::empty(), value, Seq::empty()),
{
    assert(picks(Seq::empty(), value, Seq::empty(), Seq::empty()));
}

pub(crate) proof fn lemma_selection_step<A, B>(
    rows: Seq<A>,
    value: spec_fn(A) -> Option<B>,
    out: Seq<B>,
    row: A,
)
    requires
        is_selection(rows, value, out),
    ensures
        is_selection(
            rows.push(row),
            value,
            match value(row) {
                Some(b) => out.push(b),
                None => out,
            },
        ),
{
    let at = choose|at: Seq<int>| picks(rows, value, out, at);
    let more = rows.push(row);
    match value(row) {
        Some(b) => {
            let all = at.push(rows.len() as int);
            assert forall|i: int| 0 <= i < more.len() && value(#[trigger] more[i]) is Some implies all.contains(
                i,
            ) by {
                if i < rows.len() {
                    assert(more[i] == rows[i]);
                    assert(at.contains(i));
                    let k = choose|k: int| 0 <= k < at.len() && at[k] == i;
                    assert(all[k] == i);
                } else {
                    assert(all[at.len() as int] == i);
                }
            }
            assert(picks(more, value, out.push(b), all));
        },
        None => {
            assert forall|i: int| 0 <= i < more.len() && value(#[trigger] more[i]) is Some implies at.contains(
                i,
            ) by {
                assert(more[i] == rows[i]);
            }
            assert(picks(more, value, out, at));
        },
    }
}

/// What is built up row by row, adding the value of each row that has one, is a
/// selection.
pub(crate) proof fn lemma_selected<A, B>(
    rows: Seq<A>,
    value: spec_fn(A) -> Option<B>,
    built: spec_fn(int) -> Seq<B>,
)
    requires
        built(0) == Seq::<B>::empty(),
        forall|k: int|
            0 <= k < rows.len() ==> built(k + 1) == match value(#[trigger] rows[k]) {
                Some(b) => built(k).push(b),
                None => built(k),
            },
    ensures
        is_selection(rows, value, built(rows.len() as int)),
    decreases rows.len(),
{
    if rows.len() == 0 {
        lemma_selection_empty::<A, B>(value);
        assert(rows =~= Seq::empty());
    } else {
        let init = rows.drop_last();
        assert forall|k: int| 0 <= k < init.len() implies built(k + 1) == match value(
            #[trigger] init[k],
        ) {
            Some(b) => built(k).push(b),
            None => built(k),
        } by {
            assert(init[k] == rows[k]);
        }
        lemma_selected(init, value, built);
        lemma_selection_step(init, value, built(init.len() as int), rows.last());
        assert(init.push(rows.last()) =~= rows);
        assert(rows[init.len() as int] == rows.last());
    }
}

/// The rows that fit are a selection.
pub(crate) proof fn lemma_filtered<A>(rows: Seq<A>, fits: spec_fn(A) -> bool)
    ensures
        is_selection(
            rows,
            |a: A|
                if fits(a) {
                    Some(a)
                } else {
                    None
                },
            rows.filter(fits),
        ),
{
    let value = |a: A|
        if fits(a) {
            Some(a)
        } else {
            None
        };
    let built = |k: int| rows.take(k).filter(fits);
    reveal(Seq::filter);
    assert(rows.take(0) =~= Seq::empty());
    assert forall|k: int| 0 <= k < rows.len() implies built(k + 1) == match value(
        #[trigger] rows[k],
    ) {
        Some(b) => built(k).push(b),
        None => built(k),
    } by {
        assert(rows.take(k + 1).drop_last() =~= rows.take(k));
        assert(rows.take(k + 1).last() == rows[k]);
    }
    lemma_selected(rows, value, built);
    assert(rows.take(rows.len() as int) =~= rows);
}

/// The list has exactly the rows that fit, in their order.
pub open spec fn is_choice<A>(rows: Seq<A>, fits: spec_fn(A) -> bool, out: Seq<A>) -> bool {
    is_selection(
        rows,
        |a: A|
            if fits(a) {
                Some(a)
            } else {
                None
            },
        out,
    )
}

pub(crate) proof fn lemma_chosen<A>(
    rows: Seq<A>,
    fits: spec_fn(A) -> bool,
    given: spec_fn(A) -> bool,
)
    requires
        forall|i: int| 0 <= i < rows.len() ==> fits(#[trigger] rows[i]) == given(rows[i]),
    ensures
        is_choice(rows, fits, rows.filter(given)),
{
    lemma_filtered(rows, given);
    lemma_same_selection(
        rows,
        |a: A|
            if given(a) {
                Some(a)
            } else {
                None
            },
        |a: A|
            if fits(a) {
                Some(a)
            } else {
                None
            },
        rows.filter(given),
    );
}

/// Every row that fits is in the list, and every row of the list is a row that fits.
pub proof fn law_choice_is_complete<A>(rows: Seq<A>, fits: spec_fn(A) -> bool, out: Seq<A>)
    requires
        is_choice(rows, fits, out),
    ensures
        forall|i: int|
            0 <= i < rows.len() && fits(#[trigger] rows[i]) ==> out.contains(rows[i]),
        forall|k: int|
            0 <= k < out.len() ==> rows.contains(#[trigger] out[k]) && fits(out[k]),
{
    let value = |a: A|
        if fits(a) {
            Some(a)
        } else {
            None
        };
    law_selection_is_complete(rows, value, out);
    assert forall|i: int| 0 <= i < rows.len() && fits(#[trigger] rows[i]) implies out.contains(
        rows[i],
    ) by {
        assert(value(rows[i]) == Some(rows[i]));
    }
    assert forall|k: int| 0 <= k < out.len() implies rows.contains(#[trigger] out[k]) && fits(
        out[k],
    ) by {
        assert(is_value(rows, value, out[k]));
        let i = choose|i: int| 0 <= i < rows.len() && value(#[trigger] rows[i]) == Some(out[k]);
        assert(rows[i] == out[k]);
    }
}

/// Selections by the same values are the same.
pub(crate) proof fn lemma_same_selection<A, B>(
    rows: Seq<A>,
    value: spec_fn(A) -> Option<B>,
    other: spec_fn(A) -> Option<B>,
    out: Seq<B>,
)
    requires
        is_selection(rows, value, out),
        forall|i: int| 0 <= i < rows.len() ==> value(#[trigger] rows[i]) == other(rows[i]),
    ensures
        is_selection(rows, other, out),
{
    let at = choose|at: Seq<int>| picks(rows, value, out, at);
    assert forall|k: int| 0 <= k < at.len() implies 0 <= #[trigger] at[k] < rows.len() && other(
        rows[at[k]],
    ) == Some(out[k]) by {
        assert(value(rows[at[k]]) == other(rows[at[k]]));
    }
    assert(picks(rows, other, out, at));
}

/// Some row has the value.
pub open spec fn is_value<A, B>(rows: Seq<A>, value: spec_fn(A) -> Option<B>, b: B) -> bool {
    exists|i: int| 0 <= i < rows.len() && value(#[trigger] rows[i]) == Some(b)
}

/// A selection has the value of every row that has one, and each of its items is
/// the value of a row.
pub proof fn law_selection_is_complete<A, B>(
    rows: Seq<A>,
    value: spec_fn(A) -> Option<B>,
    out: Seq<B>,
)
    requires
        is_selection(rows, value, out),
    ensures
        forall|i: int|
            0 <= i < rows.len() && value(#[trigger] rows[i]) is Some ==> out.contains(
                value(rows[i])->0,
            ),
        forall|k: int|
            0 <= k < out.len() ==> is_value(rows, value, #[trigger] out[k]),
        out.len() <= rows.len(),
{
    let at = choose|at: Seq<int>| picks(rows, value, out, at);
    assert forall|i: int| 0 <= i < rows.len() && value(#[trigger] rows[i]) is Some implies out.contains(
        value(rows[i])->0,
    ) by {
        assert(at.contains(i));
        let k = choose|k: int| 0 <= k < at.len() && at[k] == i;
        assert(out[k] == value(rows[i])->0);
    }
    assert forall|k: int| 0 <= k < out.len() implies is_value(rows, value, #[trigger] out[k]) by {
        assert(value(rows[at[k]]) == Some(out[k]));
    }
    lemma_increasing_len(at, rows.len() as int);
}

proof fn lemma_increasing_len(at: Seq<int>, bound: int)
    requires
        0 <= bound,
        forall|k: int| 0 <= k < at.len() ==> 0 <= #[trigger] at[k] < bound,
        forall|k: int, l: int| 0 <= k < l < at.len() ==> #[trigger] at[k] < #[trigger] at[l],
    ensures
        at.len() <= bound,
    decreases at.len(),
{
    if at.len() > 0 {
        let init = at.drop_last();
        let last = at[at.len() - 1];
        assert forall|k: int| 0 <= k < init.len() implies 0 <= #[trigger] init[k] < last by {
            assert(at[k] < at[at.len() - 1]);
        }
        lemma_increasing_len(init, last);
    }
}

/// There is one selection only: rows and values decide it.
pub proof fn law_selection_is_unique<A, B>(
    rows: Seq<A>,
    value: spec_fn(A) -> Option<B>,
    a: Seq<B>,
    b: Seq<B>,
)
    requires
        is_selection(rows, value, a),
        is_selection(rows, value, b),
    ensures
        a == b,
{
    let x = choose|at: Seq<int>| picks(rows, value, a, at);
    let y = choose|at: Seq<int>| picks(rows, value, b, at);
    assert forall|i: int| x.contains(i) <==> y.contains(i) by {
        if x.contains(i) {
            let k = choose|k: int| 0 <= k < x.len() && x[k] == i;
            assert(value(rows[x[k]]) is Some);
        }
        if y.contains(i) {
            let k = choose|k: int| 0 <= k < y.len() && y[k] == i;
            assert(value(rows[y[k]]) is Some);
        }
    }
    lemma_same_increasing(x, y);
    assert forall|k: int| 0 <= k < a.len() implies a[k] == b[k] by {
        assert(value(rows[x[k]]) == Some(a[k]));
        assert(value(rows[y[k]]) == Some(b[k]));
    }
    assert(a =~= b);
}

proof fn lemma_same_increasing(x: Seq<int>, y: Seq<int>)
    requires
        forall|i: int| x.contains(i) <==> y.contains(i),
        forall|k: int, l: int| 0 <= k < l < x.len() ==> #[trigger] x[k] < #[trigger] x[l],
        forall|k: int, l: int| 0 <= k < l < y.len() ==> #[trigger] y[k] < #[trigger] y[l],
    ensures
        x == y,
    decreases x.len(),
{
    if x.len() == 0 {
        if y.len() > 0 {
            assert(y.contains(y[0]));
        }
        assert(x =~= y);
    } else {
        assert(x.contains(x[x.len() - 1]));
        assert(y.len() > 0);
        assert(y.contains(y[y.len() - 1]));
        let a = x.last();
        let b = y.last();
        let p = choose|p: int| 0 <= p < y.len() && y[p] == a;
        let q = choose|q: int| 0 <= q < x.len() && x[q] == b;
        if p < y.len() - 1 {
            assert(y[p] < y[y.len() - 1]);
        }
        if q < x.len() - 1 {
            assert(x[q] < x[x.len() - 1]);
        }
        assert(a == b);
        let u = x.drop_last();
        let v = y.drop_last();
        assert forall|i: int| u.contains(i) <==> v.contains(i) by {
            if u.contains(i) {
                let k = choose|k: int| 0 <= k < u.len() && u[k] == i;
                assert(x[k] < x[x.len() - 1]);
                assert(x.contains(i));
                let m = choose|m: int| 0 <= m < y.len() && y[m] == i;
                assert(v[m] == i);
            }
            if v.contains(i) {
                let k = choose|k: int| 0 <= k < v.len() && v[k] == i;
                assert(y[k] < y[y.len() - 1]);
                assert(y.contains(i));
                let m = choose|m: int| 0 <= m < x.len() && x[m] == i;
                assert(u[m] == i);
            }
        }
        lemma_same_increasing(u, v);
        assert(x =~= u.push(a));
        assert(y =~= v.push(b));
    }
}

// --- First rows ---

/// `r` is the value of the first row that has one; none where no row has.
pub open spec fn is_first<A, B>(
    rows: Seq<A>,
    value: spec_fn(A) -> Option<B>,
    r: Option<B>,
) -> bool {
    match r {
        Some(b) => exists|k: int|
            0 <= k < rows.len() && value(#[trigger] rows[k]) == Some(b) && forall|j: int|
                0 <= j < k ==> value(#[trigger] rows[j]) is None,
        None => forall|j: int| 0 <= j < rows.len() ==> value(#[trigger] rows[j]) is None,
    }
}

/// What is looked for row by row, up to the first row with a value, is the first
/// value.
pub(crate) proof fn lemma_first<A, B>(
    rows: Seq<A>,
    value: spec_fn(A) -> Option<B>,
    found: spec_fn(int) -> Option<B>,
)
    requires
        found(rows.len() as int) is None,
        forall|k: int|
            0 <= k < rows.len() ==> found(k) == match value(#[trigger] rows[k]) {
                Some(b) => Some(b),
                None => found(k + 1),
            },
    ensures
        is_first(rows, value, found(0)),
{
    lemma_first_from(rows, value, found, 0);
}

proof fn lemma_first_from<A, B>(
    rows: Seq<A>,
    value: spec_fn(A) -> Option<B>,
    found: spec_fn(int) -> Option<B>,
    i: int,
)
    requires
        0 <= i <= rows.len(),
        found(rows.len() as int) is None,
        forall|k: int|
            0 <= k < rows.len() ==> found(k) == match value(#[trigger] rows[k]) {
                Some(b) => Some(b),
                None => found(k + 1),
            },
    ensures
        match found(i) {
            Some(b) => exists|k: int|
                i <= k < rows.len() && value(#[trigger] rows[k]) == Some(b) && forall|j: int|
                    i <= j < k ==> value(#[trigger] rows[j]) is None,
            None => forall|j: int| i <= j < rows.len() ==> value(#[trigger] rows[j]) is None,
        },
    decreases rows.len() - i,
{
    if i < rows.len() {
        if value(rows[i]) is None {
            lemma_first_from(rows, value, found, i + 1);
            if let Some(b) = found(i) {
                let k = choose|k: int|
                    i + 1 <= k < rows.len() && value(#[trigger] rows[k]) == Some(b) && forall|j: int|
                        i + 1 <= j < k ==> value(#[trigger] rows[j]) is None;
                assert(value(rows[k]) == Some(b));
            }
        } else {
            assert(value(rows[i]) == found(i));
        }
    }
}

} // verus!
