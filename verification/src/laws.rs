//! What holds of the operations on a store, proved over the model that
//! their contracts are stated with.

use crate::model::{
    creates_unused, exchanged, flip, fresh, has_id, ids_distinct, lemma_has_id_push,
    lemma_ids_distinct_push, lemma_position, lemma_position_is, lemma_position_push,
    lemma_toggled_push, lemma_without_push, names_distinct, op_id, position, run, step, toggled,
    without, Op, TodoView,
};
use vstd::prelude::*;

verus! {

/// After a creation the store holds exactly one more item: the new one,
/// last, with the title given and not completed; what was there before
/// stands unchanged in front of it.
pub proof fn law_create_appends_last(s: Seq<TodoView>, id: Seq<char>, title: Seq<char>)
    ensures
        s.push(fresh(id, title)).len() == s.len() + 1,
        s.push(fresh(id, title)).last().id == id,
        s.push(fresh(id, title)).last().title == title,
        !s.push(fresh(id, title)).last().completed,
        s.push(fresh(id, title)).drop_last() == s,
        has_id(s.push(fresh(id, title)), id),
{
    let t = s.push(fresh(id, title));
    assert(t.drop_last() =~= s);
    assert(t[s.len() as int].id == id);
}

/// A creation under an identifier that no item carries keeps the
/// identifiers distinct.
pub proof fn law_create_keeps_ids_distinct(s: Seq<TodoView>, id: Seq<char>, title: Seq<char>)
    requires
        ids_distinct(s),
        !has_id(s, id),
    ensures
        ids_distinct(s.push(fresh(id, title))),
{
    lemma_ids_distinct_push(s, fresh(id, title));
}

/// A toggle of a known identifier inverts the completion flag of the first
/// item that carries it, keeps that item's identifier and title, and
/// leaves every other item, and the length, as they were.
pub proof fn law_toggle_flips_one(s: Seq<TodoView>, id: Seq<char>)
    requires
        has_id(s, id),
    ensures
        0 <= position(s, id) < s.len(),
        toggled(s, id).len() == s.len(),
        toggled(s, id)[position(s, id)].completed == !s[position(s, id)].completed,
        toggled(s, id)[position(s, id)].id == id,
        toggled(s, id)[position(s, id)].title == s[position(s, id)].title,
        forall|j: int|
            0 <= j < s.len() && j != position(s, id) ==> #[trigger] toggled(s, id)[j] == s[j],
{
    lemma_position(s, id);
}

/// A toggle changes no identifier and no title, whatever it is given.
pub proof fn law_toggle_keeps_ids_and_titles(s: Seq<TodoView>, id: Seq<char>)
    ensures
        toggled(s, id).len() == s.len(),
        forall|j: int| 0 <= j < s.len() ==> (#[trigger] toggled(s, id)[j]).id == s[j].id,
        forall|j: int| 0 <= j < s.len() ==> (#[trigger] toggled(s, id)[j]).title == s[j].title,
        forall|other: Seq<char>| #[trigger] has_id(toggled(s, id), other) <==> has_id(s, other),
        ids_distinct(s) <==> ids_distinct(toggled(s, id)),
{
    lemma_position(s, id);
    let t = toggled(s, id);
    assert forall|other: Seq<char>| #[trigger] has_id(t, other) <==> has_id(s, other) by {
        if has_id(t, other) {
            let w = choose|w: int| 0 <= w < t.len() && (#[trigger] t[w]).id == other;
            assert(s[w].id == other);
        }
        if has_id(s, other) {
            let w = choose|w: int| 0 <= w < s.len() && (#[trigger] s[w]).id == other;
            assert(t[w].id == other);
        }
    }
    if ids_distinct(s) {
        assert forall|i: int, j: int| 0 <= i < t.len() && 0 <= j < t.len() && i != j implies
            (#[trigger] t[i]).id != (#[trigger] t[j]).id
        by {
            assert(s[i].id != s[j].id);
        }
    }
    if ids_distinct(t) {
        assert forall|i: int, j: int| 0 <= i < s.len() && 0 <= j < s.len() && i != j implies
            (#[trigger] s[i]).id != (#[trigger] s[j]).id
        by {
            assert(t[i].id != t[j].id);
        }
    }
}

/// Two toggles of one identifier, one after the other, leave the store as
/// it was.
pub proof fn law_toggle_twice(s: Seq<TodoView>, id: Seq<char>)
    ensures
        toggled(toggled(s, id), id) == s,
{
    lemma_position(s, id);
    let p = position(s, id);
    let t = toggled(s, id);
    if p < s.len() {
        assert forall|j: int| 0 <= j < p implies (#[trigger] t[j]).id != id by {
            assert(t[j] == s[j]);
        }
        lemma_position_is(t, id, p);
        assert(toggled(t, id) =~= s);
    }
}

/// An operation that names an identifier which no item carries leaves the
/// store as it was.
pub proof fn law_unknown_id_changes_nothing(s: Seq<TodoView>, id: Seq<char>)
    requires
        !has_id(s, id),
    ensures
        toggled(s, id) == s,
        without(s, id) == s,
    decreases s.len(),
{
    lemma_position(s, id);
    if s.len() == 0 {
        reveal(Seq::filter);
    } else {
        let front = s.drop_last();
        let x = s.last();
        assert(s =~= front.push(x));
        lemma_has_id_push(front, x, id);
        law_unknown_id_changes_nothing(front, id);
        lemma_without_push(front, x, id);
    }
}

/// After a removal no item carries the identifier removed; every other
/// identifier is carried afterwards exactly if it was carried before.
pub proof fn law_remove_leaves_no_such_id(s: Seq<TodoView>, id: Seq<char>)
    ensures
        !has_id(without(s, id), id),
        forall|other: Seq<char>|
            other != id ==> (#[trigger] has_id(without(s, id), other) <==> has_id(s, other)),
        toggled(without(s, id), id) == without(s, id),
    decreases s.len(),
{
    let r = without(s, id);
    if s.len() == 0 {
        reveal(Seq::filter);
        assert(r =~= s);
    } else {
        let front = s.drop_last();
        let x = s.last();
        assert(s =~= front.push(x));
        law_remove_leaves_no_such_id(front, id);
        lemma_without_push(front, x, id);
        lemma_has_id_push(without(front, id), x, id);
        assert forall|other: Seq<char>| other != id implies
            (#[trigger] has_id(r, other) <==> has_id(s, other))
        by {
            lemma_has_id_push(front, x, other);
            lemma_has_id_push(without(front, id), x, other);
        }
    }
    law_unknown_id_changes_nothing(r, id);
}

/// A removal never lengthens the store, and shortens it exactly if some
/// item carried the identifier.
pub proof fn law_remove_shortens_iff_known(s: Seq<TodoView>, id: Seq<char>)
    ensures
        without(s, id).len() <= s.len(),
        without(s, id).len() < s.len() <==> has_id(s, id),
    decreases s.len(),
{
    if s.len() == 0 {
        reveal(Seq::filter);
    } else {
        let front = s.drop_last();
        let x = s.last();
        assert(s =~= front.push(x));
        law_remove_shortens_iff_known(front, id);
        lemma_without_push(front, x, id);
        lemma_has_id_push(front, x, id);
    }
}

/// Where the identifiers are distinct, what a removal of a known
/// identifier leaves is the store with the item at its first place taken out.
proof fn lemma_without_is_remove(s: Seq<TodoView>, id: Seq<char>)
    requires
        ids_distinct(s),
        has_id(s, id),
    ensures
        0 <= position(s, id) < s.len(),
        without(s, id) == s.remove(position(s, id)),
    decreases s.len(),
{
    lemma_position(s, id);
    let front = s.drop_last();
    let x = s.last();
    let p = position(s, id);
    assert(s =~= front.push(x));
    lemma_ids_distinct_push(front, x);
    lemma_has_id_push(front, x, id);
    lemma_position_push(front, x, id);
    lemma_without_push(front, x, id);
    if x.id == id {
        law_unknown_id_changes_nothing(front, id);
        assert(p == front.len());
        assert(without(s, id) == front);
        assert(s.remove(p) =~= front);
    } else {
        lemma_without_is_remove(front, id);
        assert(p == position(front, id));
        assert(without(s, id) == front.remove(p).push(x));
        assert(s.remove(p) =~= front.remove(p).push(x));
    }
}

/// Where the identifiers are distinct, a removal of a known identifier
/// takes out exactly the one item that carries it: the store is one
/// shorter, and every other item stands where it stood relative to the
/// rest.
pub proof fn law_remove_drops_one(s: Seq<TodoView>, id: Seq<char>)
    requires
        ids_distinct(s),
        has_id(s, id),
    ensures
        0 <= position(s, id) < s.len(),
        without(s, id) == s.remove(position(s, id)),
        without(s, id).len() == s.len() - 1,
        forall|j: int| 0 <= j < position(s, id) ==> #[trigger] without(s, id)[j] == s[j],
        forall|j: int|
            position(s, id) <= j < s.len() - 1 ==> #[trigger] without(s, id)[j] == s[j + 1],
{
    lemma_without_is_remove(s, id);
    s.remove_ensures(position(s, id));
}

/// A removal keeps distinct identifiers distinct.
pub proof fn law_remove_keeps_ids_distinct(s: Seq<TodoView>, id: Seq<char>)
    requires
        ids_distinct(s),
    ensures
        ids_distinct(without(s, id)),
{
    if has_id(s, id) {
        law_remove_drops_one(s, id);
        let p = position(s, id);
        let r = without(s, id);
        assert forall|i: int, j: int| 0 <= i < r.len() && 0 <= j < r.len() && i != j implies
            (#[trigger] r[i]).id != (#[trigger] r[j]).id
        by {
            let a = if i < p { i } else { i + 1 };
            let b = if j < p { j } else { j + 1 };
            assert(r[i] == s[a] && r[j] == s[b]);
        }
    } else {
        law_unknown_id_changes_nothing(s, id);
    }
}

/// A run ending in one more operation is the run without it, then that
/// operation.
proof fn lemma_run_push(s: Seq<TodoView>, ops: Seq<Op>, op: Op)
    ensures
        run(s, ops.push(op)) == step(run(s, ops), op),
{
    assert(ops.push(op).drop_last() =~= ops);
}

/// A run with one more operation at its end gives each creation an unused
/// identifier exactly if the run without it does and the operation, if it
/// is a creation, names an identifier that no item carries by then.
proof fn lemma_creates_unused_push(s: Seq<TodoView>, ops: Seq<Op>, op: Op)
    ensures
        creates_unused(s, ops.push(op)) <==> creates_unused(s, ops) && (op is Create
            ==> !has_id(run(s, ops), op_id(op))),
{
    let all = ops.push(op);
    let n = ops.len() as int;
    assert(all.take(n) =~= ops);
    assert(all[n] == op);
    if creates_unused(s, all) {
        assert forall|k: int| 0 <= k < n && (#[trigger] ops[k]) is Create implies
            !has_id(run(s, ops.take(k)), op_id(ops[k]))
        by {
            assert(all.take(k) =~= ops.take(k));
            assert(all[k] is Create);
        }
    }
    if creates_unused(s, ops) && (op is Create ==> !has_id(run(s, ops), op_id(op))) {
        assert forall|k: int| 0 <= k < all.len() && (#[trigger] all[k]) is Create implies
            !has_id(run(s, all.take(k)), op_id(all[k]))
        by {
            if k < n {
                assert(all.take(k) =~= ops.take(k));
                assert(ops[k] is Create);
            }
        }
    }
}

/// Starting from distinct identifiers, any run of operations in which each
/// creation is given an identifier that no item carries at that moment
/// ends with distinct identifiers.
pub proof fn law_run_keeps_ids_distinct(s: Seq<TodoView>, ops: Seq<Op>)
    requires
        ids_distinct(s),
        creates_unused(s, ops),
    ensures
        ids_distinct(run(s, ops)),
    decreases ops.len(),
{
    if ops.len() > 0 {
        let front = ops.drop_last();
        let last = ops.last();
        assert(ops =~= front.push(last));
        lemma_creates_unused_push(s, front, last);
        law_run_keeps_ids_distinct(s, front);
        let mid = run(s, front);
        match last {
            Op::Create { id, title } => {
                lemma_ids_distinct_push(mid, fresh(id, title));
            },
            Op::Toggle { id } => {
                law_toggle_keeps_ids_and_titles(mid, id);
            },
            Op::Remove { id } => {
                law_remove_keeps_ids_distinct(mid, id);
            },
        }
    }
}

/// Toggles of two different identifiers give the same store in either order.
pub proof fn law_toggles_commute(s: Seq<TodoView>, a: Seq<char>, b: Seq<char>)
    requires
        a != b,
    ensures
        toggled(toggled(s, a), b) == toggled(toggled(s, b), a),
{
    lemma_position(s, a);
    lemma_position(s, b);
    let pa = position(s, a);
    let pb = position(s, b);
    let ta = toggled(s, a);
    let tb = toggled(s, b);
    assert forall|j: int| 0 <= j < pb implies (#[trigger] ta[j]).id != b by {
        assert(ta[j].id == s[j].id);
    }
    lemma_position_is(ta, b, pb);
    assert forall|j: int| 0 <= j < pa implies (#[trigger] tb[j]).id != a by {
        assert(tb[j].id == s[j].id);
    }
    lemma_position_is(tb, a, pa);
    assert(toggled(ta, b) =~= toggled(tb, a));
}

/// A toggle and a removal of two different identifiers give the same
/// store in either order.
pub proof fn law_toggle_and_remove_commute(s: Seq<TodoView>, a: Seq<char>, b: Seq<char>)
    requires
        a != b,
    ensures
        without(toggled(s, a), b) == toggled(without(s, b), a),
    decreases s.len(),
{
    if s.len() == 0 {
        reveal(Seq::filter);
        lemma_position(s, a);
        lemma_position(without(s, b), a);
    } else {
        let front = s.drop_last();
        let x = s.last();
        assert(s =~= front.push(x));
        lemma_toggled_push(front, x, a);
        lemma_without_push(front, x, b);
        law_remove_leaves_no_such_id(front, b);
        assert(has_id(without(front, b), a) <==> has_id(front, a));
        if has_id(front, a) {
            law_toggle_and_remove_commute(front, a, b);
            lemma_without_push(toggled(front, a), x, b);
            if x.id != b {
                lemma_toggled_push(without(front, b), x, a);
            }
        } else {
            law_unknown_id_changes_nothing(without(front, b), a);
            if x.id == a {
                lemma_without_push(front, flip(x), b);
                lemma_toggled_push(without(front, b), x, a);
            } else if x.id != b {
                lemma_toggled_push(without(front, b), x, a);
            }
        }
    }
}

/// Removals of two identifiers give the same store in either order.
pub proof fn law_removes_commute(s: Seq<TodoView>, a: Seq<char>, b: Seq<char>)
    ensures
        without(without(s, a), b) == without(without(s, b), a),
    decreases s.len(),
{
    if s.len() == 0 {
        reveal(Seq::filter);
    } else {
        let front = s.drop_last();
        let x = s.last();
        assert(s =~= front.push(x));
        law_removes_commute(front, a, b);
        lemma_without_push(front, x, a);
        lemma_without_push(front, x, b);
        lemma_without_push(without(front, a), x, b);
        lemma_without_push(without(front, b), x, a);
    }
}

/// Two operations that name different identifiers leave the same items
/// whichever is carried out first, and in the same order unless both are
/// creations, whose two items then stand last in the order of their creation.
pub proof fn law_steps_commute(s: Seq<TodoView>, a: Op, b: Op)
    requires
        op_id(a) != op_id(b),
    ensures
        step(step(s, a), b).to_multiset() == step(step(s, b), a).to_multiset(),
        !(a is Create && b is Create) ==> step(step(s, a), b) == step(step(s, b), a),
{
    broadcast use vstd::seq_lib::to_multiset_build;

    match (a, b) {
        (Op::Create { id: ia, title: ta }, Op::Create { id: ib, title: tb }) => {
            let x = fresh(ia, ta);
            let y = fresh(ib, tb);
            assert(s.push(x).push(y).to_multiset() =~= s.push(y).push(x).to_multiset());
        },
        (Op::Create { id: ia, title: ta }, Op::Toggle { id: ib }) => {
            lemma_create_and_toggle_commute(s, fresh(ia, ta), ib);
        },
        (Op::Toggle { id: ia }, Op::Create { id: ib, title: tb }) => {
            lemma_create_and_toggle_commute(s, fresh(ib, tb), ia);
        },
        (Op::Create { id: ia, title: ta }, Op::Remove { id: ib }) => {
            lemma_without_push(s, fresh(ia, ta), ib);
        },
        (Op::Remove { id: ia }, Op::Create { id: ib, title: tb }) => {
            lemma_without_push(s, fresh(ib, tb), ia);
        },
        (Op::Toggle { id: ia }, Op::Toggle { id: ib }) => {
            law_toggles_commute(s, ia, ib);
        },
        (Op::Toggle { id: ia }, Op::Remove { id: ib }) => {
            law_toggle_and_remove_commute(s, ia, ib);
        },
        (Op::Remove { id: ia }, Op::Toggle { id: ib }) => {
            law_toggle_and_remove_commute(s, ib, ia);
        },
        (Op::Remove { id: ia }, Op::Remove { id: ib }) => {
            law_removes_commute(s, ia, ib);
        },
    }
}

/// A toggle of an identifier other than that of an item appended last
/// gives the same store before or after the item is appended.
proof fn lemma_create_and_toggle_commute(s: Seq<TodoView>, x: TodoView, id: Seq<char>)
    requires
        x.id != id,
    ensures
        toggled(s.push(x), id) == toggled(s, id).push(x),
{
    lemma_toggled_push(s, x, id);
    if !has_id(s, id) {
        law_unknown_id_changes_nothing(s, id);
    }
}

/// Two stores that hold the same items, in whatever order, carry the same
/// identifiers.
pub proof fn law_same_items_same_ids(s1: Seq<TodoView>, s2: Seq<TodoView>, id: Seq<char>)
    requires
        s1.to_multiset() == s2.to_multiset(),
    ensures
        has_id(s1, id) <==> has_id(s2, id),
{
    if has_id(s1, id) {
        let w = choose|w: int| 0 <= w < s1.len() && (#[trigger] s1[w]).id == id;
        lemma_item_of_same_items(s1, s2, w);
    }
    if has_id(s2, id) {
        let w = choose|w: int| 0 <= w < s2.len() && (#[trigger] s2[w]).id == id;
        lemma_item_of_same_items(s2, s1, w);
    }
}

/// An item of one of two stores that hold the same items stands somewhere
/// in the other, so the other carries its identifier.
proof fn lemma_item_of_same_items(s1: Seq<TodoView>, s2: Seq<TodoView>, w: int)
    requires
        s1.to_multiset() == s2.to_multiset(),
        0 <= w < s1.len(),
    ensures
        s2.contains(s1[w]),
        has_id(s2, s1[w].id),
{
    let x = s1[w];
    assert(s1.contains(x));
    vstd::seq_lib::to_multiset_contains(s1, x);
    vstd::seq_lib::to_multiset_contains(s2, x);
    let q = choose|q: int| 0 <= q < s2.len() && s2[q] == x;
    assert(s2[q].id == x.id);
}

/// On two stores with distinct identifiers that hold the same items, in
/// whatever order, one operation leaves the same items.
pub proof fn law_step_on_same_items(s1: Seq<TodoView>, s2: Seq<TodoView>, op: Op)
    requires
        s1.to_multiset() == s2.to_multiset(),
        ids_distinct(s1),
        ids_distinct(s2),
    ensures
        step(s1, op).to_multiset() == step(s2, op).to_multiset(),
{
    match op {
        Op::Create { id, title } => {
            vstd::seq_lib::to_multiset_build(s1, fresh(id, title));
            vstd::seq_lib::to_multiset_build(s2, fresh(id, title));
        },
        _ => {
            let id = op_id(op);
            law_same_items_same_ids(s1, s2, id);
            if has_id(s1, id) {
                lemma_position(s1, id);
                lemma_position(s2, id);
                let i1 = position(s1, id);
                let i2 = position(s2, id);
                lemma_item_of_same_items(s1, s2, i1);
                let q = choose|q: int| 0 <= q < s2.len() && s2[q] == s1[i1];
                assert(s2[q].id == s2[i2].id);
                assert(q == i2);
                if op is Toggle {
                    vstd::seq_lib::to_multiset_update(s1, i1, flip(s1[i1]));
                    vstd::seq_lib::to_multiset_update(s2, i2, flip(s2[i2]));
                } else {
                    law_remove_drops_one(s1, id);
                    law_remove_drops_one(s2, id);
                    vstd::seq_lib::to_multiset_remove(s1, i1);
                    vstd::seq_lib::to_multiset_remove(s2, i2);
                }
            } else {
                law_unknown_id_changes_nothing(s1, id);
                law_unknown_id_changes_nothing(s2, id);
            }
        },
    }
}

/// An operation changes which items carry an identifier only for the
/// identifier that it names.
pub proof fn law_step_keeps_other_ids(s: Seq<TodoView>, op: Op, other: Seq<char>)
    requires
        other != op_id(op),
    ensures
        has_id(step(s, op), other) <==> has_id(s, other),
{
    match op {
        Op::Create { id, title } => {
            lemma_has_id_push(s, fresh(id, title), other);
        },
        Op::Toggle { id } => {
            law_toggle_keeps_ids_and_titles(s, id);
        },
        Op::Remove { id } => {
            law_remove_leaves_no_such_id(s, id);
        },
    }
}

/// In a run from distinct identifiers in which each creation is given an
/// identifier that no item carries at that moment, two neighbouring
/// operations that name different identifiers can change places: the run
/// still gives each creation an unused identifier, and it ends with the
/// same items.
pub proof fn law_neighbours_exchange(s: Seq<TodoView>, ops: Seq<Op>, k: int)
    requires
        ids_distinct(s),
        creates_unused(s, ops),
        0 <= k,
        k + 1 < ops.len(),
        op_id(ops[k]) != op_id(ops[k + 1]),
    ensures
        creates_unused(s, exchanged(ops, k)),
        run(s, exchanged(ops, k)).to_multiset() == run(s, ops).to_multiset(),
    decreases ops.len(),
{
    let front = ops.drop_last();
    let last = ops.last();
    assert(ops =~= front.push(last));
    lemma_creates_unused_push(s, front, last);
    if k + 2 == ops.len() {
        let a = ops[k];
        let b = ops[k + 1];
        let before = front.drop_last();
        let mid = run(s, before);
        assert(front =~= before.push(a));
        assert(exchanged(ops, k) =~= before.push(b).push(a));
        lemma_creates_unused_push(s, before, a);
        lemma_creates_unused_push(s, before, b);
        lemma_creates_unused_push(s, before.push(b), a);
        lemma_run_push(s, before, a);
        lemma_run_push(s, before, b);
        lemma_run_push(s, before.push(a), b);
        lemma_run_push(s, before.push(b), a);
        law_step_keeps_other_ids(mid, a, op_id(b));
        law_step_keeps_other_ids(mid, b, op_id(a));
        law_steps_commute(mid, a, b);
    } else {
        let other_front = exchanged(front, k);
        assert(exchanged(ops, k) =~= other_front.push(last));
        law_neighbours_exchange(s, front, k);
        law_run_keeps_ids_distinct(s, front);
        law_run_keeps_ids_distinct(s, other_front);
        law_same_items_same_ids(run(s, other_front), run(s, front), op_id(last));
        law_step_on_same_items(run(s, other_front), run(s, front), last);
        lemma_creates_unused_push(s, other_front, last);
        lemma_run_push(s, other_front, last);
    }
}

/// The operations of `ops` in another order: those before `k`, then those
/// after `k`, then the one at `k`.
spec fn moved_last(ops: Seq<Op>, k: int) -> Seq<Op> {
    ops.remove(k).push(ops[k])
}

/// In a run as in `law_neighbours_exchange` no two operations of which
/// name the same identifier, the operation at `k` can be carried out last
/// instead: the run still gives each creation an unused identifier, and
/// it ends with the same items.
proof fn lemma_move_to_end(s: Seq<TodoView>, ops: Seq<Op>, k: int)
    requires
        ids_distinct(s),
        creates_unused(s, ops),
        names_distinct(ops),
        0 <= k < ops.len(),
    ensures
        creates_unused(s, moved_last(ops, k)),
        names_distinct(moved_last(ops, k)),
        run(s, moved_last(ops, k)).to_multiset() == run(s, ops).to_multiset(),
    decreases ops.len() - k,
{
    if k + 1 == ops.len() {
        assert(moved_last(ops, k) =~= ops);
    } else {
        let next = exchanged(ops, k);
        law_neighbours_exchange(s, ops, k);
        assert(names_distinct(next)) by {
            assert forall|i: int, j: int|
                0 <= i < next.len() && 0 <= j < next.len() && i != j implies
                op_id(#[trigger] next[i]) != op_id(#[trigger] next[j])
            by {
                let a = if i == k { k + 1 } else if i == k + 1 { k } else { i };
                let b = if j == k { k + 1 } else if j == k + 1 { k } else { j };
                assert(next[i] == ops[a] && next[j] == ops[b]);
            }
        }
        lemma_move_to_end(s, next, k + 1);
        assert(moved_last(next, k + 1) =~= moved_last(ops, k));
    }
}

/// From distinct identifiers, two runs of the same operations in different
/// orders end with the same items, provided that no two of the operations
/// name the same identifier and that each creation of the first run is
/// given an identifier that no item carries at that moment; the same then
/// holds of each creation of the second.
pub proof fn law_any_order_same_items(s: Seq<TodoView>, ops: Seq<Op>, reordered: Seq<Op>)
    requires
        ids_distinct(s),
        creates_unused(s, ops),
        names_distinct(ops),
        ops.to_multiset() == reordered.to_multiset(),
    ensures
        creates_unused(s, reordered),
        run(s, reordered).to_multiset() == run(s, ops).to_multiset(),
    decreases ops.len(),
{
    vstd::seq_lib::to_multiset_len(ops);
    vstd::seq_lib::to_multiset_len(reordered);
    if reordered.len() == 0 {
        assert(ops =~= reordered);
    } else {
        let last = reordered.last();
        let rest = reordered.drop_last();
        assert(reordered =~= rest.push(last));
        assert(reordered.contains(last)) by {
            assert(reordered[reordered.len() - 1] == last);
        }
        vstd::seq_lib::to_multiset_contains(reordered, last);
        vstd::seq_lib::to_multiset_contains(ops, last);
        let k = choose|k: int| 0 <= k < ops.len() && ops[k] == last;
        let front = ops.remove(k);
        lemma_move_to_end(s, ops, k);
        lemma_creates_unused_push(s, front, last);
        lemma_run_push(s, front, last);
        assert(names_distinct(front)) by {
            let moved = moved_last(ops, k);
            assert forall|i: int, j: int|
                0 <= i < front.len() && 0 <= j < front.len() && i != j implies
                op_id(#[trigger] front[i]) != op_id(#[trigger] front[j])
            by {
                assert(front[i] == moved[i] && front[j] == moved[j]);
            }
        }
        assert(front.to_multiset() =~= rest.to_multiset()) by {
            vstd::seq_lib::to_multiset_remove(ops, k);
            vstd::seq_lib::to_multiset_build(rest, last);
        }
        law_any_order_same_items(s, front, rest);
        law_run_keeps_ids_distinct(s, front);
        law_run_keeps_ids_distinct(s, rest);
        law_same_items_same_ids(run(s, rest), run(s, front), op_id(last));
        law_step_on_same_items(run(s, rest), run(s, front), last);
        lemma_creates_unused_push(s, rest, last);
        lemma_run_push(s, rest, last);
    }
}

} // verus!
