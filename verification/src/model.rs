//! The mathematical model: an item as a record of two character sequences
//! and a flag, a store as a sequence of such records, and the functions on
//! sequences that the contracts of the executable code are stated with.

use vstd::prelude::*;

verus! {

/// What a to-do item is, apart from how it is held in memory.
pub ghost struct TodoView {
    pub id: Seq<char>,
    pub title: Seq<char>,
    pub completed: bool,
}

/// The item that a create with this identifier and title appends: not yet completed.
pub open spec fn fresh(id: Seq<char>, title: Seq<char>) -> TodoView {
    TodoView { id, title, completed: false }
}

/// The same item with its completion flag inverted.
pub open spec fn flip(t: TodoView) -> TodoView {
    TodoView { id: t.id, title: t.title, completed: !t.completed }
}

/// Some item of `s` carries the identifier `id`.
pub open spec fn has_id(s: Seq<TodoView>, id: Seq<char>) -> bool {
    exists|i: int| 0 <= i < s.len() && (#[trigger] s[i]).id == id
}

/// No two items of `s` carry the same identifier.
pub open spec fn ids_distinct(s: Seq<TodoView>) -> bool {
    forall|i: int, j: int|
        0 <= i < s.len() && 0 <= j < s.len() && i != j
            ==> (#[trigger] s[i]).id != (#[trigger] s[j]).id
}

/// The index of the first item of `s` that carries `id`, or the length of
/// `s` when no item does.
pub open spec fn position(s: Seq<TodoView>, id: Seq<char>) -> int
    decreases s.len(),
{
    if s.len() == 0 {
        0
    } else if s[0].id == id {
        0
    } else {
        1 + position(s.drop_first(), id)
    }
}

/// `s` after a toggle of `id`: the first item that carries `id` is flipped
/// where it stands; without such an item `s` is unchanged.
pub open spec fn toggled(s: Seq<TodoView>, id: Seq<char>) -> Seq<TodoView> {
    let p = position(s, id);
    if p < s.len() {
        s.update(p, flip(s[p]))
    } else {
        s
    }
}

/// `s` after a removal of `id`: the items that do not carry `id`, in the
/// order they had.
pub open spec fn without(s: Seq<TodoView>, id: Seq<char>) -> Seq<TodoView> {
    s.filter(|t: TodoView| t.id != id)
}

/// One operation on a store, with what it was given.
pub ghost enum Op {
    Create { id: Seq<char>, title: Seq<char> },
    Toggle { id: Seq<char> },
    Remove { id: Seq<char> },
}

/// The identifier that an operation names.
pub open spec fn op_id(op: Op) -> Seq<char> {
    match op {
        Op::Create { id, title } => id,
        Op::Toggle { id } => id,
        Op::Remove { id } => id,
    }
}

/// `s` after one operation.
pub open spec fn step(s: Seq<TodoView>, op: Op) -> Seq<TodoView> {
    match op {
        Op::Create { id, title } => s.push(fresh(id, title)),
        Op::Toggle { id } => toggled(s, id),
        Op::Remove { id } => without(s, id),
    }
}

/// `s` after the operations `ops`, carried out from the first to the last.
pub open spec fn run(s: Seq<TodoView>, ops: Seq<Op>) -> Seq<TodoView>
    decreases ops.len(),
{
    if ops.len() == 0 {
        s
    } else {
        step(run(s, ops.drop_last()), ops.last())
    }
}

/// No two operations of `ops` name the same identifier.
pub open spec fn names_distinct(ops: Seq<Op>) -> bool {
    forall|i: int, j: int|
        0 <= i < ops.len() && 0 <= j < ops.len() && i != j
            ==> op_id(#[trigger] ops[i]) != op_id(#[trigger] ops[j])
}

/// `ops` with the operations at `k` and `k + 1` in each other's place.
pub open spec fn exchanged(ops: Seq<Op>, k: int) -> Seq<Op>
    recommends
        0 <= k,
        k + 1 < ops.len(),
{
    ops.update(k, ops[k + 1]).update(k + 1, ops[k])
}

/// Every creation among `ops`, carried out on `s` in turn, is given an
/// identifier that no item carries at that moment.
pub open spec fn creates_unused(s: Seq<TodoView>, ops: Seq<Op>) -> bool {
    forall|k: int|
        0 <= k < ops.len() && (#[trigger] ops[k]) is Create
            ==> !has_id(run(s, ops.take(k)), op_id(ops[k]))
}

/// `position` is within bounds, nothing before it carries `id`, and the
/// item at it does whenever it is an index of `s`.
pub proof fn lemma_position(s: Seq<TodoView>, id: Seq<char>)
    ensures
        0 <= position(s, id) <= s.len(),
        forall|j: int| 0 <= j < position(s, id) ==> (#[trigger] s[j]).id != id,
        position(s, id) < s.len() ==> s[position(s, id)].id == id,
        position(s, id) < s.len() <==> has_id(s, id),
    decreases s.len(),
{
    if s.len() > 0 && s[0].id != id {
        let rest = s.drop_first();
        lemma_position(rest, id);
        let p = position(rest, id);
        assert forall|j: int| 0 <= j < p + 1 implies (#[trigger] s[j]).id != id by {
            if j > 0 {
                assert(rest[j - 1] == s[j]);
            }
        }
        if p < rest.len() {
            assert(rest[p] == s[p + 1]);
        }
    }
    let q = position(s, id);
    if q < s.len() {
        assert(s[q].id == id);
    }
}

/// An index with nothing carrying `id` before it, which is either the
/// length of `s` or the place of an item that carries `id`, is `position`.
pub proof fn lemma_position_is(s: Seq<TodoView>, id: Seq<char>, i: int)
    requires
        0 <= i <= s.len(),
        forall|j: int| 0 <= j < i ==> (#[trigger] s[j]).id != id,
        i < s.len() ==> s[i].id == id,
    ensures
        position(s, id) == i,
{
    lemma_position(s, id);
    let p = position(s, id);
    if p < i {
        assert(s[p].id != id);
    }
    if i < p {
        assert(s[i].id != id);
    }
}

/// With one more item at the end, an identifier is carried by what was
/// there or by the new item.
pub proof fn lemma_has_id_push(s: Seq<TodoView>, x: TodoView, id: Seq<char>)
    ensures
        has_id(s.push(x), id) <==> has_id(s, id) || x.id == id,
{
    let t = s.push(x);
    if has_id(s, id) {
        let w = choose|w: int| 0 <= w < s.len() && (#[trigger] s[w]).id == id;
        assert(t[w].id == id);
    }
    if x.id == id {
        assert(t[s.len() as int].id == id);
    }
    if has_id(t, id) {
        let w = choose|w: int| 0 <= w < t.len() && (#[trigger] t[w]).id == id;
        if w < s.len() {
            assert(s[w].id == id);
        }
    }
}

/// With one more item at the end, the first place of an identifier is
/// where it was, else the new item's, else past the end.
pub proof fn lemma_position_push(s: Seq<TodoView>, x: TodoView, id: Seq<char>)
    ensures
        has_id(s, id) ==> position(s.push(x), id) == position(s, id),
        !has_id(s, id) && x.id == id ==> position(s.push(x), id) == s.len(),
        !has_id(s, id) && x.id != id ==> position(s.push(x), id) == s.len() + 1,
{
    let t = s.push(x);
    lemma_position(s, id);
    let p = position(s, id);
    if has_id(s, id) {
        assert forall|j: int| 0 <= j < p implies (#[trigger] t[j]).id != id by {
            assert(t[j] == s[j]);
        }
        assert(t[p] == s[p]);
        lemma_position_is(t, id, p);
    } else {
        assert forall|j: int| 0 <= j < s.len() implies (#[trigger] t[j]).id != id by {
            assert(t[j] == s[j]);
        }
        if x.id == id {
            lemma_position_is(t, id, s.len() as int);
        } else {
            lemma_position_is(t, id, s.len() as int + 1);
        }
    }
}

/// With one more item at the end, a toggle flips what it flipped before,
/// else the new item if that carries the identifier.
pub proof fn lemma_toggled_push(s: Seq<TodoView>, x: TodoView, id: Seq<char>)
    ensures
        has_id(s, id) ==> toggled(s.push(x), id) == toggled(s, id).push(x),
        !has_id(s, id) && x.id == id ==> toggled(s.push(x), id) == s.push(flip(x)),
        !has_id(s, id) && x.id != id ==> toggled(s.push(x), id) == s.push(x),
{
    lemma_position(s, id);
    lemma_position_push(s, x, id);
    if has_id(s, id) {
        assert(toggled(s.push(x), id) =~= toggled(s, id).push(x));
    } else if x.id == id {
        assert(toggled(s.push(x), id) =~= s.push(flip(x)));
    }
}

/// With one more item at the end, a removal keeps that item unless it
/// carries the identifier.
pub proof fn lemma_without_push(s: Seq<TodoView>, x: TodoView, id: Seq<char>)
    ensures
        x.id == id ==> without(s.push(x), id) == without(s, id),
        x.id != id ==> without(s.push(x), id) == without(s, id).push(x),
{
    s.lemma_filter_push(x, |t: TodoView| t.id != id);
}

/// With one more item at the end, the identifiers are distinct if they
/// were and the new one is carried by no item before it.
pub proof fn lemma_ids_distinct_push(s: Seq<TodoView>, x: TodoView)
    ensures
        ids_distinct(s.push(x)) <==> ids_distinct(s) && !has_id(s, x.id),
{
    let t = s.push(x);
    let n = s.len() as int;
    if ids_distinct(t) {
        assert forall|i: int, j: int| 0 <= i < n && 0 <= j < n && i != j implies
            (#[trigger] s[i]).id != (#[trigger] s[j]).id
        by {
            assert(t[i] == s[i] && t[j] == s[j]);
        }
        if has_id(s, x.id) {
            let w = choose|w: int| 0 <= w < s.len() && (#[trigger] s[w]).id == x.id;
            assert(t[w] == s[w] && t[n] == x);
        }
    }
    if ids_distinct(s) && !has_id(s, x.id) {
        assert forall|i: int, j: int| 0 <= i < t.len() && 0 <= j < t.len() && i != j implies
            (#[trigger] t[i]).id != (#[trigger] t[j]).id
        by {
            if i < n {
                assert(t[i] == s[i]);
            }
            if j < n {
                assert(t[j] == s[j]);
            }
        }
    }
}

} // verus!
