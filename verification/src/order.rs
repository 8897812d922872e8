//! Putting listed things in order.
//!
//! A key is a sequence of integers, compared from the front: one integer for a
//! number, one for each character of a text. Things with equal keys stay in the
//! order in which they came.

use crate::json;
use crate::json::{Json, JsonView};
use crate::text;
use crate::text::Text;
use vstd::prelude::*;

verus! {

/// What a thing is ordered by.
pub type OrderKey = Seq<i64>;

/// The key of a number.
pub open spec fn number_key(n: i64) -> OrderKey {
    seq![n]
}

/// The key of a text: its characters by code point.
pub open spec fn text_key(s: Text) -> OrderKey {
    s.map_values(|c: char| c as u32 as i64)
}

/// Whether `a` does not come after `b`.
pub open spec fn not_after(a: OrderKey, b: OrderKey) -> bool
    decreases a.len(),
{
    if a.len() == 0 {
        true
    } else if b.len() == 0 {
        false
    } else if a[0] == b[0] {
        not_after(a.drop_first(), b.drop_first())
    } else {
        a[0] < b[0]
    }
}

/// A thing and its key.
pub type Keyed = (OrderKey, JsonView);

/// Puts one thing into an ordered list, behind every thing that does not come
/// after it.
pub open spec fn placed(list: Seq<Keyed>, one: Keyed) -> Seq<Keyed>
    decreases list.len(),
{
    if list.len() == 0 || not_after(list.last().0, one.0) {
        list.push(one)
    } else {
        placed(list.drop_last(), one).push(list.last())
    }
}

/// The things in order.
pub open spec fn ordered(list: Seq<Keyed>) -> Seq<Keyed>
    decreases list.len(),
{
    if list.len() == 0 {
        Seq::empty()
    } else {
        placed(ordered(list.drop_last()), list.last())
    }
}

/// The things without their keys.
pub open spec fn things(list: Seq<Keyed>) -> Seq<JsonView> {
    list.map_values(|p: Keyed| p.1)
}

/// A list of things in the order of a key.
pub open spec fn arranged(items: Seq<JsonView>, key: spec_fn(JsonView) -> OrderKey) -> Seq<
    JsonView,
> {
    things(ordered(items.map_values(|item: JsonView| (key(item), item))))
}

// ---- laws ----

pub open spec fn is_ordered(list: Seq<Keyed>) -> bool {
    forall|i: int, j: int|
        0 <= i < j < list.len() ==> not_after((#[trigger] list[i]).0, (#[trigger] list[j]).0)
}

/// The things with one key, in the order in which they stand.
pub open spec fn with_key(list: Seq<Keyed>, key: OrderKey) -> Seq<Keyed>
    decreases list.len(),
{
    if list.len() == 0 {
        Seq::empty()
    } else if list.last().0 == key {
        with_key(list.drop_last(), key).push(list.last())
    } else {
        with_key(list.drop_last(), key)
    }
}

proof fn lemma_total(a: OrderKey, b: OrderKey)
    ensures
        not_after(a, b) || not_after(b, a),
        not_after(a, a),
        not_after(a, b) && not_after(b, a) ==> a == b,
    decreases a.len(),
{
    if a.len() > 0 {
        lemma_total(a.drop_first(), a.drop_first());
        if b.len() > 0 && a[0] == b[0] {
            lemma_total(a.drop_first(), b.drop_first());
            if not_after(a, b) && not_after(b, a) {
                assert(a =~= seq![a[0]] + a.drop_first());
                assert(b =~= seq![b[0]] + b.drop_first());
            }
        }
    } else if b.len() == 0 {
        assert(a =~= b);
    }
}

proof fn lemma_transitive(a: OrderKey, b: OrderKey, c: OrderKey)
    requires
        not_after(a, b),
        not_after(b, c),
    ensures
        not_after(a, c),
    decreases a.len(),
{
    if a.len() > 0 && b.len() > 0 && c.len() > 0 && a[0] == b[0] && b[0] == c[0] {
        lemma_transitive(a.drop_first(), b.drop_first(), c.drop_first());
    }
}

/// What [`placed`] does to a list: nothing is lost, and where the list was in
/// order it stays so.
proof fn lemma_placed(list: Seq<Keyed>, one: Keyed)
    ensures
        placed(list, one).to_multiset() == list.to_multiset().insert(one),
        placed(list, one).len() == list.len() + 1,
        is_ordered(list) ==> is_ordered(placed(list, one)),
        forall|bound: OrderKey|
            not_after(one.0, bound) && (forall|i: int|
                0 <= i < list.len() ==> not_after((#[trigger] list[i]).0, bound))
                ==> #[trigger] all_before(placed(list, one), bound),
    decreases list.len(),
{
    broadcast use vstd::seq_lib::group_to_multiset_ensures;

    if list.len() == 0 || not_after(list.last().0, one.0) {
        let r = list.push(one);
        assert(list.push(one).to_multiset() =~= list.to_multiset().insert(one));
        if is_ordered(list) {
            assert forall|i: int, j: int| 0 <= i < j < r.len() implies not_after(
                (#[trigger] r[i]).0,
                (#[trigger] r[j]).0,
            ) by {
                if j == list.len() {
                    if i < list.len() - 1 {
                        lemma_transitive(list[i].0, list.last().0, one.0);
                    }
                }
            }
        }
    } else {
        let front = list.drop_last();
        let inner = placed(front, one);
        lemma_placed(front, one);
        lemma_total(list.last().0, one.0);
        assert(list =~= front.push(list.last()));
        assert(inner.push(list.last()).to_multiset() =~= list.to_multiset().insert(one));
        if is_ordered(list) {
            assert forall|i: int| 0 <= i < front.len() implies not_after(
                (#[trigger] front[i]).0,
                list.last().0,
            ) by {
                assert(front[i] == list[i]);
            }
            assert(all_before(inner, list.last().0));
            let r = inner.push(list.last());
            assert forall|i: int, j: int| 0 <= i < j < r.len() implies not_after(
                (#[trigger] r[i]).0,
                (#[trigger] r[j]).0,
            ) by {
                if j < inner.len() {
                    assert(not_after(inner[i].0, inner[j].0));
                } else {
                    assert(r[i] == inner[i]);
                }
            }
        }
        assert forall|bound: OrderKey|
            not_after(one.0, bound) && (forall|i: int|
                0 <= i < list.len() ==> not_after(
                    (#[trigger] list[i]).0,
                    bound,
                )) implies #[trigger] all_before(placed(list, one), bound) by {
            assert forall|i: int| 0 <= i < front.len() implies not_after(
                (#[trigger] front[i]).0,
                bound,
            ) by {
                assert(front[i] == list[i]);
            }
            assert(all_before(inner, bound));
            assert(not_after(list[list.len() - 1].0, bound));
        }
    }
}

/// Whether no thing comes after a key.
pub open spec fn all_before(list: Seq<Keyed>, bound: OrderKey) -> bool {
    forall|i: int| 0 <= i < list.len() ==> not_after((#[trigger] list[i]).0, bound)
}

/// Ordering loses nothing, adds nothing, and leaves no thing before one that it
/// comes after.
pub proof fn ordering_sorts(list: Seq<Keyed>)
    ensures
        ordered(list).to_multiset() == list.to_multiset(),
        ordered(list).len() == list.len(),
        is_ordered(ordered(list)),
    decreases list.len(),
{
    broadcast use vstd::seq_lib::group_to_multiset_ensures;

    if list.len() > 0 {
        ordering_sorts(list.drop_last());
        lemma_placed(ordered(list.drop_last()), list.last());
        assert(list =~= list.drop_last().push(list.last()));
    } else {
        assert(ordered(list) =~= list);
    }
}

proof fn lemma_placed_keeps(list: Seq<Keyed>, one: Keyed, key: OrderKey)
    requires
        is_ordered(list),
    ensures
        with_key(placed(list, one), key) == (if one.0 == key {
            with_key(list, key).push(one)
        } else {
            with_key(list, key)
        }),
    decreases list.len(),
{
    if list.len() == 0 || not_after(list.last().0, one.0) {
        assert(list.push(one).drop_last() =~= list);
    } else {
        let front = list.drop_last();
        let r = placed(front, one).push(list.last());
        assert(r.drop_last() =~= placed(front, one));
        assert forall|i: int, j: int| 0 <= i < j < front.len() implies not_after(
            (#[trigger] front[i]).0,
            (#[trigger] front[j]).0,
        ) by {
            assert(not_after(list[i].0, list[j].0));
        }
        lemma_placed_keeps(front, one, key);
        if list.last().0 == key && one.0 == key {
            lemma_total(key, key);
        }
    }
}

/// Things with equal keys stay in the order in which they came.
pub proof fn ordering_is_stable(list: Seq<Keyed>, key: OrderKey)
    ensures
        with_key(ordered(list), key) == with_key(list, key),
    decreases list.len(),
{
    if list.len() > 0 {
        ordering_is_stable(list.drop_last(), key);
        ordering_sorts(list.drop_last());
        lemma_placed_keeps(ordered(list.drop_last()), list.last(), key);
    }
}

/// Numbers come in their own order, and of two texts the one comes first that has
/// the smaller character where they first differ, or that is the beginning of the
/// other.
pub proof fn numbers_and_texts_come_in_their_order(
    a: i64,
    b: i64,
    front: Text,
    x: char,
    y: char,
    one: Text,
    another: Text,
)
    ensures
        not_after(number_key(a), number_key(b)) == (a <= b),
        x < y ==> not_after(text_key(front.push(x) + one), text_key(front.push(y) + another)),
        x < y ==> !not_after(text_key(front.push(y) + another), text_key(front.push(x) + one)),
        not_after(text_key(front), text_key(front + one)),
    decreases front.len(),
{
    reveal_with_fuel(not_after, 2);
    assert(number_key(a).drop_first() =~= Seq::<i64>::empty());
    assert(number_key(b).drop_first() =~= Seq::<i64>::empty());
    let p = text_key(front.push(x) + one);
    let q = text_key(front.push(y) + another);
    if front.len() > 0 {
        let rest = front.drop_first();
        numbers_and_texts_come_in_their_order(a, b, rest, x, y, one, another);
        assert(p.drop_first() =~= text_key(rest.push(x) + one));
        assert(q.drop_first() =~= text_key(rest.push(y) + another));
        assert(text_key(front).drop_first() =~= text_key(rest));
        assert(text_key(front + one).drop_first() =~= text_key(rest + one));
    } else {
        assert(p[0] == x as u32 as i64);
        assert(q[0] == y as u32 as i64);
    }
}

/// Whether a thing has a key.
pub open spec fn of_key(key: spec_fn(JsonView) -> OrderKey, k: OrderKey) -> spec_fn(
    JsonView,
) -> bool {
    |v: JsonView| key(v) == k
}

/// Whether a list holds exactly what another holds, in the order of a key, and
/// among equals in the order in which they came.
pub open spec fn is_arrangement(
    items: Seq<JsonView>,
    sorted: Seq<JsonView>,
    key: spec_fn(JsonView) -> OrderKey,
) -> bool {
    &&& sorted.to_multiset() == items.to_multiset()
    &&& sorted.len() == items.len()
    &&& forall|i: int, j: int|
        0 <= i < j < sorted.len() ==> not_after(key(#[trigger] sorted[i]), key(#[trigger] sorted[j]))
    &&& forall|k: OrderKey| #[trigger]
        sorted.filter(of_key(key, k)) == items.filter(of_key(key, k))
}

/// Whether each thing stands with its own key.
pub open spec fn is_keyed(list: Seq<Keyed>, key: spec_fn(JsonView) -> OrderKey) -> bool {
    forall|i: int| 0 <= i < list.len() ==> (#[trigger] list[i]).0 == key(list[i].1)
}

proof fn lemma_placed_things(list: Seq<Keyed>, one: Keyed, key: spec_fn(JsonView) -> OrderKey)
    requires
        is_keyed(list, key),
        one.0 == key(one.1),
    ensures
        is_keyed(placed(list, one), key),
        things(placed(list, one)).to_multiset() == things(list).to_multiset().insert(one.1),
    decreases list.len(),
{
    broadcast use vstd::seq_lib::group_to_multiset_ensures;

    if list.len() == 0 || not_after(list.last().0, one.0) {
        assert(things(list.push(one)) =~= things(list).push(one.1));
    } else {
        let front = list.drop_last();
        assert forall|i: int| 0 <= i < front.len() implies (#[trigger] front[i]).0 == key(
            front[i].1,
        ) by {
            assert(front[i] == list[i]);
        }
        lemma_placed_things(front, one, key);
        let inner = placed(front, one);
        let last = list.last();
        assert(list[list.len() - 1] == last);
        assert(things(inner.push(last)) =~= things(inner).push(last.1));
        assert(list =~= front.push(last));
        assert(things(list) =~= things(front).push(last.1));
        assert(things(placed(list, one)).to_multiset() =~= things(list).to_multiset().insert(one.1));
    }
}

proof fn lemma_ordered_things(list: Seq<Keyed>, key: spec_fn(JsonView) -> OrderKey)
    requires
        is_keyed(list, key),
    ensures
        is_keyed(ordered(list), key),
        things(ordered(list)).to_multiset() == things(list).to_multiset(),
    decreases list.len(),
{
    broadcast use vstd::seq_lib::group_to_multiset_ensures;

    if list.len() > 0 {
        let front = list.drop_last();
        assert forall|i: int| 0 <= i < front.len() implies (#[trigger] front[i]).0 == key(
            front[i].1,
        ) by {
            assert(front[i] == list[i]);
        }
        lemma_ordered_things(front, key);
        assert(list[list.len() - 1] == list.last());
        lemma_placed_things(ordered(front), list.last(), key);
        assert(list =~= front.push(list.last()));
        assert(things(list) =~= things(front).push(list.last().1));
    } else {
        assert(things(ordered(list)) =~= things(list));
    }
}

proof fn lemma_with_key_things(
    list: Seq<Keyed>,
    key: spec_fn(JsonView) -> OrderKey,
    k: OrderKey,
)
    requires
        is_keyed(list, key),
    ensures
        things(with_key(list, k)) == things(list).filter(of_key(key, k)),
    decreases list.len(),
{
    reveal(Seq::filter);
    if list.len() > 0 {
        let front = list.drop_last();
        assert forall|i: int| 0 <= i < front.len() implies (#[trigger] front[i]).0 == key(
            front[i].1,
        ) by {
            assert(front[i] == list[i]);
        }
        lemma_with_key_things(front, key, k);
        assert(list[list.len() - 1] == list.last());
        assert(things(list).drop_last() =~= things(front));
        assert(things(list).last() == list.last().1);
        if list.last().0 == k {
            assert(things(with_key(front, k).push(list.last())) =~= things(
                with_key(front, k),
            ).push(list.last().1));
        }
    } else {
        assert(things(with_key(list, k)) =~= things(list).filter(of_key(key, k)));
    }
}

/// A list that is put in order by a key holds exactly what it held, in the order
/// of that key, and equals stay as they came.
pub proof fn arranging_arranges(items: Seq<JsonView>, key: spec_fn(JsonView) -> OrderKey)
    ensures
        is_arrangement(items, arranged(items, key), key),
{
    let list = items.map_values(|item: JsonView| (key(item), item));
    let done = ordered(list);
    let sorted = things(done);
    assert(things(list) =~= items);
    lemma_ordered_things(list, key);
    ordering_sorts(list);
    assert forall|i: int, j: int| 0 <= i < j < sorted.len() implies not_after(
        key(#[trigger] sorted[i]),
        key(#[trigger] sorted[j]),
    ) by {
        assert(done[i].1 == sorted[i] && done[j].1 == sorted[j]);
        assert(not_after(done[i].0, done[j].0));
    }
    assert forall|k: OrderKey| #[trigger]
        sorted.filter(of_key(key, k)) == items.filter(of_key(key, k)) by {
        ordering_is_stable(list, k);
        lemma_with_key_things(list, key, k);
        lemma_with_key_things(done, key, k);
    }
}

// ---- sorting ----

/// What a list of keys holds.
pub open spec fn keys_view(keys: Seq<Vec<i64>>) -> Seq<OrderKey> {
    keys.map_values(|k: Vec<i64>| k@)
}

/// The things with their keys.
pub open spec fn paired(keys: Seq<OrderKey>, items: Seq<JsonView>) -> Seq<Keyed> {
    Seq::new(items.len(), |i: int| (keys[i], items[i]))
}

fn comes_not_after(a: &Vec<i64>, b: &Vec<i64>) -> (r: bool)
    ensures
        r == not_after(a@, b@),
{
    let mut i: usize = 0;
    assert(a@.skip(0) == a@);
    assert(b@.skip(0) == b@);
    while i < a.len() && i < b.len()
        invariant
            i <= a@.len(),
            i <= b@.len(),
            not_after(a@, b@) == not_after(a@.skip(i as int), b@.skip(i as int)),
        decreases a@.len() - i,
    {
        assert(a@.skip(i as int).drop_first() == a@.skip(i + 1));
        assert(b@.skip(i as int).drop_first() == b@.skip(i + 1));
        if a[i] != b[i] {
            return a[i] < b[i];
        }
        i += 1;
    }
    i == a.len()
}

/// The key of a text.
pub fn key_of_text(s: &str) -> (r: Vec<i64>)
    ensures
        r@ == text_key(s@),
{
    let chars = text::chars_of(s);
    let mut out: Vec<i64> = Vec::new();
    let mut i: usize = 0;
    while i < chars.len()
        invariant
            chars@ == s@,
            i <= chars@.len(),
            out@ == text_key(s@).take(i as int),
        decreases chars@.len() - i,
    {
        let c: char = chars[i];
        let n: u32 = c as u32;
        out.push(n as i64);
        assert(out@ =~= text_key(s@).take(i + 1));
        i += 1;
    }
    assert(text_key(s@).take(s@.len() as int) =~= text_key(s@));
    out
}

/// The key of a number.
pub fn key_of_number(n: i64) -> (r: Vec<i64>)
    ensures
        r@ == number_key(n),
{
    let mut out: Vec<i64> = Vec::new();
    out.push(n);
    assert(out@ =~= number_key(n));
    out
}

/// The position behind every thing that does not come after a key, in an
/// ordered list of positions.
fn place_for(keys: &Vec<Vec<i64>>, order: &Vec<usize>, key: &Vec<i64>) -> (r: usize)
    requires
        forall|i: int| 0 <= i < order@.len() ==> (#[trigger] order@[i]) < keys@.len(),
    ensures
        r <= order@.len(),
        forall|i: int|
            r <= i < order@.len() ==> !not_after(keys@[#[trigger] order@[i] as int]@, key@),
        r > 0 ==> not_after(keys@[order@[r - 1] as int]@, key@),
{
    let mut n: usize = order.len();
    while n > 0 && !comes_not_after(&keys[order[n - 1]], key)
        invariant
            n <= order@.len(),
            forall|i: int| 0 <= i < order@.len() ==> (#[trigger] order@[i]) < keys@.len(),
            forall|i: int|
                n <= i < order@.len() ==> !not_after(keys@[#[trigger] order@[i] as int]@, key@),
        decreases n,
    {
        n -= 1;
    }
    n
}

/// The things at some positions, with their keys.
pub open spec fn at_positions(pairs: Seq<Keyed>, order: Seq<usize>) -> Seq<Keyed> {
    order.map_values(|i: usize| pairs[i as int])
}

proof fn lemma_insert_places(pairs: Seq<Keyed>, order: Seq<usize>, at: int, one: usize)
    requires
        0 <= at <= order.len(),
        forall|i: int|
            at <= i < order.len() ==> !not_after(pairs[#[trigger] order[i] as int].0, pairs[one as int].0),
        at > 0 ==> not_after(pairs[order[at - 1] as int].0, pairs[one as int].0),
    ensures
        at_positions(pairs, order.insert(at, one)) == placed(
            at_positions(pairs, order),
            pairs[one as int],
        ),
    decreases order.len(),
{
    let list = at_positions(pairs, order);
    if at == order.len() {
        assert(order.insert(at, one) =~= order.push(one));
        assert(at_positions(pairs, order.push(one)) =~= list.push(pairs[one as int]));
    } else {
        let front = order.drop_last();
        assert forall|i: int| at <= i < front.len() implies !not_after(
            pairs[#[trigger] front[i] as int].0,
            pairs[one as int].0,
        ) by {
            assert(front[i] == order[i]);
        }
        lemma_insert_places(pairs, front, at, one);
        assert(at_positions(pairs, front) =~= list.drop_last());
        assert(order.insert(at, one) =~= front.insert(at, one).push(order.last()));
        assert(at_positions(pairs, front.insert(at, one).push(order.last())) =~= at_positions(
            pairs,
            front.insert(at, one),
        ).push(list.last()));
        assert(!not_after(pairs[order[order.len() - 1] as int].0, pairs[one as int].0));
    }
}

/// The things in the order of their keys, stably.
pub fn sort(items: &Vec<Json>, keys: &Vec<Vec<i64>>) -> (r: Vec<Json>)
    requires
        keys@.len() == items@.len(),
    ensures
        json::values(r@) == things(ordered(paired(keys_view(keys@), json::values(items@)))),
{
    let ghost pairs = paired(keys_view(keys@), json::values(items@));
    let mut order: Vec<usize> = Vec::new();
    let mut i: usize = 0;
    assert(at_positions(pairs, order@) =~= ordered(pairs.take(0)));
    while i < items.len()
        invariant
            keys@.len() == items@.len(),
            i <= items@.len(),
            pairs == paired(keys_view(keys@), json::values(items@)),
            order@.len() == i,
            forall|j: int| 0 <= j < order@.len() ==> (#[trigger] order@[j]) < items@.len(),
            at_positions(pairs, order@) == ordered(pairs.take(i as int)),
        decreases items@.len() - i,
    {
        let at: usize = place_for(keys, &order, &keys[i]);
        proof {
            assert(pairs[i as int].0 == keys@[i as int]@);
            assert forall|j: int| at <= j < order@.len() implies !not_after(
                pairs[#[trigger] order@[j] as int].0,
                pairs[i as int].0,
            ) by {
                assert(pairs[order@[j] as int].0 == keys@[order@[j] as int]@);
            }
            if at > 0 {
                assert(pairs[order@[at - 1] as int].0 == keys@[order@[at - 1] as int]@);
            }
            lemma_insert_places(pairs, order@, at as int, i);
            assert(pairs.take(i + 1).drop_last() =~= pairs.take(i as int));
        }
        order.insert(at, i);
        i += 1;
    }
    assert(pairs.take(pairs.len() as int) =~= pairs);
    let mut out: Vec<Json> = Vec::new();
    let mut k: usize = 0;
    while k < order.len()
        invariant
            k <= order@.len(),
            out@.len() == k,
            forall|j: int| 0 <= j < order@.len() ==> (#[trigger] order@[j]) < items@.len(),
            forall|j: int| 0 <= j < k ==> (#[trigger] out@[j])@ == items@[order@[j] as int]@,
        decreases order@.len() - k,
    {
        out.push((&items[order[k]]).clone());
        k += 1;
    }
    assert(json::values(out@) =~= things(at_positions(pairs, order@)));
    out
}

} // verus!
