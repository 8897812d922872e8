//! The orders that lists are printed in.

use crate::json;
use crate::json::{Json, JsonView};
use crate::order;
use crate::output;
use crate::text;
use crate::text::Text;
use vstd::prelude::*;

verus! {

broadcast use crate::text::lemma_texts_push;

/// The number of an issue, or nought where it has none.
pub open spec fn sequence_key(issue: JsonView) -> order::OrderKey {
    order::number_key(
        match issue.member("sequence_id"@) {
            Some(JsonView::Int(n)) => n,
            _ => 0,
        },
    )
}

/// The issues in the order of their numbers.
pub open spec fn by_sequence(issues: Seq<JsonView>) -> Seq<JsonView> {
    order::arranged(issues, |issue: JsonView| sequence_key(issue))
}

pub(crate) fn sort_by_sequence(issues: &Vec<Json>) -> (r: Vec<Json>)
    ensures
        json::values(r@) == by_sequence(json::values(issues@)),
{
    let ghost all = json::values(issues@);
    let mut keys: Vec<Vec<i64>> = Vec::new();
    let mut i: usize = 0;
    while i < issues.len()
        invariant
            i <= issues@.len(),
            keys@.len() == i,
            forall|j: int| 0 <= j < i ==> (#[trigger] keys@[j])@ == sequence_key(issues@[j]@),
        decreases issues@.len() - i,
    {
        let n: i64 = match issues[i].get("sequence_id") {
            Some(v) => match v.as_i64() {
                Some(n) => n,
                None => 0,
            },
            None => 0,
        };
        keys.push(order::key_of_number(n));
        i += 1;
    }
    proof {
        let key = |issue: JsonView| sequence_key(issue);
        assert(order::paired(order::keys_view(keys@), all) =~= all.map_values(
            |item: JsonView| (key(item), item),
        ));
    }
    order::sort(issues, &keys)
}

/// Things in the order of a text field.
pub open spec fn by_field(items: Seq<JsonView>, field: Text) -> Seq<JsonView> {
    order::arranged(items, |item: JsonView| order::text_key(output::field_of(item, field)))
}

/// Things in the order of their names, without case.
pub open spec fn by_name(items: Seq<JsonView>) -> Seq<JsonView> {
    order::arranged(
        items,
        |item: JsonView| order::text_key(text::lowercase(output::field_of(item, "name"@))),
    )
}

pub(crate) fn sort_by_field(items: &Vec<Json>, field: &str) -> (r: Vec<Json>)
    ensures
        json::values(r@) == by_field(json::values(items@), field@),
{
    let ghost all = json::values(items@);
    let mut keys: Vec<Vec<i64>> = Vec::new();
    let mut i: usize = 0;
    while i < items.len()
        invariant
            i <= items@.len(),
            keys@.len() == i,
            forall|j: int|
                0 <= j < i ==> (#[trigger] keys@[j])@ == order::text_key(
                    output::field_of(items@[j]@, field@),
                ),
        decreases items@.len() - i,
    {
        keys.push(order::key_of_text(output::field(&items[i], field)));
        i += 1;
    }
    proof {
        let key = |item: JsonView| order::text_key(output::field_of(item, field@));
        assert(order::paired(order::keys_view(keys@), all) =~= all.map_values(
            |item: JsonView| (key(item), item),
        ));
    }
    order::sort(items, &keys)
}

pub(crate) fn sort_by_name(items: &Vec<Json>) -> (r: Vec<Json>)
    ensures
        json::values(r@) == by_name(json::values(items@)),
{
    let ghost all = json::values(items@);
    let mut keys: Vec<Vec<i64>> = Vec::new();
    let mut i: usize = 0;
    while i < items.len()
        invariant
            i <= items@.len(),
            keys@.len() == i,
            forall|j: int|
                0 <= j < i ==> (#[trigger] keys@[j])@ == order::text_key(
                    text::lowercase(output::field_of(items@[j]@, "name"@)),
                ),
        decreases items@.len() - i,
    {
        let lower = text::to_lowercase(output::field(&items[i], "name"));
        keys.push(order::key_of_text(lower.as_str()));
        i += 1;
    }
    proof {
        let key = |item: JsonView|
            order::text_key(text::lowercase(output::field_of(item, "name"@)));
        assert(order::paired(order::keys_view(keys@), all) =~= all.map_values(
            |item: JsonView| (key(item), item),
        ));
    }
    order::sort(items, &keys)
}

// ---- laws ----

/// Whether a list holds what another holds, in the order of the issues' numbers,
/// where an issue without a number counts as nought.
pub open spec fn is_in_order_of_numbers(items: Seq<JsonView>, sorted: Seq<JsonView>) -> bool {
    order::is_arrangement(
        items,
        sorted,
        |v: JsonView|
            order::number_key(
                match v.member("sequence_id"@) {
                    Some(JsonView::Int(n)) => n,
                    _ => 0,
                },
            ),
    )
}

/// Whether a list holds what another holds, in the order of a text field.
pub open spec fn is_in_order_of(
    items: Seq<JsonView>,
    sorted: Seq<JsonView>,
    field: Text,
) -> bool {
    order::is_arrangement(
        items,
        sorted,
        |v: JsonView|
            order::text_key(
                match v.member(field) {
                    Some(JsonView::Text(s)) => s,
                    _ => Seq::empty(),
                },
            ),
    )
}

/// Whether a list holds what another holds, in the order of names without case.
pub open spec fn is_in_order_of_names(items: Seq<JsonView>, sorted: Seq<JsonView>) -> bool {
    order::is_arrangement(
        items,
        sorted,
        |v: JsonView|
            order::text_key(
                text::lowercase(
                    match v.member("name"@) {
                        Some(JsonView::Text(s)) => s,
                        _ => Seq::empty(),
                    },
                ),
            ),
    )
}

/// Issues come by their number, things by a field or by their name without case:
/// each list holds exactly what it held, in that order, and equals stay as they
/// came.
pub proof fn lists_come_in_their_order(items: Seq<JsonView>, field: Text)
    ensures
        is_in_order_of_numbers(items, by_sequence(items)),
        is_in_order_of(items, by_field(items, field), field),
        is_in_order_of_names(items, by_name(items)),
{
    let number = |issue: JsonView| sequence_key(issue);
    let by = |item: JsonView| order::text_key(output::field_of(item, field));
    let name = |item: JsonView|
        order::text_key(text::lowercase(output::field_of(item, "name"@)));
    order::arranging_arranges(items, number);
    order::arranging_arranges(items, by);
    order::arranging_arranges(items, name);
    assert(number =~= |v: JsonView|
        order::number_key(
            match v.member("sequence_id"@) {
                Some(JsonView::Int(n)) => n,
                _ => 0,
            },
        ));
    assert(by =~= |v: JsonView|
        order::text_key(
            match v.member(field) {
                Some(JsonView::Text(s)) => s,
                _ => Seq::empty(),
            },
        ));
    assert(name =~= |v: JsonView|
        order::text_key(
            text::lowercase(
                match v.member("name"@) {
                    Some(JsonView::Text(s)) => s,
                    _ => Seq::empty(),
                },
            ),
        ));
}

} // verus!
