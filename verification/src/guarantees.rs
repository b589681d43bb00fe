//! What holds of the store's operations taken together, proved over the
//! rows that the operations' contracts speak of.

use crate::models::OrderView;
use crate::store::{
    ascending_ids, distinct_ids, has_id, is_order_of, lemma_ascending_ids_are_distinct,
    lemma_filter_keeps_ascending_ids, lemma_filter_keeps_distinct_ids, lemma_filter_members,
    lemma_filter_of_all_kept, lemma_filter_of_none_kept, lemma_ordered_insert, lookup,
    rows_for_table, rows_with, without_id,
};
use vstd::prelude::*;

verus! {

/// Listing a table gives exactly the rows of that table: each of them, none
/// of another table, and none twice, whatever other tables hold. They come
/// in ascending order of their identifiers.
pub proof fn list_holds_exactly_the_table(rows: Seq<OrderView>, table_number: i32)
    requires
        ascending_ids(rows),
    ensures
        forall|row: OrderView| #[trigger]
            rows_for_table(rows, table_number).contains(row) <==> rows.contains(row)
                && row.table_number == table_number,
        ascending_ids(rows_for_table(rows, table_number)),
        distinct_ids(rows_for_table(rows, table_number)),
        rows_for_table(rows, table_number).len() <= rows.len(),
{
    let keep = |row: OrderView| row.table_number == table_number;
    lemma_filter_members(rows, keep);
    lemma_filter_keeps_ascending_ids(rows, keep);
    lemma_ascending_ids_are_distinct(rows_for_table(rows, table_number));
}

/// An ordered insertion adds the new row and no other, loses none, and
/// keeps the identifiers ascending.
pub proof fn insert_adds_exactly_one_row(rows: Seq<OrderView>, row: OrderView)
    requires
        ascending_ids(rows),
        row.id is Some,
        !has_id(rows, row.id.unwrap()),
    ensures
        ascending_ids(rows_with(rows, row)),
        rows_with(rows, row).len() == rows.len() + 1,
        forall|other: OrderView| #[trigger]
            rows_with(rows, row).contains(other) <==> other == row || rows.contains(other),
{
    let position = parting_position(rows, row.id.unwrap(), rows.len() as int);
    lemma_ordered_insert(rows, row, position);
    let after = rows.insert(position, row);
    assert forall|other: OrderView| #[trigger]
        after.contains(other) <==> other == row || rows.contains(other) by {
        if after.contains(other) {
            let k = choose|k: int| 0 <= k < after.len() && after[k] == other;
            if k < position {
                assert(rows[k] == other);
            } else if k > position {
                assert(rows[k - 1] == other);
            }
        }
        if other == row {
            assert(after[position] == other);
        }
        if rows.contains(other) {
            let k = choose|k: int| 0 <= k < rows.len() && rows[k] == other;
            if k < position {
                assert(after[k] == other);
            } else {
                assert(after[k + 1] == other);
            }
        }
    }
}

/// Among the first `upto` rows, the index that parts the identifiers below
/// `order_id` from those above it.
proof fn parting_position(rows: Seq<OrderView>, order_id: i64, upto: int) -> (position: int)
    requires
        ascending_ids(rows),
        !has_id(rows, order_id),
        0 <= upto <= rows.len(),
    ensures
        0 <= position <= upto,
        forall|k: int| 0 <= k < position ==> (#[trigger] rows[k]).id.unwrap() < order_id,
        forall|k: int| position <= k < upto ==> (#[trigger] rows[k]).id.unwrap() > order_id,
    decreases upto,
{
    if upto == 0 {
        0
    } else if rows[upto - 1].id.unwrap() < order_id {
        assert forall|k: int| 0 <= k < upto implies (#[trigger] rows[k]).id.unwrap()
            < order_id by {
            if k < upto - 1 {
                assert(rows[k].id.unwrap() < rows[upto - 1].id.unwrap());
            }
        }
        upto
    } else {
        assert(rows[upto - 1].id != Some(order_id));
        parting_position(rows, order_id, upto - 1)
    }
}

/// A row whose identifier is above all others is inserted at the end.
pub proof fn insert_of_largest_id_appends(rows: Seq<OrderView>, row: OrderView)
    requires
        forall|i: int| 0 <= i < rows.len() ==> (#[trigger] rows[i]).id.unwrap() < row.id.unwrap(),
    ensures
        rows_with(rows, row) == rows.push(row),
{
    let below = |other: OrderView| other.id.unwrap() < row.id.unwrap();
    let above = |other: OrderView| other.id.unwrap() > row.id.unwrap();
    lemma_filter_of_all_kept(rows, below);
    lemma_filter_of_none_kept(rows, above);
    assert(rows.push(row) + Seq::<OrderView>::empty() =~= rows.push(row));
}

/// After an ordered insertion the listing of the new row's table holds the
/// new row and what it held before; the listing of every other table
/// holds what it held before.
pub proof fn list_after_ordered_insert(rows: Seq<OrderView>, row: OrderView, table_number: i32)
    requires
        ascending_ids(rows),
        row.id is Some,
        !has_id(rows, row.id.unwrap()),
    ensures
        forall|other: OrderView| #[trigger]
            rows_for_table(rows_with(rows, row), table_number).contains(other) <==> (other == row
                && row.table_number == table_number) || rows_for_table(
                rows,
                table_number,
            ).contains(other),
{
    let keep = |other: OrderView| other.table_number == table_number;
    insert_adds_exactly_one_row(rows, row);
    lemma_filter_members(rows, keep);
    lemma_filter_members(rows_with(rows, row), keep);
}

/// A new row joins the listing of its own table, at the end, and leaves the
/// listing of every other table as it was.
pub proof fn list_after_insert(rows: Seq<OrderView>, order: OrderView, table_number: i32)
    ensures
        rows_for_table(rows.push(order), table_number) == if order.table_number == table_number {
            rows_for_table(rows, table_number).push(order)
        } else {
            rows_for_table(rows, table_number)
        },
{
    reveal(Seq::filter);
    assert(rows.push(order).drop_last() =~= rows);
}

/// Looking up `(table_number, order_id)` gives a row exactly when a row
/// with that identifier and that table exists, and then gives that row.
pub proof fn lookup_finds_exactly_the_match(
    rows: Seq<OrderView>,
    table_number: i32,
    order_id: i64,
)
    requires
        distinct_ids(rows),
    ensures
        lookup(rows, table_number, order_id) is Some <==> exists|i: int|
            0 <= i < rows.len() && is_order_of(#[trigger] rows[i], table_number, order_id),
        forall|i: int|
            0 <= i < rows.len() && is_order_of(#[trigger] rows[i], table_number, order_id) ==> lookup(
                rows,
                table_number,
                order_id,
            ) == Some(rows[i]),
        lookup(rows, table_number, order_id) is Some ==> rows.contains(
            lookup(rows, table_number, order_id).unwrap(),
        ) && is_order_of(lookup(rows, table_number, order_id).unwrap(), table_number, order_id),
{
    if exists|i: int| 0 <= i < rows.len() && is_order_of(#[trigger] rows[i], table_number, order_id) {
        let chosen = choose|i: int|
            0 <= i < rows.len() && is_order_of(#[trigger] rows[i], table_number, order_id);
        assert forall|i: int|
            0 <= i < rows.len() && is_order_of(
                #[trigger] rows[i],
                table_number,
                order_id,
            ) implies lookup(rows, table_number, order_id) == Some(rows[i]) by {
            assert(rows[i].id == rows[chosen].id);
        }
        assert(rows.contains(rows[chosen]));
    }
}

/// A row that was just inserted is found under its identifier and table.
pub proof fn lookup_after_insert(rows: Seq<OrderView>, row: OrderView)
    requires
        ascending_ids(rows),
        row.id is Some,
        !has_id(rows, row.id.unwrap()),
    ensures
        lookup(rows_with(rows, row), row.table_number, row.id.unwrap()) == Some(row),
{
    let after = rows_with(rows, row);
    insert_adds_exactly_one_row(rows, row);
    lemma_ascending_ids_are_distinct(after);
    assert(after.contains(row));
    let k = choose|k: int| 0 <= k < after.len() && after[k] == row;
    assert(is_order_of(after[k], row.table_number, row.id.unwrap()));
    lookup_finds_exactly_the_match(after, row.table_number, row.id.unwrap());
}

/// After an order is deleted, looking it up finds nothing, at any table.
pub proof fn deleted_order_is_not_found(rows: Seq<OrderView>, order_id: i64, table_number: i32)
    ensures
        !has_id(without_id(rows, order_id), order_id),
        lookup(without_id(rows, order_id), table_number, order_id) is None,
{
    let keep = |row: OrderView| row.id != Some(order_id);
    let left = without_id(rows, order_id);
    lemma_filter_members(rows, keep);
    assert forall|i: int| 0 <= i < left.len() implies (#[trigger] left[i]).id != Some(
        order_id,
    ) by {
        assert(left.contains(left[i]));
    }
}

/// Deleting an order a second time changes nothing, and neither does
/// deleting one that the store does not hold.
pub proof fn delete_is_idempotent(rows: Seq<OrderView>, order_id: i64)
    ensures
        without_id(without_id(rows, order_id), order_id) == without_id(rows, order_id),
        !has_id(rows, order_id) ==> without_id(rows, order_id) == rows,
{
    let keep = |row: OrderView| row.id != Some(order_id);
    let left = without_id(rows, order_id);
    deleted_order_is_not_found(rows, order_id, 0);
    assert forall|i: int| 0 <= i < left.len() implies keep(#[trigger] left[i]) by {}
    lemma_filter_of_all_kept(left, keep);
    if !has_id(rows, order_id) {
        assert forall|i: int| 0 <= i < rows.len() implies keep(#[trigger] rows[i]) by {}
        lemma_filter_of_all_kept(rows, keep);
    }
}

/// Deleting one order leaves every other order to be found as before.
pub proof fn delete_leaves_other_orders(
    rows: Seq<OrderView>,
    deleted: i64,
    table_number: i32,
    order_id: i64,
)
    requires
        distinct_ids(rows),
        order_id != deleted,
    ensures
        lookup(without_id(rows, deleted), table_number, order_id) == lookup(
            rows,
            table_number,
            order_id,
        ),
{
    let keep = |row: OrderView| row.id != Some(deleted);
    let left = without_id(rows, deleted);
    lemma_filter_members(rows, keep);
    lemma_filter_keeps_distinct_ids(rows, keep);
    lookup_finds_exactly_the_match(rows, table_number, order_id);
    lookup_finds_exactly_the_match(left, table_number, order_id);
    if lookup(rows, table_number, order_id) is Some {
        let row = lookup(rows, table_number, order_id).unwrap();
        assert(left.contains(row));
        let k = choose|k: int| 0 <= k < left.len() && left[k] == row;
        assert(is_order_of(left[k], table_number, order_id));
    } else if lookup(left, table_number, order_id) is Some {
        let row = lookup(left, table_number, order_id).unwrap();
        assert(rows.contains(row));
        let k = choose|k: int| 0 <= k < rows.len() && rows[k] == row;
        assert(is_order_of(rows[k], table_number, order_id));
    }
}

} // verus!
