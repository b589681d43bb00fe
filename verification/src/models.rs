//! The order and the two request payloads.

use vstd::prelude::*;

verus! {

/// Mathematical value of an [`Order`]: the item's text is a sequence of characters.
pub struct OrderView {
    pub id: Option<i64>,
    pub table_number: i32,
    pub item: Seq<char>,
    pub cook_time: i32,
}

/// One food request of a table.
#[derive(Debug, PartialEq, Eq)]
pub struct Order {
    /// Assigned by the store; `None` until then.
    pub id: Option<i64>,
    pub table_number: i32,
    /// Name of the menu item.
    pub item: String,
    /// Minutes the kitchen takes.
    pub cook_time: i32,
}

impl View for Order {
    type V = OrderView;

    open spec fn view(&self) -> OrderView {
        OrderView {
            id: self.id,
            table_number: self.table_number,
            item: self.item@,
            cook_time: self.cook_time,
        }
    }
}

impl Clone for Order {
    fn clone(&self) -> (copy: Order)
        ensures
            copy@ == self@,
    {
        Order {
            id: self.id,
            table_number: self.table_number,
            item: self.item.clone(),
            cook_time: self.cook_time,
        }
    }
}

/// Views of a sequence of orders, one for one.
pub open spec fn order_views(orders: Seq<Order>) -> Seq<OrderView> {
    orders.map_values(|o: Order| o@)
}

/// View of an order that may be absent.
pub open spec fn optional_view(order: Option<Order>) -> Option<OrderView> {
    match order {
        Some(o) => Some(o@),
        None => None,
    }
}

/// What a caller sends to place an order.
#[derive(Debug, PartialEq, Eq)]
pub struct OrderInput {
    pub table_number: i32,
    pub item: String,
}

impl Clone for OrderInput {
    fn clone(&self) -> (copy: OrderInput)
        ensures
            copy.table_number == self.table_number,
            copy.item@ == self.item@,
    {
        OrderInput { table_number: self.table_number, item: self.item.clone() }
    }
}

/// The two keys by which a single order is asked for.
#[derive(Debug, Clone, Copy, PartialEq, Eq, Structural)]
pub struct QueryParams {
    pub table_number: i32,
    pub order_id: i64,
}

} // verus!
