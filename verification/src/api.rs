//! Responses: what the caller gets for each outcome of an operation.
//!
//! Each handler takes the outcome of the store's work, whoever did it, and
//! a failure of the store as its diagnostic text.

use crate::models::{order_views, Order, OrderInput, OrderView};
use crate::route::Rejection;
use vstd::prelude::*;

verus! {

/// Status of a response.
#[derive(Debug, Clone, Copy, PartialEq, Eq, Structural)]
pub enum Status {
    Success,
    BadRequest,
    NotFound,
    InternalServerError,
}

impl Status {
    /// The status as a number.
    pub open spec fn code_of(self) -> u16 {
        match self {
            Status::Success => 200,
            Status::BadRequest => 400,
            Status::NotFound => 404,
            Status::InternalServerError => 500,
        }
    }

    /// The status as a number.
    pub fn code(&self) -> (code: u16)
        ensures
            code == self.code_of(),
    {
        match self {
            Status::Success => 200,
            Status::BadRequest => 400,
            Status::NotFound => 404,
            Status::InternalServerError => 500,
        }
    }

    /// Whether the status reports success.
    pub fn is_success(&self) -> (yes: bool)
        ensures
            yes == (*self == Status::Success),
    {
        match self {
            Status::Success => true,
            _ => false,
        }
    }
}

/// Mathematical value of a [`Body`].
pub enum BodyView {
    Order(OrderView),
    Orders(Seq<OrderView>),
    Text(Seq<char>),
}

/// What a response carries.
#[derive(Debug, PartialEq, Eq)]
pub enum Body {
    Order(Order),
    Orders(Vec<Order>),
    Text(String),
}

impl View for Body {
    type V = BodyView;

    open spec fn view(&self) -> BodyView {
        match self {
            Body::Order(order) => BodyView::Order(order@),
            Body::Orders(orders) => BodyView::Orders(order_views(orders@)),
            Body::Text(text) => BodyView::Text(text@),
        }
    }
}

/// Mathematical value of a [`Response`].
pub struct ResponseView {
    pub status: Status,
    pub body: BodyView,
}

/// A response to one request.
#[derive(Debug, PartialEq, Eq)]
pub struct Response {
    pub status: Status,
    pub body: Body,
}

impl View for Response {
    type V = ResponseView;

    open spec fn view(&self) -> ResponseView {
        ResponseView { status: self.status, body: self.body@ }
    }
}

/// Success with one order.
pub open spec fn order_response(order: OrderView) -> ResponseView {
    ResponseView { status: Status::Success, body: BodyView::Order(order) }
}

/// Success with the orders of a table.
pub open spec fn orders_response(orders: Seq<OrderView>) -> ResponseView {
    ResponseView { status: Status::Success, body: BodyView::Orders(orders) }
}

/// A response that carries a text.
pub open spec fn text_response(status: Status, text: Seq<char>) -> ResponseView {
    ResponseView { status, body: BodyView::Text(text) }
}

/// A failure of the store, with its diagnostic text.
pub open spec fn fault_response(detail: Seq<char>) -> ResponseView {
    text_response(Status::InternalServerError, detail)
}

/// The store holds no such order.
pub open spec fn order_not_found_response() -> ResponseView {
    text_response(Status::NotFound, "Order not found"@)
}

/// The order was removed, or was not there.
pub open spec fn removed_response() -> ResponseView {
    text_response(Status::Success, "Order removed successfully"@)
}

/// No route matched.
pub open spec fn no_route_response() -> ResponseView {
    text_response(Status::NotFound, "404 Not Found: The requested resource does not exist."@)
}

/// The request's shape does not satisfy its route. A path segment that is
/// no integer names no resource; a bad body or query is the caller's error.
pub open spec fn rejection_response(rejection: Rejection) -> ResponseView {
    match rejection {
        Rejection::Body => text_response(Status::BadRequest, "Invalid order: table_number and item are required"@),
        Rejection::Query => text_response(Status::BadRequest, "Invalid query: table_number and order_id are required"@),
        Rejection::PathSegment => text_response(Status::NotFound, "Invalid path: the segment is not an integer"@),
    }
}

/// Response to a request to create an order, given what the insertion
/// answered: the new row's identifier, or the failure's text.
pub fn add_order(order: &OrderInput, cook_time: i32, inserted: Result<i64, String>) -> (response:
    Response)
    ensures
        response@ == match inserted {
            Ok(id) => order_response(
                OrderView {
                    id: Some(id),
                    table_number: order.table_number,
                    item: order.item@,
                    cook_time,
                },
            ),
            Err(detail) => fault_response(detail@),
        },
{
    match inserted {
        Ok(id) => Response {
            status: Status::Success,
            body: Body::Order(
                Order {
                    id: Some(id),
                    table_number: order.table_number,
                    item: order.item.clone(),
                    cook_time,
                },
            ),
        },
        Err(detail) => Response { status: Status::InternalServerError, body: Body::Text(detail) },
    }
}

/// Response to a request for the orders of a table, given the rows that
/// were selected, or the failure's text.
pub fn get_orders_for_table(selected: Result<Vec<Order>, String>) -> (response: Response)
    ensures
        response@ == match selected {
            Ok(orders) => orders_response(order_views(orders@)),
            Err(detail) => fault_response(detail@),
        },
{
    match selected {
        Ok(orders) => Response { status: Status::Success, body: Body::Orders(orders) },
        Err(detail) => Response { status: Status::InternalServerError, body: Body::Text(detail) },
    }
}

/// Response to a request for one order, given the row that was selected,
/// if any, or the failure's text.
pub fn get_order(selected: Result<Option<Order>, String>) -> (response: Response)
    ensures
        response@ == match selected {
            Ok(Some(order)) => order_response(order@),
            Ok(None) => order_not_found_response(),
            Err(detail) => fault_response(detail@),
        },
{
    match selected {
        Ok(Some(order)) => Response { status: Status::Success, body: Body::Order(order) },
        Ok(None) => Response {
            status: Status::NotFound,
            body: Body::Text("Order not found".to_owned()),
        },
        Err(detail) => Response { status: Status::InternalServerError, body: Body::Text(detail) },
    }
}

/// Response to a request to remove an order, given whether the deletion
/// went through. Whether a row existed plays no part.
pub fn remove_order(deleted: Result<(), String>) -> (response: Response)
    ensures
        response@ == match deleted {
            Ok(_) => removed_response(),
            Err(detail) => fault_response(detail@),
        },
{
    match deleted {
        Ok(_) => Response {
            status: Status::Success,
            body: Body::Text("Order removed successfully".to_owned()),
        },
        Err(detail) => Response { status: Status::InternalServerError, body: Body::Text(detail) },
    }
}

/// Response to a request that no route matched.
pub fn handle_404() -> (response: Response)
    ensures
        response@ == no_route_response(),
{
    Response {
        status: Status::NotFound,
        body: Body::Text("404 Not Found: The requested resource does not exist.".to_owned()),
    }
}

/// Response to a request whose shape its route rejects.
pub fn reject(rejection: Rejection) -> (response: Response)
    ensures
        response@ == rejection_response(rejection),
{
    match rejection {
        Rejection::Body => Response {
            status: Status::BadRequest,
            body: Body::Text("Invalid order: table_number and item are required".to_owned()),
        },
        Rejection::Query => Response {
            status: Status::BadRequest,
            body: Body::Text("Invalid query: table_number and order_id are required".to_owned()),
        },
        Rejection::PathSegment => Response {
            status: Status::NotFound,
            body: Body::Text("Invalid path: the segment is not an integer".to_owned()),
        },
    }
}

} // verus!
