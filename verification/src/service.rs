//! The service over a store held in memory: a request goes through the
//! router, the store does the work, and the outcome becomes a response.

use crate::api::{
    add_order, fault_response, get_order, get_orders_for_table, handle_404, no_route_response,
    order_not_found_response, order_response, orders_response, reject, rejection_response,
    remove_order, removed_response, Response, ResponseView, Status,
};
use crate::guarantees::{delete_is_idempotent, deleted_order_is_not_found};
use crate::models::{OrderInput, OrderView, QueryParams};
use crate::route::{
    handler_for, lemma_route_table_cases, parse_i32_spec, parse_i64_spec, path_segment,
    path_shape, resolve, route_of, Handler, Method, Rejection, Route,
};
use crate::store::{
    create_outcome, lookup, rows_after_create, rows_for_table, without_id, OrderStore,
};
use crate::utils::{generate_random_cook_time, valid_cook_time};
use vstd::prelude::*;
use vstd::string::StringSliceAdditionalSpecFns;

verus! {

/// The rows that the store holds after a routed request was carried out.
pub open spec fn rows_after(
    rows: Seq<OrderView>,
    next_id: i64,
    route: Route,
    body: Option<OrderInput>,
    cook_time: i32,
) -> Seq<OrderView> {
    match route {
        Route::Create => match body {
            Some(input) => rows_after_create(
                rows,
                next_id,
                input.table_number,
                input.item@,
                cook_time,
            ),
            None => rows,
        },
        Route::Delete { order_id } => without_id(rows, order_id),
        _ => rows,
    }
}

/// The identifier that the store hands out next after a routed request
/// was carried out.
pub open spec fn next_id_after(
    next_id: i64,
    route: Route,
    body: Option<OrderInput>,
    cook_time: i32,
) -> int {
    if route == Route::Create && body is Some && create_outcome(next_id, cook_time) is Ok {
        next_id + 1
    } else {
        next_id as int
    }
}

/// The response to a routed request.
pub open spec fn response_for(
    rows: Seq<OrderView>,
    next_id: i64,
    route: Route,
    body: Option<OrderInput>,
    cook_time: i32,
) -> ResponseView {
    match route {
        Route::Create => match body {
            Some(input) => match create_outcome(next_id, cook_time) {
                Ok(id) => order_response(
                    OrderView {
                        id: Some(id),
                        table_number: input.table_number,
                        item: input.item@,
                        cook_time,
                    },
                ),
                Err(error) => fault_response(error.text()),
            },
            None => rejection_response(Rejection::Body),
        },
        Route::GetOne { table_number, order_id } => match lookup(rows, table_number, order_id) {
            Some(order) => order_response(order),
            None => order_not_found_response(),
        },
        Route::ListByTable { table_number } => orders_response(rows_for_table(rows, table_number)),
        Route::Delete { order_id } => removed_response(),
        Route::Rejected(rejection) => rejection_response(rejection),
        Route::NotFound => no_route_response(),
    }
}

/// Carries out a routed request on the store and gives the response.
///
/// `body` is the order to create, where one came with the request;
/// `cook_time` is the cook time that an order created now gets.
pub fn execute(store: &mut OrderStore, route: Route, body: Option<OrderInput>, cook_time: i32) -> (
    response: Response)
    requires
        old(store).wf(),
    ensures
        final(store).wf(),
        final(store)@ == rows_after(old(store)@, old(store).next_id(), route, body, cook_time),
        final(store).next_id() == next_id_after(old(store).next_id(), route, body, cook_time),
        response@ == response_for(old(store)@, old(store).next_id(), route, body, cook_time),
{
    match route {
        Route::Create => match body {
            Some(input) => {
                let inserted = match store.insert(
                    input.table_number,
                    input.item.as_str(),
                    cook_time,
                ) {
                    Ok(id) => Ok(id),
                    Err(error) => Err(error.message()),
                };
                add_order(&input, cook_time, inserted)
            },
            None => reject(Rejection::Body),
        },
        Route::GetOne { table_number, order_id } => get_order(
            Ok(store.get_one(table_number, order_id)),
        ),
        Route::ListByTable { table_number } => get_orders_for_table(
            Ok(store.list_by_table(table_number)),
        ),
        Route::Delete { order_id } => {
            store.delete(order_id);
            remove_order(Ok(()))
        },
        Route::Rejected(rejection) => reject(rejection),
        Route::NotFound => handle_404(),
    }
}

/// Answers one request, with the cook time that an order created by it
/// gets.
///
/// `query` holds the two query parameters where both came as integers,
/// `body` the order to create where a body with both fields came.
pub fn handle(
    store: &mut OrderStore,
    method: Method,
    path: &str,
    query: Option<QueryParams>,
    body: Option<OrderInput>,
    cook_time: i32,
) -> (response: Response)
    requires
        old(store).wf(),
    ensures
        final(store).wf(),
        final(store)@ == rows_after(
            old(store)@,
            old(store).next_id(),
            route_of(method, path.spec_bytes(), query, body is Some),
            body,
            cook_time,
        ),
        final(store).next_id() == next_id_after(
            old(store).next_id(),
            route_of(method, path.spec_bytes(), query, body is Some),
            body,
            cook_time,
        ),
        response@ == response_for(
            old(store)@,
            old(store).next_id(),
            route_of(method, path.spec_bytes(), query, body is Some),
            body,
            cook_time,
        ),
{
    let route = resolve(method, path.as_bytes(), query, body.is_some());
    execute(store, route, body, cook_time)
}

/// `response` and `rows` are what [`handle`] gives with this cook time.
pub open spec fn handled_with(
    rows_before: Seq<OrderView>,
    next_id: i64,
    route: Route,
    body: Option<OrderInput>,
    cook_time: i32,
    rows: Seq<OrderView>,
    response: ResponseView,
) -> bool {
    &&& valid_cook_time(cook_time)
    &&& rows == rows_after(rows_before, next_id, route, body, cook_time)
    &&& response == response_for(rows_before, next_id, route, body, cook_time)
}

/// Answers one request. An order created by it gets a cook time drawn for
/// this call alone: the outcome is that of [`handle`] with some valid cook
/// time. The next identifier moves on exactly when an order was created.
pub fn serve(
    store: &mut OrderStore,
    method: Method,
    path: &str,
    query: Option<QueryParams>,
    body: Option<OrderInput>,
) -> (response: Response)
    requires
        old(store).wf(),
    ensures
        final(store).wf(),
        exists|cook_time: i32| #[trigger]
            handled_with(
                old(store)@,
                old(store).next_id(),
                route_of(method, path.spec_bytes(), query, body is Some),
                body,
                cook_time,
                final(store)@,
                response@,
            ),
        final(store).next_id() == if route_of(method, path.spec_bytes(), query, body is Some)
            == Route::Create && body is Some && old(store).next_id() < i64::MAX {
            old(store).next_id() + 1
        } else {
            old(store).next_id() as int
        },
{
    let cook_time = generate_random_cook_time();
    let ghost rows_before = store@;
    let ghost next_id = store.next_id();
    let response = handle(store, method, path, query, body, cook_time);
    assert(handled_with(
        rows_before,
        next_id,
        route_of(method, path.spec_bytes(), query, body is Some),
        body,
        cook_time,
        store@,
        response@,
    ));
    response
}

/// A request that no route matches, or whose path segment is no integer,
/// gets the not-found status, never a server fault, and leaves the store
/// as it was: a path that is neither `/orders` nor `/orders/{segment}`, a
/// method that the path's route does not take, a segment that does not
/// write the table number or the order's identifier.
pub proof fn unmatched_request_is_not_found(
    rows: Seq<OrderView>,
    next_id: i64,
    method: Method,
    path: Seq<u8>,
    query: Option<QueryParams>,
    body: Option<OrderInput>,
    cook_time: i32,
)
    requires
        handler_for(method, path_shape(path)) == Handler::NotFound || (handler_for(
            method,
            path_shape(path),
        ) == Handler::GetOrdersForTable && parse_i32_spec(path_segment(path)) is None) || (
        handler_for(method, path_shape(path)) == Handler::RemoveOrder && parse_i64_spec(
            path_segment(path),
        ) is None),
    ensures
        response_for(
            rows,
            next_id,
            route_of(method, path, query, body is Some),
            body,
            cook_time,
        ).status == Status::NotFound,
        rows_after(rows, next_id, route_of(method, path, query, body is Some), body, cook_time)
            == rows,
{
    lemma_route_table_cases(method, path_shape(path));
}

/// A request whose shape its route rejects is answered with a client
/// error and never reaches the store.
pub proof fn rejected_request_is_client_error(
    rows: Seq<OrderView>,
    next_id: i64,
    rejection: Rejection,
    body: Option<OrderInput>,
    cook_time: i32,
)
    ensures
        response_for(rows, next_id, Route::Rejected(rejection), body, cook_time)
            == rejection_response(rejection),
        rejection_response(rejection).status == Status::BadRequest || rejection_response(
            rejection,
        ).status == Status::NotFound,
        rows_after(rows, next_id, Route::Rejected(rejection), body, cook_time) == rows,
{
}

/// Once a request has deleted an order, a request for that order is
/// answered with not-found, whatever table it names.
pub proof fn get_after_delete_is_not_found(
    rows: Seq<OrderView>,
    next_id: i64,
    order_id: i64,
    table_number: i32,
    body: Option<OrderInput>,
    cook_time: i32,
)
    ensures
        response_for(
            rows_after(rows, next_id, Route::Delete { order_id }, body, cook_time),
            next_id,
            Route::GetOne { table_number, order_id },
            body,
            cook_time,
        ) == order_not_found_response(),
        rows_after(
            rows_after(rows, next_id, Route::Delete { order_id }, body, cook_time),
            next_id,
            Route::Delete { order_id },
            body,
            cook_time,
        ) == rows_after(rows, next_id, Route::Delete { order_id }, body, cook_time),
{
    deleted_order_is_not_found(rows, order_id, table_number);
    delete_is_idempotent(rows, order_id);
}

/// No request sets the next identifier back: an identifier that was
/// handed out once is never handed out again, whatever was deleted since.
pub proof fn next_id_never_goes_back(
    next_id: i64,
    route: Route,
    body: Option<OrderInput>,
    cook_time: i32,
)
    ensures
        next_id_after(next_id, route, body, cook_time) >= next_id,
        next_id_after(next_id, route, body, cook_time) > next_id <==> route == Route::Create
            && body is Some && create_outcome(next_id, cook_time) is Ok,
{
}

/// No request is answered with a server fault unless it creates an order
/// and the store cannot take it.
pub proof fn fault_only_from_failed_create(
    rows: Seq<OrderView>,
    next_id: i64,
    method: Method,
    path: Seq<u8>,
    query: Option<QueryParams>,
    body: Option<OrderInput>,
    cook_time: i32,
)
    ensures
        response_for(
            rows,
            next_id,
            route_of(method, path, query, body is Some),
            body,
            cook_time,
        ).status == Status::InternalServerError <==> route_of(method, path, query, body is Some)
            == Route::Create && body is Some && create_outcome(next_id, cook_time) is Err,
{
    lemma_route_table_cases(method, path_shape(path));
}

} // verus!
