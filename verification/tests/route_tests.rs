use restaurant_app_order_api::api::{
    add_order, get_order, get_orders_for_table, handle_404, reject, remove_order, Body, Response,
    Status,
};
use restaurant_app_order_api::models::{Order, OrderInput, QueryParams};
use restaurant_app_order_api::route::{
    accepts, classify, config, dispatch, parse_i32, parse_i64, resolve, Handler, Method, PathShape, Pattern,
    Rejection, Route, RouteEntry,
};
use restaurant_app_order_api::service::{execute, handle, serve};
use restaurant_app_order_api::store::OrderStore;

fn text(status: Status, body: &str) -> Response {
    Response { status, body: Body::Text(body.to_string()) }
}

fn pizza() -> OrderInput {
    OrderInput { table_number: 1, item: "Pizza".to_string() }
}

#[test]
fn parse_i32_reads_decimal() {
    assert_eq!(parse_i32(b"0"), Some(0));
    assert_eq!(parse_i32(b"3"), Some(3));
    assert_eq!(parse_i32(b"007"), Some(7));
    assert_eq!(parse_i32(b"+5"), Some(5));
    assert_eq!(parse_i32(b"-12"), Some(-12));
    assert_eq!(parse_i32(b"-0"), Some(0));
    assert_eq!(parse_i32(b"2147483647"), Some(i32::MAX));
    assert_eq!(parse_i32(b"-2147483648"), Some(i32::MIN));
    assert_eq!(parse_i32(b"0000000000002147483647"), Some(i32::MAX));
}

#[test]
fn parse_i32_refuses_the_rest() {
    assert_eq!(parse_i32(b""), None);
    assert_eq!(parse_i32(b"-"), None);
    assert_eq!(parse_i32(b"+"), None);
    assert_eq!(parse_i32(b"+-1"), None);
    assert_eq!(parse_i32(b"12a"), None);
    assert_eq!(parse_i32(b" 12"), None);
    assert_eq!(parse_i32(b"1 "), None);
    assert_eq!(parse_i32(b"1.5"), None);
    assert_eq!(parse_i32(b"unavailable"), None);
    assert_eq!(parse_i32(b"2147483648"), None);
    assert_eq!(parse_i32(b"-2147483649"), None);
    assert_eq!(parse_i32(b"99999999999999999999999999"), None);
    assert_eq!(parse_i32(b"-99999999999999999999999999"), None);
}

#[test]
fn parse_i32_agrees_with_std() {
    let samples = [
        "1", "-1", "+1", "42", "2147483646", "2147483647", "2147483648", "-2147483647",
        "-2147483648", "-2147483649", "", "x", "1x", "--1", "00", "+0", "4294967296",
    ];
    for sample in samples {
        assert_eq!(parse_i32(sample.as_bytes()), sample.parse::<i32>().ok(), "{}", sample);
    }
}

#[test]
fn parse_i64_reads_decimal() {
    assert_eq!(parse_i64(b"0"), Some(0));
    assert_eq!(parse_i64(b"1"), Some(1));
    assert_eq!(parse_i64(b"+17"), Some(17));
    assert_eq!(parse_i64(b"-17"), Some(-17));
    assert_eq!(parse_i64(b"-0"), Some(0));
    assert_eq!(parse_i64(b"2147483648"), Some(2147483648));
    assert_eq!(parse_i64(b"-2147483649"), Some(-2147483649));
    assert_eq!(parse_i64(b"9223372036854775807"), Some(i64::MAX));
    assert_eq!(parse_i64(b"-9223372036854775808"), Some(i64::MIN));
    assert_eq!(parse_i64(b"-9223372036854775807"), Some(-9223372036854775807));
    assert_eq!(parse_i64(b"0009223372036854775807"), Some(i64::MAX));
}

#[test]
fn parse_i64_refuses_the_rest() {
    assert_eq!(parse_i64(b""), None);
    assert_eq!(parse_i64(b"-"), None);
    assert_eq!(parse_i64(b"+"), None);
    assert_eq!(parse_i64(b"1x"), None);
    assert_eq!(parse_i64(b" 1"), None);
    assert_eq!(parse_i64(b"not-a-number"), None);
    assert_eq!(parse_i64(b"9223372036854775808"), None);
    assert_eq!(parse_i64(b"-9223372036854775809"), None);
    assert_eq!(parse_i64(b"18446744073709551615"), None);
    assert_eq!(parse_i64(b"18446744073709551616"), None);
    assert_eq!(parse_i64(b"92233720368547758070"), None);
    assert_eq!(parse_i64(b"999999999999999999999999999999999999"), None);
}

#[test]
fn parse_i64_agrees_with_std() {
    let samples = [
        "1", "-1", "+1", "42", "9223372036854775806", "9223372036854775807",
        "9223372036854775808", "9223372036854775809", "-9223372036854775807",
        "-9223372036854775808", "-9223372036854775809", "", "x", "1x", "--1", "00", "+0",
        "18446744073709551615", "18446744073709551616", "18446744073709551617",
        "1844674407370955161", "1844674407370955162", "99999999999999999999",
    ];
    for sample in samples {
        assert_eq!(parse_i64(sample.as_bytes()), sample.parse::<i64>().ok(), "{}", sample);
    }
}

#[test]
fn classify_tells_the_three_shapes_apart() {
    assert_eq!(classify(b"/orders"), PathShape::Collection);
    assert_eq!(classify(b"/orders/3"), PathShape::Item);
    assert_eq!(classify(b"/orders/unavailable"), PathShape::Item);
    assert_eq!(classify(b"/orders/"), PathShape::Other);
    assert_eq!(classify(b"/orders/3/"), PathShape::Other);
    assert_eq!(classify(b"/orders/3/4"), PathShape::Other);
    assert_eq!(classify(b"/orders//"), PathShape::Other);
    assert_eq!(classify(b"/ordersX"), PathShape::Other);
    assert_eq!(classify(b"/order"), PathShape::Other);
    assert_eq!(classify(b"/Orders"), PathShape::Other);
    assert_eq!(classify(b"/items"), PathShape::Other);
    assert_eq!(classify(b"orders"), PathShape::Other);
    assert_eq!(classify(b"/"), PathShape::Other);
    assert_eq!(classify(b""), PathShape::Other);
}

#[test]
fn route_table_has_four_routes_and_a_wildcard() {
    let table = config();
    assert_eq!(
        table,
        vec![
            RouteEntry {
                method: Some(Method::Post),
                pattern: Pattern::Collection,
                handler: Handler::AddOrder
            },
            RouteEntry {
                method: Some(Method::Get),
                pattern: Pattern::Collection,
                handler: Handler::GetOrder
            },
            RouteEntry {
                method: Some(Method::Get),
                pattern: Pattern::Item,
                handler: Handler::GetOrdersForTable
            },
            RouteEntry {
                method: Some(Method::Delete),
                pattern: Pattern::Item,
                handler: Handler::RemoveOrder
            },
            RouteEntry { method: None, pattern: Pattern::Any, handler: Handler::NotFound },
        ]
    );
}

#[test]
fn dispatch_takes_the_first_entry_that_accepts() {
    let table = config();
    assert_eq!(dispatch(&table, Method::Post, PathShape::Collection), Handler::AddOrder);
    assert_eq!(dispatch(&table, Method::Get, PathShape::Collection), Handler::GetOrder);
    assert_eq!(dispatch(&table, Method::Get, PathShape::Item), Handler::GetOrdersForTable);
    assert_eq!(dispatch(&table, Method::Delete, PathShape::Item), Handler::RemoveOrder);
    assert_eq!(dispatch(&table, Method::Delete, PathShape::Collection), Handler::NotFound);
    assert_eq!(dispatch(&table, Method::Post, PathShape::Item), Handler::NotFound);
    assert_eq!(dispatch(&table, Method::Other, PathShape::Collection), Handler::NotFound);
    assert_eq!(dispatch(&table, Method::Other, PathShape::Item), Handler::NotFound);
    assert_eq!(dispatch(&table, Method::Get, PathShape::Other), Handler::NotFound);

    let both = vec![
        RouteEntry { method: None, pattern: Pattern::Item, handler: Handler::RemoveOrder },
        RouteEntry { method: None, pattern: Pattern::Any, handler: Handler::GetOrder },
        RouteEntry { method: None, pattern: Pattern::Any, handler: Handler::AddOrder },
    ];
    assert_eq!(dispatch(&both, Method::Get, PathShape::Item), Handler::RemoveOrder);
    assert_eq!(dispatch(&both, Method::Get, PathShape::Other), Handler::GetOrder);
    assert_eq!(dispatch(&Vec::new(), Method::Get, PathShape::Item), Handler::NotFound);
}

#[test]
fn accepts_checks_method_and_pattern() {
    let entry =
        RouteEntry { method: Some(Method::Get), pattern: Pattern::Item, handler: Handler::GetOrder };
    assert!(accepts(&entry, Method::Get, PathShape::Item));
    assert!(!accepts(&entry, Method::Post, PathShape::Item));
    assert!(!accepts(&entry, Method::Get, PathShape::Collection));
    let any = RouteEntry { method: None, pattern: Pattern::Any, handler: Handler::NotFound };
    assert!(accepts(&any, Method::Other, PathShape::Other));
}

#[test]
fn resolve_names_the_operation() {
    let query = QueryParams { table_number: 10, order_id: 100 };
    assert_eq!(resolve(Method::Post, b"/orders", None, true), Route::Create);
    assert_eq!(
        resolve(Method::Get, b"/orders", Some(query), false),
        Route::GetOne { table_number: 10, order_id: 100 }
    );
    assert_eq!(resolve(Method::Get, b"/orders/3", None, false), Route::ListByTable { table_number: 3 });
    assert_eq!(
        resolve(Method::Get, b"/orders/-3", None, false),
        Route::ListByTable { table_number: -3 }
    );
    assert_eq!(resolve(Method::Delete, b"/orders/17", None, false), Route::Delete { order_id: 17 });
    assert_eq!(
        resolve(Method::Delete, b"/orders/2147483648", None, false),
        Route::Delete { order_id: 2147483648 }
    );
    assert_eq!(
        resolve(Method::Delete, b"/orders/-9223372036854775808", None, false),
        Route::Delete { order_id: i64::MIN }
    );
}

#[test]
fn resolve_rejects_malformed_requests() {
    assert_eq!(resolve(Method::Post, b"/orders", None, false), Route::Rejected(Rejection::Body));
    assert_eq!(resolve(Method::Get, b"/orders", None, false), Route::Rejected(Rejection::Query));
    assert_eq!(
        resolve(Method::Get, b"/orders/not-a-number", None, false),
        Route::Rejected(Rejection::PathSegment)
    );
    assert_eq!(
        resolve(Method::Get, b"/orders/2147483648", None, false),
        Route::Rejected(Rejection::PathSegment)
    );
    assert_eq!(
        resolve(Method::Delete, b"/orders/not-a-number", None, false),
        Route::Rejected(Rejection::PathSegment)
    );
    assert_eq!(
        resolve(Method::Delete, b"/orders/9223372036854775808", None, false),
        Route::Rejected(Rejection::PathSegment)
    );
}

#[test]
fn resolve_finds_no_route() {
    let query = QueryParams { table_number: 1, order_id: 1 };
    assert_eq!(resolve(Method::Get, b"/items", None, false), Route::NotFound);
    assert_eq!(resolve(Method::Get, b"/", Some(query), true), Route::NotFound);
    assert_eq!(resolve(Method::Delete, b"/orders", Some(query), true), Route::NotFound);
    assert_eq!(resolve(Method::Other, b"/orders", Some(query), true), Route::NotFound);
    assert_eq!(resolve(Method::Post, b"/orders/3", None, true), Route::NotFound);
    assert_eq!(resolve(Method::Other, b"/orders/3", None, true), Route::NotFound);
    assert_eq!(resolve(Method::Get, b"/orders/3/4", None, false), Route::NotFound);
    assert_eq!(resolve(Method::Get, b"/orders/", None, false), Route::NotFound);
}

#[test]
fn status_codes() {
    assert_eq!(Status::Success.code(), 200);
    assert_eq!(Status::BadRequest.code(), 400);
    assert_eq!(Status::NotFound.code(), 404);
    assert_eq!(Status::InternalServerError.code(), 500);
    assert!(Status::Success.is_success());
    assert!(!Status::BadRequest.is_success());
    assert!(!Status::NotFound.is_success());
    assert!(!Status::InternalServerError.is_success());
}

#[test]
fn add_order_response() {
    let created = add_order(&pizza(), 9, Ok(42));
    assert_eq!(
        created,
        Response {
            status: Status::Success,
            body: Body::Order(Order {
                id: Some(42),
                table_number: 1,
                item: "Pizza".to_string(),
                cook_time: 9
            })
        }
    );
    let failed = add_order(&pizza(), 9, Err("pool timed out".to_string()));
    assert_eq!(failed, text(Status::InternalServerError, "pool timed out"));
}

#[test]
fn get_orders_for_table_response() {
    let order = Order { id: Some(1), table_number: 3, item: "Burger".to_string(), cook_time: 12 };
    assert_eq!(
        get_orders_for_table(Ok(vec![order.clone()])),
        Response { status: Status::Success, body: Body::Orders(vec![order]) }
    );
    assert_eq!(
        get_orders_for_table(Ok(Vec::new())),
        Response { status: Status::Success, body: Body::Orders(Vec::new()) }
    );
    assert_eq!(
        get_orders_for_table(Err("disk I/O error".to_string())),
        text(Status::InternalServerError, "disk I/O error")
    );
}

#[test]
fn get_order_response() {
    let order = Order { id: Some(1), table_number: 3, item: "Burger".to_string(), cook_time: 12 };
    assert_eq!(
        get_order(Ok(Some(order.clone()))),
        Response { status: Status::Success, body: Body::Order(order) }
    );
    assert_eq!(get_order(Ok(None)), text(Status::NotFound, "Order not found"));
    assert_eq!(
        get_order(Err("disk I/O error".to_string())),
        text(Status::InternalServerError, "disk I/O error")
    );
}

#[test]
fn remove_order_response() {
    assert_eq!(remove_order(Ok(())), text(Status::Success, "Order removed successfully"));
    assert_eq!(
        remove_order(Err("database is locked".to_string())),
        text(Status::InternalServerError, "database is locked")
    );
}

#[test]
fn handle_404_response() {
    assert_eq!(
        handle_404(),
        text(Status::NotFound, "404 Not Found: The requested resource does not exist.")
    );
}

#[test]
fn reject_response() {
    assert_eq!(
        reject(Rejection::Body),
        text(Status::BadRequest, "Invalid order: table_number and item are required")
    );
    assert_eq!(
        reject(Rejection::Query),
        text(Status::BadRequest, "Invalid query: table_number and order_id are required")
    );
    assert_eq!(
        reject(Rejection::PathSegment),
        text(Status::NotFound, "Invalid path: the segment is not an integer")
    );
}

#[test]
fn handle_creates_with_the_given_cook_time() {
    let mut store = OrderStore::new();
    let resp = handle(&mut store, Method::Post, "/orders", None, Some(pizza()), 7);
    let expected = Order { id: Some(1), table_number: 1, item: "Pizza".to_string(), cook_time: 7 };
    assert_eq!(resp, Response { status: Status::Success, body: Body::Order(expected.clone()) });
    assert_eq!(store.get_one(1, 1), Some(expected));
}

#[test]
fn handle_reports_a_refused_insert_as_fault() {
    let mut store = OrderStore::new();
    let resp = handle(&mut store, Method::Post, "/orders", None, Some(pizza()), 20);
    assert_eq!(resp, text(Status::InternalServerError, "cook_time out of range"));
    assert_eq!(store.len(), 0);
}

#[test]
fn execute_without_body_rejects() {
    let mut store = OrderStore::new();
    let resp = execute(&mut store, Route::Create, None, 7);
    assert_eq!(resp.status, Status::BadRequest);
    assert_eq!(store.len(), 0);
}

#[test]
fn pizza_scenario() {
    let mut store = OrderStore::new();
    let resp = serve(&mut store, Method::Post, "/orders", None, Some(pizza()));
    assert_eq!(resp.status.code(), 200);
    match resp.body {
        Body::Order(order) => {
            assert!(order.id.is_some());
            assert_eq!(order.table_number, 1);
            assert_eq!(order.item, "Pizza");
            assert!((5..=15).contains(&order.cook_time));
        }
        other => panic!("expected an order, got {:?}", other),
    }
}

#[test]
fn burger_scenario() {
    let mut store = OrderStore::new();
    store.insert(3, "Burger", 12).unwrap();
    store.insert(4, "Salad", 6).unwrap();
    let resp = serve(&mut store, Method::Get, "/orders/3", None, None);
    assert_eq!(resp.status.code(), 200);
    assert_eq!(
        resp.body,
        Body::Orders(vec![Order {
            id: Some(1),
            table_number: 3,
            item: "Burger".to_string(),
            cook_time: 12
        }])
    );
}

#[test]
fn sushi_scenario() {
    let mut store = OrderStore::new();
    store.insert_with_id(1, 2, "Sushi", 5).unwrap();
    let resp = serve(&mut store, Method::Delete, "/orders/1", None, None);
    assert_eq!(resp, text(Status::Success, "Order removed successfully"));
    let query = QueryParams { table_number: 2, order_id: 1 };
    let resp = serve(&mut store, Method::Get, "/orders", Some(query), None);
    assert_eq!(resp.status.code(), 404);
    assert_eq!(resp, text(Status::NotFound, "Order not found"));
    let again = serve(&mut store, Method::Delete, "/orders/1", None, None);
    assert_eq!(again.status.code(), 200);
}

#[test]
fn delete_reaches_an_order_whose_id_needs_more_than_32_bits() {
    let mut store = OrderStore::new();
    store.insert_with_id(2147483648, 2, "Sushi", 5).unwrap();
    let resp = serve(&mut store, Method::Delete, "/orders/2147483648", None, None);
    assert_eq!(resp, text(Status::Success, "Order removed successfully"));
    assert_eq!(resp.status.code(), 200);
    assert_eq!(store.len(), 0);
    let query = QueryParams { table_number: 2, order_id: 2147483648 };
    let resp = serve(&mut store, Method::Get, "/orders", Some(query), None);
    assert_eq!(resp.status.code(), 404);
}

#[test]
fn delete_of_the_largest_id_leaves_the_others() {
    let mut store = OrderStore::new();
    store.insert_with_id(i64::MAX - 1, 1, "a", 5).unwrap();
    store.insert_with_id(4294967296, 1, "b", 5).unwrap();
    let resp = serve(&mut store, Method::Delete, "/orders/9223372036854775806", None, None);
    assert_eq!(resp.status.code(), 200);
    assert!(!store.contains_id(i64::MAX - 1));
    assert!(store.contains_id(4294967296));
}

#[test]
fn serve_never_hands_out_a_deleted_id_again() {
    let mut store = OrderStore::new();
    let first = serve(&mut store, Method::Post, "/orders", None, Some(pizza()));
    let second = serve(&mut store, Method::Post, "/orders", None, Some(pizza()));
    match (first.body, second.body) {
        (Body::Order(a), Body::Order(b)) => {
            assert_eq!(a.id, Some(1));
            assert_eq!(b.id, Some(2));
        }
        other => panic!("expected two orders, got {:?}", other),
    }
    serve(&mut store, Method::Delete, "/orders/2", None, None);
    serve(&mut store, Method::Get, "/orders/1", None, None);
    serve(&mut store, Method::Get, "/items", None, None);
    let third = serve(&mut store, Method::Post, "/orders", None, Some(pizza()));
    match third.body {
        Body::Order(c) => assert_eq!(c.id, Some(3)),
        other => panic!("expected an order, got {:?}", other),
    }
}

#[test]
fn unmatched_routes_are_not_found_and_touch_nothing() {
    let mut store = OrderStore::new();
    store.insert(1, "a", 5).unwrap();
    let cases = [
        (Method::Get, "/items"),
        (Method::Get, "/orders/not-a-number"),
        (Method::Delete, "/orders/not-a-number"),
        (Method::Delete, "/orders"),
        (Method::Other, "/orders"),
        (Method::Post, "/orders/1"),
        (Method::Other, "/orders/1"),
        (Method::Get, "/orders/1/2"),
        (Method::Post, "/"),
    ];
    for (method, path) in cases {
        let resp = serve(&mut store, method, path, None, Some(pizza()));
        assert_eq!(resp.status, Status::NotFound, "{}", path);
        assert_eq!(resp.status.code(), 404);
        assert_eq!(store.len(), 1);
    }
    let resp = serve(&mut store, Method::Get, "/items", None, None);
    assert_eq!(
        resp,
        text(Status::NotFound, "404 Not Found: The requested resource does not exist.")
    );
}

#[test]
fn malformed_body_or_query_is_a_client_error() {
    let mut store = OrderStore::new();
    let resp = serve(&mut store, Method::Post, "/orders", None, None);
    assert_eq!(resp.status.code(), 400);
    let resp = serve(&mut store, Method::Get, "/orders", None, None);
    assert_eq!(resp.status.code(), 400);
    assert_eq!(store.len(), 0);
}
