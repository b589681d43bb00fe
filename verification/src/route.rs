//! The router: which operation a request asks for.
//!
//! A request is a method, a path, and the query and body that came with it.
//! The route table is data: an ordered list of entries, the first matching
//! entry decides, and the last entry matches everything.

use crate::models::QueryParams;
use vstd::prelude::*;
use vstd::slice::slice_subrange;

verus! {

/// Request methods that the table tells apart.
#[derive(Debug, Clone, Copy, PartialEq, Eq, Structural)]
pub enum Method {
    Get,
    Post,
    Delete,
    /// Any other method.
    Other,
}

/// What a path looks like.
#[derive(Debug, Clone, Copy, PartialEq, Eq, Structural)]
pub enum PathShape {
    /// Exactly `/orders`.
    Collection,
    /// `/orders/` followed by one non-empty segment without a further slash.
    Item,
    /// Anything else.
    Other,
}

/// A path pattern of the route table.
#[derive(Debug, Clone, Copy, PartialEq, Eq, Structural)]
pub enum Pattern {
    /// `/orders`
    Collection,
    /// `/orders/{segment}`
    Item,
    /// `*`
    Any,
}

/// The operation that an entry of the route table names.
#[derive(Debug, Clone, Copy, PartialEq, Eq, Structural)]
pub enum Handler {
    AddOrder,
    GetOrder,
    GetOrdersForTable,
    RemoveOrder,
    NotFound,
}

/// One line of the route table. A method of `None` accepts every method.
#[derive(Debug, Clone, Copy, PartialEq, Eq, Structural)]
pub struct RouteEntry {
    pub method: Option<Method>,
    pub pattern: Pattern,
    pub handler: Handler,
}

/// Which part of a request did not have the shape that its route requires.
#[derive(Debug, Clone, Copy, PartialEq, Eq, Structural)]
pub enum Rejection {
    /// The body is missing or lacks a field.
    Body,
    /// A query parameter is missing or is no integer.
    Query,
    /// The path segment does not write the integer that its route takes:
    /// a table number of 32 bits, an order's identifier of 64.
    PathSegment,
}

/// The decision of the router.
#[derive(Debug, Clone, Copy, PartialEq, Eq, Structural)]
pub enum Route {
    /// Create an order from the request's body.
    Create,
    GetOne { table_number: i32, order_id: i64 },
    ListByTable { table_number: i32 },
    Delete { order_id: i64 },
    /// A route matched, but the request's shape does not satisfy it.
    Rejected(Rejection),
    /// No route matched.
    NotFound,
}

/// The byte `/`.
pub const SLASH: u8 = 47;

/// The byte `+`.
pub const PLUS: u8 = 43;

/// The byte `-`.
pub const MINUS: u8 = 45;

/// The byte `0`.
pub const DIGIT_ZERO: u8 = 48;

/// The byte `9`.
pub const DIGIT_NINE: u8 = 57;

/// The byte `d`.
pub const LETTER_D: u8 = 100;

/// The byte `e`.
pub const LETTER_E: u8 = 101;

/// The byte `o`.
pub const LETTER_O: u8 = 111;

/// The byte `r`.
pub const LETTER_R: u8 = 114;

/// The byte `s`.
pub const LETTER_S: u8 = 115;

/// The bytes of `/orders`.
pub open spec fn collection_path() -> Seq<u8> {
    seq![SLASH, LETTER_O, LETTER_R, LETTER_D, LETTER_E, LETTER_R, LETTER_S]
}

/// Shape of a path, given as its bytes.
pub open spec fn path_shape(path: Seq<u8>) -> PathShape {
    if path == collection_path() {
        PathShape::Collection
    } else if path.len() > 8 && path.take(7) == collection_path() && path[7] == SLASH
        && !path.skip(8).contains(SLASH) {
        PathShape::Item
    } else {
        PathShape::Other
    }
}

/// The segment behind `/orders/`.
pub open spec fn path_segment(path: Seq<u8>) -> Seq<u8> {
    path.skip(8)
}

pub open spec fn is_digit(byte: u8) -> bool {
    DIGIT_ZERO <= byte <= DIGIT_NINE
}

pub open spec fn all_digits(text: Seq<u8>) -> bool {
    forall|i: int| 0 <= i < text.len() ==> is_digit(#[trigger] text[i])
}

/// The number that a run of decimal digits writes.
pub open spec fn digits_value(digits: Seq<u8>) -> nat
    decreases digits.len(),
{
    if digits.len() == 0 {
        0
    } else {
        digits_value(digits.drop_last()) * 10 + (digits.last() - DIGIT_ZERO) as nat
    }
}

/// The integer that a text writes in decimal: an optional sign, then at
/// least one digit, and nothing else.
pub open spec fn decimal_value(text: Seq<u8>) -> Option<int> {
    if text.len() == 0 {
        None
    } else if text[0] == MINUS || text[0] == PLUS {
        let digits = text.skip(1);
        if digits.len() > 0 && all_digits(digits) {
            if text[0] == MINUS {
                Some(-(digits_value(digits) as int))
            } else {
                Some(digits_value(digits) as int)
            }
        } else {
            None
        }
    } else if all_digits(text) {
        Some(digits_value(text) as int)
    } else {
        None
    }
}

/// The 32-bit integer that a text writes, if it writes one that fits.
pub open spec fn parse_i32_spec(text: Seq<u8>) -> Option<i32> {
    match decimal_value(text) {
        Some(value) => if i32::MIN <= value <= i32::MAX {
            Some(value as i32)
        } else {
            None
        },
        None => None,
    }
}

/// The 64-bit integer that a text writes, if it writes one that fits.
pub open spec fn parse_i64_spec(text: Seq<u8>) -> Option<i64> {
    match decimal_value(text) {
        Some(value) => if i64::MIN <= value <= i64::MAX {
            Some(value as i64)
        } else {
            None
        },
        None => None,
    }
}

/// Whether an entry of the table accepts a method and a path shape.
pub open spec fn entry_accepts(entry: RouteEntry, method: Method, shape: PathShape) -> bool {
    &&& entry.method is None || entry.method == Some(method)
    &&& match entry.pattern {
        Pattern::Collection => shape == PathShape::Collection,
        Pattern::Item => shape == PathShape::Item,
        Pattern::Any => true,
    }
}

/// The handler of the first entry that accepts; not-found when none does.
pub open spec fn first_match(table: Seq<RouteEntry>, method: Method, shape: PathShape) -> Handler
    decreases table.len(),
{
    if table.len() == 0 {
        Handler::NotFound
    } else if entry_accepts(table[0], method, shape) {
        table[0].handler
    } else {
        first_match(table.skip(1), method, shape)
    }
}

/// The route table of the service.
pub open spec fn route_table() -> Seq<RouteEntry> {
    seq![
        RouteEntry {
            method: Some(Method::Post),
            pattern: Pattern::Collection,
            handler: Handler::AddOrder,
        },
        RouteEntry {
            method: Some(Method::Get),
            pattern: Pattern::Collection,
            handler: Handler::GetOrder,
        },
        RouteEntry {
            method: Some(Method::Get),
            pattern: Pattern::Item,
            handler: Handler::GetOrdersForTable,
        },
        RouteEntry {
            method: Some(Method::Delete),
            pattern: Pattern::Item,
            handler: Handler::RemoveOrder,
        },
        RouteEntry { method: None, pattern: Pattern::Any, handler: Handler::NotFound },
    ]
}

/// The handler that the service's table gives, written out case by case.
pub open spec fn handler_for(method: Method, shape: PathShape) -> Handler {
    match (method, shape) {
        (Method::Post, PathShape::Collection) => Handler::AddOrder,
        (Method::Get, PathShape::Collection) => Handler::GetOrder,
        (Method::Get, PathShape::Item) => Handler::GetOrdersForTable,
        (Method::Delete, PathShape::Item) => Handler::RemoveOrder,
        _ => Handler::NotFound,
    }
}

/// The router's decision on a request.
pub open spec fn route_of(
    method: Method,
    path: Seq<u8>,
    query: Option<QueryParams>,
    has_body: bool,
) -> Route {
    match first_match(route_table(), method, path_shape(path)) {
        Handler::AddOrder => if has_body {
            Route::Create
        } else {
            Route::Rejected(Rejection::Body)
        },
        Handler::GetOrder => match query {
            Some(params) => Route::GetOne {
                table_number: params.table_number,
                order_id: params.order_id,
            },
            None => Route::Rejected(Rejection::Query),
        },
        Handler::GetOrdersForTable => match parse_i32_spec(path_segment(path)) {
            Some(table_number) => Route::ListByTable { table_number },
            None => Route::Rejected(Rejection::PathSegment),
        },
        Handler::RemoveOrder => match parse_i64_spec(path_segment(path)) {
            Some(order_id) => Route::Delete { order_id },
            None => Route::Rejected(Rejection::PathSegment),
        },
        Handler::NotFound => Route::NotFound,
    }
}

/// Looking the service's table up is the same as going through the cases.
pub proof fn lemma_route_table_cases(method: Method, shape: PathShape)
    ensures
        first_match(route_table(), method, shape) == handler_for(method, shape),
{
    reveal_with_fuel(first_match, 6);
    let table = route_table();
    assert(table.skip(1)[0] == table[1]);
    assert(table.skip(1).skip(1)[0] == table[2]);
    assert(table.skip(1).skip(1).skip(1)[0] == table[3]);
    assert(table.skip(1).skip(1).skip(1).skip(1)[0] == table[4]);
}

/// A longer run of digits writes a number that is no smaller.
pub proof fn lemma_digits_value_step(digits: Seq<u8>)
    requires
        digits.len() > 0,
        is_digit(digits.last()),
    ensures
        digits_value(digits) == digits_value(digits.drop_last()) * 10 + (digits.last()
            - DIGIT_ZERO),
        digits_value(digits) >= digits_value(digits.drop_last()),
{
}

/// Builds the route table of the service.
pub fn config() -> (table: Vec<RouteEntry>)
    ensures
        table@ == route_table(),
{
    let mut table: Vec<RouteEntry> = Vec::new();
    table.push(
        RouteEntry {
            method: Some(Method::Post),
            pattern: Pattern::Collection,
            handler: Handler::AddOrder,
        },
    );
    table.push(
        RouteEntry {
            method: Some(Method::Get),
            pattern: Pattern::Collection,
            handler: Handler::GetOrder,
        },
    );
    table.push(
        RouteEntry {
            method: Some(Method::Get),
            pattern: Pattern::Item,
            handler: Handler::GetOrdersForTable,
        },
    );
    table.push(
        RouteEntry {
            method: Some(Method::Delete),
            pattern: Pattern::Item,
            handler: Handler::RemoveOrder,
        },
    );
    table.push(RouteEntry { method: None, pattern: Pattern::Any, handler: Handler::NotFound });
    assert(table@ =~= route_table());
    table
}

/// Whether an entry accepts a method and a path shape.
pub fn accepts(entry: &RouteEntry, method: Method, shape: PathShape) -> (ok: bool)
    ensures
        ok == entry_accepts(*entry, method, shape),
{
    let method_ok = match entry.method {
        None => true,
        Some(m) => m == method,
    };
    let pattern_ok = match entry.pattern {
        Pattern::Collection => shape == PathShape::Collection,
        Pattern::Item => shape == PathShape::Item,
        Pattern::Any => true,
    };
    method_ok && pattern_ok
}

/// Walks a route table from its first entry and gives the handler of the
/// first entry that accepts.
pub fn dispatch(table: &Vec<RouteEntry>, method: Method, shape: PathShape) -> (handler: Handler)
    ensures
        handler == first_match(table@, method, shape),
{
    let mut i: usize = 0;
    assert(table@.skip(0) =~= table@);
    while i < table.len()
        invariant
            i <= table.len(),
            first_match(table@, method, shape) == first_match(
                table@.skip(i as int),
                method,
                shape,
            ),
        decreases table.len() - i,
    {
        assert(table@.skip(i as int)[0] == table@[i as int]);
        if accepts(&table[i], method, shape) {
            return table[i].handler;
        }
        assert(table@.skip(i as int).skip(1) =~= table@.skip(i + 1));
        i += 1;
    }
    assert(table@.skip(i as int).len() == 0);
    Handler::NotFound
}

/// Classifies a path.
pub fn classify(path: &[u8]) -> (shape: PathShape)
    ensures
        shape == path_shape(path@),
{
    let n = path.len();
    if n < 7 || path[0] != SLASH || path[1] != LETTER_O || path[2] != LETTER_R || path[3]
        != LETTER_D || path[4] != LETTER_E || path[5] != LETTER_R || path[6] != LETTER_S {
        proof {
            if n >= 7 {
                assert(path@.take(7)[0] == path@[0]);
                assert(path@.take(7)[1] == path@[1]);
                assert(path@.take(7)[2] == path@[2]);
                assert(path@.take(7)[3] == path@[3]);
                assert(path@.take(7)[4] == path@[4]);
                assert(path@.take(7)[5] == path@[5]);
                assert(path@.take(7)[6] == path@[6]);
            }
        }
        return PathShape::Other;
    }
    assert(path@.take(7) =~= collection_path());
    if n == 7 {
        assert(path@ =~= path@.take(7));
        return PathShape::Collection;
    }
    if n == 8 || path[7] != SLASH {
        return PathShape::Other;
    }
    let mut i: usize = 8;
    while i < n
        invariant
            8 <= i <= n,
            n == path@.len(),
            forall|k: int| 8 <= k < i ==> path@[k] != SLASH,
        decreases n - i,
    {
        if path[i] == SLASH {
            assert(path@.skip(8)[i as int - 8] == SLASH);
            return PathShape::Other;
        }
        i += 1;
    }
    assert forall|k: int| 0 <= k < path@.skip(8).len() implies path@.skip(8)[k] != SLASH by {
        assert(path@.skip(8)[k] == path@[k + 8]);
    }
    PathShape::Item
}

/// Reads a decimal text as a sign and a magnitude, as long as the magnitude
/// does not pass `limit`: an optional sign, then at least one digit.
fn read_decimal(text: &[u8], limit: u64) -> (parsed: Option<(bool, u64)>)
    ensures
        match parsed {
            Some((negative, magnitude)) => {
                &&& magnitude <= limit
                &&& decimal_value(text@) == Some(
                    if negative {
                        -(magnitude as int)
                    } else {
                        magnitude as int
                    },
                )
            },
            None => match decimal_value(text@) {
                Some(value) => value < -(limit as int) || value > limit as int,
                None => true,
            },
        },
{
    let n = text.len();
    if n == 0 {
        return None;
    }
    let negative = text[0] == MINUS;
    let start: usize = if text[0] == MINUS || text[0] == PLUS {
        1
    } else {
        0
    };
    if start == n {
        return None;
    }
    let ghost digits = text@.skip(start as int);
    let mut value: u64 = 0;
    let mut too_large = false;
    let mut i: usize = start;
    while i < n
        invariant
            start <= i <= n,
            n == text@.len(),
            negative == (text@[0] == MINUS),
            start == if text@[0] == MINUS || text@[0] == PLUS {
                1usize
            } else {
                0usize
            },
            digits == text@.skip(start as int),
            forall|k: int| 0 <= k < i - start ==> is_digit(#[trigger] digits[k]),
            !too_large ==> value <= limit && value == digits_value(digits.take(i - start)),
            too_large ==> digits_value(digits.take(i - start)) > limit,
        decreases n - i,
    {
        let byte = text[i];
        assert(digits[i - start] == byte);
        if byte < DIGIT_ZERO || byte > DIGIT_NINE {
            assert(!all_digits(digits));
            assert(!all_digits(text@)) by {
                assert(text@[i as int] == byte);
            }
            return None;
        }
        proof {
            assert(digits.take(i - start + 1).drop_last() =~= digits.take(i - start));
            lemma_digits_value_step(digits.take(i - start + 1));
        }
        if !too_large {
            let digit: u64 = (byte - DIGIT_ZERO) as u64;
            if digit > limit || value > (limit - digit) / 10 {
                too_large = true;
            } else {
                value = value * 10 + digit;
            }
        }
        i += 1;
    }
    proof {
        assert(digits.take(n - start) =~= digits);
        assert(all_digits(digits));
        if start == 0 {
            assert(digits =~= text@);
        }
    }
    if too_large {
        None
    } else {
        Some((negative, value))
    }
}

/// Reads a 32-bit integer written in decimal: an optional sign, then at
/// least one digit. Anything else, and any number that does not fit, gives
/// `None`.
pub fn parse_i32(text: &[u8]) -> (parsed: Option<i32>)
    ensures
        parsed == parse_i32_spec(text@),
{
    let limit: u64 = 2147483648;
    match read_decimal(text, limit) {
        Some((negative, magnitude)) => {
            if negative {
                Some((-(magnitude as i64)) as i32)
            } else if magnitude == limit {
                None
            } else {
                Some(magnitude as i32)
            }
        },
        None => None,
    }
}

/// Reads a 64-bit integer written in decimal: an optional sign, then at
/// least one digit. Anything else, and any number that does not fit, gives
/// `None`.
pub fn parse_i64(text: &[u8]) -> (parsed: Option<i64>)
    ensures
        parsed == parse_i64_spec(text@),
{
    let limit: u64 = 9223372036854775808;
    match read_decimal(text, limit) {
        Some((negative, magnitude)) => {
            if magnitude == limit {
                if negative {
                    Some(i64::MIN)
                } else {
                    None
                }
            } else if negative {
                Some(-(magnitude as i64))
            } else {
                Some(magnitude as i64)
            }
        },
        None => None,
    }
}

/// Decides which operation a request asks for.
///
/// `path` holds the bytes of the request's path, without the query.
/// `query` is `None` when the two query parameters were not both there as
/// integers; `has_body` tells whether a body with both fields came.
pub fn resolve(method: Method, path: &[u8], query: Option<QueryParams>, has_body: bool) -> (route:
    Route)
    ensures
        route == route_of(method, path@, query, has_body),
{
    let table = config();
    let shape = classify(path);
    match dispatch(&table, method, shape) {
        Handler::AddOrder => if has_body {
            Route::Create
        } else {
            Route::Rejected(Rejection::Body)
        },
        Handler::GetOrder => match query {
            Some(params) => Route::GetOne {
                table_number: params.table_number,
                order_id: params.order_id,
            },
            None => Route::Rejected(Rejection::Query),
        },
        Handler::GetOrdersForTable => {
            proof {
                lemma_route_table_cases(method, shape);
            }
            match parse_i32(slice_subrange(path, 8, path.len())) {
                Some(table_number) => Route::ListByTable { table_number },
                None => Route::Rejected(Rejection::PathSegment),
            }
        },
        Handler::RemoveOrder => {
            proof {
                lemma_route_table_cases(method, shape);
            }
            match parse_i64(slice_subrange(path, 8, path.len())) {
                Some(order_id) => Route::Delete { order_id },
                None => Route::Rejected(Rejection::PathSegment),
            }
        },
        Handler::NotFound => Route::NotFound,
    }
}

} // verus!
