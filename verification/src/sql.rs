//! The statements by which the four operations reach a relational backing
//! store. Each operation is a single statement; its parameters are bound
//! in the order in which the statement names them.

use vstd::prelude::*;

verus! {

/// Inserts one row; binds table number, item, cook time.
pub const INSERT_ORDER: &'static str =
    "INSERT INTO orders (table_number, item, cook_time) VALUES (?, ?, ?)";

/// Selects the rows of one table; binds the table number.
pub const SELECT_BY_TABLE: &'static str =
    "SELECT id, table_number, item, cook_time FROM orders WHERE table_number = ?";

/// Selects one row; binds the order's identifier, then the table number.
pub const SELECT_ONE: &'static str =
    "SELECT id, table_number, item, cook_time FROM orders WHERE id = ? AND table_number = ?";

/// Deletes one row; binds the order's identifier.
pub const DELETE_ORDER: &'static str = "DELETE FROM orders WHERE id = ?";

} // verus!
