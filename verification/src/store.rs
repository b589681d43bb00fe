//! The order store: the collection of persisted orders and the four
//! operations on it.
//!
//! A store's value is the sequence of its rows, in ascending order of their
//! identifiers, together with the next identifier it will hand out. Every
//! operation is stated over that sequence.

use crate::models::{optional_view, order_views, Order, OrderView};
use crate::utils::{generate_random_cook_time, is_valid_cook_time, valid_cook_time};
use vstd::prelude::*;

verus! {

/// `row` is the order `order_id` of table `table_number`.
pub open spec fn is_order_of(row: OrderView, table_number: i32, order_id: i64) -> bool {
    row.id == Some(order_id) && row.table_number == table_number
}

/// The store holds a row with this identifier.
pub open spec fn has_id(rows: Seq<OrderView>, order_id: i64) -> bool {
    exists|i: int| 0 <= i < rows.len() && (#[trigger] rows[i]).id == Some(order_id)
}

/// Every row has an identifier, and no two rows share one.
pub open spec fn distinct_ids(rows: Seq<OrderView>) -> bool {
    &&& forall|i: int| 0 <= i < rows.len() ==> (#[trigger] rows[i]).id is Some
    &&& forall|i: int, j: int|
        0 <= i < rows.len() && 0 <= j < rows.len() && i != j ==> (#[trigger] rows[i]).id != (
        #[trigger] rows[j]).id
}

/// Every row has an identifier, and the identifiers rise along the rows.
pub open spec fn ascending_ids(rows: Seq<OrderView>) -> bool {
    &&& forall|i: int| 0 <= i < rows.len() ==> (#[trigger] rows[i]).id is Some
    &&& forall|i: int, j: int|
        0 <= i < j < rows.len() ==> (#[trigger] rows[i]).id.unwrap() < (
        #[trigger] rows[j]).id.unwrap()
}

/// The rows with one more row, put where its identifier belongs: behind
/// the rows with a smaller identifier and before those with a larger one.
pub open spec fn rows_with(rows: Seq<OrderView>, row: OrderView) -> Seq<OrderView> {
    rows.filter(|other: OrderView| other.id.unwrap() < row.id.unwrap()).push(row) + rows.filter(
        |other: OrderView| other.id.unwrap() > row.id.unwrap(),
    )
}

/// Every row's cook time is one the kitchen accepts.
pub open spec fn cook_times_valid(rows: Seq<OrderView>) -> bool {
    forall|i: int| 0 <= i < rows.len() ==> valid_cook_time((#[trigger] rows[i]).cook_time)
}

/// The rows of one table, in the order of the store.
pub open spec fn rows_for_table(rows: Seq<OrderView>, table_number: i32) -> Seq<OrderView> {
    rows.filter(|row: OrderView| row.table_number == table_number)
}

/// The row with the given identifier and table, if there is one.
pub open spec fn lookup(rows: Seq<OrderView>, table_number: i32, order_id: i64) -> Option<
    OrderView,
> {
    if exists|i: int| 0 <= i < rows.len() && is_order_of(#[trigger] rows[i], table_number, order_id) {
        Some(
            rows[choose|i: int|
                0 <= i < rows.len() && is_order_of(#[trigger] rows[i], table_number, order_id)],
        )
    } else {
        None
    }
}

/// The rows that remain when the order `order_id` is removed.
pub open spec fn without_id(rows: Seq<OrderView>, order_id: i64) -> Seq<OrderView> {
    rows.filter(|row: OrderView| row.id != Some(order_id))
}

/// Why the store could not complete an insertion.
#[derive(Debug, Clone, Copy, PartialEq, Eq, Structural)]
pub enum StoreError {
    /// The cook time lies outside the accepted range.
    CookTimeOutOfRange,
    /// A row with the given identifier exists already.
    DuplicateId,
    /// No identifier is left to hand out.
    IdsExhausted,
}

impl StoreError {
    /// Diagnostic text of the failure.
    pub open spec fn text(self) -> Seq<char> {
        match self {
            StoreError::CookTimeOutOfRange => "cook_time out of range"@,
            StoreError::DuplicateId => "an order with this id exists already"@,
            StoreError::IdsExhausted => "no order id is left"@,
        }
    }

    /// Diagnostic text of the failure.
    pub fn message(&self) -> (text: String)
        ensures
            text@ == self.text(),
    {
        match self {
            StoreError::CookTimeOutOfRange => "cook_time out of range".to_owned(),
            StoreError::DuplicateId => "an order with this id exists already".to_owned(),
            StoreError::IdsExhausted => "no order id is left".to_owned(),
        }
    }
}

/// The persisted orders.
pub struct OrderStore {
    rows: Vec<Order>,
    next_id: i64,
}

impl View for OrderStore {
    type V = Seq<OrderView>;

    closed spec fn view(&self) -> Seq<OrderView> {
        order_views(self.rows@)
    }
}

impl OrderStore {
    /// The identifier that the next created order gets.
    pub closed spec fn next_id(&self) -> i64 {
        self.next_id
    }

    /// The store's invariant: the rows stand in ascending order of their
    /// identifiers, which are below the next one to hand out, and every
    /// cook time is valid.
    pub open spec fn wf(&self) -> bool {
        &&& ascending_ids(self@)
        &&& cook_times_valid(self@)
        &&& forall|i: int|
            0 <= i < self@.len() ==> (#[trigger] self@[i]).id.unwrap() < self.next_id()
    }

    /// An empty store, whose first order gets the identifier 1.
    pub fn new() -> (store: OrderStore)
        ensures
            store.wf(),
            store@ == Seq::<OrderView>::empty(),
            store.next_id() == 1,
    {
        let store = OrderStore { rows: Vec::new(), next_id: 1 };
        assert(store@ =~= Seq::<OrderView>::empty());
        store
    }

    /// Number of rows.
    pub fn len(&self) -> (n: usize)
        ensures
            n == self@.len(),
    {
        self.rows.len()
    }

    /// Whether a row with this identifier exists.
    pub fn contains_id(&self, order_id: i64) -> (found: bool)
        ensures
            found == has_id(self@, order_id),
    {
        let mut i: usize = 0;
        while i < self.rows.len()
            invariant
                i <= self.rows.len(),
                forall|k: int| 0 <= k < i ==> (#[trigger] self@[k]).id != Some(order_id),
            decreases self.rows.len() - i,
        {
            if self.rows[i].id == Some(order_id) {
                assert(self@[i as int].id == Some(order_id));
                return true;
            }
            i += 1;
        }
        false
    }

    /// Inserts a row under an identifier that the caller chose, at the
    /// place that keeps the identifiers ascending.
    ///
    /// Fails, leaving the store as it was, when the cook time is out of
    /// range, when the identifier is taken, or when it is the largest
    /// integer, after which none could be handed out.
    pub fn insert_with_id(
        &mut self,
        order_id: i64,
        table_number: i32,
        item: &str,
        cook_time: i32,
    ) -> (result: Result<(), StoreError>)
        requires
            old(self).wf(),
        ensures
            final(self).wf(),
            result == insert_outcome(old(self)@, order_id, cook_time),
            result is Err ==> final(self)@ == old(self)@ && final(self).next_id() == old(
                self,
            ).next_id(),
            result is Ok ==> final(self)@ == rows_with(
                old(self)@,
                OrderView { id: Some(order_id), table_number, item: item@, cook_time },
            ),
            result is Ok ==> final(self).next_id() == if order_id >= old(self).next_id() {
                order_id + 1
            } else {
                old(self).next_id() as int
            },
    {
        if !is_valid_cook_time(cook_time) {
            return Err(StoreError::CookTimeOutOfRange);
        }
        if self.contains_id(order_id) {
            return Err(StoreError::DuplicateId);
        }
        if order_id == i64::MAX {
            return Err(StoreError::IdsExhausted);
        }
        let ghost before = self@;
        let ghost row = OrderView { id: Some(order_id), table_number, item: item@, cook_time };
        let position = self.position_for(order_id);
        let order = Order { id: Some(order_id), table_number, item: item.to_owned(), cook_time };
        self.rows.insert(position, order);
        if order_id >= self.next_id {
            self.next_id = order_id + 1;
        }
        proof {
            lemma_ordered_insert(before, row, position as int);
            assert(self@ =~= before.insert(position as int, row));
        }
        Ok(())
    }

    /// The number of rows whose identifier is below the given one: the
    /// index at which a row with that identifier belongs.
    fn position_for(&self, order_id: i64) -> (position: usize)
        requires
            self.wf(),
        ensures
            position <= self@.len(),
            forall|k: int| 0 <= k < position ==> (#[trigger] self@[k]).id.unwrap() < order_id,
            forall|k: int|
                position <= k < self@.len() ==> (#[trigger] self@[k]).id.unwrap() >= order_id,
    {
        let mut position: usize = 0;
        let mut found = false;
        while position < self.rows.len() && !found
            invariant
                self.wf(),
                position <= self.rows.len(),
                forall|k: int| 0 <= k < position ==> (#[trigger] self@[k]).id.unwrap() < order_id,
                found ==> position < self.rows.len() && self@[position as int].id.unwrap()
                    >= order_id,
            decreases self.rows.len() - position + if found {
                    0int
                } else {
                    1int
                },
        {
            let below = match self.rows[position].id {
                Some(id) => id < order_id,
                None => false,
            };
            assert(self@[position as int].id == self.rows[position as int].id);
            if below {
                position += 1;
            } else {
                found = true;
            }
        }
        assert forall|k: int| position <= k < self@.len() implies (#[trigger] self@[k]).id.unwrap()
            >= order_id by {
            if k > position {
                assert(self@[position as int].id.unwrap() < self@[k].id.unwrap());
            }
        }
        position
    }

    /// Inserts a row under the next identifier and returns that identifier.
    ///
    /// Fails, leaving the store as it was, when the cook time is out of
    /// range or no identifier is left.
    pub fn insert(&mut self, table_number: i32, item: &str, cook_time: i32) -> (result: Result<
        i64,
        StoreError,
    >)
        requires
            old(self).wf(),
        ensures
            final(self).wf(),
            result == create_outcome(old(self).next_id(), cook_time),
            final(self)@ == rows_after_create(
                old(self)@,
                old(self).next_id(),
                table_number,
                item@,
                cook_time,
            ),
            final(self).next_id() == if result is Ok {
                old(self).next_id() + 1
            } else {
                old(self).next_id() as int
            },
    {
        if !is_valid_cook_time(cook_time) {
            return Err(StoreError::CookTimeOutOfRange);
        }
        if self.next_id == i64::MAX {
            return Err(StoreError::IdsExhausted);
        }
        let ghost before = self@;
        let order_id = self.next_id;
        let order = Order { id: Some(order_id), table_number, item: item.to_owned(), cook_time };
        self.rows.push(order);
        self.next_id = order_id + 1;
        proof {
            assert(self@ =~= before.push(
                OrderView { id: Some(order_id), table_number, item: item@, cook_time },
            ));
        }
        Ok(order_id)
    }

    /// Creates an order with a given cook time: inserts the row and returns
    /// the whole order, identifier included.
    ///
    /// Fails, leaving the store as it was, when the cook time is out of
    /// range or no identifier is left.
    pub fn create_with_cook_time(&mut self, table_number: i32, item: &str, cook_time: i32) -> (
        result: Result<Order, StoreError>)
        requires
            old(self).wf(),
        ensures
            final(self).wf(),
            match result {
                Ok(order) => {
                    &&& create_outcome(old(self).next_id(), cook_time) == Ok::<i64, StoreError>(
                        old(self).next_id(),
                    )
                    &&& order@ == (OrderView {
                        id: Some(old(self).next_id()),
                        table_number,
                        item: item@,
                        cook_time,
                    })
                    &&& final(self)@ == old(self)@.push(order@)
                    &&& final(self).next_id() == old(self).next_id() + 1
                },
                Err(error) => {
                    &&& create_outcome(old(self).next_id(), cook_time) == Err::<i64, StoreError>(
                        error,
                    )
                    &&& final(self)@ == old(self)@
                    &&& final(self).next_id() == old(self).next_id()
                },
            },
    {
        match self.insert(table_number, item, cook_time) {
            Ok(order_id) => Ok(
                Order { id: Some(order_id), table_number, item: item.to_owned(), cook_time },
            ),
            Err(error) => Err(error),
        }
    }

    /// Creates an order: draws its cook time, inserts the row and returns
    /// the whole order.
    ///
    /// Succeeds unless no identifier is left; the store is then as it was.
    pub fn create(&mut self, table_number: i32, item: &str) -> (result: Result<Order, StoreError>)
        requires
            old(self).wf(),
        ensures
            final(self).wf(),
            result is Ok <==> old(self).next_id() < i64::MAX,
            match result {
                Ok(order) => {
                    &&& valid_cook_time(order@.cook_time)
                    &&& order@.id == Some(old(self).next_id())
                    &&& order@.table_number == table_number
                    &&& order@.item == item@
                    &&& final(self)@ == old(self)@.push(order@)
                    &&& final(self).next_id() == old(self).next_id() + 1
                },
                Err(error) => {
                    &&& error == StoreError::IdsExhausted
                    &&& final(self)@ == old(self)@
                    &&& final(self).next_id() == old(self).next_id()
                },
            },
    {
        let cook_time = generate_random_cook_time();
        self.create_with_cook_time(table_number, item, cook_time)
    }

    /// All orders of one table, in the order of the store's rows, which is
    /// ascending by identifier; empty when the table has none.
    pub fn list_by_table(&self, table_number: i32) -> (orders: Vec<Order>)
        ensures
            order_views(orders@) == rows_for_table(self@, table_number),
    {
        let mut orders: Vec<Order> = Vec::new();
        let mut i: usize = 0;
        while i < self.rows.len()
            invariant
                i <= self.rows.len(),
                order_views(orders@) == rows_for_table(self@.take(i as int), table_number),
            decreases self.rows.len() - i,
        {
            proof {
                lemma_filter_step(
                    self@,
                    i as int,
                    |row: OrderView| row.table_number == table_number,
                );
            }
            if self.rows[i].table_number == table_number {
                let ghost so_far = order_views(orders@);
                let copy = self.rows[i].clone();
                orders.push(copy);
                assert(order_views(orders@) =~= so_far.push(self@[i as int]));
            }
            i += 1;
        }
        assert(self@.take(i as int) =~= self@);
        orders
    }

    /// The order with the given identifier at the given table, or `None`
    /// when no row matches both.
    pub fn get_one(&self, table_number: i32, order_id: i64) -> (found: Option<Order>)
        requires
            self.wf(),
        ensures
            optional_view(found) == lookup(self@, table_number, order_id),
    {
        let mut i: usize = 0;
        while i < self.rows.len()
            invariant
                self.wf(),
                i <= self.rows.len(),
                forall|k: int| 0 <= k < i ==> !is_order_of(#[trigger] self@[k], table_number, order_id),
            decreases self.rows.len() - i,
        {
            if self.rows[i].id == Some(order_id) && self.rows[i].table_number == table_number {
                proof {
                    assert(is_order_of(self@[i as int], table_number, order_id));
                    let chosen = choose|k: int|
                        0 <= k < self@.len() && is_order_of(
                            #[trigger] self@[k],
                            table_number,
                            order_id,
                        );
                    assert(self@[chosen].id == self@[i as int].id);
                }
                return Some(self.rows[i].clone());
            }
            i += 1;
        }
        None
    }

    /// Removes the order with the given identifier, at whatever table it
    /// is. Removing one that does not exist changes nothing.
    pub fn delete(&mut self, order_id: i64)
        requires
            old(self).wf(),
        ensures
            final(self).wf(),
            final(self)@ == without_id(old(self)@, order_id),
            final(self).next_id() == old(self).next_id(),
    {
        let ghost before = self@;
        let mut kept: Vec<Order> = Vec::new();
        let mut i: usize = 0;
        while i < self.rows.len()
            invariant
                i <= self.rows.len(),
                self@ == before,
                order_views(kept@) == without_id(before.take(i as int), order_id),
            decreases self.rows.len() - i,
        {
            proof {
                lemma_filter_step(before, i as int, |row: OrderView| row.id != Some(order_id));
            }
            if self.rows[i].id != Some(order_id) {
                let ghost so_far = order_views(kept@);
                let copy = self.rows[i].clone();
                kept.push(copy);
                assert(order_views(kept@) =~= so_far.push(before[i as int]));
            }
            i += 1;
        }
        assert(before.take(i as int) =~= before);
        self.rows = kept;
        proof {
            let keep = |row: OrderView| row.id != Some(order_id);
            lemma_filter_keeps_ascending_ids(before, keep);
            lemma_filter_members(before, keep);
            assert forall|k: int| 0 <= k < self@.len() implies valid_cook_time(
                (#[trigger] self@[k]).cook_time,
            ) && self@[k].id.unwrap() < self.next_id() by {
                assert(before.filter(keep).contains(self@[k]));
                let j = choose|j: int| 0 <= j < before.len() && before[j] == self@[k];
                assert(valid_cook_time(before[j].cook_time));
            }
        }
    }
}

/// What an insertion under the next identifier answers: that identifier,
/// or why the row was refused.
pub open spec fn create_outcome(next_id: i64, cook_time: i32) -> Result<i64, StoreError> {
    if !valid_cook_time(cook_time) {
        Err(StoreError::CookTimeOutOfRange)
    } else if next_id == i64::MAX {
        Err(StoreError::IdsExhausted)
    } else {
        Ok(next_id)
    }
}

/// The rows after an insertion under the next identifier: one row more
/// where it went through, the same rows where it did not.
pub open spec fn rows_after_create(
    rows: Seq<OrderView>,
    next_id: i64,
    table_number: i32,
    item: Seq<char>,
    cook_time: i32,
) -> Seq<OrderView> {
    if create_outcome(next_id, cook_time) is Ok {
        rows.push(OrderView { id: Some(next_id), table_number, item, cook_time })
    } else {
        rows
    }
}

/// What [`OrderStore::insert_with_id`] answers on given rows.
pub open spec fn insert_outcome(rows: Seq<OrderView>, order_id: i64, cook_time: i32) -> Result<
    (),
    StoreError,
> {
    if !valid_cook_time(cook_time) {
        Err(StoreError::CookTimeOutOfRange)
    } else if has_id(rows, order_id) {
        Err(StoreError::DuplicateId)
    } else if order_id == i64::MAX {
        Err(StoreError::IdsExhausted)
    } else {
        Ok(())
    }
}

/// Filtering one element more either appends that element or changes nothing.
pub proof fn lemma_filter_step<A>(s: Seq<A>, i: int, keep: spec_fn(A) -> bool)
    requires
        0 <= i < s.len(),
    ensures
        s.take(i + 1).filter(keep) == if keep(s[i]) {
            s.take(i).filter(keep).push(s[i])
        } else {
            s.take(i).filter(keep)
        },
{
    reveal(Seq::filter);
    assert(s.take(i + 1).drop_last() =~= s.take(i));
    assert(s.take(i + 1).last() == s[i]);
}

/// Every element of a filtered sequence comes from the sequence and is kept
/// by the predicate, and every kept element is there.
pub proof fn lemma_filter_members<A>(s: Seq<A>, keep: spec_fn(A) -> bool)
    ensures
        forall|x: A| #[trigger] s.filter(keep).contains(x) <==> s.contains(x) && keep(x),
        s.filter(keep).len() <= s.len(),
    decreases s.len(),
{
    reveal(Seq::filter);
    if s.len() > 0 {
        let front = s.drop_last();
        lemma_filter_members(front, keep);
        assert forall|x: A| #[trigger] s.filter(keep).contains(x) <==> s.contains(x) && keep(
            x,
        ) by {
            if s.filter(keep).contains(x) {
                let k = choose|k: int| 0 <= k < s.filter(keep).len() && s.filter(keep)[k] == x;
                if keep(s.last()) && k == front.filter(keep).len() {
                    assert(s[s.len() - 1] == x);
                } else {
                    assert(front.filter(keep)[k] == x);
                    assert(front.filter(keep).contains(x));
                    let j = choose|j: int| 0 <= j < front.len() && front[j] == x;
                    assert(s[j] == x);
                }
            }
            if s.contains(x) && keep(x) {
                let j = choose|j: int| 0 <= j < s.len() && s[j] == x;
                if j == s.len() - 1 {
                    assert(s.filter(keep) == front.filter(keep).push(x));
                    assert(s.filter(keep)[front.filter(keep).len() as int] == x);
                } else {
                    assert(front[j] == x);
                    assert(front.contains(x));
                    assert(front.filter(keep).contains(x));
                    let k = choose|k: int|
                        0 <= k < front.filter(keep).len() && front.filter(keep)[k] == x;
                    assert(s.filter(keep)[k] == x);
                }
            }
        }
    }
}

/// `x` stands in `s` somewhere before `y`.
pub open spec fn stands_before<A>(s: Seq<A>, x: A, y: A) -> bool {
    exists|i: int, j: int| 0 <= i < j < s.len() && #[trigger] s[i] == x && #[trigger] s[j] == y
}

/// Two elements of a filtered sequence stand in the sequence in the same order.
pub proof fn lemma_filter_keeps_order<A>(s: Seq<A>, keep: spec_fn(A) -> bool)
    ensures
        forall|a: int, b: int|
            #![trigger s.filter(keep)[a], s.filter(keep)[b]]
            0 <= a < b < s.filter(keep).len() ==> stands_before(
                s,
                s.filter(keep)[a],
                s.filter(keep)[b],
            ),
    decreases s.len(),
{
    reveal(Seq::filter);
    if s.len() > 0 {
        let front = s.drop_last();
        let kept = s.filter(keep);
        lemma_filter_keeps_order(front, keep);
        lemma_filter_members(front, keep);
        assert forall|a: int, b: int|
            #![trigger kept[a], kept[b]]
            0 <= a < b < kept.len() implies stands_before(s, kept[a], kept[b]) by {
            if b < front.filter(keep).len() {
                assert(stands_before(front, front.filter(keep)[a], front.filter(keep)[b]));
                let (i, j) = choose|i: int, j: int|
                    0 <= i < j < front.len() && #[trigger] front[i] == front.filter(keep)[a]
                        && #[trigger] front[j] == front.filter(keep)[b];
                assert(s[i] == kept[a] && s[j] == kept[b]);
            } else {
                assert(front.filter(keep).contains(front.filter(keep)[a]));
                let i = choose|i: int| 0 <= i < front.len() && front[i] == front.filter(keep)[a];
                let j = s.len() - 1;
                assert(s[i] == kept[a] && s[j] == kept[b]);
            }
        }
    }
}

/// Filtering rows with distinct identifiers leaves rows with distinct
/// identifiers.
pub proof fn lemma_filter_keeps_distinct_ids(
    rows: Seq<OrderView>,
    keep: spec_fn(OrderView) -> bool,
)
    requires
        distinct_ids(rows),
    ensures
        distinct_ids(rows.filter(keep)),
{
    let kept = rows.filter(keep);
    lemma_filter_keeps_order(rows, keep);
    lemma_filter_members(rows, keep);
    assert forall|k: int| 0 <= k < kept.len() implies (#[trigger] kept[k]).id is Some by {
        assert(kept.contains(kept[k]));
        let j = choose|j: int| 0 <= j < rows.len() && rows[j] == kept[k];
        assert(rows[j].id is Some);
    }
    assert forall|a: int, b: int| 0 <= a < kept.len() && 0 <= b < kept.len() && a != b implies (
    #[trigger] kept[a]).id != (#[trigger] kept[b]).id by {
        if a < b {
            assert(stands_before(rows, kept[a], kept[b]));
            let (i, j) = choose|i: int, j: int|
                0 <= i < j < rows.len() && #[trigger] rows[i] == kept[a] && #[trigger] rows[j]
                    == kept[b];
            assert(rows[i].id != rows[j].id);
        } else {
            assert(stands_before(rows, kept[b], kept[a]));
            let (i, j) = choose|i: int, j: int|
                0 <= i < j < rows.len() && #[trigger] rows[i] == kept[b] && #[trigger] rows[j]
                    == kept[a];
            assert(rows[i].id != rows[j].id);
        }
    }
}

/// Filtering rows with ascending identifiers leaves rows with ascending
/// identifiers.
pub proof fn lemma_filter_keeps_ascending_ids(
    rows: Seq<OrderView>,
    keep: spec_fn(OrderView) -> bool,
)
    requires
        ascending_ids(rows),
    ensures
        ascending_ids(rows.filter(keep)),
{
    let kept = rows.filter(keep);
    lemma_filter_keeps_order(rows, keep);
    lemma_filter_members(rows, keep);
    assert forall|k: int| 0 <= k < kept.len() implies (#[trigger] kept[k]).id is Some by {
        assert(kept.contains(kept[k]));
        let j = choose|j: int| 0 <= j < rows.len() && rows[j] == kept[k];
        assert(rows[j].id is Some);
    }
    assert forall|a: int, b: int| 0 <= a < b < kept.len() implies (#[trigger] kept[a]).id.unwrap()
        < (#[trigger] kept[b]).id.unwrap() by {
        assert(stands_before(rows, kept[a], kept[b]));
        let (i, j) = choose|i: int, j: int|
            0 <= i < j < rows.len() && #[trigger] rows[i] == kept[a] && #[trigger] rows[j]
                == kept[b];
        assert(rows[i].id.unwrap() < rows[j].id.unwrap());
    }
}

/// Rows with ascending identifiers have distinct identifiers.
pub proof fn lemma_ascending_ids_are_distinct(rows: Seq<OrderView>)
    requires
        ascending_ids(rows),
    ensures
        distinct_ids(rows),
{
    assert forall|i: int, j: int|
        0 <= i < rows.len() && 0 <= j < rows.len() && i != j implies (#[trigger] rows[i]).id != (
    #[trigger] rows[j]).id by {
        if i < j {
            assert(rows[i].id.unwrap() < rows[j].id.unwrap());
        } else {
            assert(rows[j].id.unwrap() < rows[i].id.unwrap());
        }
    }
}

/// A sequence all of whose elements pass a filter is left as it is.
pub proof fn lemma_filter_of_all_kept<A>(s: Seq<A>, keep: spec_fn(A) -> bool)
    requires
        forall|i: int| 0 <= i < s.len() ==> keep(#[trigger] s[i]),
    ensures
        s.filter(keep) == s,
    decreases s.len(),
{
    reveal(Seq::filter);
    if s.len() > 0 {
        let front = s.drop_last();
        assert forall|i: int| 0 <= i < front.len() implies keep(#[trigger] front[i]) by {
            assert(front[i] == s[i]);
        }
        lemma_filter_of_all_kept(front, keep);
        assert(front.push(s.last()) =~= s);
    }
}

/// A sequence none of whose elements passes a filter is filtered to nothing.
pub proof fn lemma_filter_of_none_kept<A>(s: Seq<A>, keep: spec_fn(A) -> bool)
    requires
        forall|i: int| 0 <= i < s.len() ==> !keep(#[trigger] s[i]),
    ensures
        s.filter(keep) == Seq::<A>::empty(),
    decreases s.len(),
{
    reveal(Seq::filter);
    if s.len() > 0 {
        let front = s.drop_last();
        assert forall|i: int| 0 <= i < front.len() implies !keep(#[trigger] front[i]) by {
            assert(front[i] == s[i]);
        }
        lemma_filter_of_none_kept(front, keep);
    } else {
        assert(s =~= Seq::<A>::empty());
    }
}

/// Where `position` parts the rows with a smaller identifier from those
/// with a larger one, putting the row in at `position` is the ordered
/// insertion, and keeps the identifiers ascending.
pub proof fn lemma_ordered_insert(rows: Seq<OrderView>, row: OrderView, position: int)
    requires
        ascending_ids(rows),
        row.id is Some,
        0 <= position <= rows.len(),
        forall|k: int| 0 <= k < position ==> (#[trigger] rows[k]).id.unwrap() < row.id.unwrap(),
        forall|k: int|
            position <= k < rows.len() ==> (#[trigger] rows[k]).id.unwrap() > row.id.unwrap(),
    ensures
        rows_with(rows, row) == rows.insert(position, row),
        ascending_ids(rows_with(rows, row)),
        rows_with(rows, row).len() == rows.len() + 1,
{
    let below = |other: OrderView| other.id.unwrap() < row.id.unwrap();
    let above = |other: OrderView| other.id.unwrap() > row.id.unwrap();
    let front = rows.subrange(0, position);
    let back = rows.subrange(position, rows.len() as int);
    assert(rows =~= front + back);
    Seq::filter_distributes_over_add(front, back, below);
    Seq::filter_distributes_over_add(front, back, above);
    lemma_filter_of_all_kept(front, below);
    lemma_filter_of_none_kept(back, below);
    lemma_filter_of_none_kept(front, above);
    lemma_filter_of_all_kept(back, above);
    assert(rows.filter(below) =~= front);
    assert(rows.filter(above) =~= back);
    let after = rows.insert(position, row);
    assert(rows_with(rows, row) =~= after);
    assert forall|i: int| 0 <= i < after.len() implies (#[trigger] after[i]).id is Some by {
        if i < position {
            assert(after[i] == rows[i]);
        } else if i > position {
            assert(after[i] == rows[i - 1]);
        }
    }
    assert forall|i: int, j: int| 0 <= i < j < after.len() implies (#[trigger] after[i]).id.unwrap()
        < (#[trigger] after[j]).id.unwrap() by {
        let a = if i < position {
            i
        } else {
            i - 1
        };
        let b = if j < position {
            j
        } else {
            j - 1
        };
        if i != position {
            assert(after[i] == rows[a]);
        }
        if j != position {
            assert(after[j] == rows[b]);
        }
    }
}

} // verus!
