use restaurant_app_order_api::models::Order;
use restaurant_app_order_api::store::{OrderStore, StoreError};
use restaurant_app_order_api::utils::generate_random_cook_time;

fn ids(orders: &[Order]) -> Vec<i64> {
    orders.iter().map(|o| o.id.unwrap()).collect()
}

#[test]
fn new_store_is_empty() {
    let store = OrderStore::new();
    assert_eq!(store.len(), 0);
    assert!(store.list_by_table(1).is_empty());
    assert_eq!(store.get_one(1, 1), None);
}

#[test]
fn insert_hands_out_rising_ids_from_one() {
    let mut store = OrderStore::new();
    assert_eq!(store.insert(4, "Soup", 5), Ok(1));
    assert_eq!(store.insert(4, "Salad", 15), Ok(2));
    assert_eq!(store.insert(9, "Steak", 10), Ok(3));
    assert_eq!(store.len(), 3);
}

#[test]
fn create_with_cook_time_returns_whole_order() {
    let mut store = OrderStore::new();
    let order = store.create_with_cook_time(7, "Ramen", 11).unwrap();
    assert_eq!(
        order,
        Order { id: Some(1), table_number: 7, item: "Ramen".to_string(), cook_time: 11 }
    );
    assert_eq!(store.get_one(7, 1), Some(order));
}

#[test]
fn create_draws_valid_cook_time() {
    let mut store = OrderStore::new();
    for expected_id in 1..=200i64 {
        let order = store.create(2, "Tea").unwrap();
        assert_eq!(order.id, Some(expected_id));
        assert_eq!(order.table_number, 2);
        assert_eq!(order.item, "Tea");
        assert!((5..=15).contains(&order.cook_time));
    }
    assert_eq!(store.len(), 200);
}

#[test]
fn cook_time_bounds_are_inclusive() {
    let mut store = OrderStore::new();
    assert_eq!(store.insert(1, "a", 4), Err(StoreError::CookTimeOutOfRange));
    assert_eq!(store.insert(1, "a", 16), Err(StoreError::CookTimeOutOfRange));
    assert_eq!(store.len(), 0);
    assert_eq!(store.insert(1, "a", 5), Ok(1));
    assert_eq!(store.insert(1, "a", 15), Ok(2));
}

#[test]
fn insert_with_id_rejects_duplicate() {
    let mut store = OrderStore::new();
    assert_eq!(store.insert_with_id(10, 1, "Burger", 10), Ok(()));
    assert_eq!(store.insert_with_id(10, 2, "Pizza", 10), Err(StoreError::DuplicateId));
    assert_eq!(store.len(), 1);
    assert_eq!(store.get_one(1, 10).unwrap().item, "Burger");
    assert_eq!(store.insert_with_id(11, 1, "Pizza", 3), Err(StoreError::CookTimeOutOfRange));
}

#[test]
fn insert_with_id_moves_next_id_past_it() {
    let mut store = OrderStore::new();
    store.insert_with_id(100, 10, "Burger", 10).unwrap();
    assert_eq!(store.insert(10, "Fries", 6), Ok(101));
    store.insert_with_id(50, 10, "Cola", 5).unwrap();
    assert_eq!(store.insert(10, "Cake", 7), Ok(102));
}

#[test]
fn list_comes_in_ascending_id_order() {
    let mut store = OrderStore::new();
    store.insert_with_id(30, 1, "c", 5).unwrap();
    store.insert_with_id(10, 1, "a", 5).unwrap();
    store.insert_with_id(20, 2, "x", 5).unwrap();
    store.insert_with_id(25, 1, "b", 5).unwrap();
    assert_eq!(store.insert(1, "d", 5), Ok(31));
    store.insert_with_id(-4, 1, "z", 5).unwrap();
    assert_eq!(ids(&store.list_by_table(1)), vec![-4, 10, 25, 30, 31]);
    assert_eq!(ids(&store.list_by_table(2)), vec![20]);
    let items: Vec<String> = store.list_by_table(1).into_iter().map(|o| o.item).collect();
    assert_eq!(items, vec!["z", "a", "b", "c", "d"]);
}

#[test]
fn ids_run_out_at_the_largest_integer() {
    let mut store = OrderStore::new();
    assert_eq!(store.insert_with_id(i64::MAX, 1, "x", 5), Err(StoreError::IdsExhausted));
    assert_eq!(store.insert_with_id(i64::MAX - 1, 1, "x", 5), Ok(()));
    assert_eq!(store.insert(1, "y", 5), Err(StoreError::IdsExhausted));
    assert_eq!(store.create(1, "y"), Err(StoreError::IdsExhausted));
    assert_eq!(store.len(), 1);
}

#[test]
fn error_messages() {
    assert_eq!(StoreError::CookTimeOutOfRange.message(), "cook_time out of range");
    assert_eq!(StoreError::DuplicateId.message(), "an order with this id exists already");
    assert_eq!(StoreError::IdsExhausted.message(), "no order id is left");
}

#[test]
fn list_holds_exactly_the_orders_of_the_table() {
    let mut store = OrderStore::new();
    store.insert(1, "a", 5).unwrap();
    store.insert(2, "b", 6).unwrap();
    store.insert(1, "c", 7).unwrap();
    store.insert(3, "d", 8).unwrap();
    store.insert(1, "e", 9).unwrap();
    assert_eq!(ids(&store.list_by_table(1)), vec![1, 3, 5]);
    assert_eq!(ids(&store.list_by_table(2)), vec![2]);
    assert_eq!(ids(&store.list_by_table(3)), vec![4]);
    assert!(store.list_by_table(4).is_empty());
    let first = &store.list_by_table(1)[0];
    assert_eq!(first.item, "a");
    assert_eq!(first.cook_time, 5);
}

#[test]
fn list_of_one_table_ignores_inserts_at_another() {
    let mut store = OrderStore::new();
    store.insert(1, "a", 5).unwrap();
    let before = store.list_by_table(1);
    store.insert(2, "b", 6).unwrap();
    store.insert(-7, "c", 6).unwrap();
    assert_eq!(store.list_by_table(1), before);
    assert_eq!(ids(&store.list_by_table(-7)), vec![3]);
}

#[test]
fn get_one_needs_both_id_and_table() {
    let mut store = OrderStore::new();
    store.insert_with_id(100, 10, "Burger", 10).unwrap();
    store.insert_with_id(101, 11, "Pizza", 12).unwrap();
    assert_eq!(store.get_one(10, 100).unwrap().item, "Burger");
    assert_eq!(store.get_one(11, 101).unwrap().item, "Pizza");
    assert_eq!(store.get_one(11, 100), None);
    assert_eq!(store.get_one(10, 101), None);
    assert_eq!(store.get_one(10, 102), None);
}

#[test]
fn delete_then_get_one_finds_nothing_at_any_table() {
    let mut store = OrderStore::new();
    store.insert_with_id(1, 2, "Sushi", 5).unwrap();
    store.insert_with_id(2, 2, "Miso", 6).unwrap();
    store.delete(1);
    for table in -3..=3 {
        assert_eq!(store.get_one(table, 1), None);
    }
    assert!(!store.contains_id(1));
    assert_eq!(store.get_one(2, 2).unwrap().item, "Miso");
}

#[test]
fn delete_twice_is_delete_once() {
    let mut store = OrderStore::new();
    store.insert(1, "a", 5).unwrap();
    store.insert(1, "b", 5).unwrap();
    store.delete(1);
    let after_first = store.list_by_table(1);
    store.delete(1);
    assert_eq!(store.list_by_table(1), after_first);
    assert_eq!(ids(&after_first), vec![2]);
    store.delete(77);
    assert_eq!(store.len(), 1);
}

#[test]
fn deleted_id_is_not_handed_out_again() {
    let mut store = OrderStore::new();
    assert_eq!(store.insert(1, "a", 5), Ok(1));
    store.delete(1);
    assert_eq!(store.insert(1, "b", 5), Ok(2));
}

#[test]
fn cook_times_cover_the_range_evenly() {
    let draws = 10_000usize;
    let mut counts = [0usize; 11];
    for _ in 0..draws {
        let minutes = generate_random_cook_time();
        assert!((5..=15).contains(&minutes));
        counts[(minutes - 5) as usize] += 1;
    }
    let expected = draws as f64 / 11.0;
    let mut chi_square = 0.0f64;
    for count in counts {
        assert!(count > 0);
        let diff = count as f64 - expected;
        chi_square += diff * diff / expected;
    }
    // Ten degrees of freedom: a fair source stays below 60 in all but about
    // one run out of a billion.
    assert!(chi_square < 60.0, "chi-square {}", chi_square);
}
