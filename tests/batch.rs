use ecommerce::date::CalendarDate;
use ecommerce::domain::{AllocationOutcome, Allocator, Batch, BatchAllocator, OrderLine};
use ecommerce::pojo::NewBatch;

#[test]
fn test_allocation_with_sufficient_batch_quantity() {
    let mut batch = Batch::new("ref-id", "small-table", 20, true);
    let order_line = OrderLine::new("order-ref-id", "small-table", 2);

    batch.allocate(&order_line);

    assert_eq!(batch.quantity, 18);
}

#[test]
fn test_allocation_with_insufficient_batch_quantity() {
    let mut batch = Batch::new("ref-id", "blue-cushion", 1, true);
    let order_line = OrderLine::new("order-ref-id", "blue-cushion", 2);

    batch.allocate(&order_line);
    assert_eq!(batch.quantity, 1);
}

#[test]
fn test_allocation_when_order_allocation_called_twice() {
    let mut batch = Batch::new("ref-id", "blue-vase", 10, true);
    let order_line = OrderLine::new("order-ref-id", "blue-vase", 2);

    batch.allocate(&order_line);
    assert_eq!(batch.quantity, 8);
    batch.allocate(&order_line);
    assert_eq!(batch.quantity, 8);
}

#[test]
fn test_cannot_allocate_if_skus_do_not_match() {
    let mut batch = Batch::new("ref-id", "blue-vase", 10, true);
    let order_line = OrderLine::new("order-ref-id", "blue-car", 2);

    batch.allocate(&order_line);
    assert_eq!(batch.quantity, 10);
}

#[test]
fn test_can_allocate_if_quantities_are_equal() {
    let mut batch = Batch::new("ref-id", "blue-vase", 10, true);
    let order_line = OrderLine::new("order-ref-id", "blue-vase", 10);

    batch.allocate(&order_line);
    assert_eq!(batch.quantity, 0);
}

#[test]
fn test_can_deallocate_unallocated_lines() {
    let mut batch = Batch::new("ref-id", "blue-vase", 10, true);
    let order_line = OrderLine::new("order-ref-id", "blue-vase", 10);

    batch.allocate(&order_line);
    assert_eq!(batch.quantity, 0);

    batch.deallocate(&order_line);
    assert_eq!(batch.quantity, 10);
}

#[test]
fn test_allocates_warehouse_batches_before_shipping_batches() {
    let mut allocator = BatchAllocator::new();
    let shipping_batch = Batch::new("ref-id", "blue-vase", 10, true);
    let warehouse_batch = Batch::new("ref-id", "blue-vase", 10, false);
    let order_line = OrderLine::new("order-ref-id", "blue-vase", 10);

    allocator.add_batch(shipping_batch);
    allocator.add_batch(warehouse_batch);
    allocator.allocate(&order_line);

    let sorted_batches = allocator.get_batches();

    assert_eq!(sorted_batches[0].quantity, 0);
    assert_eq!(sorted_batches[1].quantity, 10);
    assert_eq!(sorted_batches[1].is_shipping, true);
}

#[test]
fn test_allocates_prefer_earlier_shipping_batches() {
    let mut allocator = BatchAllocator::new();
    let shipping_batch = Batch::new("ref-id", "blue-vase", 10, true);
    let warehouse_batch = Batch::new("ref-id", "blue-vase", 10, true);
    let order_line = OrderLine::new("order-ref-id", "blue-vase", 10);

    allocator.add_batch(shipping_batch);
    allocator.add_batch(warehouse_batch);
    allocator.allocate(&order_line);

    let sorted_batches = allocator.get_batches();

    assert_eq!(sorted_batches[0].quantity, 0);
    assert_eq!(sorted_batches[1].quantity, 10);
    assert_eq!(sorted_batches[1].is_shipping, true);
}

fn day(n: i32) -> CalendarDate {
    CalendarDate::from_days_from_ce(n)
}

#[test]
fn successful_allocation_records_the_order() {
    let mut batch = Batch::with_eta("b1", "lamp", 7, day(5), false);
    let line = OrderLine::new("o1", "lamp", 3);
    assert_eq!(batch.try_allocate(&line), AllocationOutcome::Allocated);
    assert_eq!(batch.quantity, 4);
    assert!(batch.allocations.contains(&String::from("o1")));
    assert!(!batch.allocations.contains(&String::from("o2")));
}

#[test]
fn outcomes_name_each_refusal() {
    let mut batch = Batch::with_eta("b1", "lamp", 5, day(5), false);
    let other_sku = OrderLine::new("o1", "chair", 1);
    assert_eq!(batch.try_allocate(&other_sku), AllocationOutcome::SkuMismatch);
    assert!(!batch.allocations.contains(&String::from("o1")));

    let too_big = OrderLine::new("o2", "lamp", 6);
    assert_eq!(batch.try_allocate(&too_big), AllocationOutcome::InsufficientStock);
    assert_eq!(batch.quantity, 5);
    assert!(!batch.allocations.contains(&String::from("o2")));

    let fits = OrderLine::new("o3", "lamp", 2);
    assert_eq!(batch.try_allocate(&fits), AllocationOutcome::Allocated);
    assert_eq!(batch.try_allocate(&fits), AllocationOutcome::AlreadyAllocated);
    assert_eq!(batch.quantity, 3);
    assert_eq!(batch.outcome(&fits), AllocationOutcome::AlreadyAllocated);
}

#[test]
fn allocate_then_deallocate_round_trip() {
    let mut batch = Batch::with_eta("b1", "lamp", 9, day(5), true);
    let line = OrderLine::new("o1", "lamp", 4);
    batch.allocate(&line);
    assert_eq!(batch.quantity, 5);
    batch.deallocate(&line);
    assert_eq!(batch.quantity, 9);
    assert!(!batch.allocations.contains(&String::from("o1")));
    batch.deallocate(&line);
    assert_eq!(batch.quantity, 9);
}

#[test]
fn deallocating_a_line_never_allocated_is_a_no_op() {
    let mut batch = Batch::with_eta("b1", "lamp", 9, day(5), true);
    let line = OrderLine::new("o1", "lamp", 4);
    batch.release(&line);
    assert_eq!(batch.quantity, 9);
}

#[test]
fn deallocating_with_another_sku_is_a_no_op() {
    let mut batch = Batch::with_eta("b1", "lamp", 9, day(5), true);
    batch.allocate(&OrderLine::new("o1", "lamp", 4));
    batch.deallocate(&OrderLine::new("o1", "chair", 4));
    assert_eq!(batch.quantity, 5);
    assert!(batch.allocations.contains(&String::from("o1")));
}

#[test]
fn warehouse_batch_served_before_shipment() {
    let mut allocator = BatchAllocator::new();
    allocator.add_batch(Batch::with_eta("s", "blue-vase", 10, day(1), true));
    allocator.add_batch(Batch::with_eta("w", "blue-vase", 10, day(9), false));
    let chosen = allocator.allocate_preferred(&OrderLine::new("o", "blue-vase", 10));
    assert_eq!(chosen, Some(String::from("w")));
    let batches = allocator.get_batches();
    assert_eq!(batches[0].reference, "w");
    assert_eq!(batches[0].quantity, 0);
    assert_eq!(batches[1].reference, "s");
    assert_eq!(batches[1].quantity, 10);
}

#[test]
fn earlier_shipment_served_first() {
    let mut allocator = BatchAllocator::new();
    allocator.add_batch(Batch::with_eta("s2", "blue-vase", 10, day(2), true));
    allocator.add_batch(Batch::with_eta("s1", "blue-vase", 10, day(1), true));
    let chosen = allocator.allocate_preferred(&OrderLine::new("o", "blue-vase", 10));
    assert_eq!(chosen, Some(String::from("s1")));
    let batches = allocator.get_batches();
    assert_eq!(batches[0].reference, "s1");
    assert_eq!(batches[0].quantity, 0);
    assert_eq!(batches[1].reference, "s2");
    assert_eq!(batches[1].quantity, 10);
}

#[test]
fn empty_allocator_allocates_nothing() {
    let mut allocator = BatchAllocator::new();
    let chosen = allocator.allocate_preferred(&OrderLine::new("o", "blue-vase", 10));
    assert_eq!(chosen, None);
    assert!(allocator.get_batches().is_empty());
}

#[test]
fn no_fallback_when_preferred_batch_cannot_serve() {
    let mut allocator = BatchAllocator::new();
    allocator.add_batch(Batch::with_eta("ship", "blue-vase", 10, day(3), true));
    allocator.add_batch(Batch::with_eta("ware", "red-vase", 10, day(3), false));
    let chosen = allocator.allocate_preferred(&OrderLine::new("o", "blue-vase", 5));
    assert_eq!(chosen, None);
    let batches = allocator.get_batches();
    assert_eq!(batches[0].reference, "ware");
    assert_eq!(batches[0].quantity, 10);
    assert_eq!(batches[1].quantity, 10);
}

#[test]
fn sort_is_stable_for_equal_rank() {
    let mut allocator = BatchAllocator::new();
    allocator.add_batch(Batch::with_eta("a", "x", 1, day(4), true));
    allocator.add_batch(Batch::with_eta("b", "x", 1, day(2), false));
    allocator.add_batch(Batch::with_eta("c", "x", 1, day(4), true));
    allocator.add_batch(Batch::with_eta("d", "x", 1, day(3), true));
    allocator.add_batch(Batch::with_eta("e", "x", 1, day(1), false));
    allocator.sort_batches();
    let order: Vec<String> = allocator.get_batches().iter().map(|b| b.reference.clone()).collect();
    assert_eq!(order, vec!["e", "b", "d", "a", "c"]);
}

#[test]
fn batches_compare_by_preference() {
    let w = Batch::with_eta("w", "x", 1, day(7), false);
    let s1 = Batch::with_eta("s1", "x", 1, day(1), true);
    let s2 = Batch::with_eta("s2", "x", 1, day(2), true);
    let s1_again = Batch::with_eta("other", "y", 3, day(1), true);
    assert_eq!(w.cmp(&s1), std::cmp::Ordering::Less);
    assert_eq!(s2.cmp(&s1), std::cmp::Ordering::Greater);
    assert_eq!(s1.cmp(&s1_again), std::cmp::Ordering::Equal);
    assert!(w < s1);
    assert!(s1 < s2);
    assert!(s1 == s1_again);
    assert!(s1.ranks_after(&w));
    assert!(!w.ranks_after(&s1));
}

#[test]
fn new_batch_row_copies_stored_fields() {
    let mut batch = Batch::with_eta("b1", "lamp", 9, day(738000), true);
    batch.allocate(&OrderLine::new("o1", "lamp", 4));
    let row = NewBatch::from_batch(&batch);
    assert_eq!(row.sku, "lamp");
    assert_eq!(row.quantity, 5);
    assert_eq!(row.eta.days_from_ce, 738000);
    assert!(row.is_shipping);
}

#[test]
fn calendar_dates_order_by_day() {
    assert!(day(1).is_before(&day(2)));
    assert!(!day(2).is_before(&day(2)));
    assert!(!day(3).is_before(&day(2)));
}
