//! Facts about allocating to and deallocating from a single batch, stated
//! over the steps that `Batch::try_allocate` and `Batch::release` perform.
use crate::domain::{Batch, OrderLine};
use vstd::prelude::*;

verus! {

/// An eligible order-line that fits the free stock is taken: the batch's
/// quantity drops by the line's quantity and the order is recorded.
pub proof fn lemma_allocation_takes_stock(pre: Batch, line: OrderLine, post: Batch)
    requires
        pre.sku@ == line.sku@,
        line.quantity <= pre.quantity,
        !pre.allocations().contains(line.order_reference@),
        Batch::allocate_step(pre, line, post),
    ensures
        post.quantity == pre.quantity - line.quantity,
        post.allocations().contains(line.order_reference@),
{
}

/// Allocating the same order-line a second time changes nothing.
pub proof fn lemma_allocation_idempotent(b0: Batch, line: OrderLine, b1: Batch, b2: Batch)
    requires
        Batch::allocate_step(b0, line, b1),
        Batch::allocate_step(b1, line, b2),
    ensures
        b2.quantity == b1.quantity,
        b2.allocations() == b1.allocations(),
{
}

/// A line for another SKU leaves the batch's quantity and allocations alone.
pub proof fn lemma_sku_mismatch_changes_nothing(pre: Batch, line: OrderLine, post: Batch)
    requires
        pre.sku@ != line.sku@,
        Batch::allocate_step(pre, line, post),
    ensures
        post.quantity == pre.quantity,
        post.allocations() == pre.allocations(),
{
}

/// A line larger than the free stock is not taken: the quantity stays and
/// the order is not recorded.
pub proof fn lemma_insufficient_stock_refused(pre: Batch, line: OrderLine, post: Batch)
    requires
        line.quantity > pre.quantity,
        !pre.allocations().contains(line.order_reference@),
        Batch::allocate_step(pre, line, post),
    ensures
        post.quantity == pre.quantity,
        !post.allocations().contains(line.order_reference@),
{
}

/// An eligible line for exactly the free stock is taken and empties the batch.
pub proof fn lemma_exact_quantity_empties_batch(pre: Batch, line: OrderLine, post: Batch)
    requires
        pre.sku@ == line.sku@,
        line.quantity == pre.quantity,
        !pre.allocations().contains(line.order_reference@),
        Batch::allocate_step(pre, line, post),
    ensures
        post.allocations().contains(line.order_reference@),
        post.quantity == 0,
{
}

/// Allocating an order-line not yet served and then deallocating it restores
/// the batch's quantity and allocations.
pub proof fn lemma_allocate_then_deallocate_restores(b0: Batch, line: OrderLine, b1: Batch, b2: Batch)
    requires
        !b0.allocations().contains(line.order_reference@),
        Batch::allocate_step(b0, line, b1),
        Batch::deallocate_step(b1, line, b2),
    ensures
        b2.quantity == b0.quantity,
        b2.allocations() == b0.allocations(),
        !b2.allocations().contains(line.order_reference@),
{
    if b0.can_allocate(line) {
        assert(b2.allocations() =~= b0.allocations());
    }
}

} // verus!
