use crate::date::CalendarDate;
use crate::domain::Batch;
use vstd::prelude::*;

verus! {

/// The stored fields of a batch, as written when the batch is first saved.
pub struct NewBatch {
    pub sku: String,
    pub quantity: i32,
    pub eta: CalendarDate,
    pub is_shipping: bool,
}

impl NewBatch {
    /// The stored fields of `batch`.
    pub fn from_batch(batch: &Batch) -> (r: NewBatch)
        ensures
            r.sku@ == batch.sku@,
            r.quantity == batch.quantity,
            r.eta == batch.eta,
            r.is_shipping == batch.is_shipping,
    {
        NewBatch {
            sku: batch.sku.clone(),
            quantity: batch.quantity,
            eta: batch.eta,
            is_shipping: batch.is_shipping,
        }
    }
}

} // verus!
