use crate::date::CalendarDate;
use core::cmp::Ordering;
use vstd::prelude::*;

verus! {

/// Something order-lines are allocated to and deallocated from.
pub trait Allocator {
    /// Allocating `line` keeps every quantity within `i32`.
    spec fn allocate_fits(&self, line: OrderLine) -> bool;

    /// Deallocating `line` keeps every quantity within `i32`.
    spec fn deallocate_fits(&self, line: OrderLine) -> bool;

    fn allocate(&mut self, order_line: &OrderLine)
        requires
            old(self).allocate_fits(*order_line),
    ;

    fn deallocate(&mut self, order_line: &OrderLine)
        requires
            old(self).deallocate_fits(*order_line),
    ;
}

/// One requested quantity of one SKU, belonging to one customer order.
pub struct OrderLine {
    pub order_reference: String,
    pub sku: String,
    pub quantity: i32,
}

impl OrderLine {
    pub fn new(order_reference: &str, sku: &str, quantity: i32) -> (r: OrderLine)
        ensures
            r.order_reference@ == order_reference@,
            r.sku@ == sku@,
            r.quantity == quantity,
    {
        OrderLine {
            order_reference: order_reference.to_string(),
            sku: sku.to_string(),
            quantity,
        }
    }
}

/// What an attempt to allocate an order-line to a batch came to.
#[derive(Clone, Copy, Debug, PartialEq, Eq, Structural)]
pub enum AllocationOutcome {
    Allocated,
    SkuMismatch,
    AlreadyAllocated,
    InsufficientStock,
}

/// A set of order references, kept as a list.
pub struct OrderReferences {
    refs: Vec<String>,
}

impl View for OrderReferences {
    type V = Set<Seq<char>>;

    closed spec fn view(&self) -> Set<Seq<char>> {
        Set::new(|r: Seq<char>| exists|i: int| 0 <= i < self.refs.len() && #[trigger] self.refs[i]@ == r)
    }
}

impl OrderReferences {
    /// The empty set.
    pub fn new() -> (r: OrderReferences)
        ensures
            r@ == Set::<Seq<char>>::empty(),
    {
        let r = OrderReferences { refs: Vec::new() };
        assert(r@ =~= Set::<Seq<char>>::empty());
        r
    }

    /// Whether `reference` is in the set.
    pub fn contains(&self, reference: &String) -> (r: bool)
        ensures
            r == self@.contains(reference@),
    {
        let mut i: usize = 0;
        while i < self.refs.len()
            invariant
                0 <= i <= self.refs.len(),
                forall|j: int| 0 <= j < i ==> self.refs[j]@ != reference@,
            decreases self.refs.len() - i,
        {
            if self.refs[i] == *reference {
                return true;
            }
            i = i + 1;
        }
        false
    }

    /// Adds `reference` to the set.
    pub fn insert(&mut self, reference: String)
        ensures
            final(self)@ == old(self)@.insert(reference@),
    {
        let ghost pre = self.refs@;
        let ghost x0 = reference@;
        self.refs.push(reference);
        assert(self@ =~= old(self)@.insert(x0)) by {
            assert forall|x: Seq<char>| #[trigger] self@.contains(x) implies old(self)@.insert(x0).contains(x) by {
                let i = choose|i: int| 0 <= i < self.refs.len() && #[trigger] self.refs[i]@ == x;
                if i < pre.len() {
                    assert(self.refs[i] == pre[i]);
                }
            }
            assert forall|x: Seq<char>| #[trigger] old(self)@.insert(x0).contains(x) implies self@.contains(x) by {
                if x == x0 {
                    assert(self.refs[pre.len() as int]@ == x);
                } else {
                    let i = choose|i: int| 0 <= i < pre.len() && #[trigger] pre[i]@ == x;
                    assert(self.refs[i]@ == x);
                }
            }
        }
    }

    /// Takes `reference` out of the set.
    pub fn remove(&mut self, reference: &String)
        ensures
            final(self)@ == old(self)@.remove(reference@),
    {
        let ghost pre = self.refs@;
        let mut kept: Vec<String> = Vec::new();
        let mut i: usize = 0;
        while i < self.refs.len()
            invariant
                0 <= i <= self.refs.len(),
                self.refs@ == pre,
                forall|x: Seq<char>|
                    #[trigger] listed_in(kept@, kept.len() as int, x) <==> (x != reference@ && listed_in(pre, i as int, x)),
            decreases self.refs.len() - i,
        {
            let ghost before = kept@;
            assert forall|x: Seq<char>|
                #[trigger] listed_in(before, before.len() as int, x) <==> (x != reference@ && listed_in(pre, i as int, x)) by {
                assert(listed_in(kept@, kept.len() as int, x) == listed_in(before, before.len() as int, x));
            }
            if self.refs[i] != *reference {
                kept.push(self.refs[i].clone());
            }
            assert forall|x: Seq<char>|
                #[trigger] listed_in(kept@, kept.len() as int, x) <==> (x != reference@ && listed_in(pre, i + 1, x)) by {
                if listed_in(kept@, kept.len() as int, x) {
                    let k = choose|k: int| 0 <= k < kept.len() && #[trigger] kept@[k]@ == x;
                    if k < before.len() {
                        assert(kept@[k] == before[k]);
                        assert(listed_in(before, before.len() as int, x));
                    } else {
                        assert(pre[i as int]@ == x);
                    }
                }
                if x != reference@ && listed_in(pre, i + 1, x) {
                    let j = choose|j: int| 0 <= j < i + 1 && #[trigger] pre[j]@ == x;
                    if j < i {
                        assert(listed_in(pre, i as int, x));
                        assert(listed_in(before, before.len() as int, x));
                        let k = choose|k: int| 0 <= k < before.len() && #[trigger] before[k]@ == x;
                        assert(kept@[k] == before[k]);
                    } else {
                        assert(kept@[before.len() as int]@ == x);
                    }
                }
            }
            i = i + 1;
        }
        self.refs = kept;
        assert forall|x: Seq<char>| #[trigger] self@.contains(x) <==> listed_in(kept@, kept.len() as int, x) by {}
        assert forall|x: Seq<char>| #[trigger] old(self)@.contains(x) <==> listed_in(pre, pre.len() as int, x) by {}
        assert(self@ =~= old(self)@.remove(reference@));
    }
}

/// Whether `x` is among the first `n` references of `refs`.
spec fn listed_in(refs: Seq<String>, n: int, x: Seq<char>) -> bool {
    exists|k: int| 0 <= k < n && #[trigger] refs[k]@ == x
}

/// A lot of stock of one SKU, in the warehouse or on its way, with the
/// quantity still free and the orders it already serves.
pub struct Batch {
    pub reference: String,
    pub sku: String,
    pub quantity: i32,
    pub eta: CalendarDate,
    pub is_shipping: bool,
    pub allocations: OrderReferences,
}

impl Batch {
    /// The order references allocated into this batch.
    pub open spec fn allocations(&self) -> Set<Seq<char>> {
        self.allocations@
    }

    /// What allocating `line` to this batch comes to, the first failed
    /// condition deciding: the SKU, then the order, then the free stock.
    pub open spec fn outcome_for(&self, line: OrderLine) -> AllocationOutcome {
        if self.sku@ != line.sku@ {
            AllocationOutcome::SkuMismatch
        } else if self.allocations().contains(line.order_reference@) {
            AllocationOutcome::AlreadyAllocated
        } else if line.quantity > self.quantity {
            AllocationOutcome::InsufficientStock
        } else {
            AllocationOutcome::Allocated
        }
    }

    /// `line` is taken when allocated to this batch.
    pub open spec fn can_allocate(&self, line: OrderLine) -> bool {
        self.outcome_for(line) == AllocationOutcome::Allocated
    }

    /// `line` is given back when deallocated from this batch.
    pub open spec fn can_deallocate(&self, line: OrderLine) -> bool {
        self.sku@ == line.sku@ && self.allocations().contains(line.order_reference@)
    }

    /// The new quantity after an allocation stays within `i32`.
    pub open spec fn allocation_fits(&self, line: OrderLine) -> bool {
        self.can_allocate(line) ==> self.quantity - line.quantity <= i32::MAX
    }

    /// The new quantity after a deallocation stays within `i32`.
    pub open spec fn deallocation_fits(&self, line: OrderLine) -> bool {
        self.can_deallocate(line) ==> i32::MIN <= self.quantity + line.quantity <= i32::MAX
    }

    /// Same batch: everything but the quantity and the allocations is kept.
    pub open spec fn same_lot(&self, other: Batch) -> bool {
        &&& self.reference@ == other.reference@
        &&& self.sku@ == other.sku@
        &&& self.eta == other.eta
        &&& self.is_shipping == other.is_shipping
    }

    /// `post` is `pre` after `line` was allocated to it.
    pub open spec fn allocate_step(pre: Batch, line: OrderLine, post: Batch) -> bool {
        &&& post.same_lot(pre)
        &&& if pre.can_allocate(line) {
            &&& post.quantity == pre.quantity - line.quantity
            &&& post.allocations() == pre.allocations().insert(line.order_reference@)
        } else {
            &&& post.quantity == pre.quantity
            &&& post.allocations() == pre.allocations()
        }
    }

    /// `post` is `pre` after `line` was deallocated from it.
    pub open spec fn deallocate_step(pre: Batch, line: OrderLine, post: Batch) -> bool {
        &&& post.same_lot(pre)
        &&& if pre.can_deallocate(line) {
            &&& post.quantity == pre.quantity + line.quantity
            &&& post.allocations() == pre.allocations().remove(line.order_reference@)
        } else {
            &&& post.quantity == pre.quantity
            &&& post.allocations() == pre.allocations()
        }
    }

    /// A batch whose arrival date is today.
    pub fn new(reference: &str, sku: &str, quantity: i32, is_shipping: bool) -> (r: Batch)
        ensures
            r.reference@ == reference@,
            r.sku@ == sku@,
            r.quantity == quantity,
            r.is_shipping == is_shipping,
            r.allocations() == Set::<Seq<char>>::empty(),
    {
        Batch::with_eta(reference, sku, quantity, CalendarDate::today(), is_shipping)
    }

    /// A batch arriving on `eta`; for warehouse stock the date carries no meaning.
    pub fn with_eta(reference: &str, sku: &str, quantity: i32, eta: CalendarDate, is_shipping: bool) -> (r: Batch)
        ensures
            r.reference@ == reference@,
            r.sku@ == sku@,
            r.quantity == quantity,
            r.eta == eta,
            r.is_shipping == is_shipping,
            r.allocations() == Set::<Seq<char>>::empty(),
    {
        Batch {
            reference: reference.to_string(),
            sku: sku.to_string(),
            quantity,
            eta,
            is_shipping,
            allocations: OrderReferences::new(),
        }
    }

    /// What allocating `line` to this batch would come to.
    pub fn outcome(&self, line: &OrderLine) -> (r: AllocationOutcome)
        ensures
            r == self.outcome_for(*line),
    {
        if self.sku != line.sku {
            AllocationOutcome::SkuMismatch
        } else if self.allocations.contains(&line.order_reference) {
            AllocationOutcome::AlreadyAllocated
        } else if line.quantity > self.quantity {
            AllocationOutcome::InsufficientStock
        } else {
            AllocationOutcome::Allocated
        }
    }

    /// Allocates `line` to this batch where its SKU matches, its order is not
    /// yet served here and enough stock is free; else leaves the batch as it is.
    /// Returns which of these held.
    pub fn try_allocate(&mut self, line: &OrderLine) -> (r: AllocationOutcome)
        requires
            old(self).allocation_fits(*line),
        ensures
            r == old(self).outcome_for(*line),
            Batch::allocate_step(*old(self), *line, *final(self)),
    {
        let r = self.outcome(line);
        if r == AllocationOutcome::Allocated {
            self.quantity = self.quantity - line.quantity;
            self.allocations.insert(line.order_reference.clone());
        }
        r
    }

    /// Takes `line` back out of this batch where its SKU matches and its order
    /// is served here, freeing its quantity; else leaves the batch as it is.
    pub fn release(&mut self, line: &OrderLine)
        requires
            old(self).deallocation_fits(*line),
        ensures
            Batch::deallocate_step(*old(self), *line, *final(self)),
    {
        if self.sku == line.sku && self.allocations.contains(&line.order_reference) {
            self.quantity = self.quantity + line.quantity;
            self.allocations.remove(&line.order_reference);
        }
    }
}

impl Batch {
    /// `a` may be served before `b`: warehouse stock before shipments, and
    /// within each, earlier arrival first.
    pub open spec fn ranks_no_later(a: Batch, b: Batch) -> bool {
        (!a.is_shipping && b.is_shipping) || (a.is_shipping == b.is_shipping && a.eta.day() <= b.eta.day())
    }

    pub open spec fn same_rank(a: Batch, b: Batch) -> bool {
        a.is_shipping == b.is_shipping && a.eta.day() == b.eta.day()
    }

    pub open spec fn rank_cmp(a: Batch, b: Batch) -> Ordering {
        if Batch::same_rank(a, b) {
            Ordering::Equal
        } else if Batch::ranks_no_later(a, b) {
            Ordering::Less
        } else {
            Ordering::Greater
        }
    }

    /// Whether `self` ranks strictly after `other` in the preference order.
    pub fn ranks_after(&self, other: &Batch) -> (r: bool)
        ensures
            r == !Batch::ranks_no_later(*self, *other),
    {
        if self.is_shipping != other.is_shipping {
            self.is_shipping
        } else {
            other.eta.is_before(&self.eta)
        }
    }

    /// Compares two batches by preference: `Less` where `self` is served first.
    pub fn cmp(&self, other: &Batch) -> (r: Ordering)
        ensures
            r == Batch::rank_cmp(*self, *other),
    {
        if self.is_shipping == other.is_shipping && self.eta.days_from_ce == other.eta.days_from_ce {
            Ordering::Equal
        } else if other.ranks_after(self) {
            Ordering::Less
        } else {
            Ordering::Greater
        }
    }
}

impl PartialEq for Batch {
    /// Equal rank in the preference order; not equality of state.
    fn eq(&self, other: &Batch) -> (r: bool) {
        self.is_shipping == other.is_shipping && self.eta.days_from_ce == other.eta.days_from_ce
    }
}

impl vstd::std_specs::cmp::PartialEqSpecImpl for Batch {
    open spec fn obeys_eq_spec() -> bool {
        true
    }

    open spec fn eq_spec(&self, other: &Batch) -> bool {
        Batch::same_rank(*self, *other)
    }
}

impl PartialOrd for Batch {
    fn partial_cmp(&self, other: &Batch) -> (r: Option<Ordering>) {
        Some(self.cmp(other))
    }
}

impl vstd::std_specs::cmp::PartialOrdSpecImpl for Batch {
    open spec fn obeys_partial_cmp_spec() -> bool {
        true
    }

    open spec fn partial_cmp_spec(&self, other: &Batch) -> Option<Ordering> {
        Some(Batch::rank_cmp(*self, *other))
    }
}

impl Allocator for Batch {
    open spec fn allocate_fits(&self, line: OrderLine) -> bool {
        self.allocation_fits(line)
    }

    open spec fn deallocate_fits(&self, line: OrderLine) -> bool {
        self.deallocation_fits(line)
    }

    fn allocate(&mut self, order_line: &OrderLine)
        ensures
            Batch::allocate_step(*old(self), *order_line, *final(self)),
    {
        self.try_allocate(order_line);
    }

    fn deallocate(&mut self, order_line: &OrderLine)
        ensures
            Batch::deallocate_step(*old(self), *order_line, *final(self)),
    {
        self.release(order_line);
    }
}

/// Every batch of `s` ranks no later than those after it.
pub open spec fn in_preference_order(s: Seq<Batch>) -> bool {
    forall|k: int, l: int| 0 <= k < l < s.len() ==> Batch::ranks_no_later(#[trigger] s[k], #[trigger] s[l])
}

/// `sorted` is the first `perm.len()` batches of `unsorted`, rearranged so
/// that `sorted[k] == unsorted[perm[k]]`, with batches of equal rank kept in the
/// relative order they had.
pub open spec fn stable_rearrangement(perm: Seq<int>, sorted: Seq<Batch>, unsorted: Seq<Batch>) -> bool {
    &&& perm.len() == sorted.len() <= unsorted.len()
    &&& forall|k: int| 0 <= k < perm.len() ==> 0 <= #[trigger] perm[k] < perm.len() && sorted[k] == unsorted[perm[k]]
    &&& forall|k: int, l: int| 0 <= k < l < perm.len() ==> #[trigger] perm[k] != #[trigger] perm[l]
    &&& forall|v: int| 0 <= v < perm.len() ==> #[trigger] perm.contains(v)
    &&& forall|k: int, l: int|
        0 <= k < l < perm.len() && Batch::same_rank(#[trigger] sorted[k], #[trigger] sorted[l]) ==> perm[k] < perm[l]
}

/// `sorted` is `unsorted` put in preference order by a stable sort.
pub open spec fn is_preference_sort(sorted: Seq<Batch>, unsorted: Seq<Batch>) -> bool {
    &&& sorted.len() == unsorted.len()
    &&& in_preference_order(sorted)
    &&& exists|perm: Seq<int>| stable_rearrangement(perm, sorted, unsorted)
}

/// Where the last batch of `unsorted` lands in a stable preference sort:
/// after every batch ranking no later, before every batch ranking later; and
/// taking it out leaves a stable preference sort of the other batches.
proof fn lemma_last_batch_placement(sorted: Seq<Batch>, unsorted: Seq<Batch>, perm: Seq<int>) -> (p: int)
    requires
        unsorted.len() > 0,
        sorted.len() == unsorted.len(),
        in_preference_order(sorted),
        stable_rearrangement(perm, sorted, unsorted),
    ensures
        0 <= p < sorted.len(),
        sorted[p] == unsorted.last(),
        forall|k: int| 0 <= k < p ==> Batch::ranks_no_later(#[trigger] sorted[k], unsorted.last()),
        forall|k: int| p < k < sorted.len() ==> !Batch::ranks_no_later(#[trigger] sorted[k], unsorted.last()),
        is_preference_sort(sorted.remove(p), unsorted.drop_last()),
{
    let n = unsorted.len() as int;
    assert(perm.contains(n - 1));
    let p = choose|p: int| 0 <= p < perm.len() && perm[p] == n - 1;
    let x = unsorted.last();
    assert forall|k: int| 0 <= k < p implies Batch::ranks_no_later(#[trigger] sorted[k], x) by {
        assert(Batch::ranks_no_later(sorted[k], sorted[p]));
    }
    assert forall|k: int| p < k < sorted.len() implies !Batch::ranks_no_later(#[trigger] sorted[k], x) by {
        assert(Batch::ranks_no_later(sorted[p], sorted[k]));
        assert(perm[p] != perm[k]);
        assert(0 <= perm[k] < n);
    }
    let t = sorted.remove(p);
    let q = perm.remove(p);
    let rest = unsorted.drop_last();
    assert(in_preference_order(t)) by {
        assert forall|k: int, l: int| 0 <= k < l < t.len() implies Batch::ranks_no_later(
            #[trigger] t[k],
            #[trigger] t[l],
        ) by {
            let k0 = if k < p { k } else { k + 1 };
            let l0 = if l < p { l } else { l + 1 };
            assert(Batch::ranks_no_later(sorted[k0], sorted[l0]));
        }
    }
    assert(stable_rearrangement(q, t, rest)) by {
        assert forall|k: int| 0 <= k < q.len() implies 0 <= #[trigger] q[k] < q.len() && t[k] == rest[q[k]] by {
            let k0 = if k < p { k } else { k + 1 };
            assert(q[k] == perm[k0]);
            assert(perm[k0] != perm[p]);
        }
        assert forall|k: int, l: int| 0 <= k < l < q.len() implies #[trigger] q[k] != #[trigger] q[l] by {
            let k0 = if k < p { k } else { k + 1 };
            let l0 = if l < p { l } else { l + 1 };
            assert(perm[k0] != perm[l0]);
        }
        assert forall|v: int| 0 <= v < q.len() implies #[trigger] q.contains(v) by {
            assert(perm.contains(v));
            let k0 = choose|k0: int| 0 <= k0 < perm.len() && #[trigger] perm[k0] == v;
            if k0 < p {
                assert(q[k0] == v);
            } else {
                assert(k0 != p);
                assert(q[k0 - 1] == v);
            }
        }
        assert forall|k: int, l: int|
            0 <= k < l < q.len() && Batch::same_rank(#[trigger] t[k], #[trigger] t[l]) implies q[k] < q[l] by {
            let k0 = if k < p { k } else { k + 1 };
            let l0 = if l < p { l } else { l + 1 };
            assert(t[k] == sorted[k0] && t[l] == sorted[l0]);
        }
    }
    p
}

/// A sequence of batches has exactly one stable preference sort.
pub proof fn lemma_preference_sort_unique(s1: Seq<Batch>, s2: Seq<Batch>, unsorted: Seq<Batch>)
    requires
        is_preference_sort(s1, unsorted),
        is_preference_sort(s2, unsorted),
    ensures
        s1 == s2,
    decreases unsorted.len(),
{
    if unsorted.len() == 0 {
        assert(s1 =~= s2);
    } else {
        let perm1 = choose|perm: Seq<int>| stable_rearrangement(perm, s1, unsorted);
        let perm2 = choose|perm: Seq<int>| stable_rearrangement(perm, s2, unsorted);
        let p1 = lemma_last_batch_placement(s1, unsorted, perm1);
        let p2 = lemma_last_batch_placement(s2, unsorted, perm2);
        lemma_preference_sort_unique(s1.remove(p1), s2.remove(p2), unsorted.drop_last());
        let t = s1.remove(p1);
        let x = unsorted.last();
        if p1 < p2 {
            assert(t[p1] == s1[p1 + 1]);
            assert(t[p1] == s2[p1]);
        } else if p2 < p1 {
            assert(t[p2] == s2[p2 + 1]);
            assert(t[p2] == s1[p2]);
        }
        assert(s1 =~= t.insert(p1, x));
        assert(s2 =~= t.insert(p2, x));
    }
}

/// `post` is `pre` after an order-line was handed to its most preferred
/// batch, and `chosen` the reference of the batch that took it, if one did.
pub open spec fn preferred_allocation(
    pre: Seq<Batch>,
    line: OrderLine,
    post: Seq<Batch>,
    chosen: Option<String>,
) -> bool {
    if pre.len() == 0 {
        post == pre && chosen is None
    } else {
        exists|sorted: Seq<Batch>|
            {
                &&& is_preference_sort(sorted, pre)
                &&& post.len() == sorted.len()
                &&& Batch::allocate_step(sorted[0], line, post[0])
                &&& forall|k: int| 1 <= k < post.len() ==> #[trigger] post[k] == sorted[k]
                &&& match chosen {
                    Some(c) => sorted[0].can_allocate(line) && c@ == sorted[0].reference@,
                    None => !sorted[0].can_allocate(line),
                }
            }
    }
}

/// The batches an order-line may be allocated to.
pub struct BatchAllocator {
    batches: Vec<Batch>,
}

impl View for BatchAllocator {
    type V = Seq<Batch>;

    closed spec fn view(&self) -> Seq<Batch> {
        self.batches@
    }
}

impl BatchAllocator {
    /// An allocator holding no batches.
    pub fn new() -> (r: BatchAllocator)
        ensures
            r@ == Seq::<Batch>::empty(),
    {
        BatchAllocator { batches: Vec::new() }
    }

    /// Adds `batch` after the batches already held.
    pub fn add_batch(&mut self, batch: Batch)
        ensures
            final(self)@ == old(self)@.push(batch),
    {
        self.batches.push(batch);
    }

    /// The batches, in their current order.
    pub fn get_batches(&self) -> (r: &Vec<Batch>)
        ensures
            r@ == self@,
    {
        &self.batches
    }

    /// Puts the batches in preference order, keeping batches of equal rank in
    /// the order they were added.
    pub fn sort_batches(&mut self)
        ensures
            is_preference_sort(final(self)@, old(self)@),
    {
        let ghost unsorted = self.batches@;
        let n = self.batches.len();
        let mut sorted: Vec<Batch> = Vec::new();
        let ghost mut perm: Seq<int> = Seq::empty();
        let mut taken: usize = 0;
        while self.batches.len() > 0
            invariant
                n == unsorted.len(),
                taken + self.batches.len() == n,
                self.batches@ == unsorted.subrange(taken as int, n as int),
                sorted.len() == taken,
                in_preference_order(sorted@),
                stable_rearrangement(perm, sorted@, unsorted),
            decreases self.batches.len(),
        {
            let b = self.batches.remove(0);
            assert(b == unsorted[taken as int]);
            let mut pos: usize = 0;
            while pos < sorted.len() && !sorted[pos].ranks_after(&b)
                invariant
                    pos <= sorted.len(),
                    forall|k: int| 0 <= k < pos ==> Batch::ranks_no_later(#[trigger] sorted@[k], b),
                decreases sorted.len() - pos,
            {
                pos = pos + 1;
            }
            let ghost old_sorted = sorted@;
            let ghost old_perm = perm;
            assert forall|l: int| pos <= l < old_sorted.len() implies !Batch::ranks_no_later(
                #[trigger] old_sorted[l],
                b,
            ) by {
                assert(Batch::ranks_no_later(old_sorted[pos as int], old_sorted[l]) || l == pos);
            }
            sorted.insert(pos, b);
            proof {
                perm = perm.insert(pos as int, taken as int);
            }
            assert(in_preference_order(sorted@)) by {
                assert forall|k: int, l: int| 0 <= k < l < sorted@.len() implies Batch::ranks_no_later(
                    #[trigger] sorted@[k],
                    #[trigger] sorted@[l],
                ) by {
                    if k < pos && l > pos {
                        assert(Batch::ranks_no_later(old_sorted[k], old_sorted[l - 1]));
                    } else if k > pos {
                        assert(Batch::ranks_no_later(old_sorted[k - 1], old_sorted[l - 1]));
                    } else if l < pos {
                        assert(Batch::ranks_no_later(old_sorted[k], old_sorted[l]));
                    }
                }
            }
            assert(stable_rearrangement(perm, sorted@, unsorted)) by {
                assert forall|k: int| 0 <= k < perm.len() implies 0 <= #[trigger] perm[k] < perm.len()
                    && sorted@[k] == unsorted[perm[k]] by {
                    if k < pos {
                        assert(perm[k] == old_perm[k]);
                    } else if k > pos {
                        assert(perm[k] == old_perm[k - 1]);
                    }
                }
                assert forall|k: int, l: int| 0 <= k < l < perm.len() implies #[trigger] perm[k]
                    != #[trigger] perm[l] by {
                    if k != pos && l != pos {
                        let k0 = if k < pos { k } else { k - 1 };
                        let l0 = if l < pos { l } else { l - 1 };
                        assert(old_perm[k0] != old_perm[l0]);
                    } else if k == pos {
                        assert(old_perm[l - 1] < taken);
                    } else {
                        assert(old_perm[k] < taken);
                    }
                }
                assert forall|v: int| 0 <= v < perm.len() implies #[trigger] perm.contains(v) by {
                    if v == taken {
                        assert(perm[pos as int] == v);
                    } else {
                        assert(old_perm.contains(v));
                        let k0 = choose|k0: int| 0 <= k0 < old_perm.len() && #[trigger] old_perm[k0] == v;
                        if k0 < pos {
                            assert(perm[k0] == v);
                        } else {
                            assert(perm[k0 + 1] == v);
                        }
                    }
                }
                assert forall|k: int, l: int|
                    0 <= k < l < perm.len() && Batch::same_rank(
                        #[trigger] sorted@[k],
                        #[trigger] sorted@[l],
                    ) implies perm[k] < perm[l] by {
                    if k != pos && l != pos {
                        let k0 = if k < pos { k } else { k - 1 };
                        let l0 = if l < pos { l } else { l - 1 };
                        assert(old_sorted[k0] == sorted@[k] && old_sorted[l0] == sorted@[l]);
                    } else if k == pos {
                        assert(old_sorted[l - 1] == sorted@[l]);
                        assert(!Batch::ranks_no_later(old_sorted[l - 1], b));
                    } else {
                        assert(old_perm[k] < taken);
                    }
                }
            }
            taken = taken + 1;
        }
        self.batches = sorted;
        assert(unsorted.subrange(0, n as int) == unsorted);
        assert(stable_rearrangement(perm, self.batches@, unsorted));
    }

    /// Every batch can take `line` without its quantity leaving `i32`.
    pub open spec fn all_allocations_fit(batches: Seq<Batch>, line: OrderLine) -> bool {
        forall|i: int| 0 <= i < batches.len() ==> (#[trigger] batches[i]).allocation_fits(line)
    }

    /// Sorts the batches by preference and offers `line` to the first one
    /// only. Returns the reference of that batch where it took the line.
    pub fn allocate_preferred(&mut self, line: &OrderLine) -> (r: Option<String>)
        requires
            BatchAllocator::all_allocations_fit(old(self)@, *line),
        ensures
            preferred_allocation(old(self)@, *line, final(self)@, r),
    {
        if self.batches.len() == 0 {
            return None;
        }
        self.sort_batches();
        let ghost sorted = self.batches@;
        proof {
            let perm = choose|perm: Seq<int>| stable_rearrangement(perm, sorted, old(self)@);
            assert(sorted[0] == old(self)@[perm[0]]);
        }
        let mut first = self.batches.remove(0);
        let outcome = first.try_allocate(line);
        let r = if outcome == AllocationOutcome::Allocated {
            Some(first.reference.clone())
        } else {
            None
        };
        self.batches.insert(0, first);
        assert(forall|k: int| 1 <= k < self.batches@.len() ==> #[trigger] self.batches@[k] == sorted[k]);
        r
    }
}

impl Allocator for BatchAllocator {
    open spec fn allocate_fits(&self, line: OrderLine) -> bool {
        BatchAllocator::all_allocations_fit(self@, line)
    }

    open spec fn deallocate_fits(&self, line: OrderLine) -> bool {
        true
    }

    fn allocate(&mut self, order_line: &OrderLine)
        ensures
            exists|chosen: Option<String>| preferred_allocation(old(self)@, *order_line, final(self)@, chosen),
    {
        let r = self.allocate_preferred(order_line);
        assert(preferred_allocation(old(self)@, *order_line, self@, r));
    }

    /// Deallocation is left to the caller, on the batch that holds the line.
    fn deallocate(&mut self, order_line: &OrderLine)
        ensures
            final(self)@ == old(self)@,
    {
    }
}

} // verus!
