//! Commitments, their purchase ledgers and the customers that own them.

use crate::calendar::{clock_now, is_next_new_year, start_of_next_year, Timestamp};
use vstd::prelude::*;

verus! {

/// Why an operation on a commitment or a customer was refused.
#[derive(Clone, Copy, Debug, PartialEq, Eq, Structural)]
pub enum CommitmentError {
    /// The discount percentage is outside 0 to 6.
    Validation,
    /// The ledger already holds a purchase with that id.
    Duplicate,
    /// No commitment, or no purchase, with that id.
    NotFound,
    /// The commitment named is not the customer's active one, or there is none.
    StateConflict,
    /// The instant of creation lies outside the years 0 to 9999.
    ClockOutOfRange,
    /// The customer already has a commitment with the id drawn for a new one.
    IdTaken,
}

/// One purchase applied to a commitment; only ever flagged as removed, never deleted.
#[derive(Clone, Copy, Debug, PartialEq, Eq, Structural)]
pub struct PurchaseInfo {
    pub purchase_id: u128,
    pub total_net: u32,
    pub total_gross: u32,
    pub applied_discount: u32,
    pub removed: bool,
    pub created_at: Timestamp,
}

/// Whether a commitment is live, or was replaced by the commitment `successor`.
#[derive(Clone, Copy, Debug, PartialEq, Eq, Structural)]
pub enum CommitmentStatus {
    Valid,
    Withdrawn { successor: u128 },
}

/// A pledge to buy `target` worth of goods before `valid_till`, for a discount.
#[derive(Clone, Debug)]
pub struct Commitment {
    pub commitment_id: u128,
    pub target: u32,
    pub discount_percentage: u32,
    pub valid_till: Timestamp,
    pub balance: u32,
    pub purchase_log: Vec<PurchaseInfo>,
    pub status: CommitmentStatus,
    pub created_at: Timestamp,
    pub created_by: u32,
}

/// A customer and the chronological list of its commitments.
#[derive(Clone, Debug)]
pub struct Customer {
    pub customer_id: u32,
    pub commitments: Vec<Commitment>,
    pub created_at: Timestamp,
    pub created_by: u32,
}

/// The highest discount percentage a commitment may carry.
pub const MAX_DISCOUNT_PERCENTAGE: u32 = 6;

/// What an entry adds to its commitment's balance.
pub open spec fn contribution(p: PurchaseInfo) -> int {
    if p.removed { 0 } else { p.total_gross as int }
}

/// Sum of the gross amounts of the entries that are not flagged removed.
pub open spec fn active_gross(log: Seq<PurchaseInfo>) -> int
    decreases log.len(),
{
    if log.len() == 0 {
        0
    } else {
        active_gross(log.drop_last()) + contribution(log.last())
    }
}

/// The ledger holds an entry with id `id`, removed or not.
pub open spec fn log_has(log: Seq<PurchaseInfo>, id: u128) -> bool {
    exists|i: int| 0 <= i < log.len() && #[trigger] log[i].purchase_id == id
}

/// No two entries of the ledger share an id.
pub open spec fn ids_distinct(log: Seq<PurchaseInfo>) -> bool {
    forall|i: int, j: int|
        0 <= i < j < log.len() ==> #[trigger] log[i].purchase_id != #[trigger] log[j].purchase_id
}

/// The entry `p`, flagged removed.
pub open spec fn flagged_removed(p: PurchaseInfo) -> PurchaseInfo {
    PurchaseInfo { removed: true, ..p }
}

proof fn lemma_active_gross_nonneg(log: Seq<PurchaseInfo>)
    ensures
        active_gross(log) >= 0,
    decreases log.len(),
{
    if log.len() > 0 {
        lemma_active_gross_nonneg(log.drop_last());
    }
}

proof fn lemma_active_gross_push(log: Seq<PurchaseInfo>, p: PurchaseInfo)
    ensures
        active_gross(log.push(p)) == active_gross(log) + contribution(p),
{
    assert(log.push(p).drop_last() =~= log);
}

proof fn lemma_active_gross_update(log: Seq<PurchaseInfo>, i: int, p: PurchaseInfo)
    requires
        0 <= i < log.len(),
    ensures
        active_gross(log.update(i, p)) == active_gross(log) - contribution(log[i]) + contribution(p),
    decreases log.len(),
{
    if i == log.len() - 1 {
        assert(log.update(i, p).drop_last() =~= log.drop_last());
    } else {
        lemma_active_gross_update(log.drop_last(), i, p);
        assert(log.update(i, p).drop_last() =~= log.drop_last().update(i, p));
    }
}

impl PurchaseInfo {
    /// A ledger entry that is not removed, stamped with `now`.
    pub fn new_at(
        purchase_id: u128,
        total_net: u32,
        total_gross: u32,
        applied_discount: u32,
        now: Timestamp,
    ) -> (r: PurchaseInfo)
        ensures
            r == (PurchaseInfo {
                purchase_id,
                total_net,
                total_gross,
                applied_discount,
                removed: false,
                created_at: now,
            }),
    {
        PurchaseInfo { purchase_id, total_net, total_gross, applied_discount, removed: false, created_at: now }
    }

    /// A ledger entry that is not removed, stamped with the system clock.
    pub fn new(purchase_id: u128, total_net: u32, total_gross: u32, applied_discount: u32) -> (r:
        PurchaseInfo)
        ensures
            r.purchase_id == purchase_id,
            r.total_net == total_net,
            r.total_gross == total_gross,
            r.applied_discount == applied_discount,
            !r.removed,
    {
        PurchaseInfo::new_at(purchase_id, total_net, total_gross, applied_discount, clock_now())
    }

    /// Flags the entry as removed; the other fields stay.
    pub fn set_removed(&mut self)
        ensures
            *final(self) == flagged_removed(*old(self)),
    {
        self.removed = true;
    }
}

/// Relies on uuid's `Uuid::new_v4` and `Uuid::as_u128`: a random identifier, as its 128-bit value.
#[verifier::external_body]
fn fresh_id() -> (r: u128) {
    uuid::Uuid::new_v4().as_u128()
}

impl Commitment {
    /// The balance is the sum over the live ledger entries, whose ids are distinct.
    pub open spec fn wf(&self) -> bool {
        &&& self.balance == active_gross(self.purchase_log@)
        &&& ids_distinct(self.purchase_log@)
    }

    pub open spec fn spec_is_active_at(&self, now: Timestamp) -> bool {
        &&& self.status == CommitmentStatus::Valid
        &&& now.spec_le(self.valid_till)
    }

    /// `c` is a commitment just made with these values: empty ledger, zero
    /// balance, valid through the end of the year that holds `now`.
    pub open spec fn is_fresh(
        c: Commitment,
        id: u128,
        target: u32,
        discount_percentage: u32,
        created_by: u32,
        now: Timestamp,
    ) -> bool {
        &&& c.commitment_id == id
        &&& c.target == target
        &&& c.discount_percentage == discount_percentage
        &&& is_next_new_year(now, c.valid_till)
        &&& c.balance == 0
        &&& c.purchase_log@.len() == 0
        &&& c.status == CommitmentStatus::Valid
        &&& c.created_at == now
        &&& c.created_by == created_by
    }

    /// Makes the commitment `id`, created at `now`; the discount must be 0 to 6
    /// and `now` must fall in the years 0 to 9999.
    pub fn new_at(
        target: u32,
        discount_percentage: u32,
        created_by: u32,
        now: Timestamp,
        id: u128,
    ) -> (r: Result<Commitment, CommitmentError>)
        ensures
            r is Ok <==> discount_percentage <= MAX_DISCOUNT_PERCENTAGE && now.in_calendar_range(),
            r == Err::<Commitment, CommitmentError>(CommitmentError::Validation)
                <==> discount_percentage > MAX_DISCOUNT_PERCENTAGE,
            r == Err::<Commitment, CommitmentError>(CommitmentError::ClockOutOfRange)
                <==> discount_percentage <= MAX_DISCOUNT_PERCENTAGE && !now.in_calendar_range(),
            r matches Ok(c) ==> c.wf() && Self::is_fresh(
                c,
                id,
                target,
                discount_percentage,
                created_by,
                now,
            ),
    {
        if discount_percentage > MAX_DISCOUNT_PERCENTAGE {
            return Err(CommitmentError::Validation);
        }
        if !now.in_range() {
            return Err(CommitmentError::ClockOutOfRange);
        }
        let valid_till = start_of_next_year(now);
        Ok(
            Commitment {
                commitment_id: id,
                target,
                discount_percentage,
                valid_till,
                balance: 0,
                purchase_log: Vec::new(),
                status: CommitmentStatus::Valid,
                created_at: now,
                created_by,
            },
        )
    }

    /// Makes a commitment with a fresh random id at the time the system clock reads.
    pub fn new(target: u32, discount_percentage: u32, created_by: u32) -> (r: Result<
        Commitment,
        CommitmentError,
    >)
        ensures
            r == Err::<Commitment, CommitmentError>(CommitmentError::Validation)
                <==> discount_percentage > MAX_DISCOUNT_PERCENTAGE,
            r is Err ==> r == Err::<Commitment, CommitmentError>(CommitmentError::Validation) || r
                == Err::<Commitment, CommitmentError>(CommitmentError::ClockOutOfRange),
            r matches Ok(c) ==> c.wf() && exists|now: Timestamp|
                Self::is_fresh(c, c.commitment_id, target, discount_percentage, created_by, now),
    {
        Commitment::new_at(target, discount_percentage, created_by, clock_now(), fresh_id())
    }

    /// `self` with status `s`, everything else unchanged.
    pub open spec fn with_status(self, s: CommitmentStatus) -> Commitment {
        Commitment { status: s, ..self }
    }

    /// Replaces this commitment by the commitment `id`, created at `now` with the
    /// new target and discount: it takes over this one's balance and whole
    /// ledger, and this one becomes withdrawn in its favour. On a discount
    /// outside 0 to 6, or an instant outside the years 0 to 9999, nothing changes.
    pub fn withdraw_at(
        &mut self,
        new_target: u32,
        new_discount_percentage: u32,
        created_by: u32,
        now: Timestamp,
        id: u128,
    ) -> (r: Result<Commitment, CommitmentError>)
        requires
            old(self).wf(),
        ensures
            r is Ok <==> new_discount_percentage <= MAX_DISCOUNT_PERCENTAGE && now.in_calendar_range(),
            r == Err::<Commitment, CommitmentError>(CommitmentError::Validation)
                <==> new_discount_percentage > MAX_DISCOUNT_PERCENTAGE,
            r == Err::<Commitment, CommitmentError>(CommitmentError::ClockOutOfRange)
                <==> new_discount_percentage <= MAX_DISCOUNT_PERCENTAGE && !now.in_calendar_range(),
            r is Err ==> *final(self) == *old(self),
            r matches Ok(n) ==> {
                &&& n.wf()
                &&& *final(self) == old(self).with_status(CommitmentStatus::Withdrawn { successor: id })
                &&& n.commitment_id == id
                &&& n.target == new_target
                &&& n.discount_percentage == new_discount_percentage
                &&& is_next_new_year(now, n.valid_till)
                &&& n.balance == old(self).balance
                &&& n.purchase_log@ == old(self).purchase_log@
                &&& n.status == CommitmentStatus::Valid
                &&& n.created_at == now
                &&& n.created_by == created_by
            },
    {
        let mut next = match Commitment::new_at(new_target, new_discount_percentage, created_by, now, id) {
            Ok(c) => c,
            Err(e) => return Err(e),
        };
        let mut log: Vec<PurchaseInfo> = Vec::new();
        let mut i: usize = 0;
        while i < self.purchase_log.len()
            invariant
                i <= self.purchase_log@.len(),
                log@ =~= self.purchase_log@.subrange(0, i as int),
            decreases self.purchase_log@.len() - i,
        {
            log.push(self.purchase_log[i]);
            i = i + 1;
        }
        assert(log@ =~= self.purchase_log@);
        self.status = CommitmentStatus::Withdrawn { successor: id };
        next.balance = self.balance;
        next.purchase_log = log;
        next.created_at = now;
        next.created_by = created_by;
        Ok(next)
    }

    /// `withdraw_at` with a fresh random id, at the time the system clock reads.
    pub fn withdraw(&mut self, new_target: u32, new_discount_percentage: u32, created_by: u32) -> (r:
        Result<Commitment, CommitmentError>)
        requires
            old(self).wf(),
        ensures
            r == Err::<Commitment, CommitmentError>(CommitmentError::Validation)
                <==> new_discount_percentage > MAX_DISCOUNT_PERCENTAGE,
            r is Err ==> *final(self) == *old(self),
            r matches Ok(n) ==> {
                &&& n.wf()
                &&& *final(self) == old(self).with_status(
                    CommitmentStatus::Withdrawn { successor: n.commitment_id },
                )
                &&& n.target == new_target
                &&& n.discount_percentage == new_discount_percentage
                &&& n.balance == old(self).balance
                &&& n.purchase_log@ == old(self).purchase_log@
                &&& n.status == CommitmentStatus::Valid
                &&& n.created_by == created_by
                &&& is_next_new_year(n.created_at, n.valid_till)
            },
    {
        self.withdraw_at(new_target, new_discount_percentage, created_by, clock_now(), fresh_id())
    }

    /// Index of the ledger entry with id `purchase_id`, if any.
    fn find_purchase(&self, purchase_id: u128) -> (r: Option<usize>)
        ensures
            r is None <==> !log_has(self.purchase_log@, purchase_id),
            r matches Some(i) ==> i < self.purchase_log@.len()
                && self.purchase_log@[i as int].purchase_id == purchase_id,
    {
        let mut i: usize = 0;
        while i < self.purchase_log.len()
            invariant
                i <= self.purchase_log@.len(),
                forall|k: int| 0 <= k < i ==> #[trigger] self.purchase_log@[k].purchase_id != purchase_id,
            decreases self.purchase_log@.len() - i,
        {
            if self.purchase_log[i].purchase_id == purchase_id {
                return Some(i);
            }
            i = i + 1;
        }
        None
    }

    /// Appends `purchase` to the ledger and adds its gross amount to the
    /// balance, unless the ledger already holds its id.
    pub fn add_purchase(&mut self, purchase: PurchaseInfo) -> (r: Result<(), CommitmentError>)
        requires
            old(self).wf(),
            !purchase.removed,
            old(self).balance + purchase.total_gross <= u32::MAX,
        ensures
            final(self).wf(),
            r is Err <==> log_has(old(self).purchase_log@, purchase.purchase_id),
            r is Err ==> r == Err::<(), CommitmentError>(CommitmentError::Duplicate) && *final(self)
                == *old(self),
            r is Ok ==> {
                &&& final(self).purchase_log@ == old(self).purchase_log@.push(purchase)
                &&& final(self).balance == old(self).balance + purchase.total_gross
                &&& final(self).same_but_ledger(*old(self))
            },
    {
        if self.find_purchase(purchase.purchase_id).is_some() {
            return Err(CommitmentError::Duplicate);
        }
        proof {
            lemma_active_gross_push(self.purchase_log@, purchase);
        }
        self.balance = self.balance + purchase.total_gross;
        self.purchase_log.push(purchase);
        assert(ids_distinct(self.purchase_log@)) by {
            assert forall|i: int, j: int| 0 <= i < j < self.purchase_log@.len() implies
                #[trigger] self.purchase_log@[i].purchase_id != #[trigger] self.purchase_log@[j].purchase_id by {
                if j == self.purchase_log@.len() - 1 {
                    assert(old(self).purchase_log@[i].purchase_id == self.purchase_log@[i].purchase_id);
                }
            }
        }
        Ok(())
    }

    /// Every field but the balance and the ledger is the same in `self` and `other`.
    pub open spec fn same_but_ledger(self, other: Commitment) -> bool {
        &&& self.commitment_id == other.commitment_id
        &&& self.target == other.target
        &&& self.discount_percentage == other.discount_percentage
        &&& self.valid_till == other.valid_till
        &&& self.status == other.status
        &&& self.created_at == other.created_at
        &&& self.created_by == other.created_by
    }

    /// The ledger after flagging the entry `purchase_id` removed, which it holds.
    pub open spec fn log_without(self, purchase_id: u128) -> Seq<PurchaseInfo> {
        let i = choose|i: int| 0 <= i < self.purchase_log@.len() && #[trigger] self.purchase_log@[i].purchase_id == purchase_id;
        self.purchase_log@.update(i, flagged_removed(self.purchase_log@[i]))
    }

    /// Flags the entry `purchase_id` removed and takes its gross amount off the
    /// balance; an entry already flagged leaves the balance as it is.
    pub fn remove_purchase(&mut self, purchase_id: u128) -> (r: Result<(), CommitmentError>)
        requires
            old(self).wf(),
        ensures
            final(self).wf(),
            r is Ok <==> log_has(old(self).purchase_log@, purchase_id),
            r is Err ==> r == Err::<(), CommitmentError>(CommitmentError::NotFound) && *final(self)
                == *old(self),
            r is Ok ==> {
                &&& final(self).purchase_log@ == old(self).log_without(purchase_id)
                &&& final(self).balance == active_gross(final(self).purchase_log@)
                &&& final(self).same_but_ledger(*old(self))
            },
    {
        let i = match self.find_purchase(purchase_id) {
            Some(i) => i,
            None => return Err(CommitmentError::NotFound),
        };
        let ghost log0 = self.purchase_log@;
        proof {
            let j = choose|j: int| 0 <= j < log0.len() && #[trigger] log0[j].purchase_id == purchase_id;
            if j != i {
                if j < i {
                    assert(log0[j].purchase_id != log0[i as int].purchase_id);
                } else {
                    assert(log0[i as int].purchase_id != log0[j].purchase_id);
                }
            }
            lemma_active_gross_update(log0, i as int, flagged_removed(log0[i as int]));
            lemma_active_gross_nonneg(log0.update(i as int, flagged_removed(log0[i as int])));
        }
        let gross = self.purchase_log[i].total_gross;
        let was_removed = self.purchase_log[i].removed;
        self.purchase_log[i].set_removed();
        if !was_removed {
            self.balance = self.balance - gross;
        }
        assert(self.purchase_log@ =~= log0.update(i as int, flagged_removed(log0[i as int])));
        assert(ids_distinct(self.purchase_log@)) by {
            assert forall|a: int, b: int| 0 <= a < b < self.purchase_log@.len() implies
                #[trigger] self.purchase_log@[a].purchase_id != #[trigger] self.purchase_log@[b].purchase_id by {
                assert(log0[a].purchase_id != log0[b].purchase_id);
            }
        }
        Ok(())
    }

    pub fn is_active_at(&self, now: Timestamp) -> (r: bool)
        ensures
            r == self.spec_is_active_at(now),
    {
        match self.status {
            CommitmentStatus::Valid => now.le(&self.valid_till),
            CommitmentStatus::Withdrawn { .. } => false,
        }
    }

    /// Active at the time the system clock reads: never once withdrawn.
    pub fn is_active(&self) -> (r: bool)
        ensures
            r ==> self.status == CommitmentStatus::Valid,
            r ==> exists|now: Timestamp| self.spec_is_active_at(now),
    {
        self.is_active_at(clock_now())
    }
}

/// `c1` is `c0` after the removal of purchase `pid` where the ledger holds it,
/// and `c0` itself where it does not.
#[verifier::opaque]
pub open spec fn purged(c0: Commitment, c1: Commitment, pid: u128) -> bool {
    if log_has(c0.purchase_log@, pid) {
        &&& c1.same_but_ledger(c0)
        &&& c1.purchase_log@ == c0.log_without(pid)
        &&& c1.balance == active_gross(c1.purchase_log@)
    } else {
        c1 == c0
    }
}

/// Starting at index `s`, the withdrawal chain ends at index `k`: every
/// commitment from `s` up to `k` is withdrawn, and `k` is valid.
pub open spec fn is_chain_end(cs: Seq<Commitment>, s: int, k: int) -> bool {
    &&& 0 <= s <= k < cs.len()
    &&& cs[k].status == CommitmentStatus::Valid
    &&& forall|m: int| s <= m < k ==> #[trigger] cs[m].status != CommitmentStatus::Valid
}

/// `i` is the first index of the list that holds the commitment `id`.
pub open spec fn is_first_index(cs: Seq<Commitment>, id: u128, i: int) -> bool {
    &&& 0 <= i < cs.len()
    &&& cs[i].commitment_id == id
    &&& forall|m: int| 0 <= m < i ==> #[trigger] cs[m].commitment_id != id
}

/// Every commitment is well formed; a withdrawn one is followed directly by
/// its successor; a valid one that is not last had expired before the next
/// one was made; and no two commitments share an id.
#[verifier::opaque]
pub open spec fn commitments_wf(cs: Seq<Commitment>) -> bool {
    &&& forall|i: int| 0 <= i < cs.len() ==> (#[trigger] cs[i]).wf()
    &&& forall|i: int|
        0 <= i < cs.len() ==> match (#[trigger] cs[i]).status {
            CommitmentStatus::Withdrawn { successor } => i + 1 < cs.len() && cs[i + 1].commitment_id
                == successor,
            CommitmentStatus::Valid => true,
        }
    &&& forall|i: int|
        0 <= i < cs.len() - 1 && (#[trigger] cs[i]).status == CommitmentStatus::Valid
            ==> !cs[i + 1].created_at.spec_le(cs[i].valid_till)
    &&& forall|i: int, j: int|
        0 <= i < j < cs.len() ==> (#[trigger] cs[i]).commitment_id != (#[trigger] cs[j]).commitment_id
}

/// Changing the ledger of one well-formed commitment keeps the list well formed.
proof fn lemma_ledger_change_keeps_wf(before: Seq<Commitment>, after: Seq<Commitment>, i: int)
    requires
        commitments_wf(before),
        0 <= i < before.len(),
        after.len() == before.len(),
        after[i].wf(),
        after[i].same_but_ledger(before[i]),
        forall|m: int| 0 <= m < after.len() && m != i ==> #[trigger] after[m] == before[m],
    ensures
        commitments_wf(after),
{
    reveal(commitments_wf);
    assert forall|k: int| 0 <= k < after.len() implies (#[trigger] after[k]).wf() by {
        if k != i {
            assert(after[k] == before[k]);
        }
    }
    assert forall|k: int| 0 <= k < after.len() implies match (#[trigger] after[k]).status {
        CommitmentStatus::Withdrawn { successor } => k + 1 < after.len() && after[k + 1].commitment_id
            == successor,
        CommitmentStatus::Valid => true,
    } by {
        assert(after[k].status == before[k].status);
        if k + 1 < after.len() {
            assert(after[k + 1].commitment_id == before[k + 1].commitment_id);
        }
    }
    assert forall|k: int|
        0 <= k < after.len() - 1 && (#[trigger] after[k]).status == CommitmentStatus::Valid implies !after[k
            + 1].created_at.spec_le(after[k].valid_till) by {
        assert(after[k].status == before[k].status);
        assert(after[k + 1].created_at == before[k + 1].created_at);
        assert(after[k].valid_till == before[k].valid_till);
    }
    assert forall|a: int, b: int| 0 <= a < b < after.len() implies (#[trigger] after[a]).commitment_id
        != (#[trigger] after[b]).commitment_id by {
        assert(after[a].commitment_id == before[a].commitment_id);
        assert(after[b].commitment_id == before[b].commitment_id);
    }
}

impl Customer {
    /// Every commitment is well formed; a withdrawn one is followed directly by
    /// its successor; and a valid one that is not last had expired before the
    /// next one was made.
    pub open spec fn wf(&self) -> bool {
        commitments_wf(self.commitments@)
    }

    /// The last commitment exists and is active at `now`.
    pub open spec fn has_active_at(&self, now: Timestamp) -> bool {
        &&& self.commitments@.len() > 0
        &&& self.commitments@.last().spec_is_active_at(now)
    }

    pub open spec fn spec_has_commitment(&self, id: u128) -> bool {
        exists|i: int| 0 <= i < self.commitments@.len() && #[trigger] self.commitments@[i].commitment_id == id
    }

    /// Id, creation time and creator are the same in `self` and `other`.
    pub open spec fn same_header(self, other: Customer) -> bool {
        &&& self.customer_id == other.customer_id
        &&& self.created_at == other.created_at
        &&& self.created_by == other.created_by
    }

    /// The customer `customer_id` with its first commitment, the commitment `id`.
    pub fn new_at(
        customer_id: u32,
        target: u32,
        discount_percentage: u32,
        created_by: u32,
        now: Timestamp,
        id: u128,
    ) -> (r: Result<Customer, CommitmentError>)
        ensures
            r is Ok <==> discount_percentage <= MAX_DISCOUNT_PERCENTAGE && now.in_calendar_range(),
            r == Err::<Customer, CommitmentError>(CommitmentError::Validation)
                <==> discount_percentage > MAX_DISCOUNT_PERCENTAGE,
            r == Err::<Customer, CommitmentError>(CommitmentError::ClockOutOfRange)
                <==> discount_percentage <= MAX_DISCOUNT_PERCENTAGE && !now.in_calendar_range(),
            r matches Ok(c) ==> {
                &&& c.wf()
                &&& c.customer_id == customer_id
                &&& c.created_at == now
                &&& c.created_by == created_by
                &&& c.commitments@.len() == 1
                &&& Commitment::is_fresh(c.commitments@[0], id, target, discount_percentage, created_by, now)
            },
    {
        proof {
            reveal(commitments_wf);
        }
        let first = match Commitment::new_at(target, discount_percentage, created_by, now, id) {
            Ok(c) => c,
            Err(e) => return Err(e),
        };
        let mut commitments: Vec<Commitment> = Vec::new();
        commitments.push(first);
        Ok(Customer { customer_id, commitments, created_at: now, created_by })
    }

    /// `new_at` with a fresh random id, at the time the system clock reads.
    pub fn new(customer_id: u32, target: u32, discount_percentage: u32, created_by: u32) -> (r:
        Result<Customer, CommitmentError>)
        ensures
            r == Err::<Customer, CommitmentError>(CommitmentError::Validation)
                <==> discount_percentage > MAX_DISCOUNT_PERCENTAGE,
            r is Err ==> r == Err::<Customer, CommitmentError>(CommitmentError::Validation) || r
                == Err::<Customer, CommitmentError>(CommitmentError::ClockOutOfRange),
            r matches Ok(c) ==> {
                &&& c.wf()
                &&& c.customer_id == customer_id
                &&& c.created_by == created_by
                &&& c.commitments@.len() == 1
                &&& Commitment::is_fresh(
                    c.commitments@[0],
                    c.commitments@[0].commitment_id,
                    target,
                    discount_percentage,
                    created_by,
                    c.created_at,
                )
            },
    {
        Customer::new_at(customer_id, target, discount_percentage, created_by, clock_now(), fresh_id())
    }

    pub fn get_id(&self) -> (r: &u32)
        ensures
            *r == self.customer_id,
    {
        &self.customer_id
    }

    /// First index at or after `from` of the commitment `id`.
    fn find_commitment_from(&self, id: u128, from: usize) -> (r: Option<usize>)
        ensures
            r is None ==> forall|m: int|
                from <= m < self.commitments@.len() ==> #[trigger] self.commitments@[m].commitment_id != id,
            r matches Some(i) ==> from <= i < self.commitments@.len()
                && self.commitments@[i as int].commitment_id == id
                && forall|m: int| from <= m < i ==> #[trigger] self.commitments@[m].commitment_id != id,
    {
        let mut i: usize = from;
        while i < self.commitments.len()
            invariant
                from <= i,
                forall|m: int| from <= m < i && m < self.commitments@.len() ==> #[trigger] self.commitments@[m].commitment_id != id,
            decreases self.commitments@.len() - i,
        {
            if self.commitments[i].commitment_id == id {
                return Some(i);
            }
            i = i + 1;
        }
        None
    }

    /// Whether any commitment of the list, withdrawn or expired ones included, has id `id`.
    pub fn has_commitment(&self, commitment_id: u128) -> (r: bool)
        ensures
            r == self.spec_has_commitment(commitment_id),
    {
        self.find_commitment_from(commitment_id, 0).is_some()
    }

    /// The first commitment of the list with id `commitment_id`.
    pub fn get_commitment(&self, commitment_id: u128) -> (r: Result<&Commitment, CommitmentError>)
        ensures
            r is Err <==> !self.spec_has_commitment(commitment_id),
            r is Err ==> r == Err::<&Commitment, CommitmentError>(CommitmentError::NotFound),
            r matches Ok(c) ==> exists|i: int|
                is_first_index(self.commitments@, commitment_id, i) && *c == self.commitments@[i],
    {
        match self.find_commitment_from(commitment_id, 0) {
            Some(i) => {
                assert(is_first_index(self.commitments@, commitment_id, i as int));
                Ok(&self.commitments[i])
            },
            None => Err(CommitmentError::NotFound),
        }
    }

    /// The last commitment, where it is active at `now`.
    pub fn get_active_commitment_at(&self, now: Timestamp) -> (r: Option<&Commitment>)
        ensures
            r is Some <==> self.has_active_at(now),
            r matches Some(c) ==> *c == self.commitments@.last(),
    {
        let n = self.commitments.len();
        if n == 0 {
            return None;
        }
        if self.commitments[n - 1].is_active_at(now) {
            Some(&self.commitments[n - 1])
        } else {
            None
        }
    }

    /// The last commitment, where it is active at the time the system clock reads.
    pub fn get_active_commitment(&self) -> (r: Option<&Commitment>)
        ensures
            r matches Some(c) ==> *c == self.commitments@.last() && exists|now: Timestamp|
                self.has_active_at(now),
            self.commitments@.len() == 0 ==> r is None,
    {
        self.get_active_commitment_at(clock_now())
    }

    /// Renews the customer's commitment at `now` with the new commitment `id`.
    /// An active last commitment is withdrawn in favour of it and hands it its
    /// balance and ledger; otherwise it starts fresh. Either way it is appended.
    pub fn add_commitment_at(
        &mut self,
        new_target: u32,
        new_discount_percentage: u32,
        created_by: u32,
        now: Timestamp,
        id: u128,
    ) -> (r: Result<(), CommitmentError>)
        requires
            old(self).wf(),
        ensures
            final(self).wf(),
            final(self).same_header(*old(self)),
            r is Ok <==> new_discount_percentage <= MAX_DISCOUNT_PERCENTAGE && now.in_calendar_range()
                && !old(self).spec_has_commitment(id),
            r == Err::<(), CommitmentError>(CommitmentError::Validation)
                <==> new_discount_percentage > MAX_DISCOUNT_PERCENTAGE,
            r == Err::<(), CommitmentError>(CommitmentError::ClockOutOfRange)
                <==> new_discount_percentage <= MAX_DISCOUNT_PERCENTAGE && !now.in_calendar_range(),
            r == Err::<(), CommitmentError>(CommitmentError::IdTaken)
                <==> new_discount_percentage <= MAX_DISCOUNT_PERCENTAGE && now.in_calendar_range()
                && old(self).spec_has_commitment(id),
            r is Err ==> final(self).commitments@ == old(self).commitments@,
            r is Ok ==> ({
                let cs0 = old(self).commitments@;
                let cs = final(self).commitments@;
                let n = cs0.len();
                let last = cs[n as int];
                &&& cs.len() == n + 1
                &&& forall|m: int| 0 <= m < n - 1 ==> #[trigger] cs[m] == cs0[m]
                &&& last.commitment_id == id
                &&& last.target == new_target
                &&& last.discount_percentage == new_discount_percentage
                &&& is_next_new_year(now, last.valid_till)
                &&& last.status == CommitmentStatus::Valid
                &&& last.created_at == now
                &&& last.created_by == created_by
                &&& if old(self).has_active_at(now) {
                    &&& cs[n - 1] == cs0[n - 1].with_status(CommitmentStatus::Withdrawn { successor: id })
                    &&& last.balance == cs0[n - 1].balance
                    &&& last.purchase_log@ == cs0[n - 1].purchase_log@
                } else {
                    &&& n > 0 ==> cs[n - 1] == cs0[n - 1]
                    &&& last.balance == 0
                    &&& last.purchase_log@.len() == 0
                }
            }),
    {
        proof {
            reveal(commitments_wf);
        }
        if new_discount_percentage > MAX_DISCOUNT_PERCENTAGE {
            return Err(CommitmentError::Validation);
        }
        if !now.in_range() {
            return Err(CommitmentError::ClockOutOfRange);
        }
        if self.has_commitment(id) {
            return Err(CommitmentError::IdTaken);
        }
        let n = self.commitments.len();
        let ghost cs0 = self.commitments@;
        if n > 0 && self.commitments[n - 1].is_active_at(now) {
            let next = match self.commitments[n - 1].withdraw_at(
                new_target,
                new_discount_percentage,
                created_by,
                now,
                id,
            ) {
                Ok(c) => c,
                Err(e) => {
                    assert(self.commitments@ =~= cs0);
                    return Err(e);
                },
            };
            self.commitments.push(next);
        } else {
            let next = match Commitment::new_at(new_target, new_discount_percentage, created_by, now, id) {
                Ok(c) => c,
                Err(e) => return Err(e),
            };
            self.commitments.push(next);
        }
        Ok(())
    }

    /// `add_commitment_at` with a fresh random id, at the time the system clock reads.
    pub fn add_commitment(&mut self, new_target: u32, new_discount_percentage: u32, created_by: u32) -> (r:
        Result<(), CommitmentError>)
        requires
            old(self).wf(),
        ensures
            final(self).wf(),
            final(self).same_header(*old(self)),
            r == Err::<(), CommitmentError>(CommitmentError::Validation)
                <==> new_discount_percentage > MAX_DISCOUNT_PERCENTAGE,
            r is Err ==> final(self).commitments@ == old(self).commitments@,
            r is Err ==> r == Err::<(), CommitmentError>(CommitmentError::Validation) || r == Err::<
                (),
                CommitmentError,
            >(CommitmentError::ClockOutOfRange) || r == Err::<(), CommitmentError>(
                CommitmentError::IdTaken,
            ),
            r is Ok ==> ({
                let cs0 = old(self).commitments@;
                let cs = final(self).commitments@;
                let n = cs0.len();
                let last = cs[n as int];
                &&& cs.len() == n + 1
                &&& forall|m: int| 0 <= m < n - 1 ==> #[trigger] cs[m] == cs0[m]
                &&& !old(self).spec_has_commitment(last.commitment_id)
                &&& last.target == new_target
                &&& last.discount_percentage == new_discount_percentage
                &&& is_next_new_year(last.created_at, last.valid_till)
                &&& last.status == CommitmentStatus::Valid
                &&& last.created_by == created_by
                &&& if old(self).has_active_at(last.created_at) {
                    &&& cs[n - 1] == cs0[n - 1].with_status(
                        CommitmentStatus::Withdrawn { successor: last.commitment_id },
                    )
                    &&& last.balance == cs0[n - 1].balance
                    &&& last.purchase_log@ == cs0[n - 1].purchase_log@
                } else {
                    &&& n > 0 ==> cs[n - 1] == cs0[n - 1]
                    &&& last.balance == 0
                    &&& last.purchase_log@.len() == 0
                }
                &&& n > 0 && cs0[n - 1].status != CommitmentStatus::Valid ==> last.balance == 0
                    && cs[n - 1] == cs0[n - 1]
            }),
    {
        self.add_commitment_at(new_target, new_discount_percentage, created_by, clock_now(), fresh_id())
    }

    /// Posts `purchase` to the commitment `commitment_id`, which must be the
    /// customer's active commitment at `now`.
    pub fn add_purchase_at(&mut self, commitment_id: u128, purchase: PurchaseInfo, now: Timestamp) -> (r:
        Result<(), CommitmentError>)
        requires
            old(self).wf(),
            !purchase.removed,
            old(self).commitments@.len() > 0 ==> old(self).commitments@.last().balance
                + purchase.total_gross <= u32::MAX,
        ensures
            final(self).wf(),
            final(self).same_header(*old(self)),
            !old(self).spec_has_commitment(commitment_id) ==> r == Err::<(), CommitmentError>(
                CommitmentError::NotFound,
            ),
            old(self).spec_has_commitment(commitment_id) && (!old(self).has_active_at(now)
                || old(self).commitments@.last().commitment_id != commitment_id) ==> r == Err::<
                (),
                CommitmentError,
            >(CommitmentError::StateConflict),
            old(self).spec_has_commitment(commitment_id) && old(self).has_active_at(now)
                && old(self).commitments@.last().commitment_id == commitment_id ==> (r is Err
                <==> log_has(old(self).commitments@.last().purchase_log@, purchase.purchase_id)),
            r is Err ==> final(self).commitments@ == old(self).commitments@,
            old(self).spec_has_commitment(commitment_id) && old(self).has_active_at(now)
                && old(self).commitments@.last().commitment_id == commitment_id && log_has(
                old(self).commitments@.last().purchase_log@,
                purchase.purchase_id,
            ) ==> r == Err::<(), CommitmentError>(CommitmentError::Duplicate),
            r is Err && r != Err::<(), CommitmentError>(CommitmentError::NotFound) && r != Err::<
                (),
                CommitmentError,
            >(CommitmentError::StateConflict) ==> r == Err::<(), CommitmentError>(
                CommitmentError::Duplicate,
            ),
            r is Ok ==> ({
                let cs0 = old(self).commitments@;
                let cs = final(self).commitments@;
                let n = cs0.len();
                &&& cs.len() == n
                &&& forall|m: int| 0 <= m < n - 1 ==> #[trigger] cs[m] == cs0[m]
                &&& cs[n - 1].same_but_ledger(cs0[n - 1])
                &&& cs[n - 1].purchase_log@ == cs0[n - 1].purchase_log@.push(purchase)
                &&& cs[n - 1].balance == cs0[n - 1].balance + purchase.total_gross
            }),
    {
        proof {
            reveal(commitments_wf);
        }
        if !self.has_commitment(commitment_id) {
            return Err(CommitmentError::NotFound);
        }
        let n = self.commitments.len();
        if !self.has_active_commitment_at(now) || self.commitments[n - 1].commitment_id != commitment_id {
            return Err(CommitmentError::StateConflict);
        }
        let ghost cs0 = self.commitments@;
        let r = self.commitments[n - 1].add_purchase(purchase);
        assert(forall|m: int| 0 <= m < n - 1 ==> #[trigger] self.commitments@[m] == cs0[m]);
        if r.is_err() {
            assert(self.commitments@ =~= cs0);
        }
        r
    }

    /// `add_purchase_at` at the time the system clock reads.
    pub fn add_purchase(&mut self, commitment_id: u128, purchase: PurchaseInfo) -> (r: Result<
        (),
        CommitmentError,
    >)
        requires
            old(self).wf(),
            !purchase.removed,
            old(self).commitments@.len() > 0 ==> old(self).commitments@.last().balance
                + purchase.total_gross <= u32::MAX,
        ensures
            final(self).wf(),
            final(self).same_header(*old(self)),
            !old(self).spec_has_commitment(commitment_id) ==> r == Err::<(), CommitmentError>(
                CommitmentError::NotFound,
            ),
            old(self).spec_has_commitment(commitment_id) && old(self).commitments@.last().commitment_id
                != commitment_id ==> r == Err::<(), CommitmentError>(CommitmentError::StateConflict),
            r is Err ==> final(self).commitments@ == old(self).commitments@,
            r is Ok ==> ({
                let cs0 = old(self).commitments@;
                let cs = final(self).commitments@;
                let n = cs0.len();
                &&& cs0[n - 1].commitment_id == commitment_id
                &&& cs0[n - 1].status == CommitmentStatus::Valid
                &&& cs.len() == n
                &&& forall|m: int| 0 <= m < n - 1 ==> #[trigger] cs[m] == cs0[m]
                &&& cs[n - 1].same_but_ledger(cs0[n - 1])
                &&& cs[n - 1].purchase_log@ == cs0[n - 1].purchase_log@.push(purchase)
                &&& cs[n - 1].balance == cs0[n - 1].balance + purchase.total_gross
            }),
    {
        self.add_purchase_at(commitment_id, purchase, clock_now())
    }

    /// Removes purchase `purchase_id` from the commitment at index `i` alone.
    fn purge_one(&mut self, i: usize, purchase_id: u128) -> (r: Result<(), CommitmentError>)
        requires
            old(self).wf(),
            i < old(self).commitments@.len(),
        ensures
            final(self).wf(),
            final(self).same_header(*old(self)),
            final(self).commitments@.len() == old(self).commitments@.len(),
            purged(old(self).commitments@[i as int], final(self).commitments@[i as int], purchase_id),
            final(self).commitments@[i as int].status == old(self).commitments@[i as int].status,
            final(self).commitments@[i as int].status matches CommitmentStatus::Withdrawn { successor }
                ==> i + 1 < final(self).commitments@.len() && final(self).commitments@[i + 1].commitment_id
                == successor,
            forall|m: int|
                0 <= m < old(self).commitments@.len() && m != i ==> #[trigger] final(self).commitments@[m]
                    == old(self).commitments@[m],
            r is Ok <==> log_has(old(self).commitments@[i as int].purchase_log@, purchase_id),
            r is Err ==> r == Err::<(), CommitmentError>(CommitmentError::NotFound),
    {
        let ghost before = self.commitments@;
        proof {
            reveal(commitments_wf);
            reveal(purged);
        }
        let r = self.commitments[i].remove_purchase(purchase_id);
        proof {
            let cs = self.commitments@;
            assert(forall|m: int| 0 <= m < cs.len() && m != i ==> #[trigger] cs[m] == before[m]);
            if log_has(before[i as int].purchase_log@, purchase_id) {
                lemma_ledger_change_keeps_wf(before, cs, i as int);
            } else {
                assert(cs =~= before);
            }
        }
        proof {
            let cs = self.commitments@;
            assert(match cs[i as int].status {
                CommitmentStatus::Withdrawn { successor } => i + 1 < cs.len() && cs[i + 1].commitment_id == successor,
                CommitmentStatus::Valid => true,
            });
        }
        r
    }

    /// Removes purchase `purchase_id` along the withdrawal chain that starts at
    /// the commitment `commitment_id`: from each withdrawn commitment that holds
    /// it, and then from the valid commitment that ends the chain, whose miss
    /// alone is an error.
    #[verifier::rlimit(40)]
    pub fn remove_purchase(&mut self, commitment_id: u128, purchase_id: u128) -> (r: Result<
        (),
        CommitmentError,
    >)
        requires
            old(self).wf(),
        ensures
            final(self).wf(),
            final(self).same_header(*old(self)),
            !old(self).spec_has_commitment(commitment_id) ==> r == Err::<(), CommitmentError>(
                CommitmentError::NotFound,
            ) && final(self).commitments@ == old(self).commitments@,
            old(self).spec_has_commitment(commitment_id) ==> exists|s: int, k: int|
                #[trigger] is_first_index(old(self).commitments@, commitment_id, s)
                    && #[trigger] is_chain_end(old(self).commitments@, s, k) && {
                    let cs0 = old(self).commitments@;
                    let cs = final(self).commitments@;
                    &&& cs.len() == cs0.len()
                    &&& forall|m: int|
                        0 <= m < cs0.len() ==> if s <= m <= k {
                            purged(cs0[m], #[trigger] cs[m], purchase_id)
                        } else {
                            cs[m] == cs0[m]
                        }
                    &&& (r is Ok <==> log_has(cs0[k].purchase_log@, purchase_id))
                    &&& (r is Err ==> r == Err::<(), CommitmentError>(CommitmentError::NotFound))
                },
    {
        let s = match self.find_commitment_from(commitment_id, 0) {
            Some(i) => i,
            None => return Err(CommitmentError::NotFound),
        };
        let ghost cs0 = self.commitments@;
        assert(is_first_index(cs0, commitment_id, s as int));
        assert(old(self).spec_has_commitment(commitment_id));
        let mut cur: usize = s;
        loop
            invariant
                self.wf(),
                self.same_header(*old(self)),
                cs0 == old(self).commitments@,
                is_first_index(cs0, commitment_id, s as int),
                s <= cur < cs0.len(),
                self.commitments@.len() == cs0.len(),
                forall|m: int| s <= m < cur ==> #[trigger] cs0[m].status != CommitmentStatus::Valid,
                forall|m: int| s <= m < cur ==> purged(cs0[m], #[trigger] self.commitments@[m], purchase_id),
                forall|m: int|
                    0 <= m < cs0.len() && !(s <= m < cur) ==> #[trigger] self.commitments@[m] == cs0[m],
            decreases cs0.len() - cur,
        {
            let ghost before = self.commitments@;
            let status = self.commitments[cur].status;
            assert(before[cur as int] == cs0[cur as int]);
            let r = self.purge_one(cur, purchase_id);
            assert(self.commitments@[cur as int].status == status);
            proof {
                let cs = self.commitments@;
                assert(before[cur as int] == cs0[cur as int]);
                assert forall|m: int| 0 <= m < cs0.len() implies (if s <= m <= cur {
                    purged(cs0[m], #[trigger] cs[m], purchase_id)
                } else {
                    cs[m] == cs0[m]
                }) by {
                    if m != cur {
                        assert(cs[m] == before[m]);
                    }
                }
            }
            match status {
                CommitmentStatus::Valid => {
                    assert(is_first_index(cs0, commitment_id, s as int) && is_chain_end(
                        cs0,
                        s as int,
                        cur as int,
                    ));
                    return r;
                },
                CommitmentStatus::Withdrawn { successor } => {
                    let n = self.commitments.len();
                    assert(cur + 1 < n);
                    // A withdrawn commitment is directly followed by its successor.
                    if self.commitments[cur + 1].commitment_id != successor {
                        assert(false);
                        return Err(CommitmentError::NotFound);
                    }
                    cur = cur + 1;
                },
            }
        }
    }

    /// Whether the customer has an active commitment at `now`.
    pub fn has_active_commitment_at(&self, now: Timestamp) -> (r: bool)
        ensures
            r == self.has_active_at(now),
    {
        self.get_active_commitment_at(now).is_some()
    }
}

proof fn lemma_active_gross_prefix(log: Seq<PurchaseInfo>, i: int)
    requires
        0 <= i <= log.len(),
    ensures
        active_gross(log) >= active_gross(log.subrange(0, i)),
    decreases log.len(),
{
    if i < log.len() {
        lemma_active_gross_prefix(log.drop_last(), i);
        assert(log.drop_last().subrange(0, i) =~= log.subrange(0, i));
    } else {
        assert(log.subrange(0, i) =~= log);
    }
}

/// Whether the balance of `c` is the live gross total of its ledger.
fn balance_matches(c: &Commitment) -> (r: bool)
    ensures
        r == (c.balance == active_gross(c.purchase_log@)),
{
    let ghost log = c.purchase_log@;
    let mut sum: u64 = 0;
    let mut i: usize = 0;
    while i < c.purchase_log.len()
        invariant
            i <= log.len(),
            log == c.purchase_log@,
            sum == active_gross(log.subrange(0, i as int)),
            sum <= c.balance,
        decreases log.len() - i,
    {
        let p = c.purchase_log[i];
        proof {
            assert(log.subrange(0, i + 1).drop_last() =~= log.subrange(0, i as int));
        }
        if !p.removed {
            sum = sum + p.total_gross as u64;
        }
        i = i + 1;
        if sum > c.balance as u64 {
            proof {
                lemma_active_gross_prefix(log, i as int);
            }
            return false;
        }
    }
    proof {
        assert(log.subrange(0, log.len() as int) =~= log);
    }
    sum == c.balance as u64
}

/// Whether no two entries of the ledger share an id.
fn ledger_ids_distinct(log: &Vec<PurchaseInfo>) -> (r: bool)
    ensures
        r == ids_distinct(log@),
{
    let mut j: usize = 0;
    while j < log.len()
        invariant
            j <= log@.len(),
            forall|a: int, b: int|
                0 <= a < b < j ==> #[trigger] log@[a].purchase_id != #[trigger] log@[b].purchase_id,
        decreases log@.len() - j,
    {
        let mut i: usize = 0;
        while i < j
            invariant
                i <= j < log@.len(),
                forall|a: int| 0 <= a < i ==> #[trigger] log@[a].purchase_id != log@[j as int].purchase_id,
                forall|a: int, b: int|
                    0 <= a < b < j ==> #[trigger] log@[a].purchase_id != #[trigger] log@[b].purchase_id,
            decreases j - i,
        {
            if log[i].purchase_id == log[j].purchase_id {
                assert(log@[i as int].purchase_id == log@[j as int].purchase_id);
                return false;
            }
            i = i + 1;
        }
        j = j + 1;
    }
    true
}

/// Whether no commitment before index `i` has the id of the one at `i`.
fn id_new_at(cs: &Vec<Commitment>, i: usize) -> (r: bool)
    requires
        i < cs@.len(),
    ensures
        r == forall|x: int| 0 <= x < i ==> #[trigger] cs@[x].commitment_id != cs@[i as int].commitment_id,
{
    let mut a: usize = 0;
    while a < i
        invariant
            a <= i < cs@.len(),
            forall|x: int| 0 <= x < a ==> #[trigger] cs@[x].commitment_id != cs@[i as int].commitment_id,
        decreases i - a,
    {
        if cs[a].commitment_id == cs[i].commitment_id {
            return false;
        }
        a = a + 1;
    }
    true
}

/// The conditions of `commitments_wf` that concern the commitment at index `k`.
pub open spec fn entry_ok(cs: Seq<Commitment>, k: int) -> bool {
    &&& cs[k].wf()
    &&& match cs[k].status {
        CommitmentStatus::Withdrawn { successor } => k + 1 < cs.len() && cs[k + 1].commitment_id == successor,
        CommitmentStatus::Valid => true,
    }
    &&& (k < cs.len() - 1 && cs[k].status == CommitmentStatus::Valid ==> !cs[k
        + 1].created_at.spec_le(cs[k].valid_till))
    &&& forall|x: int| 0 <= x < k ==> #[trigger] cs[x].commitment_id != cs[k].commitment_id
}

proof fn lemma_entries_ok_iff_wf(cs: Seq<Commitment>)
    ensures
        (forall|k: int| 0 <= k < cs.len() ==> #[trigger] entry_ok(cs, k)) == commitments_wf(cs),
{
    reveal(commitments_wf);
    if forall|k: int| 0 <= k < cs.len() ==> #[trigger] entry_ok(cs, k) {
        assert forall|i: int| 0 <= i < cs.len() implies (#[trigger] cs[i]).wf() by {
            assert(entry_ok(cs, i));
        }
        assert forall|i: int| 0 <= i < cs.len() implies match (#[trigger] cs[i]).status {
            CommitmentStatus::Withdrawn { successor } => i + 1 < cs.len() && cs[i + 1].commitment_id == successor,
            CommitmentStatus::Valid => true,
        } by {
            assert(entry_ok(cs, i));
        }
        assert forall|i: int| 0 <= i < cs.len() - 1 && (#[trigger] cs[i]).status == CommitmentStatus::Valid
            implies !cs[i + 1].created_at.spec_le(cs[i].valid_till) by {
            assert(entry_ok(cs, i));
        }
        assert forall|a: int, b: int| 0 <= a < b < cs.len() implies (#[trigger] cs[a]).commitment_id
            != (#[trigger] cs[b]).commitment_id by {
            assert(entry_ok(cs, b));
        }
    }
    if commitments_wf(cs) {
        assert forall|k: int| 0 <= k < cs.len() implies #[trigger] entry_ok(cs, k) by {
            assert forall|x: int| 0 <= x < k implies #[trigger] cs[x].commitment_id != cs[k].commitment_id by {
                assert(cs[x].commitment_id != cs[k].commitment_id);
            }
        }
    }
}

/// Whether the commitment at index `i` meets its part of the list's well-formedness.
fn entry_checks(cs: &Vec<Commitment>, i: usize) -> (r: bool)
    requires
        i < cs@.len(),
    ensures
        r == entry_ok(cs@, i as int),
{
    let n = cs.len();
    let c = &cs[i];
    if !balance_matches(c) || !ledger_ids_distinct(&c.purchase_log) {
        return false;
    }
    match c.status {
        CommitmentStatus::Withdrawn { successor } => {
            if i + 1 >= n || cs[i + 1].commitment_id != successor {
                return false;
            }
        },
        CommitmentStatus::Valid => {
            if i + 1 < n && cs[i + 1].created_at.le(&c.valid_till) {
                return false;
            }
        },
    }
    id_new_at(cs, i)
}

impl Customer {
    /// Whether the customer is well formed, for data that did not come from
    /// this library's constructors.
    pub fn is_well_formed(&self) -> (r: bool)
        ensures
            r == self.wf(),
    {
        let mut i: usize = 0;
        while i < self.commitments.len()
            invariant
                i <= self.commitments@.len(),
                forall|k: int| 0 <= k < i ==> #[trigger] entry_ok(self.commitments@, k),
            decreases self.commitments@.len() - i,
        {
            if !entry_checks(&self.commitments, i) {
                proof {
                    lemma_entries_ok_iff_wf(self.commitments@);
                    assert(!entry_ok(self.commitments@, i as int));
                }
                return false;
            }
            i = i + 1;
        }
        proof {
            lemma_entries_ok_iff_wf(self.commitments@);
        }
        true
    }
}

/// At any instant no earlier than the creation of each of its commitments, a
/// well-formed customer has at most one active commitment, and that one is the
/// last of its list.
pub proof fn lemma_single_active_commitment(c: Customer, now: Timestamp)
    requires
        c.wf(),
        forall|i: int| 0 <= i < c.commitments@.len() ==> (#[trigger] c.commitments@[i]).created_at.spec_le(now),
    ensures
        forall|i: int|
            0 <= i < c.commitments@.len() && (#[trigger] c.commitments@[i]).spec_is_active_at(now) ==> i
                == c.commitments@.len() - 1,
        forall|i: int, j: int|
            0 <= i < c.commitments@.len() && 0 <= j < c.commitments@.len()
                && (#[trigger] c.commitments@[i]).spec_is_active_at(now)
                && (#[trigger] c.commitments@[j]).spec_is_active_at(now) ==> i == j,
{
    reveal(commitments_wf);
    let cs = c.commitments@;
    assert forall|i: int| 0 <= i < cs.len() && (#[trigger] cs[i]).spec_is_active_at(now) implies i == cs.len() - 1 by {
        if i < cs.len() - 1 {
            assert(cs[i + 1].created_at.spec_le(now));
        }
    }
}

/// Posting a purchase to a commitment and then removing that purchase again
/// leaves the balance exactly where it was: `c1` is `c0` after `add_purchase(p)`
/// and `c2` is `c1` after `remove_purchase(p.purchase_id)`.
pub proof fn lemma_add_then_remove_restores_balance(
    c0: Commitment,
    c1: Commitment,
    c2: Commitment,
    p: PurchaseInfo,
)
    requires
        c0.wf(),
        !p.removed,
        !log_has(c0.purchase_log@, p.purchase_id),
        c1.wf(),
        c1.purchase_log@ == c0.purchase_log@.push(p),
        c1.balance == c0.balance + p.total_gross,
        c2.purchase_log@ == c1.log_without(p.purchase_id),
        c2.balance == active_gross(c2.purchase_log@),
    ensures
        c2.balance == c0.balance,
{
    let log = c1.purchase_log@;
    let n = c0.purchase_log@.len() as int;
    assert(log[n].purchase_id == p.purchase_id);
    let i = choose|i: int| 0 <= i < log.len() && #[trigger] log[i].purchase_id == p.purchase_id;
    if i != n {
        assert(log[i].purchase_id != log[n].purchase_id);
    }
    lemma_active_gross_update(log, n, flagged_removed(p));
}

impl Default for CommitmentStatus {
    fn default() -> (r: CommitmentStatus)
        ensures
            r == CommitmentStatus::Valid,
    {
        CommitmentStatus::Valid
    }
}

impl Default for PurchaseInfo {
    /// The empty entry with the nil id, stamped with the system clock.
    fn default() -> (r: PurchaseInfo)
        ensures
            r.purchase_id == 0 && r.total_net == 0 && r.total_gross == 0 && r.applied_discount == 0
                && !r.removed,
    {
        PurchaseInfo::new_at(0, 0, 0, 0, clock_now())
    }
}

impl Default for Commitment {
    /// The nil commitment: nil id, zero target and discount, an empty ledger,
    /// valid, and expiring at the instant the system clock reads.
    fn default() -> (r: Commitment)
        ensures
            r.wf(),
            r.commitment_id == 0 && r.target == 0 && r.discount_percentage == 0 && r.created_by == 0,
            r.balance == 0 && r.purchase_log@.len() == 0,
            r.status == CommitmentStatus::Valid,
            r.valid_till == r.created_at,
    {
        let now = clock_now();
        Commitment {
            commitment_id: 0,
            target: 0,
            discount_percentage: 0,
            valid_till: now,
            balance: 0,
            purchase_log: Vec::new(),
            status: CommitmentStatus::Valid,
            created_at: now,
            created_by: 0,
        }
    }
}

impl Default for Customer {
    /// The customer 0 without commitments, created at the instant the system clock reads.
    fn default() -> (r: Customer)
        ensures
            r.wf(),
            r.customer_id == 0 && r.created_by == 0 && r.commitments@.len() == 0,
    {
        let c = Customer { customer_id: 0, commitments: Vec::new(), created_at: clock_now(), created_by: 0 };
        proof {
            reveal(commitments_wf);
        }
        c
    }
}

} // verus!
