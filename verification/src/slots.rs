//! The hard cap on concurrent WebSocket connections.
use vstd::prelude::*;

verus! {

/// `tokio::sync::Semaphore`, a store of interchangeable permits. What it holds is counted by
/// `free_permits`. Its methods work through shared borrows; here they are only reached through
/// exclusive ones, so the count changes only where a contract says so.
#[verifier::external_type_specification]
#[verifier::external_body]
pub struct ExSemaphore(tokio::sync::Semaphore);

/// How many permits are left in the semaphore.
pub uninterp spec fn free_permits(semaphore: tokio::sync::Semaphore) -> nat;

/// The semaphore is not closed, and nobody waits for a permit of it.
pub uninterp spec fn at_rest(semaphore: tokio::sync::Semaphore) -> bool;

/// `Semaphore::new`: a semaphore at rest with `permits` permits. It panics above
/// `Semaphore::MAX_PERMITS`, an eighth of the range of `usize`.
#[verifier::external_body]
fn new_semaphore(permits: usize) -> (res: tokio::sync::Semaphore)
    requires
        permits <= usize::MAX / 8,
    ensures
        free_permits(res) == permits,
        at_rest(res),
{
    tokio::sync::Semaphore::new(permits)
}

/// `Semaphore::try_acquire`, with the permit forgotten (`SemaphorePermit::forget`), so that it
/// does not return by itself: where a permit is left one fewer is left afterwards, and where
/// none is left nothing changes.
#[verifier::external_body]
fn take_permit(semaphore: &mut tokio::sync::Semaphore) -> (res: bool)
    requires
        at_rest(*old(semaphore)),
    ensures
        at_rest(*final(semaphore)),
        res == (free_permits(*old(semaphore)) > 0),
        free_permits(*final(semaphore)) == (if res {
            free_permits(*old(semaphore)) - 1
        } else {
            free_permits(*old(semaphore)) as int
        }),
{
    match semaphore.try_acquire() {
        Ok(permit) => {
            permit.forget();
            true
        },
        Err(_) => false,
    }
}

/// `Semaphore::add_permits` with one permit: one more is left afterwards. It panics where that
/// is above `Semaphore::MAX_PERMITS`.
#[verifier::external_body]
fn return_permit(semaphore: &mut tokio::sync::Semaphore)
    requires
        at_rest(*old(semaphore)),
        free_permits(*old(semaphore)) < usize::MAX / 8,
    ensures
        at_rest(*final(semaphore)),
        free_permits(*final(semaphore)) == free_permits(*old(semaphore)) + 1,
{
    semaphore.add_permits(1);
}

/// `Semaphore::available_permits`: how many permits are left.
#[verifier::external_body]
fn count_permits(semaphore: &tokio::sync::Semaphore) -> (res: usize)
    ensures
        res == free_permits(*semaphore),
{
    semaphore.available_permits()
}

/// The slots for concurrent connections.
pub struct ConnectionSlots {
    semaphore: tokio::sync::Semaphore,
    limit: usize,
}

impl ConnectionSlots {
    /// How many connections there may be at once.
    pub closed spec fn limit(self) -> nat {
        self.limit as nat
    }

    /// How many more connections there may be now.
    pub closed spec fn free(self) -> nat {
        free_permits(self.semaphore)
    }

    /// How many connections hold a slot.
    pub open spec fn in_use(self) -> int {
        self.limit() - self.free()
    }

    /// No more slots are free than there are.
    pub closed spec fn wf(self) -> bool {
        &&& at_rest(self.semaphore)
        &&& free_permits(self.semaphore) <= self.limit
        &&& self.limit <= usize::MAX / 8
    }

    /// Slots for up to `limit` connections, all free.
    pub fn new(limit: usize) -> (res: ConnectionSlots)
        requires
            limit <= usize::MAX / 8,
        ensures
            res.wf(),
            res.limit() == limit,
            res.free() == limit,
            res.in_use() == 0,
    {
        ConnectionSlots { semaphore: new_semaphore(limit), limit }
    }

    /// Takes a slot, if one is free. Never waits.
    pub fn try_acquire(&mut self) -> (res: bool)
        requires
            old(self).wf(),
        ensures
            final(self).wf(),
            final(self).limit() == old(self).limit(),
            res == (old(self).in_use() < old(self).limit()),
            res == (old(self).free() > 0),
            res ==> final(self).free() == old(self).free() - 1,
            !res ==> final(self).free() == old(self).free(),
            final(self).in_use() == (if res {
                old(self).in_use() + 1
            } else {
                old(self).in_use()
            }),
    {
        take_permit(&mut self.semaphore)
    }

    /// Gives a slot back.
    pub fn release(&mut self)
        requires
            old(self).wf(),
            old(self).in_use() > 0,
        ensures
            final(self).wf(),
            final(self).limit() == old(self).limit(),
            final(self).in_use() == old(self).in_use() - 1,
            final(self).free() == old(self).free() + 1,
    {
        return_permit(&mut self.semaphore)
    }

    /// How many slots are free.
    pub fn available(&self) -> (res: usize)
        ensures
            res == self.free(),
    {
        count_permits(&self.semaphore)
    }

    /// How many connections hold a slot.
    pub fn taken(&self) -> (res: usize)
        requires
            self.wf(),
        ensures
            res == self.in_use(),
    {
        self.limit - count_permits(&self.semaphore)
    }
}

/// There are never more connections than the limit allows, and never fewer than none.
pub proof fn law_cap_holds(slots: ConnectionSlots)
    requires
        slots.wf(),
    ensures
        0 <= slots.in_use() <= slots.limit(),
        slots.in_use() + slots.free() == slots.limit(),
{
}

} // verus!
