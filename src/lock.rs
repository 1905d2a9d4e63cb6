use vstd::prelude::*;

verus! {

/// How many times a failed attempt to take the wallet lock is retried.
pub const LOCK_RETRIES: u32 = 3;

/// Milliseconds to wait before each retry.
pub const LOCK_RETRY_DELAY_MS: u64 = 500;

/// What a caller does after an attempt to create the lock marker file.
#[derive(Debug, Clone, Copy, PartialEq, Eq, Structural)]
pub enum LockStep {
    /// The marker was created: the caller holds the lock.
    Acquired,
    /// The marker exists: wait, then try again with this retry count.
    Retry { retries: u32 },
    /// The retries are used up: fail without touching the ledger.
    Contention,
}

/// The decision after an attempt, made with `retries` retries already spent.
pub open spec fn lock_step_spec(retries: u32, created: bool) -> LockStep {
    if created {
        LockStep::Acquired
    } else if retries >= LOCK_RETRIES {
        LockStep::Contention
    } else {
        LockStep::Retry { retries: (retries + 1) as u32 }
    }
}

/// Decides what follows an attempt to create the lock marker file.
pub fn lock_step(retries: u32, created: bool) -> (r: LockStep)
    requires
        retries <= LOCK_RETRIES,
    ensures
        r == lock_step_spec(retries, created),
{
    if created {
        LockStep::Acquired
    } else if retries >= LOCK_RETRIES {
        LockStep::Contention
    } else {
        LockStep::Retry { retries: retries + 1 }
    }
}

/// Where a caller stands after the attempts whose outcomes are `attempts`
/// (true: the marker was created), starting with `retries` retries spent.
pub open spec fn lock_run(retries: u32, attempts: Seq<bool>) -> LockStep
    decreases attempts.len(),
{
    if attempts.len() == 0 {
        LockStep::Retry { retries }
    } else {
        match lock_step_spec(retries, attempts[0]) {
            LockStep::Retry { retries: r } => lock_run(r, attempts.drop_first()),
            s => s,
        }
    }
}

/// A caller that finds the lock taken on its first attempt and on each of its
/// retries gives up with a contention failure, and never holds the lock.
pub proof fn lemma_contended_caller_fails(attempts: Seq<bool>)
    requires
        attempts.len() == LOCK_RETRIES + 1,
        forall|i: int| 0 <= i < attempts.len() ==> !#[trigger] attempts[i],
    ensures
        lock_run(0, attempts) == LockStep::Contention,
{
    let a1 = attempts.drop_first();
    let a2 = a1.drop_first();
    let a3 = a2.drop_first();
    assert(!attempts[0] && !a1[0] && !a2[0] && !a3[0]);
    assert(lock_run(3, a3) == LockStep::Contention);
    assert(lock_run(2, a2) == LockStep::Contention);
    assert(lock_run(1, a1) == LockStep::Contention);
}

/// Whatever the attempts, a caller holds the lock only after an attempt that
/// created the marker, and fails only after spending every retry.
pub proof fn lemma_lock_outcomes(retries: u32, attempts: Seq<bool>)
    requires
        retries <= LOCK_RETRIES,
    ensures
        lock_run(retries, attempts) == LockStep::Acquired ==> exists|i: int|
            0 <= i < attempts.len() && #[trigger] attempts[i],
        lock_run(retries, attempts) == LockStep::Contention ==> attempts.len()
            >= LOCK_RETRIES + 1 - retries,
    decreases attempts.len(),
{
    if attempts.len() > 0 && !attempts[0] && retries < LOCK_RETRIES {
        let rest = attempts.drop_first();
        lemma_lock_outcomes((retries + 1) as u32, rest);
        if lock_run(retries, attempts) == LockStep::Acquired {
            let i = choose|i: int| 0 <= i < rest.len() && #[trigger] rest[i];
            assert(attempts[i + 1]);
        }
    } else if attempts.len() > 0 && attempts[0] {
        assert(attempts[0]);
    }
}

} // verus!
