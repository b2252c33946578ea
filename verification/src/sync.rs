//! The synchronization model of the frame presenter.
//!
//! Each frame slot owns one fence. The slot's *phase* abstracts what the
//! fence can observe: `Ready` (signaled, nothing pending — the state a
//! fence is created in, because fences are created signaled), `InFlight`
//! (associated with an outstanding submission), `Waited` (the wait has
//! returned, so the fence is known signaled), and `Cleared` (reset to
//! unsignaled, ready to be associated with a new submission).
//!
//! The phase of every slot is a fold over the recorded call log, so the
//! safety rules — a submission only ever reuses a fence that was waited on
//! and reset, and at most one submission per slot is outstanding — are
//! stated and proved over the log alone.

use vstd::prelude::*;

use crate::ops::BackendOp;

verus! {

/// The phase of one frame slot's fence.
#[derive(Clone, Copy, PartialEq, Eq, Structural, Debug)]
pub enum SlotPhase {
    /// Fence signaled, no pending work; waiting on it returns at once.
    Ready,
    /// A submission is outstanding under this fence.
    InFlight,
    /// The wait has returned: the fence is observed signaled.
    Waited,
    /// The fence has been reset and may be associated with a submission.
    Cleared,
}

/// How one backend call changes the phase of slot `slot`.
pub open spec fn step_phase(prev: SlotPhase, op: BackendOp, slot: int) -> SlotPhase {
    match op {
        BackendOp::WaitForFence { slot: s } => if s as int == slot {
            SlotPhase::Waited
        } else {
            prev
        },
        BackendOp::ResetFence { slot: s } => if s as int == slot {
            SlotPhase::Cleared
        } else {
            prev
        },
        BackendOp::Submit { fence_slot, .. } => if fence_slot as int == slot {
            SlotPhase::InFlight
        } else {
            prev
        },
        BackendOp::WaitIdle => if prev is InFlight {
            SlotPhase::Ready
        } else {
            prev
        },
        _ => prev,
    }
}

/// The phase of slot `slot` after the calls in `log`: a fold of
/// [`step_phase`] starting from `Ready`, the state of a fence created
/// signaled.
pub open spec fn slot_phase(log: Seq<BackendOp>, slot: int) -> SlotPhase
    decreases log.len(),
{
    if log.len() == 0 {
        SlotPhase::Ready
    } else {
        step_phase(slot_phase(log.drop_last(), slot), log.last(), slot)
    }
}

/// The phases of the `n` slots after the calls in `log`.
pub open spec fn phases_of(log: Seq<BackendOp>, n: int) -> Seq<SlotPhase> {
    Seq::new(n as nat, |s: int| slot_phase(log, s))
}

/// An operation that neither synchronizes nor destroys: the setup calls.
pub open spec fn inert_op(op: BackendOp) -> bool {
    &&& op !is WaitForFence
    &&& op !is ResetFence
    &&& op !is Submit
    &&& op !is AcquireImage
    &&& op !is Present
    &&& op !is WaitIdle
    &&& op !is Destroy
}

/// A log made only of setup calls.
pub open spec fn all_inert(log: Seq<BackendOp>) -> bool {
    forall|i: int| 0 <= i < log.len() ==> inert_op(#[trigger] log[i])
}

/// The fence-bearing operations of `op` stay within the `n` frame slots.
pub open spec fn op_slots_ok(op: BackendOp, n: int) -> bool {
    match op {
        BackendOp::WaitForFence { slot } => (slot as int) < n,
        BackendOp::ResetFence { slot } => (slot as int) < n,
        BackendOp::Submit { fence_slot, .. } => (fence_slot as int) < n,
        _ => true,
    }
}

/// Every operation of the log stays within the `n` frame slots.
pub open spec fn slots_in_range(log: Seq<BackendOp>, n: int) -> bool {
    forall|i: int| 0 <= i < log.len() ==> op_slots_ok(#[trigger] log[i], n)
}

/// Every submission is fenced with a fence that was reset beforehand
/// (phase `Cleared` at the moment of the submission).
pub open spec fn submit_safe(log: Seq<BackendOp>) -> bool {
    forall|i: int|
        0 <= i < log.len() ==> ((#[trigger] log[i]) matches BackendOp::Submit { fence_slot, .. }
            ==> slot_phase(log.take(i), fence_slot as int) is Cleared)
}

/// Every fence reset happens right after its wait returned (phase
/// `Waited` at the moment of the reset).
pub open spec fn reset_safe(log: Seq<BackendOp>) -> bool {
    forall|i: int|
        0 <= i < log.len() ==> ((#[trigger] log[i]) matches BackendOp::ResetFence { slot }
            ==> slot_phase(log.take(i), slot as int) is Waited)
}

/// Every wait is on a fence that is signaled or will be signaled by
/// outstanding work; waiting in phase `Cleared` or `Waited` would block
/// forever or be a reuse error.
pub open spec fn wait_safe(log: Seq<BackendOp>) -> bool {
    forall|i: int|
        0 <= i < log.len() ==> ((#[trigger] log[i]) matches BackendOp::WaitForFence { slot }
            ==> (slot_phase(log.take(i), slot as int) is Ready
                || slot_phase(log.take(i), slot as int) is InFlight))
}

/// The fence discipline of the presenter, as a property of the call log.
pub open spec fn fence_discipline(log: Seq<BackendOp>, n: int) -> bool {
    &&& slots_in_range(log, n)
    &&& submit_safe(log)
    &&& reset_safe(log)
    &&& wait_safe(log)
}

/// No owned resource has been destroyed yet.
pub open spec fn no_destroys(log: Seq<BackendOp>) -> bool {
    forall|i: int| 0 <= i < log.len() ==> !((#[trigger] log[i]) is Destroy)
}

/// Appending one well-placed operation preserves the fence discipline, and
/// each slot's phase advances by exactly one [`step_phase`] step.
pub proof fn lemma_log_push(log: Seq<BackendOp>, op: BackendOp, n: int)
    requires
        fence_discipline(log, n),
        op_slots_ok(op, n),
        op matches BackendOp::Submit { fence_slot, .. } ==> slot_phase(
            log,
            fence_slot as int,
        ) is Cleared,
        op matches BackendOp::ResetFence { slot } ==> slot_phase(log, slot as int) is Waited,
        op matches BackendOp::WaitForFence { slot } ==> (slot_phase(log, slot as int) is Ready
            || slot_phase(log, slot as int) is InFlight),
    ensures
        fence_discipline(log.push(op), n),
        forall|s: int| #[trigger] slot_phase(log.push(op), s) == step_phase(
            slot_phase(log, s),
            op,
            s,
        ),
        op !is Destroy && no_destroys(log) ==> no_destroys(log.push(op)),
{
    let log2 = log.push(op);
    assert(log2.drop_last() =~= log);
    assert forall|s: int| #[trigger] slot_phase(log2, s) == step_phase(
        slot_phase(log, s),
        op,
        s,
    ) by {
        assert(slot_phase(log2, s) == step_phase(slot_phase(log2.drop_last(), s), log2.last(), s));
    }
    assert forall|i: int| 0 <= i < log2.len() implies op_slots_ok(#[trigger] log2[i], n) by {
        if i < log.len() {
            assert(op_slots_ok(log[i], n));
        }
    }
    assert forall|i: int| 0 <= i < log2.len() implies ((#[trigger] log2[i])
        matches BackendOp::Submit { fence_slot, .. }
        ==> slot_phase(log2.take(i), fence_slot as int) is Cleared) by {
        assert(log2.take(i) =~= log.take(i));
        if i < log.len() {
            assert(log2[i] == log[i]);
        } else {
            assert(log.take(i) =~= log);
        }
    }
    assert forall|i: int| 0 <= i < log2.len() implies ((#[trigger] log2[i])
        matches BackendOp::ResetFence { slot }
        ==> slot_phase(log2.take(i), slot as int) is Waited) by {
        assert(log2.take(i) =~= log.take(i));
        if i < log.len() {
            assert(log2[i] == log[i]);
        } else {
            assert(log.take(i) =~= log);
        }
    }
    assert forall|i: int| 0 <= i < log2.len() implies ((#[trigger] log2[i])
        matches BackendOp::WaitForFence { slot }
        ==> (slot_phase(log2.take(i), slot as int) is Ready
            || slot_phase(log2.take(i), slot as int) is InFlight)) by {
        assert(log2.take(i) =~= log.take(i));
        if i < log.len() {
            assert(log2[i] == log[i]);
        } else {
            assert(log.take(i) =~= log);
        }
    }
}

/// A log of setup calls alone satisfies the fence discipline and leaves
/// every slot `Ready`.
pub proof fn lemma_all_inert(log: Seq<BackendOp>, n: int)
    requires
        all_inert(log),
    ensures
        fence_discipline(log, n),
        no_destroys(log),
        forall|s: int| #[trigger] slot_phase(log, s) is Ready,
    decreases log.len(),
{
    if log.len() > 0 {
        assert(all_inert(log.drop_last())) by {
            assert forall|i: int| 0 <= i < log.drop_last().len() implies inert_op(
                #[trigger] log.drop_last()[i],
            ) by {
                assert(log.drop_last()[i] == log[i]);
            }
        }
        lemma_all_inert(log.drop_last(), n);
        assert(inert_op(log.last()));
        assert forall|s: int| #[trigger] slot_phase(log, s) is Ready by {
            assert(slot_phase(log, s) == step_phase(slot_phase(log.drop_last(), s), log.last(), s));
        }
    }
    assert forall|i: int| 0 <= i < log.len() implies op_slots_ok(#[trigger] log[i], n) by {
        assert(inert_op(log[i]));
    }
    assert forall|i: int| 0 <= i < log.len() implies !((#[trigger] log[i]) is Submit) by {
        assert(inert_op(log[i]));
    }
    assert forall|i: int| 0 <= i < log.len() implies !((#[trigger] log[i]) is ResetFence) by {
        assert(inert_op(log[i]));
    }
    assert forall|i: int| 0 <= i < log.len() implies !((#[trigger] log[i]) is WaitForFence) by {
        assert(inert_op(log[i]));
    }
    assert forall|i: int| 0 <= i < log.len() implies !((#[trigger] log[i]) is Destroy) by {
        assert(inert_op(log[i]));
    }
}

/// How many of the given slots are in phase `InFlight`.
pub open spec fn count_in_flight(phases: Seq<SlotPhase>) -> int
    decreases phases.len(),
{
    if phases.len() == 0 {
        0
    } else {
        count_in_flight(phases.drop_last()) + if phases.last() is InFlight {
            1int
        } else {
            0int
        }
    }
}

/// The number of submissions in `log` whose completion has not yet been
/// observed: each submission raises it, the wait that retires the
/// submission lowers it, and a device-idle wait drains it.
pub open spec fn outstanding(log: Seq<BackendOp>) -> int
    decreases log.len(),
{
    if log.len() == 0 {
        0
    } else {
        let prev: int = outstanding(log.drop_last());
        match log.last() {
            BackendOp::Submit { .. } => prev + 1,
            BackendOp::WaitForFence { slot } => if slot_phase(
                log.drop_last(),
                slot as int,
            ) is InFlight {
                prev - 1
            } else {
                prev
            },
            BackendOp::WaitIdle => 0,
            _ => prev,
        }
    }
}

proof fn lemma_count_in_flight_bounds(phases: Seq<SlotPhase>)
    ensures
        0 <= count_in_flight(phases) <= phases.len(),
    decreases phases.len(),
{
    if phases.len() > 0 {
        lemma_count_in_flight_bounds(phases.drop_last());
    }
}

proof fn lemma_count_in_flight_none(phases: Seq<SlotPhase>)
    requires
        forall|s: int| 0 <= s < phases.len() ==> !((#[trigger] phases[s]) is InFlight),
    ensures
        count_in_flight(phases) == 0,
    decreases phases.len(),
{
    if phases.len() > 0 {
        assert forall|s: int| 0 <= s < phases.drop_last().len() implies !((
        #[trigger] phases.drop_last()[s]) is InFlight) by {
            assert(phases.drop_last()[s] == phases[s]);
        }
        lemma_count_in_flight_none(phases.drop_last());
        assert(!(phases.last() is InFlight));
    }
}

proof fn lemma_count_in_flight_update(phases: Seq<SlotPhase>, s: int, v: SlotPhase)
    requires
        0 <= s < phases.len(),
    ensures
        count_in_flight(phases.update(s, v)) == count_in_flight(phases) - (if phases[s] is InFlight {
            1int
        } else {
            0int
        }) + (if v is InFlight {
            1int
        } else {
            0int
        }),
    decreases phases.len(),
{
    let updated = phases.update(s, v);
    if s == phases.len() - 1 {
        assert(updated.drop_last() =~= phases.drop_last());
        assert(updated.last() == v);
        assert(phases.last() == phases[s]);
    } else {
        assert(updated.drop_last() =~= phases.drop_last().update(s, v));
        assert(updated.last() == phases.last());
        lemma_count_in_flight_update(phases.drop_last(), s, v);
        assert(phases.drop_last()[s] == phases[s]);
    }
}

/// The discipline of a log carries over to the log with its last
/// operation removed.
proof fn lemma_discipline_drop_last(log: Seq<BackendOp>, n: int)
    requires
        fence_discipline(log, n),
        log.len() > 0,
    ensures
        fence_discipline(log.drop_last(), n),
{
    let prefix = log.drop_last();
    assert forall|i: int| 0 <= i < prefix.len() implies op_slots_ok(#[trigger] prefix[i], n) by {
        assert(prefix[i] == log[i]);
        assert(op_slots_ok(log[i], n));
    }
    assert forall|i: int| 0 <= i < prefix.len() implies ((#[trigger] prefix[i])
        matches BackendOp::Submit { fence_slot, .. }
        ==> slot_phase(prefix.take(i), fence_slot as int) is Cleared) by {
        assert(prefix[i] == log[i]);
        assert(prefix.take(i) =~= log.take(i));
    }
    assert forall|i: int| 0 <= i < prefix.len() implies ((#[trigger] prefix[i])
        matches BackendOp::ResetFence { slot }
        ==> slot_phase(prefix.take(i), slot as int) is Waited) by {
        assert(prefix[i] == log[i]);
        assert(prefix.take(i) =~= log.take(i));
    }
    assert forall|i: int| 0 <= i < prefix.len() implies ((#[trigger] prefix[i])
        matches BackendOp::WaitForFence { slot }
        ==> (slot_phase(prefix.take(i), slot as int) is Ready
            || slot_phase(prefix.take(i), slot as int) is InFlight)) by {
        assert(prefix[i] == log[i]);
        assert(prefix.take(i) =~= log.take(i));
    }
}

/// Under the fence discipline, the outstanding-submission count of the log
/// equals the number of slots whose fence is in flight.
proof fn lemma_outstanding_counts_slots(log: Seq<BackendOp>, n: int)
    requires
        fence_discipline(log, n),
        0 <= n,
    ensures
        outstanding(log) == count_in_flight(phases_of(log, n)),
    decreases log.len(),
{
    if log.len() == 0 {
        assert forall|s: int| 0 <= s < phases_of(log, n).len() implies !((#[trigger] phases_of(
            log,
            n,
        )[s]) is InFlight) by {
            assert(phases_of(log, n)[s] == slot_phase(log, s));
        }
        lemma_count_in_flight_none(phases_of(log, n));
    } else {
        let prefix = log.drop_last();
        let op = log.last();
        let i: int = log.len() - 1;
        lemma_discipline_drop_last(log, n);
        lemma_outstanding_counts_slots(prefix, n);
        assert(log.take(i) =~= prefix);
        assert(log[i] == op);
        assert forall|s: int| #[trigger] slot_phase(log, s) == step_phase(
            slot_phase(prefix, s),
            op,
            s,
        ) by {
            assert(slot_phase(log, s) == step_phase(slot_phase(log.drop_last(), s), log.last(), s));
        }
        match op {
            BackendOp::Submit { fence_slot, .. } => {
                let t: int = fence_slot as int;
                assert(op_slots_ok(log[i], n));
                assert(slot_phase(prefix, t) is Cleared);
                assert(phases_of(log, n) =~= phases_of(prefix, n).update(t, SlotPhase::InFlight));
                lemma_count_in_flight_update(phases_of(prefix, n), t, SlotPhase::InFlight);
                assert(phases_of(prefix, n)[t] == slot_phase(prefix, t));
            },
            BackendOp::WaitForFence { slot } => {
                let t: int = slot as int;
                assert(op_slots_ok(log[i], n));
                assert(phases_of(log, n) =~= phases_of(prefix, n).update(t, SlotPhase::Waited));
                lemma_count_in_flight_update(phases_of(prefix, n), t, SlotPhase::Waited);
                assert(phases_of(prefix, n)[t] == slot_phase(prefix, t));
            },
            BackendOp::ResetFence { slot } => {
                let t: int = slot as int;
                assert(op_slots_ok(log[i], n));
                assert(slot_phase(prefix, t) is Waited);
                assert(phases_of(log, n) =~= phases_of(prefix, n).update(t, SlotPhase::Cleared));
                lemma_count_in_flight_update(phases_of(prefix, n), t, SlotPhase::Cleared);
                assert(phases_of(prefix, n)[t] == slot_phase(prefix, t));
            },
            BackendOp::WaitIdle => {
                assert forall|s: int| 0 <= s < phases_of(log, n).len() implies !((
                #[trigger] phases_of(log, n)[s]) is InFlight) by {
                    assert(phases_of(log, n)[s] == slot_phase(log, s));
                    assert(slot_phase(log, s) == step_phase(slot_phase(prefix, s), op, s));
                }
                lemma_count_in_flight_none(phases_of(log, n));
            },
            _ => {
                assert(phases_of(log, n) =~= phases_of(prefix, n));
            },
        }
    }
}

/// Bounded frames in flight: under the fence discipline with `n` frame
/// slots, never more than `n` submissions are outstanding without their
/// fence signal having been observed. Holds for every `n >= 1`.
pub proof fn lemma_bounded_in_flight(log: Seq<BackendOp>, n: int)
    requires
        1 <= n,
        fence_discipline(log, n),
    ensures
        0 <= outstanding(log) <= n,
{
    lemma_outstanding_counts_slots(log, n);
    lemma_count_in_flight_bounds(phases_of(log, n));
}

/// The fence discipline carries over to every prefix of the record.
pub proof fn lemma_discipline_prefix(log: Seq<BackendOp>, n: int, i: int)
    requires
        fence_discipline(log, n),
        0 <= i <= log.len(),
    ensures
        fence_discipline(log.take(i), n),
    decreases log.len() - i,
{
    if i == log.len() {
        assert(log.take(i) =~= log);
    } else {
        lemma_discipline_prefix(log, n, i + 1);
        lemma_take_unfold(log, i + 1);
        lemma_discipline_drop_last(log.take(i + 1), n);
    }
}

/// Bounded frames in flight at every instant: at each point of a
/// disciplined record, no more than `n` submissions are outstanding
/// without their fence signal having been observed.
pub proof fn lemma_bounded_in_flight_always(log: Seq<BackendOp>, n: int, i: int)
    requires
        1 <= n,
        fence_discipline(log, n),
        0 <= i <= log.len(),
    ensures
        0 <= outstanding(log.take(i)) <= n,
{
    lemma_discipline_prefix(log, n, i);
    lemma_bounded_in_flight(log.take(i), n);
}

proof fn lemma_take_unfold(log: Seq<BackendOp>, b: int)
    requires
        0 < b <= log.len(),
    ensures
        log.take(b).drop_last() == log.take(b - 1),
        log.take(b).last() == log[b - 1],
{
    assert(log.take(b).drop_last() =~= log.take(b - 1));
}

/// A slot that went from `InFlight` to `Cleared` was reset in between, and
/// the reset happened while the slot was `Waited`.
proof fn lemma_cleared_has_reset(log: Seq<BackendOp>, s: int, a: int, b: int)
    requires
        reset_safe(log),
        0 <= a < b <= log.len(),
        slot_phase(log.take(a), s) is InFlight,
        slot_phase(log.take(b), s) is Cleared,
    ensures
        exists|l: int|
            a <= l < b && ((#[trigger] log[l]) matches BackendOp::ResetFence { slot } && slot
                as int == s) && slot_phase(log.take(l), s) is Waited,
    decreases b,
{
    lemma_take_unfold(log, b);
    let opb = log[b - 1];
    assert(slot_phase(log.take(b), s) == step_phase(slot_phase(log.take(b - 1), s), opb, s));
    let reset_here = opb matches BackendOp::ResetFence { slot } && slot as int == s;
    if reset_here {
        assert(slot_phase(log.take(b - 1), s) is Waited);
        assert(a <= b - 1 < b && (log[b - 1] matches BackendOp::ResetFence { slot } && slot
            as int == s) && slot_phase(log.take(b - 1), s) is Waited);
    } else {
        assert(slot_phase(log.take(b - 1), s) is Cleared);
        if b - 1 == a {
            assert(false);
        } else {
            lemma_cleared_has_reset(log, s, a, b - 1);
        }
    }
}

/// A slot that went from `InFlight` to `Waited` had its fence waited on in
/// between.
proof fn lemma_waited_has_wait(log: Seq<BackendOp>, s: int, a: int, b: int)
    requires
        0 <= a < b <= log.len(),
        slot_phase(log.take(a), s) is InFlight,
        slot_phase(log.take(b), s) is Waited,
    ensures
        exists|k: int|
            a <= k < b && ((#[trigger] log[k]) matches BackendOp::WaitForFence { slot } && slot
                as int == s),
    decreases b,
{
    lemma_take_unfold(log, b);
    let opb = log[b - 1];
    assert(slot_phase(log.take(b), s) == step_phase(slot_phase(log.take(b - 1), s), opb, s));
    let wait_here = opb matches BackendOp::WaitForFence { slot } && slot as int == s;
    if wait_here {
        assert(a <= b - 1 < b && (log[b - 1] matches BackendOp::WaitForFence { slot } && slot
            as int == s));
    } else {
        assert(slot_phase(log.take(b - 1), s) is Waited);
        if b - 1 == a {
            assert(false);
        } else {
            lemma_waited_has_wait(log, s, a, b - 1);
        }
    }
}

/// Fence reuse safety: between two submissions fenced to the same slot,
/// that slot's fence is waited on and then reset — no submission ever
/// reuses a fence that was not reset after its previous use.
pub proof fn lemma_fence_reuse_safety(log: Seq<BackendOp>, n: int, s: int, i: int, j: int)
    requires
        fence_discipline(log, n),
        0 <= i < j < log.len(),
        log[i] matches BackendOp::Submit { fence_slot, .. } && fence_slot as int == s,
        log[j] matches BackendOp::Submit { fence_slot, .. } && fence_slot as int == s,
    ensures
        exists|k: int, l: int|
            i < k < l < j && ((#[trigger] log[k]) matches BackendOp::WaitForFence { slot } && slot
                as int == s) && ((#[trigger] log[l]) matches BackendOp::ResetFence { slot } && slot
                as int == s),
{
    assert(slot_phase(log.take(j), s) is Cleared);
    lemma_take_unfold(log, i + 1);
    assert(slot_phase(log.take(i + 1), s) == step_phase(slot_phase(log.take(i), s), log[i], s));
    assert(slot_phase(log.take(i + 1), s) is InFlight);
    if i + 1 == j {
        assert(false);
    }
    lemma_cleared_has_reset(log, s, i + 1, j);
    let l: int = choose|l: int|
        i + 1 <= l < j && ((#[trigger] log[l]) matches BackendOp::ResetFence { slot } && slot
            as int == s) && slot_phase(log.take(l), s) is Waited;
    if l == i + 1 {
        assert(false);
    }
    lemma_waited_has_wait(log, s, i + 1, l);
    let k: int = choose|k: int|
        i + 1 <= k < l && ((#[trigger] log[k]) matches BackendOp::WaitForFence { slot } && slot
            as int == s);
    assert(i < k < l < j && (log[k] matches BackendOp::WaitForFence { slot } && slot as int == s)
        && (log[l] matches BackendOp::ResetFence { slot } && slot as int == s));
}

} // verus!
