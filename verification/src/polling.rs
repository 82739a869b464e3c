//! What the poll loop asks for, answer by answer.
use vstd::prelude::*;

verus! {

use crate::blocks::{agrees, law_first_disagreement_decides};
use crate::chain::{answered, probes_of};
use crate::indexer::{
    last_restorable, masked, restorable, ErrorKind, SnapshotModel, StateModel,
};
use crate::laws::law_recovery_takes_the_latest;
use crate::ledger::{empty_ledger, Text};
use crate::poller::{
    in_window, law_window_keeps_the_latest, poll_step, ActionModel, PhaseModel, PollEvent,
    PollerModel,
};

/// The tip that an answer is about: the one that has come, or the one that was kept while
/// hashes were asked for.
pub open spec fn tip_in(p: PollerModel, event: PollEvent) -> u32 {
    match (p.phase, event) {
        (PhaseModel::Tip, PollEvent::Tip(Ok(tip))) => tip,
        (PhaseModel::Hashes { tip, .. }, _) => tip,
        _ => 0,
    }
}

/// The chain is known to agree with all that is recorded: there is nothing to compare, or
/// every hash that was asked for is the recorded one.
pub open spec fn chain_agrees(p: PollerModel, s: StateModel, event: PollEvent) -> bool {
    match (p.phase, event) {
        (PhaseModel::Tip, PollEvent::Tip(Ok(tip))) => probes_of(s.ledger).len() == 0 && tip
            >= s.ledger.height,
        (PhaseModel::Hashes { probes, .. }, PollEvent::Hashes(answers)) => forall|i: int|
            0 <= i < probes.len() ==> #[trigger] agrees(probes, answers@, i),
        _ => false,
    }
}

/// Where the chain agrees, every height above the indexed one is scanned up to the tip, or
/// from the activation height on where that is later. A chain without a new height, or one
/// that has not reached the activation height, has nothing to scan.
pub proof fn law_all_new_heights_are_scanned(
    p: PollerModel,
    s: StateModel,
    event: PollEvent,
    now: u64,
    nanos: u64,
)
    requires
        chain_agrees(p, s, event),
    ensures
        ({
            let step = poll_step(p, s, event, now, nanos);
            let tip = tip_in(p, event);
            let next = if s.ledger.height < 950_950 {
                950_950
            } else {
                s.ledger.height + 1
            };
            &&& step.state.ledger == s.ledger
            &&& step.state.snapshots == s.snapshots
            &&& tip > s.ledger.height && tip >= 950_950 ==> step.action == (ActionModel::Scan {
                from: next as u32,
                to: tip,
            }) && step.poller.phase == (PhaseModel::Scan { tip, from: next as u32 }) && step.state
                == s
            &&& tip > s.ledger.height && tip < 950_950 ==> step.action == (ActionModel::Finish {
                cadence: Some(p.fast_poll_secs),
            }) && step.state.tip_height == tip
            &&& tip <= s.ledger.height ==> step.action == (ActionModel::Finish {
                cadence: Some(p.normal_poll_secs),
            }) && step.state == s
        }),
{
    if let (PhaseModel::Hashes { probes, .. }, PollEvent::Hashes(answers)) = (p.phase, event) {
        law_first_disagreement_decides(probes, answers@, 0, probes.len() as int);
    }
}

/// A scan of new blocks that the machine asks for leaves no height out: it ends at the tip
/// and begins after the indexed height, or at the activation height where that is later.
pub proof fn law_scans_leave_no_height_out(
    p: PollerModel,
    s: StateModel,
    event: PollEvent,
    now: u64,
    nanos: u64,
    g: u32,
)
    requires
        p.phase is Tip || p.phase is Hashes,
    ensures
        poll_step(p, s, event, now, nanos).action matches ActionModel::Scan { from, to } ==> {
            &&& to == tip_in(p, event)
            &&& from <= g <= to <==> s.ledger.height < g && 950_950 <= g && g <= tip_in(p, event)
        },
{
}

/// A tip that is no lower than the indexed height has the recorded hashes asked for, each
/// of them, where there are any.
pub proof fn law_tip_has_the_recorded_hashes_asked_for(
    p: PollerModel,
    s: StateModel,
    tip: u32,
    now: u64,
    nanos: u64,
    i: int,
)
    requires
        p.phase is Tip,
        tip >= s.ledger.height,
        0 <= i < probes_of(s.ledger).len(),
    ensures
        ({
            let step = poll_step(p, s, PollEvent::Tip(Ok(tip)), now, nanos);
            &&& step.state == s
            &&& step.poller.phase == (PhaseModel::Hashes { tip, probes: probes_of(s.ledger) })
            &&& step.action matches ActionModel::AskHashes { heights } && heights.len()
                == probes_of(s.ledger).len() && heights[i] == probes_of(s.ledger)[i].0
        }),
{
}

/// A tip that could not be had, and a hash that could not be had before any difference was
/// found, end the iteration with an event and leave all else as it is.
pub proof fn law_missing_answers_end_the_iteration(
    p: PollerModel,
    s: StateModel,
    why: String,
    answers: Vec<Result<String, String>>,
    i: int,
    now: u64,
    nanos: u64,
)
    ensures
        p.phase is Tip ==> ({
            let step = poll_step(p, s, PollEvent::Tip(Err(why)), now, nanos);
            &&& step.action == (ActionModel::Finish { cadence: None })
            &&& step.state == (StateModel { recent_errors: step.state.recent_errors, ..s })
            &&& step.state.recent_errors.len() > 0
            &&& step.state.recent_errors.last().at == now
        }),
        p.phase matches PhaseModel::Hashes { tip, probes } && 0 <= i < probes.len() && (forall|
            j: int,
        |
            0 <= j < i ==> #[trigger] agrees(probes, answers@, j)) && (i >= answers@.len()
            || answers@[i] is Err) ==> ({
            let step = poll_step(p, s, PollEvent::Hashes(answers), now, nanos);
            &&& step.action == (ActionModel::Finish { cadence: None })
            &&& step.state == (StateModel { recent_errors: step.state.recent_errors, ..s })
            &&& step.state.recent_errors.len() > 0
            &&& step.state.recent_errors.last().at == now
        }),
{
    if let PhaseModel::Hashes { tip, probes } = p.phase {
        if 0 <= i < probes.len() && (forall|j: int|
            0 <= j < i ==> #[trigger] agrees(probes, answers@, j)) {
            law_first_disagreement_decides(probes, answers@, 0, i);
        }
    }
}

/// The first difference from the chain has the hashes at the snapshots' heights asked for,
/// unless it is the fifth reorganization within five minutes: that one pauses the loop for
/// ten minutes. The derived state stays as it is.
pub proof fn law_difference_is_followed_up(
    p: PollerModel,
    s: StateModel,
    answers: Vec<Result<String, String>>,
    i: int,
    now: u64,
    nanos: u64,
)
    requires
        p.phase is Hashes,
        0 <= i < p.phase->probes.len(),
        i < answers@.len(),
        forall|j: int| 0 <= j < i ==> #[trigger] agrees(p.phase->probes, answers@, j),
        answers@[i] is Ok,
        answers@[i]->Ok_0@ != p.phase->probes[i].1,
        forall|a: int, b: int|
            0 <= a <= b < p.recent_reorgs.len() ==> p.recent_reorgs[a] <= p.recent_reorgs[b],
        forall|a: int| 0 <= a < p.recent_reorgs.len() ==> p.recent_reorgs[a] <= nanos,
    ensures
        ({
            let step = poll_step(p, s, PollEvent::Hashes(answers), now, nanos);
            let storm = exists|k: int|
                0 <= k && k + 4 <= p.recent_reorgs.len() && nanos - (#[trigger] p.recent_reorgs[k])
                    <= 300_000_000_000;
            let heights = Seq::new(
                s.snapshots.len(),
                |k: int| s.snapshots[k].ledger.height,
            );
            &&& step.state.ledger == s.ledger
            &&& step.state.snapshots == s.snapshots
            &&& storm ==> step.action == (ActionModel::Sleep { secs: 600 })
            &&& !storm ==> step.state == s && step.action == (ActionModel::AskHashes { heights })
                && step.poller.phase == (PhaseModel::SnapshotHashes {
                tip: p.phase->Hashes_tip,
                divergence: p.phase->probes[i].0,
                heights,
            })
        }),
{
    let probes = p.phase->probes;
    law_first_disagreement_decides(probes, answers@, 0, i);
    law_window_keeps_the_latest(p.recent_reorgs, nanos);
    let kept = in_window(p.recent_reorgs, nanos);
    let dropped = p.recent_reorgs.len() - kept.len();
    if kept.len() >= 4 {
        assert(nanos - p.recent_reorgs[dropped] <= 300_000_000_000);
    }
    assert(s.snapshots.map_values(|x: SnapshotModel| x.ledger.height) =~= Seq::new(
        s.snapshots.len(),
        |k: int| s.snapshots[k].ledger.height,
    ));
}

/// The snapshot is below a divergence, or at height zero, and the chain has the hash that
/// it has for its own height.
pub open spec fn on_the_chain(x: SnapshotModel, at: u32, canonical: Map<u32, Text>) -> bool {
    let h = x.ledger.height;
    &&& h < at || h == 0
    &&& x.ledger.block_hashes.contains_key(h)
    &&& canonical.contains_key(h)
    &&& canonical[h] == x.ledger.block_hashes[h]
}

/// Recovery goes back to the latest snapshot that is on the chain and scans every height
/// after it, or from the activation height where that is later, up to the tip. Without
/// such a snapshot all is forgotten and scanned anew.
pub proof fn law_recovery_rebuilds_from_the_latest_snapshot(
    p: PollerModel,
    s: StateModel,
    answers: Vec<Result<String, String>>,
    i: int,
    now: u64,
    nanos: u64,
)
    requires
        p.phase is SnapshotHashes,
        p.phase->SnapshotHashes_tip >= 950_950,
        forall|k: int| 0 <= k < s.snapshots.len() ==> (#[trigger] s.snapshots[k]).ledger.height < u32::MAX,
    ensures
        ({
            let step = poll_step(p, s, PollEvent::Hashes(answers), now, nanos);
            let tip = p.phase->SnapshotHashes_tip;
            let at = p.phase->divergence;
            let heights = p.phase->heights;
            let canonical = answered(heights, answers@, heights.len() as int);
            &&& step.poller.phase == (PhaseModel::Rebuild { tip })
            &&& 0 <= i < s.snapshots.len() && on_the_chain(s.snapshots[i], at, canonical) && (forall|
                k: int,
            |
                i < k < s.snapshots.len() ==> !on_the_chain(#[trigger] s.snapshots[k], at, canonical))
                ==> {
                let after = if s.snapshots[i].ledger.height < 950_950 {
                    950_950int
                } else {
                    s.snapshots[i].ledger.height + 1
                };
                &&& step.state.ledger == s.snapshots[i].ledger
                &&& step.state.snapshots == s.snapshots.take(i)
                &&& step.action == (ActionModel::Scan {
                    from: (if after < tip {
                        after
                    } else {
                        tip as int
                    }) as u32,
                    to: tip,
                })
            }
            &&& (forall|k: int|
                0 <= k < s.snapshots.len() ==> !on_the_chain(#[trigger] s.snapshots[k], at, canonical))
                ==> {
                &&& step.state.ledger == empty_ledger()
                &&& step.action == (ActionModel::Scan { from: 950_950, to: tip })
            }
            &&& step.state.recent_errors == s.recent_errors
            &&& step.state.tip_height == s.tip_height
        }),
{
    let at = p.phase->divergence;
    let heights = p.phase->heights;
    let canonical = answered(heights, answers@, heights.len() as int);
    let cutoff = if at == 0 {
        0u32
    } else {
        (at - 1) as u32
    };
    assert forall|x: SnapshotModel| #[trigger]
        restorable(x, cutoff, canonical) == on_the_chain(x, at, canonical) by {}
    law_recovery_takes_the_latest(s.snapshots, cutoff, canonical);
    if 0 <= i < s.snapshots.len() && on_the_chain(s.snapshots[i], at, canonical) && (forall|k: int|
        i < k < s.snapshots.len() ==> !on_the_chain(#[trigger] s.snapshots[k], at, canonical)) {
        assert(restorable(s.snapshots[i], cutoff, canonical));
        let j = last_restorable(s.snapshots, cutoff, canonical)->0;
        assert(restorable(s.snapshots[j], cutoff, canonical));
        assert(j == i);
    }
}

/// A scan of new blocks that has ended has the tip noted and the state persisted, and one
/// that failed leaves an event too. After a rebuild the tip is noted and the iteration
/// ends. Neither touches the derived state.
pub proof fn law_scans_are_followed_by_persisting(
    p: PollerModel,
    s: StateModel,
    outcome: Result<(), String>,
    now: u64,
    nanos: u64,
)
    ensures
        ({
            let step = poll_step(p, s, PollEvent::Scanned(outcome), now, nanos);
            &&& step.state.ledger == s.ledger
            &&& step.state.snapshots == s.snapshots
            &&& p.phase matches PhaseModel::Scan { tip, from } ==> {
                &&& step.action == ActionModel::Persist
                &&& step.poller.phase == (PhaseModel::Persist { tip })
                &&& step.state.tip_height == tip
                &&& outcome is Ok ==> step.state.recent_errors == s.recent_errors
                &&& outcome is Err ==> step.state.recent_errors.len() > 0
                    && step.state.recent_errors.last().at == now
                    && step.state.recent_errors.last().height == Some(from)
            }
            &&& p.phase matches PhaseModel::Rebuild { tip } ==> {
                &&& step.action == (ActionModel::Finish { cadence: None })
                &&& step.state.tip_height == tip
                &&& step.state.recent_errors == s.recent_errors
            }
        }),
{
}

/// An event says what happened and where: a tip below the indexed height by that tip, a
/// storm of reorganizations by the height of the last, a failed request without a height.
/// A failure is quoted without its secrets, in 220 characters at most.
pub proof fn law_events_say_what_happened(
    p: PollerModel,
    s: StateModel,
    tip: u32,
    why: String,
    answers: Vec<Result<String, String>>,
    now: u64,
    nanos: u64,
)
    ensures
        p.phase is Tip && tip < s.ledger.height ==> ({
            let e = poll_step(p, s, PollEvent::Tip(Ok(tip)), now, nanos).state.recent_errors.last();
            e.kind == ErrorKind::TipRegress && e.height == Some(tip) && e.at == now
        }),
        p.phase is Tip ==> ({
            let e = poll_step(p, s, PollEvent::Tip(Err(why)), now, nanos).state.recent_errors.last();
            let whole = "tip poll failed (Bitcoin Core unreachable?): "@ + masked(why@);
            &&& e.kind == ErrorKind::Network
            &&& e.height is None
            &&& e.detail.len() <= 220
            &&& whole.len() <= 220 ==> e.detail == whole
            &&& whole.len() > 220 ==> e.detail == whole.subrange(0, 220)
        }),
        p.phase is Hashes ==> ({
            let step = poll_step(p, s, PollEvent::Hashes(answers), now, nanos);
            step.action is Sleep ==> step.state.recent_errors.last().kind == ErrorKind::ReorgStorm
                && step.state.recent_errors.last().at == now
        }),
{
}

} // verus!
