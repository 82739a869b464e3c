//! The poll loop as a state machine.
//!
//! `Poller::step` takes what came of the last action and says what to do next. Whoever
//! runs the loop asks the node, sleeps and writes to disk; every decision is made here.
use std::collections::VecDeque;
use vstd::prelude::*;

use crate::chain::{canonical_hashes, first_divergence, reorg_probes, snapshot_heights};
use crate::indexer::{mask_secrets, ErrorEvent, ErrorKind, IndexerState};
use crate::protocol::LCKPROTOCOL_START_HEIGHT;
use crate::text::{chars_of, push_decimal, text_of};

verus! {

use crate::chain::{answered, divergence, probes_of, probes_view};
use crate::heights::hashes_of;
use crate::indexer::{
    last_restorable, masked, restorable, ring_push, ErrorModel, SnapshotModel, StateModel, MAX_RECENT_ERRORS,
    SNAPSHOT_VERSION,
};
use crate::laws::law_recovery_takes_the_latest;
use crate::ledger::{empty_ledger, minus, Text};
use crate::text::decimal;

/// How many reorganizations within the window pause the loop.
pub const REORG_STORM_THRESHOLD: usize = 5;

/// The window in nanoseconds: five minutes.
pub const REORG_STORM_WINDOW_NANOS: u64 = 300_000_000_000;

/// The pause after too many reorganizations, in seconds.
pub const REORG_STORM_COOLDOWN_SECS: u64 = 600;

/// Seconds after which an iteration of the poll loop is given up.
pub const POLL_ITER_WATCHDOG_SECS: u64 = 120;

/// Seconds between polls while behind the tip.
pub const FAST_POLL_SECS: u64 = 5;

/// The first pause in milliseconds before the tip is asked for again at start.
pub const FIRST_RETRY_DELAY_MS: u64 = 1_000;

/// The longest such pause.
pub const MAX_RETRY_DELAY_MS: u64 = 30_000;

/// Longest detail of an event that quotes an error.
pub const MAX_DETAIL_CHARS: usize = 220;

// ---------------------------------------------------------------------------
// Diagnostic events.
// ---------------------------------------------------------------------------

/// The first characters of a text, as many as a detail may have.
pub open spec fn clipped(s: Text) -> Text {
    if s.len() > MAX_DETAIL_CHARS {
        s.take(MAX_DETAIL_CHARS as int)
    } else {
        s
    }
}

/// An event of kind `Network` that quotes an error without its secrets.
pub open spec fn quoting_event(prefix: Text, why: Text, height: Option<u32>, now: u64) -> ErrorModel {
    ErrorModel {
        at: now,
        kind: ErrorKind::Network,
        host: None,
        height,
        detail: clipped(prefix + masked(why)),
    }
}

/// The tip could not be had.
pub open spec fn tip_failed(why: Text, now: u64) -> ErrorModel {
    quoting_event("tip poll failed (Bitcoin Core unreachable?): "@, why, None, now)
}

/// A hash to compare could not be had.
pub open spec fn probe_failed(why: Text, now: u64) -> ErrorModel {
    quoting_event("reorg-detection probe failed: "@, why, None, now)
}

/// Blocks could not be taken in.
pub open spec fn scan_failed(from: u32, why: Text, now: u64) -> ErrorModel {
    quoting_event(
        "backfill failed at height "@ + decimal(from as nat) + ": "@,
        why,
        Some(from),
        now,
    )
}

/// The node's tip is below the indexed height.
pub open spec fn tip_regressed(tip: u32, indexed: u32, now: u64) -> ErrorModel {
    ErrorModel {
        at: now,
        kind: ErrorKind::TipRegress,
        host: None,
        height: Some(tip),
        detail: "Core returned tip="@ + decimal(tip as nat) + " below our indexed_height="@ + decimal(
            indexed as nat,
        ) + "; skipping (no rewind)"@,
    }
}

/// There were too many reorganizations.
pub open spec fn storm_event(count: nat, at_height: u32, now: u64) -> ErrorModel {
    ErrorModel {
        at: now,
        kind: ErrorKind::ReorgStorm,
        host: None,
        height: Some(at_height),
        detail: "reorg-storm circuit breaker tripped ("@ + decimal(count)
            + " reorgs in window); cooling down "@ + decimal(REORG_STORM_COOLDOWN_SECS as nat) + "s"@,
    }
}

/// An iteration took too long.
pub open spec fn watchdog_event(now: u64) -> ErrorModel {
    ErrorModel {
        at: now,
        kind: ErrorKind::Network,
        host: None,
        height: None,
        detail: "poll iteration wedged past "@ + decimal(POLL_ITER_WATCHDOG_SECS as nat)
            + "s watchdog (likely Bitcoin Core RPC hang); cancelled and resuming."@,
    }
}

/// A state with one more event.
pub open spec fn with_event(s: StateModel, e: ErrorModel) -> StateModel {
    StateModel { recent_errors: ring_push(s.recent_errors, MAX_RECENT_ERRORS as nat, e), ..s }
}

fn quote(prefix: String, why: &str, height: Option<u32>, now: u64) -> (r: ErrorEvent)
    ensures
        r@ == quoting_event(prefix@, why@, height, now),
{
    let mut full = prefix;
    full.append(&mask_secrets(why));
    let chars = chars_of(&full);
    let detail = if chars.len() > MAX_DETAIL_CHARS {
        let part = vstd::slice::slice_subrange(chars.as_slice(), 0, MAX_DETAIL_CHARS);
        assert(part@ =~= full@.take(MAX_DETAIL_CHARS as int));
        text_of(part)
    } else {
        full
    };
    ErrorEvent { at: now, kind: ErrorKind::Network, host: None, height, detail }
}

fn tip_regressed_event(tip: u32, indexed: u32, now: u64) -> (r: ErrorEvent)
    ensures
        r@ == tip_regressed(tip, indexed, now),
{
    let mut detail = "Core returned tip=".to_owned();
    push_decimal(&mut detail, tip as u64);
    detail.append(" below our indexed_height=");
    push_decimal(&mut detail, indexed as u64);
    detail.append("; skipping (no rewind)");
    ErrorEvent { at: now, kind: ErrorKind::TipRegress, host: None, height: Some(tip), detail }
}

fn reorg_storm_event(count: usize, at_height: u32, now: u64) -> (r: ErrorEvent)
    ensures
        r@ == storm_event(count as nat, at_height, now),
{
    let mut detail = "reorg-storm circuit breaker tripped (".to_owned();
    push_decimal(&mut detail, count as u64);
    detail.append(" reorgs in window); cooling down ");
    push_decimal(&mut detail, REORG_STORM_COOLDOWN_SECS);
    detail.append("s");
    ErrorEvent { at: now, kind: ErrorKind::ReorgStorm, host: None, height: Some(at_height), detail }
}

fn watchdog_error_event(now: u64) -> (r: ErrorEvent)
    ensures
        r@ == watchdog_event(now),
{
    let mut detail = "poll iteration wedged past ".to_owned();
    push_decimal(&mut detail, POLL_ITER_WATCHDOG_SECS);
    detail.append("s watchdog (likely Bitcoin Core RPC hang); cancelled and resuming.");
    ErrorEvent { at: now, kind: ErrorKind::Network, host: None, height: None, detail }
}

// ---------------------------------------------------------------------------
// The machine.
// ---------------------------------------------------------------------------

/// What the machine waits for.
pub enum Phase {
    /// Nothing: no iteration is under way.
    Idle,
    /// The tip height.
    Tip,
    /// The chain's hashes at the heights of `probes`.
    Hashes { tip: u32, probes: Vec<(u32, String)> },
    /// The end of the pause after too many reorganizations.
    Cooldown,
    /// The chain's hashes at the heights of the snapshots.
    SnapshotHashes { tip: u32, divergence: u32, heights: Vec<u32> },
    /// The end of the scan after a reorganization.
    Rebuild { tip: u32 },
    /// The end of a scan of new blocks.
    Scan { tip: u32, from: u32 },
    /// The state on disk.
    Persist { tip: u32 },
}

/// What the machine waits for, with its texts as characters.
pub ghost enum PhaseModel {
    Idle,
    Tip,
    Hashes { tip: u32, probes: Seq<(u32, Text)> },
    Cooldown,
    SnapshotHashes { tip: u32, divergence: u32, heights: Seq<u32> },
    Rebuild { tip: u32 },
    Scan { tip: u32, from: u32 },
    Persist { tip: u32 },
}

impl View for Phase {
    type V = PhaseModel;

    open spec fn view(&self) -> PhaseModel {
        match *self {
            Phase::Idle => PhaseModel::Idle,
            Phase::Tip => PhaseModel::Tip,
            Phase::Hashes { tip, probes } => PhaseModel::Hashes {
                tip,
                probes: probes_view(probes@),
            },
            Phase::Cooldown => PhaseModel::Cooldown,
            Phase::SnapshotHashes { tip, divergence, heights } => PhaseModel::SnapshotHashes {
                tip,
                divergence,
                heights: heights@,
            },
            Phase::Rebuild { tip } => PhaseModel::Rebuild { tip },
            Phase::Scan { tip, from } => PhaseModel::Scan { tip, from },
            Phase::Persist { tip } => PhaseModel::Persist { tip },
        }
    }
}

/// What came of the last action.
#[derive(Debug)]
pub enum PollEvent {
    /// The tip height, or why there is none.
    Tip(Result<u32, String>),
    /// The hashes that were asked for, each or why there is none.
    Hashes(Vec<Result<String, String>>),
    /// The scan ended, of itself or with an error.
    Scanned(Result<(), String>),
    /// The pause is over, or the state is on disk.
    Resumed,
}

/// What to do next.
#[derive(Debug, PartialEq, Eq)]
pub enum PollAction {
    /// Ask the node for its tip height.
    AskTip,
    /// Ask the node for the hashes at these heights.
    AskHashes { heights: Vec<u32> },
    /// Take in the blocks of these heights, in order, until one cannot be had.
    Scan { from: u32, to: u32 },
    /// Pause.
    Sleep { secs: u64 },
    /// Write the state to disk.
    Persist,
    /// The iteration is over. The seconds until the next one, where they change.
    Finish { cadence: Option<u64> },
}

/// What to do next, with its lists as sequences.
pub ghost enum ActionModel {
    AskTip,
    AskHashes { heights: Seq<u32> },
    Scan { from: u32, to: u32 },
    Sleep { secs: u64 },
    Persist,
    Finish { cadence: Option<u64> },
}

impl View for PollAction {
    type V = ActionModel;

    open spec fn view(&self) -> ActionModel {
        match *self {
            PollAction::AskTip => ActionModel::AskTip,
            PollAction::AskHashes { heights } => ActionModel::AskHashes { heights: heights@ },
            PollAction::Scan { from, to } => ActionModel::Scan { from, to },
            PollAction::Sleep { secs } => ActionModel::Sleep { secs },
            PollAction::Persist => ActionModel::Persist,
            PollAction::Finish { cadence } => ActionModel::Finish { cadence },
        }
    }
}

/// The poll loop's own state.
pub struct Poller {
    phase: Phase,
    /// When the last reorganizations were found, in nanoseconds, oldest first.
    recent_reorgs: VecDeque<u64>,
    normal_poll_secs: u64,
    fast_poll_secs: u64,
}

/// What the poll loop's own state holds.
#[verifier::ext_equal]
pub ghost struct PollerModel {
    pub phase: PhaseModel,
    pub recent_reorgs: Seq<u64>,
    pub normal_poll_secs: u64,
    pub fast_poll_secs: u64,
}

impl View for Poller {
    type V = PollerModel;

    closed spec fn view(&self) -> PollerModel {
        PollerModel {
            phase: self.phase@,
            recent_reorgs: self.recent_reorgs@,
            normal_poll_secs: self.normal_poll_secs,
            fast_poll_secs: self.fast_poll_secs,
        }
    }
}

/// The machine, the indexer's state and the next action.
#[verifier::ext_equal]
pub ghost struct Step {
    pub poller: PollerModel,
    pub state: StateModel,
    pub action: ActionModel,
}

/// The iteration ends.
pub open spec fn finish(p: PollerModel, s: StateModel, cadence: Option<u64>) -> Step {
    Step {
        poller: PollerModel { phase: PhaseModel::Idle, ..p },
        state: s,
        action: ActionModel::Finish { cadence },
    }
}

/// The machine waits for what an action brings.
pub open spec fn await_in(p: PollerModel, s: StateModel, phase: PhaseModel, action: ActionModel) -> Step {
    Step { poller: PollerModel { phase, ..p }, state: s, action }
}

/// The seconds until the next iteration: few while behind the tip.
pub open spec fn cadence_for(p: PollerModel, indexed: u32, tip: u32) -> u64 {
    if indexed < tip {
        p.fast_poll_secs
    } else {
        p.normal_poll_secs
    }
}

/// The height itself, but not below the activation height: the blocks before that are
/// never scanned.
pub open spec fn not_before_activation(h: u32) -> u32 {
    if h < LCKPROTOCOL_START_HEIGHT {
        LCKPROTOCOL_START_HEIGHT
    } else {
        h
    }
}

/// The chain agrees with what is recorded: new blocks are scanned, if there are any. A
/// chain that has not reached the activation height has none to scan.
pub open spec fn proceed(p: PollerModel, s: StateModel, tip: u32) -> Step {
    if tip <= s.ledger.height {
        finish(p, s, Some(cadence_for(p, s.ledger.height, tip)))
    } else if tip < LCKPROTOCOL_START_HEIGHT {
        finish(
            p,
            StateModel { tip_height: tip, ..s },
            Some(cadence_for(p, s.ledger.height, tip)),
        )
    } else {
        let from = not_before_activation((s.ledger.height + 1) as u32);
        await_in(p, s, PhaseModel::Scan { tip, from }, ActionModel::Scan { from, to: tip })
    }
}

/// The heights of probes.
pub open spec fn probe_heights(probes: Seq<(u32, Text)>) -> Seq<u32> {
    probes.map_values(|p: (u32, Text)| p.0)
}

/// The tip has come. One below the indexed height is not believed: nothing is rewound.
pub open spec fn tip_step(
    p: PollerModel,
    s: StateModel,
    tip: Result<u32, String>,
    now: u64,
) -> Step {
    match tip {
        Err(why) => finish(p, with_event(s, tip_failed(why@, now)), None),
        Ok(tip) => if tip < s.ledger.height {
            finish(p, with_event(s, tip_regressed(tip, s.ledger.height, now)), None)
        } else if probes_of(s.ledger).len() == 0 {
            proceed(p, s, tip)
        } else {
            await_in(
                p,
                s,
                PhaseModel::Hashes { tip, probes: probes_of(s.ledger) },
                ActionModel::AskHashes { heights: probe_heights(probes_of(s.ledger)) },
            )
        },
    }
}

/// The reorganizations that are still in the window.
pub open spec fn in_window(reorgs: Seq<u64>, nanos: u64) -> Seq<u64>
    decreases reorgs.len(),
{
    if reorgs.len() > 0 && minus(nanos, reorgs[0]) > REORG_STORM_WINDOW_NANOS {
        in_window(reorgs.skip(1), nanos)
    } else {
        reorgs
    }
}

/// A reorganization was found at `at_height`. Too many within the window pause the loop;
/// otherwise the snapshots are held against the chain.
pub open spec fn reorg_step(
    p: PollerModel,
    s: StateModel,
    tip: u32,
    at_height: u32,
    now: u64,
    nanos: u64,
) -> Step {
    let reorgs = in_window(p.recent_reorgs, nanos).push(nanos);
    if reorgs.len() >= REORG_STORM_THRESHOLD {
        await_in(
            PollerModel { recent_reorgs: Seq::empty(), ..p },
            with_event(s, storm_event(reorgs.len(), at_height, now)),
            PhaseModel::Cooldown,
            ActionModel::Sleep { secs: REORG_STORM_COOLDOWN_SECS },
        )
    } else {
        let heights = s.snapshots.map_values(|x: SnapshotModel| x.ledger.height);
        await_in(
            PollerModel { recent_reorgs: reorgs, ..p },
            s,
            PhaseModel::SnapshotHashes { tip, divergence: at_height, heights },
            ActionModel::AskHashes { heights },
        )
    }
}

/// The chain's hashes have come.
pub open spec fn hashes_step(
    p: PollerModel,
    s: StateModel,
    tip: u32,
    probes: Seq<(u32, Text)>,
    answers: Seq<Result<String, String>>,
    now: u64,
    nanos: u64,
) -> Step {
    match divergence(probes, answers, 0) {
        Err(why) => finish(p, with_event(s, probe_failed(why, now)), None),
        Ok(None) => proceed(p, s, tip),
        Ok(Some(h)) => reorg_step(p, s, tip, h, now, nanos),
    }
}

/// The state gone back to before a divergence, and the height to scan from: after the
/// last snapshot that is still on the chain, or from the start with everything forgotten.
pub open spec fn recovered(s: StateModel, at_height: u32, canonical: Map<u32, Text>) -> (StateModel, u32) {
    let cutoff = if at_height == 0 {
        0u32
    } else {
        (at_height - 1) as u32
    };
    match last_restorable(s.snapshots, cutoff, canonical) {
        Some(i) => (
            StateModel {
                ledger: s.snapshots[i].ledger,
                snapshots: s.snapshots.take(i),
                ..s
            },
            (s.snapshots[i].ledger.height + 1) as u32,
        ),
        None => (
            StateModel {
                ledger: empty_ledger(),
                snapshots: seq![SnapshotModel { version: SNAPSHOT_VERSION, ledger: empty_ledger() }],
                ..s
            },
            LCKPROTOCOL_START_HEIGHT,
        ),
    }
}

/// The hashes at the snapshots' heights have come: the state goes back and is rebuilt,
/// where the chain has reached the activation height.
pub open spec fn recovery_step(
    p: PollerModel,
    s: StateModel,
    tip: u32,
    at_height: u32,
    heights: Seq<u32>,
    answers: Seq<Result<String, String>>,
) -> Step {
    let back = recovered(s, at_height, answered(heights, answers, heights.len() as int));
    let after = not_before_activation(back.1);
    let from = if after < tip {
        after
    } else {
        tip
    };
    if tip < LCKPROTOCOL_START_HEIGHT {
        finish(p, StateModel { tip_height: tip, ..back.0 }, None)
    } else {
        await_in(p, back.0, PhaseModel::Rebuild { tip }, ActionModel::Scan { from, to: tip })
    }
}

/// A scan of new blocks has ended.
pub open spec fn scanned_step(
    p: PollerModel,
    s: StateModel,
    tip: u32,
    from: u32,
    outcome: Result<(), String>,
    now: u64,
) -> Step {
    let noted = match outcome {
        Ok(_) => s,
        Err(why) => with_event(s, scan_failed(from, why@, now)),
    };
    await_in(
        p,
        StateModel { tip_height: tip, ..noted },
        PhaseModel::Persist { tip },
        ActionModel::Persist,
    )
}

/// What follows on an event. One that is not waited for ends the iteration.
pub open spec fn poll_step(
    p: PollerModel,
    s: StateModel,
    event: PollEvent,
    now: u64,
    nanos: u64,
) -> Step {
    match (p.phase, event) {
        (PhaseModel::Tip, PollEvent::Tip(tip)) => tip_step(p, s, tip, now),
        (PhaseModel::Hashes { tip, probes }, PollEvent::Hashes(answers)) => hashes_step(
            p,
            s,
            tip,
            probes,
            answers@,
            now,
            nanos,
        ),
        (
            PhaseModel::SnapshotHashes { tip, divergence, heights },
            PollEvent::Hashes(answers),
        ) => recovery_step(p, s, tip, divergence, heights, answers@),
        (PhaseModel::Rebuild { tip }, PollEvent::Scanned(_)) => finish(
            p,
            StateModel { tip_height: tip, ..s },
            None,
        ),
        (PhaseModel::Scan { tip, from }, PollEvent::Scanned(outcome)) => scanned_step(
            p,
            s,
            tip,
            from,
            outcome,
            now,
        ),
        (PhaseModel::Persist { tip }, PollEvent::Resumed) => finish(
            p,
            s,
            Some(cadence_for(p, s.ledger.height, tip)),
        ),
        _ => finish(p, s, None),
    }
}

impl Poller {
    /// A poll loop that waits `poll_secs` between iterations once it has caught up.
    pub fn new(poll_secs: u64) -> (r: Self)
        ensures
            r@ == (PollerModel {
                phase: PhaseModel::Idle,
                recent_reorgs: Seq::empty(),
                normal_poll_secs: poll_secs,
                fast_poll_secs: FAST_POLL_SECS,
            }),
    {
        Poller {
            phase: Phase::Idle,
            recent_reorgs: VecDeque::new(),
            normal_poll_secs: poll_secs,
            fast_poll_secs: FAST_POLL_SECS,
        }
    }

    /// Begins an iteration. One that was under way is given up.
    pub fn start(&mut self) -> (r: PollAction)
        ensures
            r@ == ActionModel::AskTip,
            final(self)@ == (PollerModel { phase: PhaseModel::Tip, ..old(self)@ }),
    {
        self.phase = Phase::Tip;
        PollAction::AskTip
    }

    /// Takes in what came of the last action and says what to do next. `now` is the time
    /// in Unix seconds, `nanos` a time that never runs backwards.
    pub fn step(
        &mut self,
        state: &mut IndexerState,
        event: PollEvent,
        now: u64,
        nanos: u64,
    ) -> (r: PollAction)
        ensures
            (Step { poller: final(self)@, state: final(state)@, action: r@ }) == poll_step(
                old(self)@,
                old(state)@,
                event,
                now,
                nanos,
            ),
    {
        let mut phase = Phase::Idle;
        std::mem::swap(&mut self.phase, &mut phase);
        match (phase, event) {
            (Phase::Tip, PollEvent::Tip(tip)) => self.on_tip(state, tip, now),
            (Phase::Hashes { tip, probes }, PollEvent::Hashes(answers)) => {
                self.on_hashes(state, tip, probes, answers, now, nanos)
            },
            (Phase::SnapshotHashes { tip, divergence, heights }, PollEvent::Hashes(answers)) => {
                self.on_snapshot_hashes(state, tip, divergence, heights, answers)
            },
            (Phase::Rebuild { tip }, PollEvent::Scanned(_)) => {
                state.tip_height = tip;
                PollAction::Finish { cadence: None }
            },
            (Phase::Scan { tip, from }, PollEvent::Scanned(outcome)) => {
                self.on_scanned(state, tip, from, outcome, now)
            },
            (Phase::Persist { tip }, PollEvent::Resumed) => {
                PollAction::Finish { cadence: Some(self.cadence(state.indexed_height, tip)) }
            },
            _ => PollAction::Finish { cadence: None },
        }
    }

    fn cadence(&self, indexed: u32, tip: u32) -> (r: u64)
        ensures
            r == cadence_for(self@, indexed, tip),
    {
        if indexed < tip {
            self.fast_poll_secs
        } else {
            self.normal_poll_secs
        }
    }

    fn go_on(&mut self, state: &mut IndexerState, tip: u32) -> (r: PollAction)
        requires
            old(self)@.phase is Idle,
        ensures
            (Step { poller: final(self)@, state: final(state)@, action: r@ }) == proceed(
                old(self)@,
                old(state)@,
                tip,
            ),
    {
        let last: u32 = state.indexed_height;
        if tip <= last {
            return PollAction::Finish { cadence: Some(self.cadence(last, tip)) };
        }
        if tip < LCKPROTOCOL_START_HEIGHT {
            state.tip_height = tip;
            return PollAction::Finish { cadence: Some(self.cadence(last, tip)) };
        }
        let from: u32 = at_least_activation(last + 1);
        self.phase = Phase::Scan { tip, from };
        PollAction::Scan { from, to: tip }
    }

    fn on_tip(&mut self, state: &mut IndexerState, tip: Result<u32, String>, now: u64) -> (r:
        PollAction)
        requires
            old(self)@.phase is Idle,
        ensures
            (Step { poller: final(self)@, state: final(state)@, action: r@ }) == tip_step(
                old(self)@,
                old(state)@,
                tip,
                now,
            ),
    {
        let tip: u32 = match tip {
            Ok(tip) => tip,
            Err(why) => {
                state.push_error(
                    quote(
                        "tip poll failed (Bitcoin Core unreachable?): ".to_owned(),
                        &why,
                        None,
                        now,
                    ),
                );
                return PollAction::Finish { cadence: None };
            },
        };
        let indexed: u32 = state.indexed_height;
        if tip < indexed {
            state.push_error(tip_regressed_event(tip, indexed, now));
            return PollAction::Finish { cadence: None };
        }
        let probes = reorg_probes(state);
        assert(probes_view(probes@).len() == probes@.len());
        if probes.len() == 0 {
            return self.go_on(state, tip);
        }
        let heights = heights_of(&probes);
        self.phase = Phase::Hashes { tip, probes };
        PollAction::AskHashes { heights }
    }

    /// Notes a reorganization and returns how many there are in the window.
    fn note_reorg(&mut self, nanos: u64) -> (n: usize)
        ensures
            final(self)@ == (PollerModel {
                recent_reorgs: in_window(old(self)@.recent_reorgs, nanos).push(nanos),
                ..old(self)@
            }),
            n == final(self)@.recent_reorgs.len(),
    {
        let ghost all = self.recent_reorgs@;
        while self.recent_reorgs.len() > 0 && nanos.saturating_sub(self.recent_reorgs[0])
            > REORG_STORM_WINDOW_NANOS
            invariant
                in_window(self.recent_reorgs@, nanos) == in_window(all, nanos),
                self@ == (PollerModel { recent_reorgs: self.recent_reorgs@, ..old(self)@ }),
            decreases self.recent_reorgs@.len(),
        {
            let ghost before = self.recent_reorgs@;
            self.recent_reorgs.pop_front();
            assert(self.recent_reorgs@ =~= before.skip(1));
        }
        self.recent_reorgs.push_back(nanos);
        self.recent_reorgs.len()
    }

    fn on_reorg(
        &mut self,
        state: &mut IndexerState,
        tip: u32,
        at_height: u32,
        now: u64,
        nanos: u64,
    ) -> (r: PollAction)
        requires
            old(self)@.phase is Idle,
        ensures
            (Step { poller: final(self)@, state: final(state)@, action: r@ }) == reorg_step(
                old(self)@,
                old(state)@,
                tip,
                at_height,
                now,
                nanos,
            ),
    {
        let count: usize = self.note_reorg(nanos);
        if count >= REORG_STORM_THRESHOLD {
            state.push_error(reorg_storm_event(count, at_height, now));
            self.recent_reorgs.clear();
            self.phase = Phase::Cooldown;
            PollAction::Sleep { secs: REORG_STORM_COOLDOWN_SECS }
        } else {
            let heights = snapshot_heights(state);
            let asked = snapshot_heights(state);
            self.phase = Phase::SnapshotHashes { tip, divergence: at_height, heights };
            PollAction::AskHashes { heights: asked }
        }
    }

    fn on_hashes(
        &mut self,
        state: &mut IndexerState,
        tip: u32,
        probes: Vec<(u32, String)>,
        answers: Vec<Result<String, String>>,
        now: u64,
        nanos: u64,
    ) -> (r: PollAction)
        requires
            old(self)@.phase is Idle,
        ensures
            (Step { poller: final(self)@, state: final(state)@, action: r@ }) == hashes_step(
                old(self)@,
                old(state)@,
                tip,
                probes_view(probes@),
                answers@,
                now,
                nanos,
            ),
    {
        match first_divergence(&probes, &answers) {
            Err(why) => {
                state.push_error(
                    quote("reorg-detection probe failed: ".to_owned(), &why, None, now),
                );
                PollAction::Finish { cadence: None }
            },
            Ok(None) => self.go_on(state, tip),
            Ok(Some(h)) => self.on_reorg(state, tip, h, now, nanos),
        }
    }

    fn on_snapshot_hashes(
        &mut self,
        state: &mut IndexerState,
        tip: u32,
        at_height: u32,
        heights: Vec<u32>,
        answers: Vec<Result<String, String>>,
    ) -> (r: PollAction)
        requires
            old(self)@.phase is Idle,
        ensures
            (Step { poller: final(self)@, state: final(state)@, action: r@ }) == recovery_step(
                old(self)@,
                old(state)@,
                tip,
                at_height,
                heights@,
                answers@,
            ),
    {
        let canonical = canonical_hashes(&heights, &answers);
        let cutoff: u32 = at_height.saturating_sub(1);
        proof {
            law_recovery_takes_the_latest(state@.snapshots, cutoff, hashes_of(canonical@));
        }
        let back_to: u32 = match state.restore_to_snapshot_at_or_before(cutoff, &canonical) {
            Some(h) => h + 1,
            None => {
                state.wipe_for_reorg();
                LCKPROTOCOL_START_HEIGHT
            },
        };
        if tip < LCKPROTOCOL_START_HEIGHT {
            state.tip_height = tip;
            return PollAction::Finish { cadence: None };
        }
        let after: u32 = at_least_activation(back_to);
        let from: u32 = if after < tip {
            after
        } else {
            tip
        };
        self.phase = Phase::Rebuild { tip };
        PollAction::Scan { from, to: tip }
    }

    fn on_scanned(
        &mut self,
        state: &mut IndexerState,
        tip: u32,
        from: u32,
        outcome: Result<(), String>,
        now: u64,
    ) -> (r: PollAction)
        requires
            old(self)@.phase is Idle,
        ensures
            (Step { poller: final(self)@, state: final(state)@, action: r@ }) == scanned_step(
                old(self)@,
                old(state)@,
                tip,
                from,
                outcome,
                now,
            ),
    {
        if let Err(why) = outcome {
            let mut prefix = "backfill failed at height ".to_owned();
            push_decimal(&mut prefix, from as u64);
            prefix.append(": ");
            state.push_error(quote(prefix, &why, Some(from), now));
        }
        state.tip_height = tip;
        self.phase = Phase::Persist { tip };
        PollAction::Persist
    }
}

fn at_least_activation(h: u32) -> (r: u32)
    ensures
        r == not_before_activation(h),
{
    if h < LCKPROTOCOL_START_HEIGHT {
        LCKPROTOCOL_START_HEIGHT
    } else {
        h
    }
}

fn heights_of(probes: &Vec<(u32, String)>) -> (r: Vec<u32>)
    ensures
        r@ == probe_heights(probes_view(probes@)),
{
    let mut out: Vec<u32> = Vec::new();
    let mut i: usize = 0;
    while i < probes.len()
        invariant
            i <= probes@.len(),
            out@.len() == i,
            forall|j: int| 0 <= j < i ==> #[trigger] out@[j] == probes@[j].0,
        decreases probes@.len() - i,
    {
        out.push(probes[i].0);
        i += 1;
    }
    assert(out@ =~= probe_heights(probes_view(probes@)));
    out
}

// ---------------------------------------------------------------------------
// Around the iterations.
// ---------------------------------------------------------------------------

/// How an iteration of the poll loop ended.
pub enum IterationOutcome {
    /// Of itself, with the cadence that it chose, if any.
    Finished { cadence: Option<u64> },
    /// It was given up for taking too long.
    TimedOut,
}

/// The seconds until the next iteration. An iteration that was given up leaves an event
/// and is soon tried again; one that chose no cadence keeps the present one.
pub fn after_iteration(
    state: &mut IndexerState,
    outcome: IterationOutcome,
    current_secs: u64,
    now: u64,
) -> (r: u64)
    ensures
        match outcome {
            IterationOutcome::Finished { cadence } => {
                &&& final(state)@ == old(state)@
                &&& r == (match cadence {
                    Some(c) => c,
                    None => current_secs,
                })
            },
            IterationOutcome::TimedOut => {
                &&& final(state)@ == with_event(old(state)@, watchdog_event(now))
                &&& r == FAST_POLL_SECS
            },
        },
{
    match outcome {
        IterationOutcome::Finished { cadence } => match cadence {
            Some(c) => c,
            None => current_secs,
        },
        IterationOutcome::TimedOut => {
            state.push_error(watchdog_error_event(now));
            FAST_POLL_SECS
        },
    }
}

/// The next pause before the tip is asked for again: twice the last one, up to
/// `MAX_RETRY_DELAY_MS`.
pub fn next_retry_delay(delay_ms: u64) -> (r: u64)
    ensures
        r == (if 2 * delay_ms < MAX_RETRY_DELAY_MS {
            (2 * delay_ms) as u64
        } else {
            MAX_RETRY_DELAY_MS
        }),
{
    if delay_ms < MAX_RETRY_DELAY_MS / 2 {
        2 * delay_ms
    } else {
        MAX_RETRY_DELAY_MS
    }
}

/// The height that the first scan starts at: the one asked for, but not below the
/// activation height and not above the tip. There is none while the tip is below the
/// activation height.
pub fn backfill_start(start_height: Option<u32>, tip: u32) -> (r: Option<u32>)
    ensures
        tip < LCKPROTOCOL_START_HEIGHT ==> r is None,
        r matches Some(h) ==> LCKPROTOCOL_START_HEIGHT <= h <= tip,
        tip >= LCKPROTOCOL_START_HEIGHT ==> ({
            let from = match start_height {
                Some(h) => not_before_activation(h),
                None => LCKPROTOCOL_START_HEIGHT,
            };
            r == Some(
                if from < tip {
                    from
                } else {
                    tip
                },
            )
        }),
{
    if tip < LCKPROTOCOL_START_HEIGHT {
        return None;
    }
    let from: u32 = match start_height {
        Some(h) => at_least_activation(h),
        None => LCKPROTOCOL_START_HEIGHT,
    };
    if from < tip {
        Some(from)
    } else {
        Some(tip)
    }
}

/// The height to start at: after the snapshot that was restored, or the one asked for.
pub fn effective_start(warm_started_at: Option<u32>, start_height: Option<u32>) -> (r: Option<u32>)
    requires
        warm_started_at != Some(u32::MAX),
    ensures
        r == (match warm_started_at {
            Some(h) => Some((h + 1) as u32),
            None => start_height,
        }),
{
    match warm_started_at {
        Some(h) => Some(h + 1),
        None => start_height,
    }
}

// ---------------------------------------------------------------------------
// What holds of the poll loop.
// ---------------------------------------------------------------------------

/// A tip below the indexed height rewinds nothing: the derived state and the snapshots
/// stay, and the iteration ends.
pub proof fn law_tip_regression_rewinds_nothing(
    p: PollerModel,
    s: StateModel,
    tip: u32,
    now: u64,
    nanos: u64,
)
    requires
        p.phase is Tip,
        tip < s.ledger.height,
    ensures
        ({
            let step = poll_step(p, s, PollEvent::Tip(Ok(tip)), now, nanos);
            &&& step.state.ledger == s.ledger
            &&& step.state.snapshots == s.snapshots
            &&& step.state.tip_height == s.tip_height
            &&& step.action == ActionModel::Finish { cadence: None }
        }),
{
}

/// The machine itself changes the derived state only to go back before a divergence, and
/// goes back only to a snapshot below the divergence whose hash is on the chain, or to
/// nothing at all where there is none.
pub proof fn law_only_recovery_goes_back(
    p: PollerModel,
    s: StateModel,
    event: PollEvent,
    now: u64,
    nanos: u64,
)
    ensures
        ({
            let after = poll_step(p, s, event, now, nanos).state.ledger;
            match (p.phase, event) {
                (
                    PhaseModel::SnapshotHashes { tip, divergence, heights },
                    PollEvent::Hashes(answers),
                ) => {
                    let canonical = answered(heights, answers@, heights.len() as int);
                    let cutoff = minus(divergence as u64, 1) as u32;
                    ||| exists|i: int|
                        {
                            &&& 0 <= i < s.snapshots.len()
                            &&& after == (#[trigger] s.snapshots[i]).ledger
                            &&& restorable(s.snapshots[i], cutoff, canonical)
                        }
                    ||| {
                        &&& after == empty_ledger()
                        &&& forall|i: int|
                            0 <= i < s.snapshots.len() ==> !restorable(
                                #[trigger] s.snapshots[i],
                                cutoff,
                                canonical,
                            )
                    }
                },
                _ => after == s.ledger,
            }
        }),
{
    if let PhaseModel::SnapshotHashes { tip, divergence, heights } = p.phase {
        if let PollEvent::Hashes(answers) = event {
            let canonical = answered(heights, answers@, heights.len() as int);
            let cutoff = minus(divergence as u64, 1) as u32;
            law_recovery_takes_the_latest(s.snapshots, cutoff, canonical);
        }
    }
}

/// No scan that the machine asks for starts below the activation height, nor above the
/// height that it ends at.
pub proof fn law_no_scan_starts_before_activation(
    p: PollerModel,
    s: StateModel,
    event: PollEvent,
    now: u64,
    nanos: u64,
)
    ensures
        poll_step(p, s, event, now, nanos).action matches ActionModel::Scan { from, to }
            ==> LCKPROTOCOL_START_HEIGHT <= from <= to,
{
}

/// The reorganization that makes up the number in the window pauses the loop, and the
/// count starts anew.
pub proof fn law_reorg_storm_pauses_the_loop(
    p: PollerModel,
    s: StateModel,
    tip: u32,
    at_height: u32,
    now: u64,
    nanos: u64,
)
    ensures
        ({
            let step = reorg_step(p, s, tip, at_height, now, nanos);
            let storm = in_window(p.recent_reorgs, nanos).len() + 1 >= REORG_STORM_THRESHOLD;
            &&& storm == (step.action == ActionModel::Sleep { secs: REORG_STORM_COOLDOWN_SECS })
            &&& storm ==> step.poller.recent_reorgs.len() == 0 && step.state.ledger == s.ledger
            &&& !storm ==> step.state == s && step.poller.recent_reorgs.last() == nanos
        }),
{
}

/// The reorganizations that count are the latest ones, those within the window.
pub proof fn law_window_keeps_the_latest(reorgs: Seq<u64>, nanos: u64)
    requires
        forall|i: int, j: int| 0 <= i <= j < reorgs.len() ==> reorgs[i] <= reorgs[j],
    ensures
        ({
            let kept = in_window(reorgs, nanos);
            let dropped = reorgs.len() - kept.len();
            &&& kept.len() <= reorgs.len()
            &&& kept == reorgs.skip(dropped)
            &&& forall|i: int|
                0 <= i < reorgs.len() ==> (minus(nanos, #[trigger] reorgs[i])
                    <= REORG_STORM_WINDOW_NANOS <==> dropped <= i)
        }),
    decreases reorgs.len(),
{
    if reorgs.len() > 0 && minus(nanos, reorgs[0]) > REORG_STORM_WINDOW_NANOS {
        let rest = reorgs.skip(1);
        law_window_keeps_the_latest(rest, nanos);
        let kept = in_window(reorgs, nanos);
        let dropped = reorgs.len() - kept.len();
        assert(rest.skip(rest.len() - kept.len()) =~= reorgs.skip(dropped));
        assert forall|i: int| 0 <= i < reorgs.len() implies (minus(nanos, #[trigger] reorgs[i])
            <= REORG_STORM_WINDOW_NANOS <==> dropped <= i) by {
            if i > 0 {
                assert(rest[i - 1] == reorgs[i]);
            }
        }
    } else {
        assert(reorgs.skip(0) =~= reorgs);
    }
}

/// An iteration that gets through chooses the short cadence exactly while behind the tip.
pub proof fn law_cadence_follows_the_lag(p: PollerModel, s: StateModel, tip: u32, now: u64, nanos: u64)
    requires
        p.phase == (PhaseModel::Persist { tip }),
    ensures
        poll_step(p, s, PollEvent::Resumed, now, nanos).action == (ActionModel::Finish {
            cadence: Some(
                if s.ledger.height < tip {
                    p.fast_poll_secs
                } else {
                    p.normal_poll_secs
                },
            ),
        }),
{
}

} // verus!
