//! Connectivity tracking for the per-broker NNG SUB readers.
//!
//! Each broker reader alternates between a blocking `recv` and a decision on
//! what to report. The decisions live here: how the live-pipe count of a
//! broker follows NNG pipe events, when a broker is declared down or up
//! again, and which outputs one `recv` outcome produces.

use vstd::prelude::*;

pub use crate::topics::{LOB_TOPIC_PREFIX, TRADE_TOPIC_PREFIX, classify_topic};

verus! {

/// Number of consecutive no-pipe `recv` timeouts before a broker is declared
/// down. At 500 ms per timeout this is a ~1 s debounce window, which avoids
/// false "down" reports during the initial SUB/PUB handshake and transient
/// reconnect blips while still detecting a real drop within ~1 s.
pub const DOWN_THRESHOLD_TICKS: u32 = 2;

/// Receive timeout of a broker socket, in milliseconds.
pub const RECV_TIMEOUT_MS: u64 = 500;

/// Connectivity event emitted by [`connectivity_event`].
#[derive(Debug, Clone, Copy, PartialEq, Eq, Structural)]
pub enum ConnEvent {
    /// No change of connectivity (never returned by [`connectivity_event`],
    /// which reports "no change" as `Option::None`).
    NoChange,
    Down,
    Up,
}

/// The transition of one `recv` iteration: from the previous down flag, the
/// live-pipe count, whether a message arrived and the running streak of
/// consecutive no-pipe timeouts, to `(new_down, new_streak, event)`.
///
/// A message or a live pipe means the broker is up: the streak resets and an
/// `Up` is reported only when it was down. Without a live pipe the streak grows
/// by one, and `Down` is reported once, when a broker that was up reaches
/// `DOWN_THRESHOLD_TICKS` consecutive such timeouts.
pub open spec fn spec_connectivity(prev_down: bool, pipe_count: nat, recv_ok: bool, streak: nat) -> (
    bool,
    nat,
    Option<ConnEvent>,
) {
    if recv_ok || pipe_count > 0 {
        (false, 0, if prev_down {
            Some(ConnEvent::Up)
        } else {
            None
        })
    } else if !prev_down && streak + 1 >= DOWN_THRESHOLD_TICKS {
        (true, streak + 1, Some(ConnEvent::Down))
    } else {
        (prev_down, streak + 1, None)
    }
}

/// Decide the connectivity event for a broker given its previous down state,
/// the current NNG pipe count, whether a message was received on this `recv()`
/// iteration, and the running streak of consecutive no-pipe timeouts.
///
/// Returns `(new_down, new_streak, event)`.
pub fn connectivity_event(prev_down: bool, pipe_count: usize, recv_ok: bool, streak: u32) -> (r: (
    bool,
    u32,
    Option<ConnEvent>,
))
    requires
        recv_ok || pipe_count > 0 || streak < u32::MAX,
    ensures
        (r.0, r.1 as nat, r.2) == spec_connectivity(
            prev_down,
            pipe_count as nat,
            recv_ok,
            streak as nat,
        ),
{
    if recv_ok {
        if prev_down {
            (false, 0, Some(ConnEvent::Up))
        } else {
            (prev_down, 0, None)
        }
    } else if pipe_count > 0 {
        if prev_down {
            (false, 0, Some(ConnEvent::Up))
        } else {
            (prev_down, 0, None)
        }
    } else {
        let streak = streak + 1;
        if !prev_down && streak >= DOWN_THRESHOLD_TICKS {
            (true, streak, Some(ConnEvent::Down))
        } else {
            (prev_down, streak, None)
        }
    }
}

/// Connectivity state of one broker reader across `recv` iterations.
#[derive(Debug, Clone, Copy, PartialEq, Eq, Structural)]
pub struct BrokerState {
    /// Whether the broker is currently considered down.
    pub down: bool,
    /// Consecutive `recv` timeouts without a live pipe.
    pub streak: u32,
}

impl BrokerState {
    /// A broker starts up, with no timeout streak.
    pub fn new() -> (s: BrokerState)
        ensures
            !s.down,
            s.streak == 0,
    {
        BrokerState { down: false, streak: 0 }
    }
}

/// Outcome of one blocking `recv` on a broker socket.
#[derive(Debug, Clone, Copy, PartialEq, Eq, Structural)]
pub enum RecvOutcome {
    /// A message arrived.
    Received,
    /// The receive timeout elapsed without a message.
    TimedOut,
    /// `recv` failed with another error.
    Failed,
}

/// What a broker reader does after one `recv`, in order.
#[derive(Debug, Clone, Copy, PartialEq, Eq, Structural)]
pub enum BrokerAction {
    /// Report that the broker is reachable again.
    ReportUp,
    /// Report that the broker stopped producing data.
    ReportDown,
    /// Forward the received message.
    ForwardMessage,
    /// Log the receive error and pause before the next `recv`.
    ReportErrorAndPause,
}

/// The state and actions that follow one `recv` outcome.
pub open spec fn spec_broker_step(state: BrokerState, outcome: RecvOutcome, pipe_count: nat) -> (
    bool,
    nat,
    Seq<BrokerAction>,
) {
    match outcome {
        RecvOutcome::Received => {
            let (d, s, ev) = spec_connectivity(state.down, pipe_count, true, state.streak as nat);
            (d, s, if ev == Some(ConnEvent::Up) {
                seq![BrokerAction::ReportUp, BrokerAction::ForwardMessage]
            } else {
                seq![BrokerAction::ForwardMessage]
            })
        },
        RecvOutcome::TimedOut => {
            let (d, s, ev) = spec_connectivity(state.down, pipe_count, false, state.streak as nat);
            (d, s, match ev {
                Some(ConnEvent::Down) => seq![BrokerAction::ReportDown],
                Some(ConnEvent::Up) => seq![BrokerAction::ReportUp],
                _ => Seq::empty(),
            })
        },
        RecvOutcome::Failed => (
            state.down,
            state.streak as nat,
            seq![BrokerAction::ReportErrorAndPause],
        ),
    }
}

/// One iteration of a broker reader's receive loop: from the connectivity
/// state, the outcome of `recv` and the broker's live-pipe count, the next
/// state and the outputs to emit, in order. A message is preceded by `Up` when
/// it ends a down period; a timeout emits `Down` or `Up` only on a
/// transition; any other receive error leaves the state as it was.
pub fn broker_step(state: BrokerState, outcome: RecvOutcome, pipe_count: usize) -> (r: (
    BrokerState,
    Vec<BrokerAction>,
))
    requires
        outcome == RecvOutcome::TimedOut && pipe_count == 0 ==> state.streak < u32::MAX,
    ensures
        (r.0.down, r.0.streak as nat, r.1@) == spec_broker_step(state, outcome, pipe_count as nat),
{
    let mut actions: Vec<BrokerAction> = Vec::new();
    match outcome {
        RecvOutcome::Received => {
            let (down, streak, ev) = connectivity_event(state.down, pipe_count, true, state.streak);
            if ev == Some(ConnEvent::Up) {
                actions.push(BrokerAction::ReportUp);
            }
            actions.push(BrokerAction::ForwardMessage);
            proof {
                if ev == Some(ConnEvent::Up) {
                    assert(actions@ =~= seq![BrokerAction::ReportUp, BrokerAction::ForwardMessage]);
                } else {
                    assert(actions@ =~= seq![BrokerAction::ForwardMessage]);
                }
            }
            (BrokerState { down, streak }, actions)
        },
        RecvOutcome::TimedOut => {
            let (down, streak, ev) = connectivity_event(state.down, pipe_count, false, state.streak);
            match ev {
                Some(ConnEvent::Down) => actions.push(BrokerAction::ReportDown),
                Some(ConnEvent::Up) => actions.push(BrokerAction::ReportUp),
                _ => {},
            }
            proof {
                match ev {
                    Some(ConnEvent::Down) => assert(actions@ =~= seq![BrokerAction::ReportDown]),
                    Some(ConnEvent::Up) => assert(actions@ =~= seq![BrokerAction::ReportUp]),
                    _ => assert(actions@ =~= Seq::<BrokerAction>::empty()),
                }
            }
            (BrokerState { down, streak }, actions)
        },
        RecvOutcome::Failed => {
            actions.push(BrokerAction::ReportErrorAndPause);
            assert(actions@ =~= seq![BrokerAction::ReportErrorAndPause]);
            (state, actions)
        },
    }
}

/// An NNG pipe event seen by a broker's `pipe_notify` callback.
#[derive(Debug, Clone, Copy, PartialEq, Eq, Structural)]
pub enum PipeChange {
    /// A pipe was added (`AddPost`).
    Added,
    /// A pipe was removed (`RemovePost`).
    Removed,
    /// Any other pipe event.
    Other,
}

/// The live-pipe count of a broker after a pipe event. Only pipes whose dialer
/// URL is the broker's own address count; the counter wraps around like an
/// atomic `fetch_add` / `fetch_sub`.
pub open spec fn spec_pipe_count_after(
    count: usize,
    change: PipeChange,
    counted: bool,
) -> usize {
    if !counted {
        count
    } else {
        match change {
            PipeChange::Added => if count == usize::MAX {
                0
            } else {
                (count + 1) as usize
            },
            PipeChange::Removed => if count == 0 {
                usize::MAX
            } else {
                (count - 1) as usize
            },
            PipeChange::Other => count,
        }
    }
}

/// Update a broker's live-pipe count for one pipe event. `dialer_url` is the
/// URL of the pipe's dialer, or `None` when the pipe has no dialer or its URL
/// cannot be read; such pipes, and those of other addresses, leave the count
/// unchanged.
pub fn pipe_count_after(
    count: usize,
    change: PipeChange,
    dialer_url: Option<&String>,
    addr: &String,
) -> (r: usize)
    ensures
        r == spec_pipe_count_after(
            count,
            change,
            dialer_url matches Some(u) && u@ == addr@,
        ),
{
    let counted = match dialer_url {
        Some(u) => *u == *addr,
        None => false,
    };
    if !counted {
        return count;
    }
    match change {
        PipeChange::Added => count.wrapping_add(1),
        PipeChange::Removed => count.wrapping_sub(1),
        PipeChange::Other => count,
    }
}

/// A `recv` iteration as seen by the connectivity logic: the live-pipe count
/// and whether a message arrived.
pub open spec fn healthy(tick: (nat, bool)) -> bool {
    tick.1 || tick.0 > 0
}

/// Connectivity state `(down, streak)` of a broker that starts up, after the
/// given `recv` iterations.
pub open spec fn state_after(ticks: Seq<(nat, bool)>) -> (bool, nat)
    decreases ticks.len(),
{
    if ticks.len() == 0 {
        (false, 0)
    } else {
        let (d, s) = state_after(ticks.drop_last());
        let (d2, s2, _e) = spec_connectivity(d, ticks.last().0, ticks.last().1, s);
        (d2, s2)
    }
}

/// The event reported at iteration `k`.
pub open spec fn tick_event(ticks: Seq<(nat, bool)>, k: int) -> Option<ConnEvent> {
    let (d, s) = state_after(ticks.take(k));
    spec_connectivity(d, ticks[k].0, ticks[k].1, s).2
}

/// The last event reported before iteration `k`, if any.
pub open spec fn last_event(ticks: Seq<(nat, bool)>, k: int) -> Option<ConnEvent>
    decreases k,
{
    if k <= 0 {
        None
    } else if tick_event(ticks, k - 1) is Some {
        tick_event(ticks, k - 1)
    } else {
        last_event(ticks, k - 1)
    }
}

proof fn lemma_state_invariant(ticks: Seq<(nat, bool)>, k: int)
    requires
        0 <= k <= ticks.len(),
    ensures
        state_after(ticks.take(k)).0 <==> last_event(ticks, k) == Some(ConnEvent::Down),
        !state_after(ticks.take(k)).0 ==> state_after(ticks.take(k)).1 <= k && forall|j: int|
            k - state_after(ticks.take(k)).1 <= j < k ==> !healthy(#[trigger] ticks[j]),
        last_event(ticks, k) is None || last_event(ticks, k) == Some(ConnEvent::Down)
            || last_event(ticks, k) == Some(ConnEvent::Up),
    decreases k,
{
    if k > 0 {
        lemma_state_invariant(ticks, k - 1);
        assert(ticks.take(k).drop_last() =~= ticks.take(k - 1));
        assert(ticks.take(k).last() == ticks[k - 1]);
    } else {
        assert(ticks.take(0) =~= Seq::<(nat, bool)>::empty());
    }
}

/// Connectivity events are reported only on transitions: a broker that
/// starts up reports `Down` only when its last report was not `Down`, and
/// `Up` only right after a `Down`, so reports alternate and never repeat.
pub proof fn lemma_events_alternate(ticks: Seq<(nat, bool)>, k: int)
    requires
        0 <= k < ticks.len(),
    ensures
        tick_event(ticks, k) == Some(ConnEvent::Down) ==> last_event(ticks, k) != Some(
            ConnEvent::Down,
        ),
        tick_event(ticks, k) == Some(ConnEvent::Up) ==> last_event(ticks, k) == Some(
            ConnEvent::Down,
        ),
        tick_event(ticks, k) != Some(ConnEvent::NoChange),
{
    lemma_state_invariant(ticks, k);
}

/// Debounce: `Down` is reported only after at least `DOWN_THRESHOLD_TICKS`
/// (two) consecutive `recv` timeouts without a live pipe, ending with the
/// iteration that reports it.
pub proof fn lemma_down_is_debounced(ticks: Seq<(nat, bool)>, k: int)
    requires
        0 <= k < ticks.len(),
        tick_event(ticks, k) == Some(ConnEvent::Down),
    ensures
        k >= 1,
        !healthy(ticks[k - 1]),
        !healthy(ticks[k]),
{
    lemma_state_invariant(ticks, k);
}

/// A broker that keeps receiving messages or keeps a live pipe never flaps:
/// when every iteration is healthy, no event is ever reported.
pub proof fn lemma_healthy_broker_never_flaps(ticks: Seq<(nat, bool)>, k: int)
    requires
        0 <= k < ticks.len(),
        forall|j: int| 0 <= j < ticks.len() ==> healthy(#[trigger] ticks[j]),
    ensures
        tick_event(ticks, k) is None,
        !state_after(ticks.take(k + 1)).0,
    decreases k,
{
    if k > 0 {
        lemma_healthy_broker_never_flaps(ticks, k - 1);
    } else {
        assert(ticks.take(0) =~= Seq::<(nat, bool)>::empty());
    }
    assert(ticks.take(k + 1).drop_last() =~= ticks.take(k));
    assert(ticks.take(k + 1).last() == ticks[k]);
}


/// One receive-loop step reports `Up` or `Down` only on a transition of the
/// down flag, and exactly when [`connectivity_event`] returns that event: a
/// message is forwarded once, last, preceded by `Up` only when it ends a down
/// period; a timeout reports nothing unless the flag changes; a message or a
/// live pipe means the broker is up with no timeout streak; any other
/// receive error leaves the state as it was.
pub proof fn lemma_broker_step_reports_only_transitions(
    state: BrokerState,
    outcome: RecvOutcome,
    pipe_count: nat,
)
    ensures
        spec_broker_step(state, outcome, pipe_count).2.contains(BrokerAction::ReportUp) <==> (
        state.down && !spec_broker_step(state, outcome, pipe_count).0),
        spec_broker_step(state, outcome, pipe_count).2.contains(BrokerAction::ReportDown) <==> (
        !state.down && spec_broker_step(state, outcome, pipe_count).0),
        outcome != RecvOutcome::Failed ==> {
            let ev = spec_connectivity(
                state.down,
                pipe_count,
                outcome == RecvOutcome::Received,
                state.streak as nat,
            );
            let step = spec_broker_step(state, outcome, pipe_count);
            &&& step.0 == ev.0 && step.1 == ev.1
            &&& step.2.contains(BrokerAction::ReportUp) <==> ev.2 == Some(ConnEvent::Up)
            &&& step.2.contains(BrokerAction::ReportDown) <==> ev.2 == Some(ConnEvent::Down)
        },
        outcome == RecvOutcome::Received ==> spec_broker_step(state, outcome, pipe_count).2 == if state.down {
            seq![BrokerAction::ReportUp, BrokerAction::ForwardMessage]
        } else {
            seq![BrokerAction::ForwardMessage]
        },
        outcome == RecvOutcome::TimedOut ==> spec_broker_step(state, outcome, pipe_count).2 == if spec_broker_step(state, outcome, pipe_count).0 == state.down {
            Seq::<BrokerAction>::empty()
        } else if state.down {
            seq![BrokerAction::ReportUp]
        } else {
            seq![BrokerAction::ReportDown]
        },
        (outcome == RecvOutcome::Received || (outcome == RecvOutcome::TimedOut && pipe_count > 0)) ==> {
            &&& !spec_broker_step(state, outcome, pipe_count).0
            &&& spec_broker_step(state, outcome, pipe_count).1 == 0
        },
        outcome == RecvOutcome::TimedOut && pipe_count == 0 ==> spec_broker_step(state, outcome, pipe_count).1 == state.streak + 1,
        outcome == RecvOutcome::Failed ==> spec_broker_step(state, outcome, pipe_count) == (
            state.down,
            state.streak as nat,
            seq![BrokerAction::ReportErrorAndPause],
        ),
{
    let step = spec_broker_step(state, outcome, pipe_count);
    assert(seq![BrokerAction::ReportUp, BrokerAction::ForwardMessage][0] == BrokerAction::ReportUp);
    assert(seq![BrokerAction::ReportUp][0] == BrokerAction::ReportUp);
    assert(seq![BrokerAction::ReportDown][0] == BrokerAction::ReportDown);
    assert(!seq![BrokerAction::ForwardMessage].contains(BrokerAction::ReportUp)) by {
        assert(seq![BrokerAction::ForwardMessage][0] != BrokerAction::ReportUp);
    }
    assert(!seq![BrokerAction::ReportErrorAndPause].contains(BrokerAction::ReportUp)) by {
        assert(seq![BrokerAction::ReportErrorAndPause][0] != BrokerAction::ReportUp);
    }
    assert(!seq![BrokerAction::ReportUp, BrokerAction::ForwardMessage].contains(BrokerAction::ReportDown)) by {
        assert(seq![BrokerAction::ReportUp, BrokerAction::ForwardMessage][0] != BrokerAction::ReportDown);
        assert(seq![BrokerAction::ReportUp, BrokerAction::ForwardMessage][1] != BrokerAction::ReportDown);
    }
    assert(!seq![BrokerAction::ForwardMessage].contains(BrokerAction::ReportDown)) by {
        assert(seq![BrokerAction::ForwardMessage][0] != BrokerAction::ReportDown);
    }
    assert(!seq![BrokerAction::ReportErrorAndPause].contains(BrokerAction::ReportDown)) by {
        assert(seq![BrokerAction::ReportErrorAndPause][0] != BrokerAction::ReportDown);
    }
    assert(!seq![BrokerAction::ReportUp].contains(BrokerAction::ReportDown)) by {
        assert(seq![BrokerAction::ReportUp][0] != BrokerAction::ReportDown);
    }
    assert(!seq![BrokerAction::ReportDown].contains(BrokerAction::ReportUp)) by {
        assert(seq![BrokerAction::ReportDown][0] != BrokerAction::ReportUp);
    }
    assert(!Seq::<BrokerAction>::empty().contains(BrokerAction::ReportUp));
    assert(!Seq::<BrokerAction>::empty().contains(BrokerAction::ReportDown));
}

} // verus!
