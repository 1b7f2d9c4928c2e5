//! Properties of the detector over whole sequences of samples.

use crate::config::TableView;
use crate::corner::{in_region, Corner};
use crate::detector::{
    armed, elapsed, fires, firing_corner, next_state, phase_of, DetectorState, Phase,
    PointerSample, COOLDOWN_MS, DWELL_MS,
};
use vstd::prelude::*;

verus! {

/// The state reached from `s` after processing `samples` in order.
pub open spec fn state_after(
    s: DetectorState,
    table: TableView,
    samples: Seq<PointerSample>,
) -> DetectorState
    decreases samples.len(),
{
    if samples.len() == 0 {
        s
    } else {
        next_state(state_after(s, table, samples.drop_last()), table, samples.last())
    }
}

/// What the `i`-th sample of a run fires.
pub open spec fn fired_at(
    s: DetectorState,
    table: TableView,
    samples: Seq<PointerSample>,
    i: int,
) -> Option<Corner> {
    fires(state_after(s, table, samples.take(i)), table, samples[i])
}

/// Timestamps never go back, and each leaves room for a cooldown.
pub open spec fn clock_ordered(samples: Seq<PointerSample>) -> bool {
    &&& forall|a: int, b: int|
        0 <= a <= b < samples.len() ==> samples[a].observed_at <= samples[b].observed_at
    &&& forall|a: int| 0 <= a < samples.len() ==> samples[a].observed_at + COOLDOWN_MS <= u64::MAX
}

/// Whether sample `k` of a run shows the pointer away from where it was just
/// before: away from the state's last position for the first sample, away
/// from the previous sample for the others.
pub open spec fn moved_at(s: DetectorState, samples: Seq<PointerSample>, k: int) -> bool {
    if k == 0 {
        samples[0].x != s.last_x || samples[0].y != s.last_y
    } else {
        samples[k].x != samples[k - 1].x || samples[k].y != samples[k - 1].y
    }
}

/// A sample fires exactly when it meets an unsuppressed state, rests where the
/// pointer was last seen for at least the dwell threshold, and some corner is
/// armed; what fires is then the first armed corner.
pub proof fn lemma_fires_iff(s: DetectorState, table: TableView, p: PointerSample)
    ensures
        fires(s, table, p) is Some <==> {
            &&& phase_of(s, p) == Phase::DwellPending
            &&& elapsed(s.last_move_time, p.observed_at) >= DWELL_MS
            &&& exists|c: Corner| armed(table, c, p)
        },
        fires(s, table, p) matches Some(c) ==> armed(table, c, p),
{
    if fires(s, table, p) is Some {
        assert(armed(table, fires(s, table, p)->0, p));
    }
    if exists|c: Corner| armed(table, c, p) {
        let c = choose|c: Corner| armed(table, c, p);
        assert(firing_corner(table, p) is Some);
    }
}

/// A disabled corner never fires, whatever the state and the samples.
pub proof fn lemma_disabled_corner_never_fires(
    s: DetectorState,
    table: TableView,
    samples: Seq<PointerSample>,
    c: Corner,
    i: int,
)
    requires
        !table.slot(c).enabled,
        0 <= i < samples.len(),
    ensures
        fired_at(s, table, samples, i) != Some(c),
{
}

/// While every corner that holds the pointer is disabled, nothing fires.
pub proof fn lemma_nothing_armed_nothing_fires(
    s: DetectorState,
    table: TableView,
    samples: Seq<PointerSample>,
    i: int,
)
    requires
        0 <= i < samples.len(),
        forall|c: Corner| !armed(table, c, samples[i]),
    ensures
        fired_at(s, table, samples, i) is None,
{
}

/// A pointer that changes position at every sample never fires: each change
/// restarts the dwell timer.
pub proof fn lemma_moving_pointer_never_fires(
    s: DetectorState,
    table: TableView,
    samples: Seq<PointerSample>,
    i: int,
)
    requires
        s.suppressed_until is None,
        forall|k: int| 0 <= k < samples.len() ==> moved_at(s, samples, k),
        0 <= i < samples.len(),
    ensures
        fired_at(s, table, samples, i) is None,
{
    lemma_moving_state(s, table, samples, i);
    assert(moved_at(s, samples, i));
}

/// After `n` samples of an ever-moving pointer the state holds the position
/// of the last of them and is not suppressed.
proof fn lemma_moving_state(
    s: DetectorState,
    table: TableView,
    samples: Seq<PointerSample>,
    n: int,
)
    requires
        s.suppressed_until is None,
        forall|k: int| 0 <= k < samples.len() ==> moved_at(s, samples, k),
        0 <= n <= samples.len(),
    ensures
        state_after(s, table, samples.take(n)).suppressed_until is None,
        n == 0 ==> state_after(s, table, samples.take(n)) == s,
        n > 0 ==> state_after(s, table, samples.take(n)).last_x == samples[n - 1].x
            && state_after(s, table, samples.take(n)).last_y == samples[n - 1].y,
    decreases n,
{
    if n > 0 {
        lemma_moving_state(s, table, samples, n - 1);
        assert(samples.take(n).drop_last() =~= samples.take(n - 1));
        assert(samples.take(n).last() == samples[n - 1]);
        assert(moved_at(s, samples, n - 1));
    }
}

/// Two triggers of one run are at least a cooldown plus a dwell apart: the
/// detector fires once per cycle, not once per poll.
pub proof fn lemma_triggers_are_spaced(
    s: DetectorState,
    table: TableView,
    samples: Seq<PointerSample>,
    i: int,
    j: int,
)
    requires
        clock_ordered(samples),
        0 <= i < j < samples.len(),
        fired_at(s, table, samples, i) is Some,
        fired_at(s, table, samples, j) is Some,
    ensures
        samples[j].observed_at >= samples[i].observed_at + COOLDOWN_MS + DWELL_MS,
{
    lemma_quiet_since(s, table, samples, i, j);
}

/// Once a trigger has fired at sample `i`, every later state keeps its dwell
/// timer at or after the end of that trigger's cooldown, and is either still
/// suppressed until then or was last touched after it.
spec fn quiet_since(st: DetectorState, floor: int, last_seen: int) -> bool {
    &&& st.last_move_time >= floor
    &&& match st.suppressed_until {
        Some(until) => until >= floor,
        None => last_seen >= floor,
    }
}

proof fn lemma_quiet_since(
    s: DetectorState,
    table: TableView,
    samples: Seq<PointerSample>,
    i: int,
    n: int,
)
    requires
        clock_ordered(samples),
        0 <= i < n <= samples.len(),
        fired_at(s, table, samples, i) is Some,
    ensures
        quiet_since(
            state_after(s, table, samples.take(n)),
            samples[i].observed_at + COOLDOWN_MS,
            samples[n - 1].observed_at as int,
        ),
        n < samples.len() && fired_at(s, table, samples, n) is Some ==> samples[n].observed_at
            >= samples[i].observed_at + COOLDOWN_MS + DWELL_MS,
    decreases n,
{
    assert(samples.take(n).drop_last() =~= samples.take(n - 1));
    assert(samples.take(n).last() == samples[n - 1]);
    if n > i + 1 {
        lemma_quiet_since(s, table, samples, i, n - 1);
    }
}

/// After a trigger the detector is deaf for the whole cooldown: a sample
/// taken before its end fires nothing and leaves the state as it is.
pub proof fn lemma_cooldown_is_quiet(
    s: DetectorState,
    table: TableView,
    p: PointerSample,
    q: PointerSample,
)
    requires
        fires(s, table, p) is Some,
        p.observed_at + COOLDOWN_MS <= u64::MAX,
        q.observed_at < p.observed_at + COOLDOWN_MS,
    ensures
        phase_of(next_state(s, table, p), q) == Phase::Suppressed,
        fires(next_state(s, table, p), table, q) is None,
        next_state(next_state(s, table, p), table, q) == next_state(s, table, p),
{
}

/// Whether `q` shows the pointer at the same pixel of the same screen as `p`.
pub open spec fn same_place(p: PointerSample, q: PointerSample) -> bool {
    &&& q.x == p.x
    &&& q.y == p.y
    &&& q.screen_width == p.screen_width
    &&& q.screen_height == p.screen_height
}

/// A pointer that stays where it fired fires the same corner again with the
/// first sample taken a cooldown plus a dwell later, and with none before:
/// one trigger per cycle.
pub proof fn lemma_resting_pointer_fires_each_cycle(
    s: DetectorState,
    table: TableView,
    p: PointerSample,
    early: Seq<PointerSample>,
    q: PointerSample,
)
    requires
        fires(s, table, p) is Some,
        p.observed_at + COOLDOWN_MS + DWELL_MS <= q.observed_at,
        same_place(p, q),
        forall|k: int|
            0 <= k < early.len() ==> same_place(p, #[trigger] early[k]) && early[k].observed_at
                < p.observed_at + COOLDOWN_MS + DWELL_MS,
    ensures
        forall|k: int|
            0 <= k < early.len() ==> fired_at(next_state(s, table, p), table, early, k) is None,
        fires(state_after(next_state(s, table, p), table, early), table, q) == fires(s, table, p),
{
    let s1 = next_state(s, table, p);
    assert forall|k: int| 0 <= k < early.len() implies fired_at(s1, table, early, k) is None by {
        lemma_waiting_state(s, table, p, early.take(k));
    }
    lemma_waiting_state(s, table, p, early);
}

/// While a resting pointer waits out the cooldown and the dwell after a
/// trigger, the detector keeps its place and the restarted dwell timer.
proof fn lemma_waiting_state(
    s: DetectorState,
    table: TableView,
    p: PointerSample,
    early: Seq<PointerSample>,
)
    requires
        fires(s, table, p) is Some,
        p.observed_at + COOLDOWN_MS + DWELL_MS <= u64::MAX,
        forall|k: int|
            0 <= k < early.len() ==> same_place(p, #[trigger] early[k]) && early[k].observed_at
                < p.observed_at + COOLDOWN_MS + DWELL_MS,
    ensures
        ({
            let st = state_after(next_state(s, table, p), table, early);
            &&& st.last_x == p.x
            &&& st.last_y == p.y
            &&& st.last_move_time == p.observed_at + COOLDOWN_MS
            &&& st.suppressed_until matches Some(until) ==> until == p.observed_at + COOLDOWN_MS
        }),
    decreases early.len(),
{
    if early.len() > 0 {
        let before = early.drop_last();
        assert forall|k: int| 0 <= k < before.len() implies same_place(p, #[trigger] before[k])
            && before[k].observed_at < p.observed_at + COOLDOWN_MS + DWELL_MS by {
            assert(before[k] == early[k]);
        }
        lemma_waiting_state(s, table, p, before);
        assert(same_place(p, early[early.len() - 1]));
    }
}

/// On an enabled top-right corner a pointer resting on the last pixel column
/// of the top row fires, and fires that corner unless the top-left one is
/// armed too (which takes a screen at most two pixels wide).
pub proof fn lemma_top_right_edge_fires(s: DetectorState, table: TableView, p: PointerSample)
    requires
        table.top_right.enabled,
        p.x == p.screen_width - 1,
        p.y == 0,
        phase_of(s, p) == Phase::DwellPending,
        elapsed(s.last_move_time, p.observed_at) >= DWELL_MS,
    ensures
        fires(s, table, p) is Some,
        !armed(table, Corner::TopLeft, p) ==> fires(s, table, p) == Some(Corner::TopRight),
        p.screen_width > 2 ==> fires(s, table, p) == Some(Corner::TopRight),
{
}

/// Three pixels left of the right edge is outside the top-right region, so
/// the top-right corner does not fire there.
pub proof fn lemma_top_right_outside_band(s: DetectorState, table: TableView, p: PointerSample)
    requires
        p.x == p.screen_width - 3,
    ensures
        !in_region(
            Corner::TopRight,
            p.x as int,
            p.y as int,
            p.screen_width as int,
            p.screen_height as int,
        ),
        fires(s, table, p) != Some(Corner::TopRight),
{
}

} // verus!
