//! Facts about the analyzer's step function: what a frame does to the cycle
//! log, to the state-change log, and to request/response correlation, and
//! what holds of a whole capture.
use vstd::prelude::*;
use crate::types::{PacketType, NmtState, ResponseKind, ErrorKind, CycleSample, StateChangeSample};
use crate::plkan::{
    Frame, PlkanView, MN_NODE_ID, ts_in_range, is_native, is_malformed, packet_type,
    reports_state, run,
};
use crate::types::ServiceId;
use crate::database::Selection;
use crate::stats::{ResponseStats, stats_of, lemma_stats_unique};

verus! {

/// The timestamp of a well-formed frame fits, and `ts` is exact.
pub proof fn lemma_frame_ts(f: Frame)
    requires
        f.wf(),
    ensures
        ts_in_range(f.spec_nanos()),
        f.ts() == f.spec_nanos(),
{
    let s = f.sec as int;
    assert(-4_000_000_000 * 1_000_000_000 <= s * 1_000_000_000 <= 4_000_000_000 * 1_000_000_000)
        by (nonlinear_arith)
        requires
            -4_000_000_000 <= s <= 4_000_000_000,
    ;
}

/// Processing a frame keeps the state well formed and counts the frame.
pub proof fn lemma_step_wf(v: PlkanView, f: Frame)
    requires
        v.wf(),
        f.wf(),
    ensures
        v.step(f).wf(),
        v.step(f).db.num_packets == v.db.num_packets + 1,
{
    lemma_frame_ts(f);
}

/// What a frame does to the cycle log: a SoC after an earlier SoC records
/// exactly the time between the two; every other frame records nothing.
pub proof fn lemma_step_cycle(v: PlkanView, f: Frame)
    requires
        v.wf(),
        f.wf(),
    ensures
        is_native(f.data@) && packet_type(f.data@) == Some(PacketType::SoC) ==> {
            &&& v.step(f).soc_ts == Some(f.ts())
            &&& v.step(f).db.socs == match v.soc_ts {
                Some(t0) => v.db.socs.push(
                    CycleSample { interval: (f.spec_nanos() - t0) as i64, mn_state: v.mn_state },
                ),
                None => v.db.socs,
            }
            &&& (v.soc_ts matches Some(t0) ==> v.step(f).db.socs.last().interval == f.spec_nanos()
                - t0)
        },
        !(is_native(f.data@) && packet_type(f.data@) == Some(PacketType::SoC)) ==> {
            &&& v.step(f).soc_ts == v.soc_ts
            &&& v.step(f).db.socs == v.db.socs
        },
{
    lemma_frame_ts(f);
}

/// Well-formed frames, in order of their timestamps.
pub open spec fn in_capture_order(frames: Seq<Frame>) -> bool {
    &&& forall|i: int| 0 <= i < frames.len() ==> (#[trigger] frames[i]).wf()
    &&& forall|i: int, j: int|
        0 <= i <= j < frames.len() ==> (#[trigger] frames[i]).spec_nanos()
            <= (#[trigger] frames[j]).spec_nanos()
}

proof fn lemma_run_cycles(frames: Seq<Frame>)
    requires
        in_capture_order(frames),
    ensures
        run(PlkanView::initial(), frames).wf(),
        run(PlkanView::initial(), frames).db.num_packets == frames.len(),
        run(PlkanView::initial(), frames).soc_ts matches Some(t) ==> frames.len() > 0 && t
            <= frames.last().spec_nanos(),
        forall|k: int|
            0 <= k < run(PlkanView::initial(), frames).db.socs.len() ==> (#[trigger] run(
                PlkanView::initial(),
                frames,
            ).db.socs[k]).interval >= 0,
    decreases frames.len(),
{
    if frames.len() > 0 {
        let prev = frames.drop_last();
        let f = frames.last();
        assert(in_capture_order(prev)) by {
            assert forall|i: int, j: int| 0 <= i <= j < prev.len() implies (#[trigger] prev[i]).spec_nanos()
                <= (#[trigger] prev[j]).spec_nanos() by {
                assert(prev[i] == frames[i] && prev[j] == frames[j]);
            }
        }
        lemma_run_cycles(prev);
        let v = run(PlkanView::initial(), prev);
        assert(f.wf()) by {
            assert(frames[frames.len() - 1] == f);
        }
        if prev.len() > 0 {
            assert(prev.last().spec_nanos() <= f.spec_nanos()) by {
                assert(prev.last() == frames[prev.len() - 1]);
                assert(frames[frames.len() - 1] == f);
            }
        }
        lemma_step_wf(v, f);
        lemma_step_cycle(v, f);
        lemma_frame_ts(f);
        assert(run(PlkanView::initial(), frames) == v.step(f));
    } else {
        assert(PlkanView::initial().wf());
    }
}

/// In a capture whose timestamps never decrease, no cycle interval is
/// negative.
pub proof fn lemma_cycle_intervals_nonnegative(frames: Seq<Frame>)
    requires
        in_capture_order(frames),
    ensures
        forall|k: int|
            0 <= k < run(PlkanView::initial(), frames).db.socs.len() ==> (#[trigger] run(
                PlkanView::initial(),
                frames,
            ).db.socs[k]).interval >= 0,
{
    lemma_run_cycles(frames);
}

/// The node whose state a frame reports, and that state.
pub open spec fn observation(f: Frame) -> Option<(u8, NmtState)> {
    let d = f.data@;
    if !is_native(d) || is_malformed(d) {
        None
    } else {
        match packet_type(d) {
            Some(PacketType::SoA) => Some((MN_NODE_ID, NmtState::spec_from_u8(d[17]))),
            Some(PacketType::PRes) => Some((d[16], NmtState::spec_from_u8(d[17]))),
            Some(PacketType::ASnd) => if reports_state(ServiceId::spec_from_u8(d[17])) {
                Some((d[16], NmtState::spec_from_u8(d[20])))
            } else {
                None
            },
            _ => None,
        }
    }
}

/// The state last recorded for `node` (240: the managing node).
pub open spec fn state_of(v: PlkanView, node: u8) -> Option<NmtState> {
    if node == MN_NODE_ID {
        v.mn_state
    } else {
        v.cn(node)
    }
}

/// After a frame reports a state, that state is the one recorded.
pub proof fn lemma_observation_recorded(v: PlkanView, f: Frame, n: u8, s: NmtState)
    requires
        v.wf(),
        f.wf(),
        observation(f) == Some((n, s)),
    ensures
        state_of(v.step(f), n) == Some(s),
{
}

/// A frame that reports nothing about `n` keeps the state recorded for it.
pub proof fn lemma_state_kept(v: PlkanView, f: Frame, n: u8)
    requires
        v.wf(),
        f.wf(),
        !(observation(f) matches Some((m, _)) && m == n),
    ensures
        state_of(v.step(f), n) == state_of(v, n),
{
}

/// Reporting the state already recorded adds no state change.
pub proof fn lemma_same_state_not_recorded(v: PlkanView, f: Frame, n: u8, s: NmtState)
    requires
        v.wf(),
        f.wf(),
        observation(f) == Some((n, s)),
        state_of(v, n) == Some(s),
    ensures
        v.step(f).db.state_changes == v.db.state_changes,
{
}

/// The first state reported for a node is always recorded as a change.
pub proof fn lemma_first_state_recorded(v: PlkanView, f: Frame, n: u8, s: NmtState)
    requires
        v.wf(),
        f.wf(),
        observation(f) == Some((n, s)),
        state_of(v, n) is None,
    ensures
        v.step(f).db.state_changes == v.db.state_changes.push(
            StateChangeSample {
                node: n,
                state: s,
                elapsed: (f.ts() - v.begin(f).first_ts->0) as i64,
                packet_id: (v.db.num_packets + 1) as u64,
            },
        ),
{
}

/// Two frames in a row that report the same state of the same node give at
/// most one state change: the second adds none.
pub proof fn lemma_repeated_state_not_recorded(
    v: PlkanView,
    f1: Frame,
    f2: Frame,
    n: u8,
    s: NmtState,
)
    requires
        v.wf(),
        f1.wf(),
        f2.wf(),
        observation(f1) == Some((n, s)),
        observation(f2) == Some((n, s)),
    ensures
        v.step(f1).step(f2).db.state_changes == v.step(f1).db.state_changes,
{
    lemma_step_wf(v, f1);
    lemma_observation_recorded(v, f1, n, s);
    lemma_same_state_not_recorded(v.step(f1), f2, n, s);
}

/// A PReq to node `n` answered by a PRes from another node records one
/// missing-PRes error for `n` and no response.
pub proof fn lemma_pres_from_other_node(v: PlkanView, f1: Frame, f2: Frame, n: u8)
    requires
        v.wf(),
        f1.wf(),
        f2.wf(),
        is_native(f1.data@),
        packet_type(f1.data@) == Some(PacketType::PReq),
        f1.data@[15] == n,
        is_native(f2.data@),
        !is_malformed(f2.data@),
        packet_type(f2.data@) == Some(PacketType::PRes),
        f2.data@[16] != n,
    ensures
        v.step(f1).step(f2).db.errors.len() == v.step(f1).db.errors.len() + 1,
        v.step(f1).step(f2).db.errors.drop_last() == v.step(f1).db.errors,
        v.step(f1).step(f2).db.errors.last().kind == ErrorKind::PResMissing,
        v.step(f1).step(f2).db.errors.last().node == n,
        v.step(f1).step(f2).db.responses == v.step(f1).db.responses,
{
    lemma_step_wf(v, f1);
    let v1 = v.step(f1);
    assert(v1.expectation == crate::plkan::Expectation::PRes { node: n, since: f1.ts() });
    assert(v1.step(f2).db.errors =~= v1.db.errors.push(v1.step(f2).db.errors.last()));
}

/// A SoA that invites node `n` to identify itself, answered by an ASnd Ident
/// response from `n`, records one Ident response for `n` with the time
/// between the two frames, and no error.
pub proof fn lemma_ident_answered(v: PlkanView, f1: Frame, f2: Frame, n: u8)
    requires
        v.wf(),
        f1.wf(),
        f2.wf(),
        is_native(f1.data@),
        !is_malformed(f1.data@),
        packet_type(f1.data@) == Some(PacketType::SoA),
        ServiceId::spec_from_u8(f1.data@[20]) == Some(ServiceId::Ident),
        f1.data@[21] == n,
        is_native(f2.data@),
        !is_malformed(f2.data@),
        packet_type(f2.data@) == Some(PacketType::ASnd),
        ServiceId::spec_from_u8(f2.data@[17]) == Some(ServiceId::Ident),
        f2.data@[16] == n,
    ensures
        v.step(f1).step(f2).db.responses.len() == v.step(f1).db.responses.len() + 1,
        v.step(f1).step(f2).db.responses.drop_last() == v.step(f1).db.responses,
        v.step(f1).step(f2).db.responses.last().kind == ResponseKind::Ident,
        v.step(f1).step(f2).db.responses.last().node == n,
        v.step(f1).step(f2).db.responses.last().elapsed == f2.spec_nanos() - f1.spec_nanos(),
        v.step(f1).step(f2).db.errors == v.step(f1).db.errors,
{
    lemma_step_wf(v, f1);
    lemma_frame_ts(f1);
    lemma_frame_ts(f2);
    let v1 = v.step(f1);
    assert(v1.expectation == crate::plkan::Expectation::Service {
        service: ServiceId::Ident,
        node: n,
        since: f1.ts(),
    });
    assert(v1.step(f2).db.responses =~= v1.db.responses.push(v1.step(f2).db.responses.last()));
}

/// Analyzing the same frames again from a fresh state gives the same
/// aggregate statistics for every selection.
pub proof fn lemma_rerun_same_stats(
    frames: Seq<Frame>,
    sel: Selection,
    a: ResponseStats,
    b: ResponseStats,
)
    requires
        stats_of(run(PlkanView::initial(), frames).db.selected_values(sel), a),
        stats_of(run(PlkanView::initial(), frames).db.selected_values(sel), b),
    ensures
        a == b,
{
    lemma_stats_unique(run(PlkanView::initial(), frames).db.selected_values(sel), a, b);
}

} // verus!
