//! The metrics store: an append-only record of samples, and the queries that
//! reporting reads once a capture has been analyzed.
use vstd::prelude::*;
use crate::types::{
    CycleSample, ErrorKind, ErrorSample, NmtState, ResponseKind, ResponseSample, StateChangeSample,
    spec_state_order, state_order,
};
use crate::sort::{SortKey, sorted_by_key, sort_by_key};
use crate::stats::{ResponseStats, StatsError, stats_of, is_percentile, aggregate, percentile};

verus! {

broadcast use vstd::seq_lib::group_seq_properties, vstd::multiset::group_multiset_axioms;

/// Which response samples a query reads: `None` in a field matches any value.
#[derive(Debug, Clone, Copy, PartialEq, Eq, Structural)]
pub struct ResponseFilter {
    pub kind: Option<ResponseKind>,
    pub node: Option<u8>,
}

impl ResponseFilter {
    pub open spec fn spec_matches(self, r: ResponseSample) -> bool {
        &&& (self.kind matches Some(k) ==> r.kind == k)
        &&& (self.node matches Some(n) ==> r.node == n)
    }

    pub fn matches(&self, r: &ResponseSample) -> (b: bool)
        ensures
            b == self.spec_matches(*r),
    {
        let kind_ok = match self.kind {
            Some(k) => r.kind == k,
            None => true,
        };
        let node_ok = match self.node {
            Some(n) => r.node == n,
            None => true,
        };
        kind_ok && node_ok
    }
}

/// The samples whose values an aggregate query reads.
#[derive(Debug, Clone, Copy, PartialEq, Eq, Structural)]
pub enum Selection {
    /// Every cycle interval.
    Cycles,
    /// The response times that pass the filter.
    Responses(ResponseFilter),
}

/// Response samples sort longest first.
impl SortKey for ResponseSample {
    open spec fn spec_key(&self) -> int {
        -(self.elapsed as int)
    }

    fn key(&self) -> (r: i128) {
        -(self.elapsed as i128)
    }
}

/// State changes sort by the time at which they happened.
impl SortKey for StateChangeSample {
    open spec fn spec_key(&self) -> int {
        self.elapsed as int
    }

    fn key(&self) -> (r: i128) {
        self.elapsed as i128
    }
}

pub open spec fn cycle_values(s: Seq<CycleSample>) -> Seq<i64>
    decreases s.len(),
{
    if s.len() == 0 {
        Seq::empty()
    } else {
        cycle_values(s.drop_last()).push(s.last().interval)
    }
}

/// The response samples that pass `f`, in order of insertion.
pub open spec fn filtered_responses(s: Seq<ResponseSample>, f: ResponseFilter) -> Seq<ResponseSample>
    decreases s.len(),
{
    if s.len() == 0 {
        Seq::empty()
    } else if f.spec_matches(s.last()) {
        filtered_responses(s.drop_last(), f).push(s.last())
    } else {
        filtered_responses(s.drop_last(), f)
    }
}

pub open spec fn response_values(s: Seq<ResponseSample>) -> Seq<i64>
    decreases s.len(),
{
    if s.len() == 0 {
        Seq::empty()
    } else {
        response_values(s.drop_last()).push(s.last().elapsed)
    }
}

/// How often `e` was recorded in `s`.
pub open spec fn occurrences(s: Seq<ErrorSample>, e: ErrorSample) -> nat
    decreases s.len(),
{
    if s.len() == 0 {
        0
    } else {
        occurrences(s.drop_last(), e) + if s.last() == e {
            1nat
        } else {
            0nat
        }
    }
}

/// The sort position of an error group: by node, then managing node state,
/// then node state.
pub open spec fn error_order(e: ErrorSample) -> int {
    (e.node * 512 + spec_state_order(e.mn_state)) * 512 + spec_state_order(e.cn_state)
}

fn error_key(e: &ErrorSample) -> (r: u32)
    ensures
        r == error_order(*e),
{
    ((e.node as u32) * 512 + state_order(e.mn_state) as u32) * 512 + state_order(e.cn_state) as u32
}

/// The errors with the same kind, node and states, and how many there were.
#[derive(Debug, Clone, Copy, PartialEq, Eq, Structural)]
pub struct ErrorGroup {
    pub error: ErrorSample,
    pub count: u64,
}

/// The content of a store.
pub struct DatabaseView {
    pub socs: Seq<CycleSample>,
    pub responses: Seq<ResponseSample>,
    pub errors: Seq<ErrorSample>,
    pub state_changes: Seq<StateChangeSample>,
    /// Timestamps (nanoseconds) of the first and the last frame seen.
    pub first_ts: Option<i64>,
    pub last_ts: Option<i64>,
    pub num_packets: nat,
}

impl DatabaseView {
    pub open spec fn empty() -> DatabaseView {
        DatabaseView {
            socs: Seq::empty(),
            responses: Seq::empty(),
            errors: Seq::empty(),
            state_changes: Seq::empty(),
            first_ts: None,
            last_ts: None,
            num_packets: 0,
        }
    }

    pub open spec fn with_packet(self, ts: i64) -> DatabaseView {
        DatabaseView {
            first_ts: if self.first_ts is None {
                Some(ts)
            } else {
                self.first_ts
            },
            last_ts: Some(ts),
            num_packets: self.num_packets + 1,
            ..self
        }
    }

    pub open spec fn with_soc(self, s: CycleSample) -> DatabaseView {
        DatabaseView { socs: self.socs.push(s), ..self }
    }

    pub open spec fn with_response(self, s: ResponseSample) -> DatabaseView {
        DatabaseView { responses: self.responses.push(s), ..self }
    }

    pub open spec fn with_error(self, s: ErrorSample) -> DatabaseView {
        DatabaseView { errors: self.errors.push(s), ..self }
    }

    pub open spec fn with_state_change(self, s: StateChangeSample) -> DatabaseView {
        DatabaseView { state_changes: self.state_changes.push(s), ..self }
    }

    /// The values that an aggregate query over `sel` reads.
    pub open spec fn selected_values(self, sel: Selection) -> Seq<i64> {
        match sel {
            Selection::Cycles => cycle_values(self.socs),
            Selection::Responses(f) => response_values(filtered_responses(self.responses, f)),
        }
    }

    /// Some response sample that passes `f` came from node `n`.
    pub open spec fn node_seen(self, f: ResponseFilter, n: u8) -> bool {
        exists|i: int|
            0 <= i < self.responses.len() && f.spec_matches(#[trigger] self.responses[i])
                && self.responses[i].node == n
    }

    /// The capture time: from the first to the last frame, in nanoseconds.
    pub open spec fn total_time(self) -> int {
        match (self.first_ts, self.last_ts) {
            (Some(a), Some(b)) => b - a,
            _ => 0,
        }
    }
}

/// An append-only store of the samples of one analysis run.
pub struct Database {
    socs: Vec<CycleSample>,
    responses: Vec<ResponseSample>,
    errors: Vec<ErrorSample>,
    state_changes: Vec<StateChangeSample>,
    first_ts: Option<i64>,
    last_ts: Option<i64>,
    num_packets: u64,
}

impl View for Database {
    type V = DatabaseView;

    closed spec fn view(&self) -> DatabaseView {
        DatabaseView {
            socs: self.socs@,
            responses: self.responses@,
            errors: self.errors@,
            state_changes: self.state_changes@,
            first_ts: self.first_ts,
            last_ts: self.last_ts,
            num_packets: self.num_packets as nat,
        }
    }
}

impl Database {
    pub fn new() -> (r: Database)
        ensures
            r@ == DatabaseView::empty(),
    {
        Database {
            socs: Vec::new(),
            responses: Vec::new(),
            errors: Vec::new(),
            state_changes: Vec::new(),
            first_ts: None,
            last_ts: None,
            num_packets: 0,
        }
    }

    /// Counts one more frame, seen at `ts` nanoseconds.
    pub fn record_packet(&mut self, ts: i64)
        requires
            old(self)@.num_packets < u64::MAX,
        ensures
            final(self)@ == old(self)@.with_packet(ts),
    {
        if self.first_ts.is_none() {
            self.first_ts = Some(ts);
        }
        self.last_ts = Some(ts);
        self.num_packets = self.num_packets + 1;
    }

    pub fn insert_soc(&mut self, timediff: i64, mn_state: Option<NmtState>)
        ensures
            final(self)@ == old(self)@.with_soc(CycleSample { interval: timediff, mn_state }),
    {
        self.socs.push(CycleSample { interval: timediff, mn_state });
    }

    pub fn insert_response(
        &mut self,
        kind: ResponseKind,
        node_id: u8,
        timediff: i64,
        mn_state: Option<NmtState>,
        cn_state: Option<NmtState>,
    )
        ensures
            final(self)@ == old(self)@.with_response(
                ResponseSample { kind, node: node_id, elapsed: timediff, mn_state, cn_state },
            ),
    {
        self.responses.push(
            ResponseSample { kind, node: node_id, elapsed: timediff, mn_state, cn_state },
        );
    }

    pub fn insert_error(
        &mut self,
        kind: ErrorKind,
        node_id: u8,
        mn_state: Option<NmtState>,
        cn_state: Option<NmtState>,
    )
        ensures
            final(self)@ == old(self)@.with_error(
                ErrorSample { kind, node: node_id, mn_state, cn_state },
            ),
    {
        self.errors.push(ErrorSample { kind, node: node_id, mn_state, cn_state });
    }

    pub fn insert_state_change(&mut self, node_id: u8, state: NmtState, timestamp: i64, packet_id: u64)
        ensures
            final(self)@ == old(self)@.with_state_change(
                StateChangeSample { node: node_id, state, elapsed: timestamp, packet_id },
            ),
    {
        self.state_changes.push(
            StateChangeSample { node: node_id, state, elapsed: timestamp, packet_id },
        );
    }

    /// The response samples that pass `f`, in order of insertion.
    fn select_responses(&self, f: &ResponseFilter) -> (r: Vec<ResponseSample>)
        ensures
            r@ == filtered_responses(self@.responses, *f),
    {
        let mut r: Vec<ResponseSample> = Vec::new();
        let mut i: usize = 0;
        while i < self.responses.len()
            invariant
                i <= self.responses@.len(),
                r@ == filtered_responses(self.responses@.subrange(0, i as int), *f),
            decreases self.responses@.len() - i,
        {
            let s = self.responses[i];
            proof {
                assert(self.responses@.subrange(0, i + 1).drop_last() =~= self.responses@.subrange(
                    0,
                    i as int,
                ));
            }
            if f.matches(&s) {
                r.push(s);
            }
            i = i + 1;
        }
        proof {
            assert(self.responses@.subrange(0, i as int) =~= self.responses@);
        }
        r
    }

    /// The values that an aggregate query over `sel` reads.
    fn select_values(&self, sel: &Selection) -> (r: Vec<i64>)
        ensures
            r@ == self@.selected_values(*sel),
    {
        let mut r: Vec<i64> = Vec::new();
        match sel {
            Selection::Cycles => {
                let mut i: usize = 0;
                while i < self.socs.len()
                    invariant
                        i <= self.socs@.len(),
                        r@ == cycle_values(self.socs@.subrange(0, i as int)),
                    decreases self.socs@.len() - i,
                {
                    proof {
                        assert(self.socs@.subrange(0, i + 1).drop_last() =~= self.socs@.subrange(
                            0,
                            i as int,
                        ));
                    }
                    r.push(self.socs[i].interval);
                    i = i + 1;
                }
                proof {
                    assert(self.socs@.subrange(0, i as int) =~= self.socs@);
                }
            },
            Selection::Responses(f) => {
                let rs = self.select_responses(f);
                let mut i: usize = 0;
                while i < rs.len()
                    invariant
                        i <= rs@.len(),
                        r@ == response_values(rs@.subrange(0, i as int)),
                    decreases rs@.len() - i,
                {
                    proof {
                        assert(rs@.subrange(0, i + 1).drop_last() =~= rs@.subrange(0, i as int));
                    }
                    r.push(rs[i].elapsed);
                    i = i + 1;
                }
                proof {
                    assert(rs@.subrange(0, i as int) =~= rs@);
                }
            },
        }
        r
    }

    /// Aggregates the values of `sel`; `EmptySet` when none matches.
    pub fn get_response_stats(&self, sel: &Selection) -> (r: Result<ResponseStats, StatsError>)
        ensures
            self@.selected_values(*sel).len() == 0 <==> r is Err,
            r matches Ok(st) ==> stats_of(self@.selected_values(*sel), st),
    {
        let values = self.select_values(sel);
        aggregate(&values)
    }

    /// The nearest-rank percentile `num / den` of the values of `sel`.
    pub fn get_percentile(&self, sel: &Selection, num: u64, den: u64) -> (r: Result<i64, StatsError>)
        requires
            num <= den,
            den > 0,
        ensures
            self@.selected_values(*sel).len() == 0 <==> r is Err,
            r matches Ok(x) ==> is_percentile(
                self@.selected_values(*sel),
                num as int,
                den as int,
                x as int,
            ),
    {
        let values = self.select_values(sel);
        percentile(&values, num, den)
    }

    /// The response samples that pass `f`: in order of insertion, or longest
    /// first when `sort` is set.
    pub fn get_raw(&self, f: &ResponseFilter, sort: bool) -> (r: Vec<ResponseSample>)
        ensures
            !sort ==> r@ == filtered_responses(self@.responses, *f),
            sort ==> r@.to_multiset() == filtered_responses(self@.responses, *f).to_multiset(),
            sort ==> forall|i: int, j: int|
                0 <= i <= j < r@.len() ==> r@[i].elapsed >= r@[j].elapsed,
    {
        let rs = self.select_responses(f);
        if sort {
            let sorted = sort_by_key(&rs);
            proof {
                assert forall|i: int, j: int| 0 <= i <= j < sorted@.len() implies sorted@[i].elapsed
                    >= sorted@[j].elapsed by {
                    assert(sorted@[i].spec_key() <= sorted@[j].spec_key());
                }
            }
            sorted
        } else {
            rs
        }
    }

    /// The nodes, ascending and each once, from which a response sample that
    /// passes `f` came.
    pub fn get_nodes(&self, f: &ResponseFilter) -> (r: Vec<u8>)
        ensures
            forall|i: int, j: int| 0 <= i < j < r@.len() ==> r@[i] < r@[j],
            forall|n: u8| r@.contains(n) <==> self@.node_seen(*f, n),
    {
        let mut seen: Vec<bool> = Vec::new();
        let mut k: usize = 0;
        while k < 256
            invariant
                k <= 256,
                seen@.len() == k,
                forall|n: int| 0 <= n < k ==> !seen@[n],
            decreases 256 - k,
        {
            seen.push(false);
            k = k + 1;
        }
        let mut i: usize = 0;
        while i < self.responses.len()
            invariant
                i <= self.responses@.len(),
                seen@.len() == 256,
                forall|n: u8|
                    #[trigger] seen@[n as int] <==> exists|j: int|
                        0 <= j < i && f.spec_matches(#[trigger] self.responses@[j])
                            && self.responses@[j].node == n,
            decreases self.responses@.len() - i,
        {
            let s = self.responses[i];
            if f.matches(&s) {
                seen[s.node as usize] = true;
            }
            proof {
                assert forall|n: u8|
                    (exists|j: int|
                        0 <= j < i + 1 && f.spec_matches(#[trigger] self.responses@[j])
                            && self.responses@[j].node == n) implies #[trigger] seen@[n as int] by {
                    let j = choose|j: int|
                        0 <= j < i + 1 && f.spec_matches(#[trigger] self.responses@[j])
                            && self.responses@[j].node == n;
                    if j < i {
                    } else {
                    }
                }
                assert forall|n: u8|
                    #[trigger] seen@[n as int] implies exists|j: int|
                        0 <= j < i + 1 && f.spec_matches(#[trigger] self.responses@[j])
                            && self.responses@[j].node == n by {
                    if n != s.node {
                        let j = choose|j: int|
                            0 <= j < i && f.spec_matches(#[trigger] self.responses@[j])
                                && self.responses@[j].node == n;
                        assert(0 <= j < i + 1);
                    } else {
                        if f.spec_matches(s) {
                            assert(self.responses@[i as int] == s);
                        } else {
                            let j = choose|j: int|
                                0 <= j < i && f.spec_matches(#[trigger] self.responses@[j])
                                    && self.responses@[j].node == n;
                            assert(0 <= j < i + 1);
                        }
                    }
                }
            }
            i = i + 1;
        }
        let mut r: Vec<u8> = Vec::new();
        let mut n: usize = 0;
        while n < 256
            invariant
                n <= 256,
                seen@.len() == 256,
                forall|a: int, b: int| 0 <= a < b < r@.len() ==> r@[a] < r@[b],
                forall|a: int| 0 <= a < r@.len() ==> r@[a] < n,
                forall|m: u8| r@.contains(m) <==> (m < n && seen@[m as int]),
            decreases 256 - n,
        {
            if seen[n] {
                let ghost old_r = r@;
                r.push(n as u8);
                proof {
                    assert forall|m: u8| r@.contains(m) <==> (m < n + 1 && seen@[m as int]) by {
                        if m == n as u8 {
                            assert(r@[old_r.len() as int] == m);
                        } else if old_r.contains(m) {
                            let a = choose|a: int| 0 <= a < old_r.len() && old_r[a] == m;
                            assert(r@[a] == m);
                        } else if r@.contains(m) {
                            let a = choose|a: int| 0 <= a < r@.len() && r@[a] == m;
                            assert(a < old_r.len());
                            assert(old_r[a] == m);
                        }
                    }
                }
            } else {
                proof {
                    assert forall|m: u8| r@.contains(m) <==> (m < n + 1 && seen@[m as int]) by {
                        if m == n as u8 {
                            if r@.contains(m) {
                                let a = choose|a: int| 0 <= a < r@.len() && r@[a] == m;
                            }
                        }
                    }
                }
            }
            n = n + 1;
        }
        proof {
            assert forall|m: u8| r@.contains(m) <==> self@.node_seen(*f, m) by {
                assert(seen@[m as int] ==> exists|j: int|
                    0 <= j < self.responses@.len() && f.spec_matches(#[trigger] self.responses@[j])
                        && self.responses@[j].node == m);
            }
        }
        r
    }

    /// The errors grouped by kind, node and both states, each group with how
    /// many errors it holds, ordered by node, then managing node state, then
    /// node state.
    pub fn get_errors(&self) -> (r: Vec<ErrorGroup>)
        ensures
            forall|k: int|
                0 <= k < r@.len() ==> #[trigger] r@[k].count == occurrences(
                    self@.errors,
                    r@[k].error,
                ) && r@[k].count > 0,
            forall|e: ErrorSample|
                occurrences(self@.errors, e) > 0 ==> exists|k: int|
                    0 <= k < r@.len() && #[trigger] r@[k].error == e,
            forall|a: int, b: int| 0 <= a < b < r@.len() ==> r@[a].error != r@[b].error,
            forall|a: int, b: int|
                0 <= a <= b < r@.len() ==> error_order(r@[a].error) <= error_order(r@[b].error),
    {
        let mut r: Vec<ErrorGroup> = Vec::new();
        let mut i: usize = 0;
        while i < self.errors.len()
            invariant
                i <= self.errors@.len(),
                forall|k: int|
                    0 <= k < r@.len() ==> #[trigger] r@[k].count == occurrences(
                        self.errors@.subrange(0, i as int),
                        r@[k].error,
                    ) && r@[k].count > 0 && r@[k].count <= i,
                forall|e: ErrorSample|
                    occurrences(self.errors@.subrange(0, i as int), e) > 0 ==> exists|k: int|
                        0 <= k < r@.len() && #[trigger] r@[k].error == e,
                forall|a: int, b: int| 0 <= a < b < r@.len() ==> r@[a].error != r@[b].error,
                forall|a: int, b: int|
                    0 <= a <= b < r@.len() ==> error_order(r@[a].error) <= error_order(
                        r@[b].error,
                    ),
            decreases self.errors@.len() - i,
        {
            let e = self.errors[i];
            let ghost prev = self.errors@.subrange(0, i as int);
            let ghost next = self.errors@.subrange(0, i + 1);
            proof {
                assert(next.drop_last() =~= prev);
                assert(next.last() == e);
            }
            let mut k: usize = 0;
            while k < r.len()
                invariant
                    k <= r@.len(),
                    forall|q: int| 0 <= q < k ==> r@[q].error != e,
                ensures
                    k <= r@.len(),
                    forall|q: int| 0 <= q < k ==> r@[q].error != e,
                    k < r@.len() ==> r@[k as int].error == e,
                decreases r@.len() - k,
            {
                if r[k].error == e {
                    break;
                }
                k = k + 1;
            }
            let ghost old_r = r@;
            if k < r.len() {
                let g = r[k];
                r[k] = ErrorGroup { error: e, count: g.count + 1 };
                proof {
                    assert forall|q: int| 0 <= q < r@.len() implies #[trigger] r@[q].count
                        == occurrences(next, r@[q].error) && r@[q].count > 0 && r@[q].count <= i
                        + 1 by {
                        if q != k {
                            assert(r@[q] == old_r[q]);
                            assert(old_r[k as int].error == e);
                            if q < k {
                                assert(old_r[q].error != old_r[k as int].error);
                            } else {
                                assert(old_r[k as int].error != old_r[q].error);
                            }
                        }
                    }
                    assert forall|x: ErrorSample| occurrences(next, x) > 0 implies exists|q: int|
                        0 <= q < r@.len() && #[trigger] r@[q].error == x by {
                        if x == e {
                            assert(r@[k as int].error == x);
                        } else {
                            assert(occurrences(prev, x) > 0);
                            let q = choose|q: int| 0 <= q < old_r.len() && #[trigger] old_r[q].error == x;
                            assert(r@[q].error == x);
                        }
                    }
                    assert forall|a: int, b: int| 0 <= a <= b < r@.len() implies error_order(
                        r@[a].error,
                    ) <= error_order(r@[b].error) by {
                        assert(r@[a].error == old_r[a].error);
                        assert(r@[b].error == old_r[b].error);
                    }
                    assert forall|a: int, b: int| 0 <= a < b < r@.len() implies r@[a].error
                        != r@[b].error by {
                        assert(r@[a].error == old_r[a].error);
                        assert(r@[b].error == old_r[b].error);
                    }
                }
            } else {
                let key = error_key(&e);
                let mut p: usize = 0;
                while p < r.len() && error_key(&r[p].error) <= key
                    invariant
                        p <= r@.len(),
                        r@ == old_r,
                        key == error_order(e),
                        forall|q: int| 0 <= q < p ==> error_order(r@[q].error) <= key,
                    decreases r@.len() - p,
                {
                    p = p + 1;
                }
                proof {
                    assert(occurrences(prev, e) == 0);
                }
                r.insert(p, ErrorGroup { error: e, count: 1 });
                proof {
                    assert forall|q: int| 0 <= q < r@.len() implies #[trigger] r@[q].count
                        == occurrences(next, r@[q].error) && r@[q].count > 0 && r@[q].count <= i
                        + 1 by {
                        if q < p {
                            assert(r@[q] == old_r[q]);
                        } else if q > p {
                            assert(r@[q] == old_r[q - 1]);
                        }
                    }
                    assert forall|x: ErrorSample| occurrences(next, x) > 0 implies exists|q: int|
                        0 <= q < r@.len() && #[trigger] r@[q].error == x by {
                        if x == e {
                            assert(r@[p as int].error == x);
                        } else {
                            assert(occurrences(prev, x) > 0);
                            let q = choose|q: int| 0 <= q < old_r.len() && #[trigger] old_r[q].error == x;
                            if q < p {
                                assert(r@[q].error == x);
                            } else {
                                assert(r@[q + 1].error == x);
                            }
                        }
                    }
                    assert forall|a: int, b: int| 0 <= a <= b < r@.len() implies error_order(
                        r@[a].error,
                    ) <= error_order(r@[b].error) by {
                        if p < old_r.len() {
                            assert(error_order(old_r[p as int].error) > key);
                        }
                        if a < p && b > p {
                            assert(r@[a] == old_r[a]);
                            assert(r@[b] == old_r[b - 1]);
                        } else if a < p && b == p {
                            assert(r@[a] == old_r[a]);
                        } else if a < p {
                            assert(r@[a] == old_r[a]);
                            assert(r@[b] == old_r[b]);
                        } else if a == p && b > p {
                            assert(r@[b] == old_r[b - 1]);
                            assert(error_order(old_r[p as int].error) <= error_order(
                                old_r[b - 1].error,
                            ));
                        } else if a > p {
                            assert(r@[a] == old_r[a - 1]);
                            assert(r@[b] == old_r[b - 1]);
                        }
                    }
                    assert forall|a: int, b: int| 0 <= a < b < r@.len() implies r@[a].error
                        != r@[b].error by {
                        if a == p {
                            assert(r@[b] == old_r[b - 1]);
                        } else if b == p {
                            assert(r@[a] == old_r[a]);
                        } else if a < p && b < p {
                            assert(r@[a] == old_r[a]);
                            assert(r@[b] == old_r[b]);
                        } else if a < p {
                            assert(r@[a] == old_r[a]);
                            assert(r@[b] == old_r[b - 1]);
                        } else {
                            assert(r@[a] == old_r[a - 1]);
                            assert(r@[b] == old_r[b - 1]);
                        }
                    }
                }
            }
            i = i + 1;
        }
        proof {
            assert(self.errors@.subrange(0, i as int) =~= self.errors@);
        }
        r
    }

    /// All state changes, ordered by the time at which they happened.
    pub fn get_state_changes(&self) -> (r: Vec<StateChangeSample>)
        ensures
            r@.to_multiset() == self@.state_changes.to_multiset(),
            forall|i: int, j: int| 0 <= i <= j < r@.len() ==> r@[i].elapsed <= r@[j].elapsed,
    {
        let r = sort_by_key(&self.state_changes);
        proof {
            assert forall|i: int, j: int| 0 <= i <= j < r@.len() implies r@[i].elapsed
                <= r@[j].elapsed by {
                assert(r@[i].spec_key() <= r@[j].spec_key());
            }
        }
        r
    }

    /// The capture time, from the first to the last frame, in nanoseconds.
    pub fn get_total_time(&self) -> (r: i128)
        ensures
            r == self@.total_time(),
    {
        match (self.first_ts, self.last_ts) {
            (Some(a), Some(b)) => (b as i128) - (a as i128),
            _ => 0,
        }
    }

    pub fn get_total_num_packets(&self) -> (r: u64)
        ensures
            r == self@.num_packets,
    {
        self.num_packets
    }
}

} // verus!
