//! The protocol analyzer: a single pass over the captured frames that tracks
//! the state of every node, pairs requests with their responses and records
//! what it finds in the metrics store.
use vstd::prelude::*;
use crate::types::{
    PacketType, ServiceId, NmtState, ResponseKind, ErrorKind, CycleSample, ResponseSample,
    ErrorSample, StateChangeSample,
};
use crate::database::{Database, DatabaseView};

verus! {

/// The largest number of whole seconds a frame timestamp may hold, so that
/// timestamps and their differences fit in `i64` nanoseconds.
pub const MAX_SECONDS: i64 = 4_000_000_000;

/// The node id under which the managing node reports its state.
pub const MN_NODE_ID: u8 = 240;

/// One captured frame: its timestamp and the bytes captured from the link
/// layer on.
pub struct Frame {
    pub sec: i64,
    pub nsec: u32,
    pub data: Vec<u8>,
}

pub open spec fn ts_in_range(t: int) -> bool {
    -MAX_SECONDS * 1_000_000_000 <= t < MAX_SECONDS * 1_000_000_000 + 1_000_000_000
}

impl Frame {
    /// The timestamp is a second count in range and a sub-second remainder.
    pub open spec fn wf(&self) -> bool {
        &&& self.nsec < 1_000_000_000
        &&& -MAX_SECONDS <= self.sec <= MAX_SECONDS
    }

    pub open spec fn spec_nanos(&self) -> int {
        self.sec * 1_000_000_000 + self.nsec
    }

    /// The timestamp in nanoseconds.
    pub open spec fn ts(&self) -> i64 {
        self.spec_nanos() as i64
    }

    pub fn nanos(&self) -> (r: i64)
        requires
            self.wf(),
        ensures
            r == self.spec_nanos(),
            r == self.ts(),
            ts_in_range(r as int),
    {
        self.sec * 1_000_000_000 + self.nsec as i64
    }
}

/// The frame carries the protocol's EtherType and its common header
/// (message type, destination, source).
pub open spec fn is_native(d: Seq<u8>) -> bool {
    d.len() >= 17 && d[12] == 0x88 && d[13] == 0xAB
}

pub open spec fn packet_type(d: Seq<u8>) -> Option<PacketType> {
    PacketType::spec_from_u8(d[14])
}

/// An ASnd service whose payload reports the sender's state at offset 20.
pub open spec fn reports_state(s: Option<ServiceId>) -> bool {
    s == Some(ServiceId::Ident) || s == Some(ServiceId::Status)
}

/// A native frame too short for the fields that its message type carries.
pub open spec fn is_malformed(d: Seq<u8>) -> bool {
    match packet_type(d) {
        Some(PacketType::PRes) => d.len() < 18,
        Some(PacketType::SoA) => d.len() < 22,
        Some(PacketType::ASnd) => d.len() < 18 || (reports_state(ServiceId::spec_from_u8(d[17]))
            && d.len() < 21),
        _ => false,
    }
}

/// The response that the analyzer waits for.
#[derive(Debug, Clone, Copy, PartialEq, Eq, Structural)]
pub enum Expectation {
    Idle,
    /// A PRes from `node`, polled at `since` (nanoseconds).
    PRes { node: u8, since: i64 },
    /// An answer to the `service` that a SoA at `since` assigned to `node`.
    Service { service: ServiceId, node: u8, since: i64 },
}

/// The state of the analyzer, the metrics store included.
pub struct PlkanView {
    pub db: DatabaseView,
    /// Timestamp of the last SoC.
    pub soc_ts: Option<i64>,
    pub expectation: Expectation,
    pub mn_state: Option<NmtState>,
    /// The last state seen of each node id.
    pub cn_state: Seq<Option<NmtState>>,
    /// Timestamp of the first frame.
    pub first_ts: Option<i64>,
}

impl PlkanView {
    pub open spec fn initial() -> PlkanView {
        PlkanView {
            db: DatabaseView::empty(),
            soc_ts: None,
            expectation: Expectation::Idle,
            mn_state: None,
            cn_state: Seq::new(256, |i: int| None),
            first_ts: None,
        }
    }

    pub open spec fn wf(self) -> bool {
        &&& self.cn_state.len() == 256
        &&& (self.soc_ts matches Some(t) ==> ts_in_range(t as int))
        &&& (self.first_ts matches Some(t) ==> ts_in_range(t as int))
        &&& (self.expectation matches Expectation::PRes { since, .. } ==> ts_in_range(since as int))
        &&& (self.expectation matches Expectation::Service { since, .. } ==> ts_in_range(
            since as int,
        ))
    }

    pub open spec fn with_db(self, db: DatabaseView) -> PlkanView {
        PlkanView { db, ..self }
    }

    pub open spec fn with_expectation(self, e: Expectation) -> PlkanView {
        PlkanView { expectation: e, ..self }
    }

    /// The node state recorded for `id`.
    pub open spec fn cn(self, id: u8) -> Option<NmtState> {
        self.cn_state[id as int]
    }

    /// Counts the frame and notes the first timestamp.
    pub open spec fn begin(self, f: Frame) -> PlkanView {
        PlkanView {
            db: self.db.with_packet(f.ts()),
            first_ts: if self.first_ts is None {
                Some(f.ts())
            } else {
                self.first_ts
            },
            ..self
        }
    }

    /// Records `st` as the managing node's state, and the change if it is one.
    pub open spec fn set_mn(self, st: NmtState, f: Frame) -> PlkanView {
        if self.mn_state == Some(st) {
            self
        } else {
            PlkanView {
                mn_state: Some(st),
                db: self.db.with_state_change(
                    StateChangeSample {
                        node: MN_NODE_ID,
                        state: st,
                        elapsed: (f.ts() - self.first_ts->0) as i64,
                        packet_id: self.db.num_packets as u64,
                    },
                ),
                ..self
            }
        }
    }

    /// Records `st` as the state of node `id`, and the change if it is one.
    pub open spec fn set_cn(self, id: u8, st: NmtState, f: Frame) -> PlkanView {
        if self.cn(id) == Some(st) {
            self
        } else {
            PlkanView {
                cn_state: self.cn_state.update(id as int, Some(st)),
                db: self.db.with_state_change(
                    StateChangeSample {
                        node: id,
                        state: st,
                        elapsed: (f.ts() - self.first_ts->0) as i64,
                        packet_id: self.db.num_packets as u64,
                    },
                ),
                ..self
            }
        }
    }

    /// A state reported by node `src`.
    pub open spec fn set_state_of(self, src: u8, st: NmtState, f: Frame) -> PlkanView {
        if src == MN_NODE_ID {
            self.set_mn(st, f)
        } else {
            self.set_cn(src, st, f)
        }
    }

    /// The state that the frame announces.
    pub open spec fn observe(self, f: Frame) -> PlkanView {
        let d = f.data@;
        match packet_type(d) {
            Some(PacketType::SoA) => self.set_mn(NmtState::spec_from_u8(d[17]), f),
            Some(PacketType::PRes) => self.set_state_of(d[16], NmtState::spec_from_u8(d[17]), f),
            Some(PacketType::ASnd) => if reports_state(ServiceId::spec_from_u8(d[17])) {
                self.set_state_of(d[16], NmtState::spec_from_u8(d[20]), f)
            } else {
                self
            },
            _ => self,
        }
    }

    /// The interval between consecutive SoC frames.
    pub open spec fn cyclic(self, f: Frame) -> PlkanView {
        if packet_type(f.data@) == Some(PacketType::SoC) {
            PlkanView {
                db: match self.soc_ts {
                    Some(t0) => self.db.with_soc(
                        CycleSample { interval: (f.ts() - t0) as i64, mn_state: self.mn_state },
                    ),
                    None => self.db,
                },
                soc_ts: Some(f.ts()),
                ..self
            }
        } else {
            self
        }
    }

    pub open spec fn response(self, kind: ResponseKind, node: u8, since: i64, f: Frame) -> PlkanView {
        self.with_db(
            self.db.with_response(
                ResponseSample {
                    kind,
                    node,
                    elapsed: (f.ts() - since) as i64,
                    mn_state: self.mn_state,
                    cn_state: self.cn(f.data@[16]),
                },
            ),
        )
    }

    pub open spec fn error(self, kind: ErrorKind, node: u8, f: Frame) -> PlkanView {
        self.with_db(
            self.db.with_error(
                ErrorSample {
                    kind,
                    node,
                    mn_state: self.mn_state,
                    cn_state: self.cn(f.data@[16]),
                },
            ),
        )
    }

    /// The frame checked against the response that was expected.
    pub open spec fn correlate(self, f: Frame) -> PlkanView {
        let d = f.data@;
        let src = d[16];
        let asnd = packet_type(d) == Some(PacketType::ASnd);
        let svc = ServiceId::spec_from_u8(d[17]);
        match self.expectation {
            Expectation::Idle => self,
            Expectation::PRes { node, since } => {
                if packet_type(d) == Some(PacketType::PRes) && src == node {
                    self.response(ResponseKind::PRes, src, since, f)
                } else {
                    self.error(ErrorKind::PResMissing, node, f)
                }
            },
            Expectation::Service { service, node, since } => {
                match service {
                    ServiceId::Unspecified => {
                        if asnd && svc == Some(ServiceId::Sdo) {
                            if src == node {
                                self.response(ResponseKind::Sdo, src, since, f)
                            } else {
                                self.error(ErrorKind::SdoFromWrongNode, node, f)
                            }
                        } else {
                            self.response(ResponseKind::Veth, node, since, f)
                        }
                    },
                    ServiceId::NmtCommand => {
                        if asnd && svc == Some(ServiceId::NmtCommand) {
                            if src == node {
                                self.response(ResponseKind::NmtCommand, src, since, f)
                            } else {
                                self.error(ErrorKind::NmtFromWrongNode, node, f)
                            }
                        } else {
                            self.error(ErrorKind::UnexpectedPacketAfterSoa, node, f)
                        }
                    },
                    ServiceId::Ident => {
                        if asnd && svc == Some(ServiceId::Ident) && src == node {
                            self.response(ResponseKind::Ident, src, since, f)
                        } else {
                            self.error(ErrorKind::IdentResponseMissing, node, f)
                        }
                    },
                    ServiceId::Status => {
                        if asnd && svc == Some(ServiceId::Status) && src == node {
                            self.response(ResponseKind::Status, src, since, f)
                        } else {
                            self.error(ErrorKind::StatusResponseMissing, node, f)
                        }
                    },
                    _ => self,
                }
            },
        }
    }

    /// The response that this frame asks for.
    pub open spec fn request(self, f: Frame) -> PlkanView {
        let d = f.data@;
        match packet_type(d) {
            Some(PacketType::PReq) => self.with_expectation(
                Expectation::PRes { node: d[15], since: f.ts() },
            ),
            Some(PacketType::SoA) => match ServiceId::spec_from_u8(d[20]) {
                None => self.with_expectation(Expectation::Idle),
                Some(ServiceId::NoService) => self.with_expectation(Expectation::Idle),
                Some(ServiceId::NmtRequestInvite) => self.with_expectation(
                    Expectation::Service {
                        service: ServiceId::NmtCommand,
                        node: d[21],
                        since: f.ts(),
                    },
                ),
                Some(s) => self.with_expectation(
                    Expectation::Service { service: s, node: d[21], since: f.ts() },
                ),
            },
            _ => self.with_expectation(Expectation::Idle),
        }
    }

    /// A frame of another protocol: only an answer to an unspecified
    /// invitation may carry it.
    pub open spec fn foreign(self, f: Frame) -> PlkanView {
        let v = match self.expectation {
            Expectation::Service { service: ServiceId::Unspecified, node, since } => self.with_db(
                self.db.with_response(
                    ResponseSample {
                        kind: ResponseKind::Veth,
                        node,
                        elapsed: (f.ts() - since) as i64,
                        mn_state: self.mn_state,
                        cn_state: None,
                    },
                ),
            ),
            Expectation::PRes { node, .. } => self.with_db(
                self.db.with_error(
                    ErrorSample {
                        kind: ErrorKind::UnexpectedVeth,
                        node,
                        mn_state: self.mn_state,
                        cn_state: None,
                    },
                ),
            ),
            Expectation::Service { node, .. } => self.with_db(
                self.db.with_error(
                    ErrorSample {
                        kind: ErrorKind::UnexpectedVeth,
                        node,
                        mn_state: self.mn_state,
                        cn_state: None,
                    },
                ),
            ),
            Expectation::Idle => self.with_db(
                self.db.with_error(
                    ErrorSample {
                        kind: ErrorKind::UnexpectedVeth,
                        node: 0,
                        mn_state: self.mn_state,
                        cn_state: None,
                    },
                ),
            ),
        };
        v.with_expectation(Expectation::Idle)
    }

    /// A native frame too short for its fields: recorded and otherwise
    /// skipped.
    pub open spec fn malformed(self, f: Frame) -> PlkanView {
        self.error(ErrorKind::MalformedFrame, f.data@[16], f).with_expectation(Expectation::Idle)
    }

    /// What processing frame `f` does to the state.
    pub open spec fn step(self, f: Frame) -> PlkanView {
        let v = self.begin(f);
        let d = f.data@;
        if !is_native(d) {
            v.foreign(f)
        } else if is_malformed(d) {
            v.malformed(f)
        } else {
            v.observe(f).cyclic(f).correlate(f).with_expectation(Expectation::Idle).request(f)
        }
    }
}

/// The state after processing `frames` in order, starting from `v`.
pub open spec fn run(v: PlkanView, frames: Seq<Frame>) -> PlkanView
    decreases frames.len(),
{
    if frames.len() == 0 {
        v
    } else {
        run(v, frames.drop_last()).step(frames.last())
    }
}

/// The analyzer of one capture; it owns the metrics store it fills.
pub struct Plkan {
    db: Database,
    soc_ts: Option<i64>,
    expectation: Expectation,
    mn_state: Option<NmtState>,
    cn_state: Vec<Option<NmtState>>,
    first_ts: Option<i64>,
}

impl View for Plkan {
    type V = PlkanView;

    closed spec fn view(&self) -> PlkanView {
        PlkanView {
            db: self.db@,
            soc_ts: self.soc_ts,
            expectation: self.expectation,
            mn_state: self.mn_state,
            cn_state: self.cn_state@,
            first_ts: self.first_ts,
        }
    }
}

fn same_state(a: Option<NmtState>, b: NmtState) -> (r: bool)
    ensures
        r == (a == Some(b)),
{
    match a {
        Some(x) => x == b,
        None => false,
    }
}

impl Plkan {
    pub fn new() -> (r: Plkan)
        ensures
            r@ == PlkanView::initial(),
            r@.wf(),
    {
        let mut cn_state: Vec<Option<NmtState>> = Vec::new();
        let mut i: usize = 0;
        while i < 256
            invariant
                i <= 256,
                cn_state@.len() == i,
                forall|j: int| 0 <= j < i ==> cn_state@[j] is None,
            decreases 256 - i,
        {
            cn_state.push(None);
            i = i + 1;
        }
        let r = Plkan {
            db: Database::new(),
            soc_ts: None,
            expectation: Expectation::Idle,
            mn_state: None,
            cn_state,
            first_ts: None,
        };
        proof {
            assert(r@.cn_state =~= PlkanView::initial().cn_state);
        }
        r
    }

    /// The metrics store filled so far.
    pub fn database(&self) -> (r: &Database)
        ensures
            r@ == self@.db,
    {
        &self.db
    }

    /// Ends the analysis and hands over the metrics store.
    pub fn into_database(self) -> (r: Database)
        ensures
            r@ == self@.db,
    {
        self.db
    }

    /// Processes one frame; frames must come in capture order.
    pub fn process_packet(&mut self, packet: &Frame)
        requires
            old(self)@.wf(),
            packet.wf(),
            old(self)@.db.num_packets < u64::MAX,
        ensures
            final(self)@.wf(),
            final(self)@ == old(self)@.step(*packet),
    {
        let ts = packet.nanos();
        if self.first_ts.is_none() {
            self.first_ts = Some(ts);
        }
        self.db.record_packet(ts);
        if !Self::is_powerlink(packet) {
            self.process_foreign(packet);
        } else if Self::is_malformed(packet) {
            let src = packet.data[16];
            let cn = self.cn_state[src as usize];
            self.db.insert_error(ErrorKind::MalformedFrame, src, self.mn_state, cn);
            self.reset_expectations();
        } else {
            self.process_state(packet);
            self.process_cyclic(packet);
            self.process_response(packet);
            self.reset_expectations();
            self.process_request(packet);
        }
    }

    fn is_powerlink(packet: &Frame) -> (r: bool)
        ensures
            r == is_native(packet.data@),
    {
        packet.data.len() >= 17 && packet.data[12] == 0x88 && packet.data[13] == 0xAB
    }

    fn is_malformed(packet: &Frame) -> (r: bool)
        requires
            is_native(packet.data@),
        ensures
            r == is_malformed(packet.data@),
    {
        let d = &packet.data;
        match PacketType::from_u8(d[14]) {
            Some(PacketType::PRes) => d.len() < 18,
            Some(PacketType::SoA) => d.len() < 22,
            Some(PacketType::ASnd) => {
                if d.len() < 18 {
                    true
                } else {
                    let svc = ServiceId::from_u8(d[17]);
                    let reports = match svc {
                        Some(ServiceId::Ident) => true,
                        Some(ServiceId::Status) => true,
                        _ => false,
                    };
                    reports && d.len() < 21
                }
            },
            _ => false,
        }
    }

    fn process_foreign(&mut self, packet: &Frame)
        requires
            old(self)@.wf(),
            packet.wf(),
        ensures
            final(self)@.wf(),
            final(self)@ == old(self)@.foreign(*packet),
    {
        let mn = self.mn_state;
        match self.expectation {
            Expectation::Service { service: ServiceId::Unspecified, node, since } => {
                let elapsed = packet.nanos() - since;
                self.db.insert_response(ResponseKind::Veth, node, elapsed, mn, None);
            },
            Expectation::PRes { node, .. } => {
                self.db.insert_error(ErrorKind::UnexpectedVeth, node, mn, None);
            },
            Expectation::Service { node, .. } => {
                self.db.insert_error(ErrorKind::UnexpectedVeth, node, mn, None);
            },
            Expectation::Idle => {
                self.db.insert_error(ErrorKind::UnexpectedVeth, 0, mn, None);
            },
        }
        self.reset_expectations();
    }

    fn set_mn_state(&mut self, state: NmtState, packet: &Frame)
        requires
            old(self)@.wf(),
            old(self)@.first_ts is Some,
            packet.wf(),
        ensures
            final(self)@.wf(),
            final(self)@ == old(self)@.set_mn(state, *packet),
    {
        if !same_state(self.mn_state, state) {
            self.mn_state = Some(state);
            let first = self.first_ts.unwrap();
            let elapsed = packet.nanos() - first;
            let packet_id = self.db.get_total_num_packets();
            self.db.insert_state_change(MN_NODE_ID, state, elapsed, packet_id);
        }
    }

    fn set_cn_state(&mut self, id: u8, state: NmtState, packet: &Frame)
        requires
            old(self)@.wf(),
            old(self)@.first_ts is Some,
            packet.wf(),
        ensures
            final(self)@.wf(),
            final(self)@ == old(self)@.set_cn(id, state, *packet),
    {
        if !same_state(self.cn_state[id as usize], state) {
            self.cn_state.set(id as usize, Some(state));
            let first = self.first_ts.unwrap();
            let elapsed = packet.nanos() - first;
            let packet_id = self.db.get_total_num_packets();
            self.db.insert_state_change(id, state, elapsed, packet_id);
        }
    }

    fn set_state_of(&mut self, src: u8, state: NmtState, packet: &Frame)
        requires
            old(self)@.wf(),
            old(self)@.first_ts is Some,
            packet.wf(),
        ensures
            final(self)@.wf(),
            final(self)@ == old(self)@.set_state_of(src, state, *packet),
    {
        if src == MN_NODE_ID {
            self.set_mn_state(state, packet);
        } else {
            self.set_cn_state(src, state, packet);
        }
    }

    fn process_state(&mut self, packet: &Frame)
        requires
            old(self)@.wf(),
            old(self)@.first_ts is Some,
            packet.wf(),
            is_native(packet.data@),
            !is_malformed(packet.data@),
        ensures
            final(self)@.wf(),
            final(self)@ == old(self)@.observe(*packet),
            final(self)@.first_ts == old(self)@.first_ts,
    {
        let d = &packet.data;
        match PacketType::from_u8(d[14]) {
            Some(PacketType::SoA) => {
                self.set_mn_state(NmtState::from_u8(d[17]), packet);
            },
            Some(PacketType::PRes) => {
                self.set_state_of(d[16], NmtState::from_u8(d[17]), packet);
            },
            Some(PacketType::ASnd) => {
                let svc = ServiceId::from_u8(d[17]);
                let reports = match svc {
                    Some(ServiceId::Ident) => true,
                    Some(ServiceId::Status) => true,
                    _ => false,
                };
                if reports {
                    self.set_state_of(d[16], NmtState::from_u8(d[20]), packet);
                }
            },
            _ => {},
        }
    }

    fn process_cyclic(&mut self, packet: &Frame)
        requires
            old(self)@.wf(),
            packet.wf(),
            is_native(packet.data@),
        ensures
            final(self)@.wf(),
            final(self)@ == old(self)@.cyclic(*packet),
    {
        let ts = packet.nanos();
        match PacketType::from_u8(packet.data[14]) {
            Some(PacketType::SoC) => {
                if let Some(soc_ts) = self.soc_ts {
                    self.db.insert_soc(ts - soc_ts, self.mn_state);
                }
                self.soc_ts = Some(ts);
            },
            _ => {},
        }
    }

    fn record_response(&mut self, kind: ResponseKind, node: u8, since: i64, packet: &Frame)
        requires
            old(self)@.wf(),
            packet.wf(),
            is_native(packet.data@),
            ts_in_range(since as int),
        ensures
            final(self)@.wf(),
            final(self)@ == old(self)@.response(kind, node, since, *packet),
    {
        let elapsed = packet.nanos() - since;
        let cn = self.cn_state[packet.data[16] as usize];
        self.db.insert_response(kind, node, elapsed, self.mn_state, cn);
    }

    fn record_error(&mut self, kind: ErrorKind, node: u8, packet: &Frame)
        requires
            old(self)@.wf(),
            is_native(packet.data@),
        ensures
            final(self)@.wf(),
            final(self)@ == old(self)@.error(kind, node, *packet),
    {
        let cn = self.cn_state[packet.data[16] as usize];
        self.db.insert_error(kind, node, self.mn_state, cn);
    }

    fn process_response(&mut self, packet: &Frame)
        requires
            old(self)@.wf(),
            packet.wf(),
            is_native(packet.data@),
            !is_malformed(packet.data@),
        ensures
            final(self)@.wf(),
            final(self)@ == old(self)@.correlate(*packet),
    {
        let d = &packet.data;
        let src = d[16];
        let ptype = PacketType::from_u8(d[14]);
        let asnd = match ptype {
            Some(PacketType::ASnd) => true,
            _ => false,
        };
        let svc = if asnd {
            ServiceId::from_u8(d[17])
        } else {
            None
        };
        let is_svc = |want: ServiceId| -> (r: bool)
            ensures
                r == (asnd && ServiceId::spec_from_u8(d@[17]) == Some(want)),
            {
                match svc {
                    Some(s) => s == want,
                    None => false,
                }
            };
        match self.expectation {
            Expectation::Idle => {},
            Expectation::PRes { node, since } => {
                let is_pres = match ptype {
                    Some(PacketType::PRes) => true,
                    _ => false,
                };
                if is_pres && src == node {
                    self.record_response(ResponseKind::PRes, src, since, packet);
                } else {
                    self.record_error(ErrorKind::PResMissing, node, packet);
                }
            },
            Expectation::Service { service, node, since } => {
                match service {
                    ServiceId::Unspecified => {
                        if is_svc(ServiceId::Sdo) {
                            if src == node {
                                self.record_response(ResponseKind::Sdo, src, since, packet);
                            } else {
                                self.record_error(ErrorKind::SdoFromWrongNode, node, packet);
                            }
                        } else {
                            self.record_response(ResponseKind::Veth, node, since, packet);
                        }
                    },
                    ServiceId::NmtCommand => {
                        if is_svc(ServiceId::NmtCommand) {
                            if src == node {
                                self.record_response(ResponseKind::NmtCommand, src, since, packet);
                            } else {
                                self.record_error(ErrorKind::NmtFromWrongNode, node, packet);
                            }
                        } else {
                            self.record_error(ErrorKind::UnexpectedPacketAfterSoa, node, packet);
                        }
                    },
                    ServiceId::Ident => {
                        if is_svc(ServiceId::Ident) && src == node {
                            self.record_response(ResponseKind::Ident, src, since, packet);
                        } else {
                            self.record_error(ErrorKind::IdentResponseMissing, node, packet);
                        }
                    },
                    ServiceId::Status => {
                        if is_svc(ServiceId::Status) && src == node {
                            self.record_response(ResponseKind::Status, src, since, packet);
                        } else {
                            self.record_error(ErrorKind::StatusResponseMissing, node, packet);
                        }
                    },
                    _ => {},
                }
            },
        }
    }

    fn reset_expectations(&mut self)
        requires
            old(self)@.wf(),
        ensures
            final(self)@.wf(),
            final(self)@ == old(self)@.with_expectation(Expectation::Idle),
    {
        self.expectation = Expectation::Idle;
    }

    fn process_request(&mut self, packet: &Frame)
        requires
            old(self)@.wf(),
            packet.wf(),
            is_native(packet.data@),
            !is_malformed(packet.data@),
            old(self)@.expectation == Expectation::Idle,
        ensures
            final(self)@.wf(),
            final(self)@ == old(self)@.request(*packet),
    {
        let d = &packet.data;
        match PacketType::from_u8(d[14]) {
            Some(PacketType::PReq) => {
                self.expectation = Expectation::PRes { node: d[15], since: packet.nanos() };
            },
            Some(PacketType::SoA) => {
                let target = d[21];
                match ServiceId::from_u8(d[20]) {
                    None => {},
                    Some(ServiceId::NoService) => {},
                    Some(ServiceId::NmtRequestInvite) => {
                        self.expectation = Expectation::Service {
                            service: ServiceId::NmtCommand,
                            node: target,
                            since: packet.nanos(),
                        };
                    },
                    Some(service) => {
                        self.expectation = Expectation::Service {
                            service,
                            node: target,
                            since: packet.nanos(),
                        };
                    },
                }
            },
            _ => {},
        }
    }
}

} // verus!
