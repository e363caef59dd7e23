use powerlink_analyzer::database::{ErrorGroup, ResponseFilter, Selection};
use powerlink_analyzer::plkan::{Frame, Plkan};
use powerlink_analyzer::stats::StatsError;
use powerlink_analyzer::types::{ErrorKind, NmtState, ResponseKind};

const SOC: u8 = 0x01;
const PREQ: u8 = 0x03;
const PRES: u8 = 0x04;
const SOA: u8 = 0x05;
const ASND: u8 = 0x06;

fn native(kind: u8, dest: u8, src: u8, byte17: u8) -> Vec<u8> {
    let mut d = vec![0u8; 60];
    d[12] = 0x88;
    d[13] = 0xAB;
    d[14] = kind;
    d[15] = dest;
    d[16] = src;
    d[17] = byte17;
    d
}

fn at(ns: i64, data: Vec<u8>) -> Frame {
    Frame { sec: ns / 1_000_000_000, nsec: (ns % 1_000_000_000) as u32, data }
}

fn soc(ns: i64) -> Frame {
    at(ns, native(SOC, 0xFF, 240, 0))
}

fn preq(ns: i64, dest: u8) -> Frame {
    at(ns, native(PREQ, dest, 240, 0))
}

fn pres(ns: i64, src: u8, state: u8) -> Frame {
    at(ns, native(PRES, 0xFF, src, state))
}

fn soa(ns: i64, mn_state: u8, service: u8, target: u8) -> Frame {
    let mut d = native(SOA, 0xFF, 240, mn_state);
    d[20] = service;
    d[21] = target;
    at(ns, d)
}

fn asnd(ns: i64, src: u8, service: u8, state: u8) -> Frame {
    let mut d = native(ASND, 0xFF, src, service);
    d[20] = state;
    at(ns, d)
}

fn foreign(ns: i64) -> Frame {
    let mut d = vec![0u8; 60];
    d[12] = 0x08;
    d[13] = 0x00;
    at(ns, d)
}

fn analyze(frames: &[Frame]) -> Plkan {
    let mut p = Plkan::new();
    for f in frames {
        p.process_packet(f);
    }
    p
}

fn all_responses() -> ResponseFilter {
    ResponseFilter { kind: None, node: None }
}

fn only(kind: ResponseKind) -> Selection {
    Selection::Responses(ResponseFilter { kind: Some(kind), node: None })
}

#[test]
fn cycle_interval_is_difference_of_consecutive_socs() {
    let p = analyze(&[soc(1_000), soc(401_000), soc(801_500)]);
    let db = p.database();
    let st = db.get_response_stats(&Selection::Cycles).unwrap();
    assert_eq!(st.count, 2);
    assert_eq!(st.min, 400_000);
    assert_eq!(st.max, 400_500);
    assert_eq!(st.sum, 800_500);
}

#[test]
fn first_soc_records_no_interval() {
    let p = analyze(&[soc(5_000)]);
    assert_eq!(p.database().get_response_stats(&Selection::Cycles), Err(StatsError::EmptySet));
}

#[test]
fn cycle_interval_across_second_boundary() {
    let a = Frame { sec: 10, nsec: 999_999_000, data: native(SOC, 0xFF, 240, 0) };
    let b = Frame { sec: 11, nsec: 1_000, data: native(SOC, 0xFF, 240, 0) };
    let p = analyze(&[a, b]);
    let st = p.database().get_response_stats(&Selection::Cycles).unwrap();
    assert_eq!(st.min, 2_000);
    assert!(st.min >= 0);
}

#[test]
fn repeated_state_gives_one_state_change() {
    let p = analyze(&[pres(100, 7, 0xFD), pres(200, 7, 0xFD), pres(300, 7, 0xFD)]);
    let changes = p.database().get_state_changes();
    assert_eq!(changes.len(), 1);
    assert_eq!(changes[0].node, 7);
    assert_eq!(changes[0].state, NmtState::Operational);
    assert_eq!(changes[0].elapsed, 0);
    assert_eq!(changes[0].packet_id, 1);
}

#[test]
fn state_transition_is_recorded() {
    let p = analyze(&[pres(100, 7, 0x5D), pres(250, 7, 0x6D), pres(400, 7, 0x6D)]);
    let changes = p.database().get_state_changes();
    assert_eq!(changes.len(), 2);
    assert_eq!(changes[0].state, NmtState::PreOperational2);
    assert_eq!(changes[1].state, NmtState::ReadyToOperate);
    assert_eq!(changes[1].elapsed, 150);
    assert_eq!(changes[1].packet_id, 2);
}

#[test]
fn invalid_state_byte_is_unknown_state() {
    let p = analyze(&[pres(100, 9, 0x42)]);
    let changes = p.database().get_state_changes();
    assert_eq!(changes.len(), 1);
    assert_eq!(changes[0].state, NmtState::Unknown);
}

#[test]
fn pres_from_node_240_sets_managing_node_state() {
    let p = analyze(&[pres(100, 240, 0xFD), soa(200, 0xFD, 0x00, 0)]);
    let changes = p.database().get_state_changes();
    assert_eq!(changes.len(), 1);
    assert_eq!(changes[0].node, 240);
    assert_eq!(changes[0].state, NmtState::Operational);
}

#[test]
fn pres_from_wrong_node_is_pres_missing() {
    let p = analyze(&[preq(1_000, 5), pres(3_000, 6, 0xFD)]);
    let db = p.database();
    let errors = db.get_errors();
    assert_eq!(errors.len(), 1);
    assert_eq!(errors[0].error.kind, ErrorKind::PResMissing);
    assert_eq!(errors[0].error.node, 5);
    assert_eq!(errors[0].count, 1);
    assert!(db.get_raw(&all_responses(), false).is_empty());
}

#[test]
fn ident_request_answered() {
    let p = analyze(&[soa(10_000, 0xFD, 0x01, 12), asnd(25_000, 12, 0x01, 0x1D)]);
    let db = p.database();
    let rows = db.get_raw(&all_responses(), false);
    assert_eq!(rows.len(), 1);
    assert_eq!(rows[0].kind, ResponseKind::Ident);
    assert_eq!(rows[0].node, 12);
    assert_eq!(rows[0].elapsed, 15_000);
    assert_eq!(rows[0].cn_state, Some(NmtState::PreOperational1));
    assert!(db.get_errors().is_empty());
}

#[test]
fn ident_from_other_node_is_missing() {
    let p = analyze(&[soa(10_000, 0xFD, 0x01, 12), asnd(25_000, 13, 0x01, 0x1D)]);
    let errors = p.database().get_errors();
    assert_eq!(errors.len(), 1);
    assert_eq!(errors[0].error.kind, ErrorKind::IdentResponseMissing);
    assert_eq!(errors[0].error.node, 12);
}

#[test]
fn status_request_answered() {
    let p = analyze(&[soa(0, 0xFD, 0x02, 3), asnd(700, 3, 0x02, 0xFD)]);
    let rows = p.database().get_raw(&all_responses(), false);
    assert_eq!(rows.len(), 1);
    assert_eq!(rows[0].kind, ResponseKind::Status);
    assert_eq!(rows[0].elapsed, 700);
}

#[test]
fn end_to_end_cycle() {
    let frames = [soc(1_000), preq(2_000, 5), pres(5_500, 5, 0xFD), soc(401_000)];
    let p = analyze(&frames);
    let db = p.database();
    let cycles = db.get_response_stats(&Selection::Cycles).unwrap();
    assert_eq!(cycles.count, 1);
    assert_eq!(cycles.min, 400_000);
    let rows = db.get_raw(&all_responses(), false);
    assert_eq!(rows.len(), 1);
    assert_eq!(rows[0].kind, ResponseKind::PRes);
    assert_eq!(rows[0].node, 5);
    assert_eq!(rows[0].elapsed, 3_500);
    let changes = db.get_state_changes();
    assert_eq!(changes.len(), 1);
    assert_eq!(changes[0].node, 5);
    assert_eq!(changes[0].state, NmtState::Operational);
    assert_eq!(changes[0].elapsed, 4_500);
    assert!(db.get_errors().is_empty());
    assert_eq!(db.get_total_num_packets(), 4);
    assert_eq!(db.get_total_time(), 400_000);
}

fn capture() -> Vec<Frame> {
    vec![
        soc(0),
        preq(1_000, 1),
        pres(4_000, 1, 0xFD),
        preq(5_000, 2),
        pres(9_000, 2, 0xFD),
        soa(10_000, 0xFD, 0x01, 3),
        asnd(30_000, 3, 0x01, 0x1D),
        soc(400_000),
        preq(401_000, 1),
        pres(403_000, 1, 0xFD),
        preq(404_000, 2),
        pres(410_000, 3, 0x1D),
        soa(411_000, 0xFD, 0xFF, 4),
        foreign(420_000),
        soc(800_100),
    ]
}

#[test]
fn rerun_gives_identical_stats() {
    let a = analyze(&capture());
    let b = analyze(&capture());
    let selections = [
        Selection::Cycles,
        Selection::Responses(all_responses()),
        only(ResponseKind::PRes),
        only(ResponseKind::Ident),
        only(ResponseKind::Veth),
    ];
    for sel in selections.iter() {
        assert_eq!(a.database().get_response_stats(sel), b.database().get_response_stats(sel));
    }
    assert_eq!(a.database().get_errors(), b.database().get_errors());
    assert_eq!(a.database().get_state_changes(), b.database().get_state_changes());
}

#[test]
fn capture_statistics() {
    let p = analyze(&capture());
    let db = p.database();
    let pres_stats = db.get_response_stats(&only(ResponseKind::PRes)).unwrap();
    assert_eq!(pres_stats.count, 3);
    assert_eq!(pres_stats.min, 2_000);
    assert_eq!(pres_stats.max, 4_000);
    assert_eq!(pres_stats.avg, 3_000);
    assert_eq!(pres_stats.jitter_abs, 1_000);
    let veth = db.get_raw(&ResponseFilter { kind: Some(ResponseKind::Veth), node: None }, false);
    assert_eq!(veth.len(), 1);
    assert_eq!(veth[0].node, 4);
    assert_eq!(veth[0].elapsed, 9_000);
    assert_eq!(db.get_nodes(&ResponseFilter { kind: Some(ResponseKind::PRes), node: None }), vec![1, 2]);
    let errors = db.get_errors();
    assert_eq!(
        errors,
        vec![ErrorGroup {
            error: powerlink_analyzer::types::ErrorSample {
                kind: ErrorKind::PResMissing,
                node: 2,
                mn_state: Some(NmtState::Operational),
                cn_state: Some(NmtState::PreOperational1),
            },
            count: 1,
        }]
    );
}

#[test]
fn foreign_frame_without_invitation_is_unexpected_veth() {
    let p = analyze(&[foreign(100)]);
    let errors = p.database().get_errors();
    assert_eq!(errors.len(), 1);
    assert_eq!(errors[0].error.kind, ErrorKind::UnexpectedVeth);
    assert_eq!(errors[0].error.node, 0);
    assert_eq!(errors[0].error.cn_state, None);
}

#[test]
fn foreign_frame_after_preq_is_unexpected_veth_for_polled_node() {
    let p = analyze(&[preq(100, 8), foreign(200), soc(300)]);
    let errors = p.database().get_errors();
    assert_eq!(errors.len(), 1);
    assert_eq!(errors[0].error.kind, ErrorKind::UnexpectedVeth);
    assert_eq!(errors[0].error.node, 8);
}

#[test]
fn sdo_after_unspecified_invite() {
    let p = analyze(&[soa(1_000, 0xFD, 0xFF, 4), asnd(3_000, 4, 0x05, 0)]);
    let rows = p.database().get_raw(&all_responses(), false);
    assert_eq!(rows.len(), 1);
    assert_eq!(rows[0].kind, ResponseKind::Sdo);
    assert_eq!(rows[0].elapsed, 2_000);
}

#[test]
fn sdo_from_wrong_node() {
    let p = analyze(&[soa(1_000, 0xFD, 0xFF, 4), asnd(3_000, 5, 0x05, 0)]);
    let errors = p.database().get_errors();
    assert_eq!(errors.len(), 1);
    assert_eq!(errors[0].error.kind, ErrorKind::SdoFromWrongNode);
    assert_eq!(errors[0].error.node, 4);
}

#[test]
fn nmt_request_invite_expects_nmt_command() {
    let p = analyze(&[soa(1_000, 0xFD, 0x03, 6), asnd(1_800, 6, 0x04, 0)]);
    let rows = p.database().get_raw(&all_responses(), false);
    assert_eq!(rows.len(), 1);
    assert_eq!(rows[0].kind, ResponseKind::NmtCommand);
    assert_eq!(rows[0].elapsed, 800);
}

#[test]
fn nmt_command_from_wrong_node_and_unexpected_packet() {
    let p = analyze(&[
        soa(1_000, 0xFD, 0x03, 6),
        asnd(1_800, 7, 0x04, 0),
        soa(2_000, 0xFD, 0x03, 6),
        soc(2_500),
    ]);
    let errors = p.database().get_errors();
    assert_eq!(errors.len(), 2);
    let kinds: Vec<ErrorKind> = errors.iter().map(|g| g.error.kind).collect();
    assert!(kinds.contains(&ErrorKind::NmtFromWrongNode));
    assert!(kinds.contains(&ErrorKind::UnexpectedPacketAfterSoa));
}

#[test]
fn soa_without_service_sets_no_expectation() {
    let p = analyze(&[soa(1_000, 0xFD, 0x00, 6), soc(2_000)]);
    assert!(p.database().get_errors().is_empty());
    assert!(p.database().get_raw(&all_responses(), false).is_empty());
}

#[test]
fn unknown_requested_service_sets_no_expectation() {
    let p = analyze(&[soa(1_000, 0xFD, 0x77, 6), soc(2_000)]);
    assert!(p.database().get_errors().is_empty());
}

#[test]
fn short_native_frame_is_malformed() {
    let mut d = native(PRES, 0xFF, 9, 0xFD);
    d.truncate(17);
    let p = analyze(&[preq(100, 9), at(200, d), soc(300)]);
    let errors = p.database().get_errors();
    assert_eq!(errors.len(), 1);
    assert_eq!(errors[0].error.kind, ErrorKind::MalformedFrame);
    assert_eq!(errors[0].error.node, 9);
    assert!(p.database().get_state_changes().is_empty());
}

#[test]
fn short_soa_is_malformed() {
    let mut d = native(SOA, 0xFF, 240, 0xFD);
    d.truncate(21);
    let p = analyze(&[at(100, d)]);
    let errors = p.database().get_errors();
    assert_eq!(errors.len(), 1);
    assert_eq!(errors[0].error.kind, ErrorKind::MalformedFrame);
}

#[test]
fn into_database_keeps_samples() {
    let p = analyze(&[soc(0), soc(1_000)]);
    let db = p.into_database();
    assert_eq!(db.get_total_num_packets(), 2);
    assert_eq!(db.get_response_stats(&Selection::Cycles).unwrap().min, 1_000);
}
