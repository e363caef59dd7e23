use powerlink_analyzer::database::{Database, ErrorGroup, ResponseFilter, Selection};
use powerlink_analyzer::report::{CsvPrinter, StdoutPrinter};
use powerlink_analyzer::stats::{aggregate, percentile, StatsError};
use powerlink_analyzer::types::{
    ErrorKind, ErrorSample, NmtState, PacketType, ResponseKind, ServiceId,
};

#[test]
fn percentile_nearest_rank_on_four_values() {
    let v = vec![10, 20, 30, 40];
    assert_eq!(percentile(&v, 1, 4), Ok(10));
    assert_eq!(percentile(&v, 1, 2), Ok(20));
    assert_eq!(percentile(&v, 3, 4), Ok(30));
    assert_eq!(percentile(&v, 1, 1), Ok(40));
    assert_eq!(percentile(&v, 0, 1), Ok(10));
}

#[test]
fn median_of_odd_count_is_middle() {
    assert_eq!(percentile(&vec![3, 8, 9, 12, 50], 1, 2), Ok(9));
    assert_eq!(percentile(&vec![50, 3, 12, 9, 8], 1, 2), Ok(9));
    assert_eq!(percentile(&vec![7], 1, 2), Ok(7));
}

#[test]
fn percentile_rounds_rank_up() {
    // ceil(3 * 1/2) = 2: the second smallest value.
    assert_eq!(percentile(&vec![5, 1, 3], 1, 2), Ok(3));
    // ceil(5 * 1/4) = 2.
    assert_eq!(percentile(&vec![10, 20, 30, 40, 50], 1, 4), Ok(20));
}

#[test]
fn percentile_of_empty_set_fails() {
    assert_eq!(percentile(&vec![], 1, 2), Err(StatsError::EmptySet));
}

#[test]
fn aggregate_exact_values() {
    let st = aggregate(&vec![100, 400, 250, 250]).unwrap();
    assert_eq!(st.count, 4);
    assert_eq!(st.min, 100);
    assert_eq!(st.max, 400);
    assert_eq!(st.sum, 1_000);
    assert_eq!(st.avg, 250);
    assert_eq!(st.jitter_abs, 150);
    assert_eq!(st.quartile1, 100);
    assert_eq!(st.median, 250);
    assert_eq!(st.quartile3, 250);
}

#[test]
fn aggregate_mean_between_extremes_and_jitter_one_sided() {
    let st = aggregate(&vec![1, 2, 10]).unwrap();
    assert_eq!(st.avg, 4);
    assert!(st.min <= st.avg && st.avg <= st.max);
    assert_eq!(st.jitter_abs, 6);
}

#[test]
fn aggregate_truncates_negative_mean_toward_zero() {
    let st = aggregate(&vec![-1, -2]).unwrap();
    assert_eq!(st.avg, -1);
    assert_eq!(st.jitter_abs, 1);
}

#[test]
fn aggregate_extreme_values() {
    let st = aggregate(&vec![i64::MIN, i64::MAX]).unwrap();
    assert_eq!(st.sum, -1);
    assert_eq!(st.avg, 0);
    assert_eq!(st.jitter_abs, 1u64 << 63);
}

#[test]
fn aggregate_of_empty_set_fails() {
    assert_eq!(aggregate(&vec![]), Err(StatsError::EmptySet));
}

#[test]
fn single_value_aggregate() {
    let st = aggregate(&vec![42]).unwrap();
    assert_eq!((st.min, st.max, st.avg, st.jitter_abs), (42, 42, 42, 0));
    assert_eq!((st.quartile1, st.median, st.quartile3), (42, 42, 42));
}

fn sample_store() -> Database {
    let mut db = Database::new();
    db.insert_response(ResponseKind::PRes, 3, 500, None, None);
    db.insert_response(ResponseKind::PRes, 1, 900, None, None);
    db.insert_response(ResponseKind::Sdo, 240, 7_000, None, None);
    db.insert_response(ResponseKind::PRes, 3, 700, None, None);
    db.insert_soc(400_000, Some(NmtState::Operational));
    db
}

#[test]
fn store_selects_by_kind_and_node() {
    let db = sample_store();
    let f = ResponseFilter { kind: Some(ResponseKind::PRes), node: Some(3) };
    let st = db.get_response_stats(&Selection::Responses(f)).unwrap();
    assert_eq!((st.count, st.min, st.max, st.avg), (2, 500, 700, 600));
    let sdo = ResponseFilter { kind: Some(ResponseKind::Sdo), node: Some(240) };
    assert_eq!(db.get_percentile(&Selection::Responses(sdo), 1, 2), Ok(7_000));
    let none = ResponseFilter { kind: Some(ResponseKind::Ident), node: None };
    assert_eq!(db.get_response_stats(&Selection::Responses(none)), Err(StatsError::EmptySet));
    assert_eq!(db.get_percentile(&Selection::Cycles, 1, 2), Ok(400_000));
}

#[test]
fn store_lists_nodes_ascending_once() {
    let db = sample_store();
    let all = ResponseFilter { kind: None, node: None };
    assert_eq!(db.get_nodes(&all), vec![1, 3, 240]);
    let pres = ResponseFilter { kind: Some(ResponseKind::PRes), node: None };
    assert_eq!(db.get_nodes(&pres), vec![1, 3]);
    assert_eq!(Database::new().get_nodes(&all), Vec::<u8>::new());
}

#[test]
fn store_raw_rows_in_order_or_longest_first() {
    let db = sample_store();
    let pres = ResponseFilter { kind: Some(ResponseKind::PRes), node: None };
    let rows: Vec<i64> = db.get_raw(&pres, false).iter().map(|r| r.elapsed).collect();
    assert_eq!(rows, vec![500, 900, 700]);
    let sorted: Vec<i64> = db.get_raw(&pres, true).iter().map(|r| r.elapsed).collect();
    assert_eq!(sorted, vec![900, 700, 500]);
}

#[test]
fn store_groups_and_orders_errors() {
    let mut db = Database::new();
    let op = Some(NmtState::Operational);
    db.insert_error(ErrorKind::PResMissing, 9, op, None);
    db.insert_error(ErrorKind::PResMissing, 2, op, Some(NmtState::Stopped));
    db.insert_error(ErrorKind::PResMissing, 9, op, None);
    db.insert_error(ErrorKind::IdentResponseMissing, 2, op, Some(NmtState::Off));
    db.insert_error(ErrorKind::PResMissing, 9, op, None);
    let groups = db.get_errors();
    let expected = vec![
        ErrorGroup {
            error: ErrorSample {
                kind: ErrorKind::IdentResponseMissing,
                node: 2,
                mn_state: op,
                cn_state: Some(NmtState::Off),
            },
            count: 1,
        },
        ErrorGroup {
            error: ErrorSample {
                kind: ErrorKind::PResMissing,
                node: 2,
                mn_state: op,
                cn_state: Some(NmtState::Stopped),
            },
            count: 1,
        },
        ErrorGroup {
            error: ErrorSample { kind: ErrorKind::PResMissing, node: 9, mn_state: op, cn_state: None },
            count: 3,
        },
    ];
    assert_eq!(groups, expected);
}

#[test]
fn store_orders_state_changes_by_time() {
    let mut db = Database::new();
    db.insert_state_change(4, NmtState::Operational, 900, 3);
    db.insert_state_change(240, NmtState::PreOperational1, 100, 1);
    db.insert_state_change(5, NmtState::Stopped, 500, 2);
    let times: Vec<i64> = db.get_state_changes().iter().map(|c| c.elapsed).collect();
    assert_eq!(times, vec![100, 500, 900]);
}

#[test]
fn store_totals() {
    let mut db = Database::new();
    assert_eq!(db.get_total_time(), 0);
    db.record_packet(1_000);
    db.record_packet(2_500);
    db.record_packet(9_000);
    assert_eq!(db.get_total_time(), 8_000);
    assert_eq!(db.get_total_num_packets(), 3);
}

#[test]
fn codes_decode() {
    assert_eq!(PacketType::from_u8(0x01), Some(PacketType::SoC));
    assert_eq!(PacketType::from_u8(0x06), Some(PacketType::ASnd));
    assert_eq!(PacketType::from_u8(0x02), None);
    assert_eq!(ServiceId::from_u8(0xFF), Some(ServiceId::Unspecified));
    assert_eq!(ServiceId::from_u8(0x03), Some(ServiceId::NmtRequestInvite));
    assert_eq!(ServiceId::from_u8(0x10), None);
    assert_eq!(NmtState::from_u8(0xFD), NmtState::Operational);
    assert_eq!(NmtState::from_u8(0x1E), NmtState::BasicEthernet);
    assert_eq!(NmtState::from_u8(0x13), NmtState::Unknown);
}

#[test]
fn digits_grouped_by_three() {
    assert_eq!(StdoutPrinter::group_digits(0), "0");
    assert_eq!(StdoutPrinter::group_digits(999), "999");
    assert_eq!(StdoutPrinter::group_digits(1000), "1'000");
    assert_eq!(StdoutPrinter::group_digits(1234567), "1'234'567");
    assert_eq!(StdoutPrinter::group_digits(-1234), "-1'234");
    assert_eq!(StdoutPrinter::group_digits(-123), "-'123");
    assert_eq!(StdoutPrinter::group_digits(i64::MIN), "-9'223'372'036'854'775'808");
}

#[test]
fn csv_node_column() {
    assert_eq!(CsvPrinter::node_column(Some(17)), 17);
    assert_eq!(CsvPrinter::node_column(None), 0);
}
