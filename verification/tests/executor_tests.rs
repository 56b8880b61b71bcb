use std::sync::Arc;

use tidb_query::ExecError;
use tidb_query::aggregation::{AggrExpr, AggrFunc, AggrState, HashAggExecutor, StreamAggExecutor, update_state};
use tidb_query::codec::{Datum, decode_datum_from, decode_datum_exact, encode_datum, i64_to_be_vec};
use tidb_query::executor::{
    ExecSummaryCollectorEnabled, ExecuteStats, Executor, WithSummaryCollector,
};
use tidb_query::expr::{Expr, ExprColumnRefVisitor, ExprType};
use tidb_query::limit::LimitExecutor;
use tidb_query::row::{Row, RowColsDict};
use tidb_query::scan::{
    IndexScanExecutor, KeyRange, TableScanExecutor, decode_row_key, encode_row_key,
};
use tidb_query::schema::{ColumnInfo, EvalContext};
use tidb_query::selection::SelectionExecutor;
use tidb_query::topn::TopNExecutor;

fn enc(d: &Datum) -> Vec<u8> {
    let mut out = Vec::new();
    encode_datum(d, &mut out);
    out
}

fn col(id: i64) -> ColumnInfo {
    ColumnInfo { column_id: id, pk_handle: false, not_null: false, default_val: None }
}

fn pk_col(id: i64) -> ColumnInfo {
    ColumnInfo { column_id: id, pk_handle: true, not_null: false, default_val: None }
}

fn col_ref(offset: i64) -> Expr {
    Expr { tp: ExprType::ColumnRef, val: i64_to_be_vec(offset), children: Vec::new() }
}

/// Schema of the worked scenario: a handle column, a NOT NULL byte
/// column, and an integer column with declared default 10.
fn scenario_cols() -> Arc<Vec<ColumnInfo>> {
    let id = pk_col(1);
    let name = ColumnInfo { column_id: 2, pk_handle: false, not_null: true, default_val: None };
    let score =
        ColumnInfo { column_id: 3, pk_handle: false, not_null: false, default_val: Some(enc(&Datum::I64(10))) };
    Arc::new(vec![id, name, score])
}

fn scenario_row() -> Row {
    let mut dict = RowColsDict::new();
    dict.put(2, enc(&Datum::Bytes(b"abc".to_vec())));
    Row::origin(1, dict, scenario_cols())
}

/// A record value: alternating encoded column-id and value datums.
fn row_value(pairs: &[(i64, Datum)]) -> Vec<u8> {
    let mut out = Vec::new();
    for (id, d) in pairs {
        encode_datum(&Datum::I64(*id), &mut out);
        encode_datum(d, &mut out);
    }
    out
}

/// A scan over one integer column (id 2) plus the handle column (id
/// 1), one record per handle with the given value.
fn int_column_scan(values: &[i64]) -> TableScanExecutor {
    let cols = Arc::new(vec![pk_col(1), col(2)]);
    let mut records = Vec::new();
    for (i, v) in values.iter().enumerate() {
        let key = encode_row_key(i as i64);
        let value = row_value(&[(2, Datum::I64(*v))]);
        records.push((key, value));
    }
    let ranges =
        vec![KeyRange { start: encode_row_key(i64::MIN), end: encode_row_key(i64::MAX) }];
    TableScanExecutor::new(cols, records, ranges)
}

fn bytes_column_scan(values: &[&[u8]]) -> TableScanExecutor {
    let cols = Arc::new(vec![pk_col(1), col(2)]);
    let mut records = Vec::new();
    for (i, v) in values.iter().enumerate() {
        let key = encode_row_key(i as i64);
        let value = row_value(&[(2, Datum::Bytes(v.to_vec()))]);
        records.push((key, value));
    }
    let ranges =
        vec![KeyRange { start: encode_row_key(i64::MIN), end: encode_row_key(i64::MAX) }];
    TableScanExecutor::new(cols, records, ranges)
}

#[test]
fn resolution_paths_agree_on_every_case() {
    let id = pk_col(1);
    let present = col(2);
    let with_default =
        ColumnInfo { column_id: 3, pk_handle: false, not_null: false, default_val: Some(enc(&Datum::I64(10))) };
    let nullable_missing = col(4);
    let cols = Arc::new(vec![id, present, with_default, nullable_missing]);
    let mut dict = RowColsDict::new();
    dict.put(2, enc(&Datum::Bytes(b"abc".to_vec())));
    let row = Row::origin(7, dict, cols);
    let origin = row.take_origin().unwrap();

    let per_col = origin.get_binary_cols().unwrap();
    assert_eq!(per_col.len(), 4);
    assert_eq!(per_col[0], enc(&Datum::I64(7)));
    assert_eq!(per_col[1], enc(&Datum::Bytes(b"abc".to_vec())));
    assert_eq!(per_col[2], enc(&Datum::I64(10)));
    assert_eq!(per_col[3], enc(&Datum::Null));

    let concat = origin.get_binary(&[0, 1, 2, 3]).unwrap();
    let mut expect = Vec::new();
    for c in &per_col {
        expect.extend_from_slice(c);
    }
    assert_eq!(concat, expect);

    let ctx = EvalContext::new();
    let inflated = origin.inflate_cols_with_offsets(&ctx, &[0, 1, 2, 3]).unwrap();
    assert_eq!(inflated.len(), 4);
    for i in 0..4 {
        let decoded = decode_datum_exact(&per_col[i]).unwrap();
        assert_eq!(format!("{:?}", decoded), format!("{:?}", inflated[i]));
    }
}

#[test]
fn missing_not_null_column_reports_id_and_handle() {
    let cols = Arc::new(vec![
        pk_col(1),
        ColumnInfo { column_id: 5, pk_handle: false, not_null: true, default_val: None },
    ]);
    let row = Row::origin(9, RowColsDict::new(), cols);
    let origin = row.take_origin().unwrap();
    let err = origin.get_binary_cols().unwrap_err();
    assert_eq!(err, ExecError::MissingColumn { column_id: 5, handle: 9 });
    let err2 = origin.get_binary(&[1]).unwrap_err();
    assert_eq!(err2, ExecError::MissingColumn { column_id: 5, handle: 9 });
    let ctx = EvalContext::new();
    let err3 = origin.inflate_cols_with_offsets(&ctx, &[1]).unwrap_err();
    assert_eq!(err3, ExecError::MissingColumn { column_id: 5, handle: 9 });
}

#[test]
fn inflate_with_no_offsets_is_all_null() {
    let row = scenario_row();
    let origin = row.take_origin().unwrap();
    let ctx = EvalContext::new();
    let inflated = origin.inflate_cols_with_offsets(&ctx, &[]).unwrap();
    assert_eq!(inflated.len(), 3);
    for d in &inflated {
        assert!(matches!(d, Datum::Null));
    }
}

#[test]
fn visitor_rejects_offset_at_cols_len_and_records_last_valid() {
    let mut visitor = ExprColumnRefVisitor::new(4);
    let err = visitor.visit(&col_ref(4)).unwrap_err();
    assert_eq!(err, ExecError::OffsetOutOfRange { offset: 4, cols_len: 4 });

    let mut visitor = ExprColumnRefVisitor::new(4);
    visitor.visit(&col_ref(3)).unwrap();
    let offsets = visitor.column_offsets();
    assert_eq!(offsets, vec![3]);
}

#[test]
fn visitor_recurses_and_collapses_duplicates() {
    let inner = Expr { tp: ExprType::ScalarFunc, val: Vec::new(), children: vec![col_ref(1), col_ref(2)] };
    let tree =
        Expr { tp: ExprType::ScalarFunc, val: Vec::new(), children: vec![col_ref(1), inner] };
    let mut visitor = ExprColumnRefVisitor::new(4);
    visitor.visit(&tree).unwrap();
    let mut offsets = visitor.column_offsets();
    offsets.sort();
    assert_eq!(offsets, vec![1, 2]);
}

#[test]
fn batch_visit_merges_offsets() {
    let mut visitor = ExprColumnRefVisitor::new(4);
    visitor.batch_visit(&[col_ref(0), col_ref(2), col_ref(0)]).unwrap();
    let mut offsets = visitor.column_offsets();
    offsets.sort();
    assert_eq!(offsets, vec![0, 2]);
}

fn run_topn(desc: bool) -> Vec<i64> {
    let scan = int_column_scan(&[5, 1, 4, 2, 8]);
    let order = vec![col_ref(1)];
    let mut topn = TopNExecutor::new(3, order, vec![desc], 2, scan).unwrap();
    let mut seen = Vec::new();
    while let Some(row) = topn.next().unwrap() {
        let origin = row.take_origin().unwrap();
        let ctx = EvalContext::new();
        let inflated = origin.inflate_cols_with_offsets(&ctx, &[1]).unwrap();
        match inflated[1] {
            Datum::I64(v) => seen.push(v),
            _ => panic!("expected an integer order-by value"),
        }
    }
    seen
}

#[test]
fn topn_descending_keeps_best_three_in_order() {
    assert_eq!(run_topn(true), vec![8, 5, 4]);
}

#[test]
fn topn_ascending_keeps_least_three_in_order() {
    assert_eq!(run_topn(false), vec![1, 2, 4]);
}

#[test]
fn limit_stops_pulling_upstream_at_the_cap() {
    let scan = int_column_scan(&[10, 20, 30, 40, 50]);
    let counter = scan.with_summary_collector(ExecSummaryCollectorEnabled::new());
    let mut limit = LimitExecutor::new(2, counter);
    assert!(limit.next().unwrap().is_some());
    assert!(limit.next().unwrap().is_some());
    assert!(limit.next().unwrap().is_none());
    assert!(limit.next().unwrap().is_none());
    let mut stats = ExecuteStats::new();
    limit.collect_exec_stats(&mut stats);
    assert_eq!(stats.summary_per_executor.len(), 1);
    let upstream = stats.summary_per_executor[0];
    assert_eq!(upstream.num_produced_rows, 2);
    assert_eq!(upstream.num_iterations, 2);
}

fn decode_agg_row(row: Row) -> (Vec<u8>, u64) {
    let bin = row.get_binary(&[]).unwrap();
    let (count_datum, next) = decode_datum_from(&bin, 0).unwrap();
    let count = match count_datum {
        Datum::U64(n) => n,
        other => panic!("expected a count, got {:?}", other),
    };
    let suffix = bin[next..].to_vec();
    (suffix, count)
}

#[test]
fn hash_aggregation_counts_rows_per_key() {
    let scan = bytes_column_scan(&[b"A", b"B", b"A", b"C", b"B"]);
    let group_by = vec![col_ref(1)];
    let aggr = vec![AggrExpr { func: AggrFunc::Count, expr: col_ref(1) }];
    let mut agg = HashAggExecutor::new(group_by, aggr, 2, scan).unwrap();
    let mut got: Vec<(Vec<u8>, u64)> = Vec::new();
    while let Some(row) = agg.next().unwrap() {
        got.push(decode_agg_row(row));
    }
    assert_eq!(got.len(), 3);
    let expect = |key: &[u8], n: u64| {
        let suffix = enc(&Datum::Bytes(key.to_vec()));
        assert!(
            got.iter().any(|(s, c)| *s == suffix && *c == n),
            "missing group {:?}:{}",
            key,
            n
        );
    };
    expect(b"A", 2);
    expect(b"B", 2);
    expect(b"C", 1);
}

#[test]
fn stream_aggregation_emits_on_key_change() {
    let scan = bytes_column_scan(&[b"A", b"A", b"B"]);
    let group_by = vec![col_ref(1)];
    let aggr = vec![AggrExpr { func: AggrFunc::Count, expr: col_ref(1) }];
    let mut agg = StreamAggExecutor::new(group_by, aggr, 2, scan).unwrap();
    let first = decode_agg_row(agg.next().unwrap().unwrap());
    assert_eq!(first, (enc(&Datum::Bytes(b"A".to_vec())), 2));
    let second = decode_agg_row(agg.next().unwrap().unwrap());
    assert_eq!(second, (enc(&Datum::Bytes(b"B".to_vec())), 1));
    assert!(agg.next().unwrap().is_none());
    assert!(agg.next().unwrap().is_none());
}

#[test]
fn sum_accumulator_overflows_to_an_error() {
    let st = update_state(AggrState::Sum { acc: None }, &Datum::I64(i64::MAX)).unwrap();
    let err = update_state(st, &Datum::I64(1)).unwrap_err();
    assert_eq!(err, ExecError::Overflow);
    let st2 = update_state(AggrState::Sum { acc: None }, &Datum::Null).unwrap();
    assert_eq!(st2, AggrState::Sum { acc: None });
}

#[test]
fn summary_decorator_counts_rows_and_one_empty_result() {
    let scan = int_column_scan(&[1, 2, 3]);
    let mut wrapped = WithSummaryCollector::new(ExecSummaryCollectorEnabled::new(), scan);
    let mut produced = 0;
    while wrapped.next().unwrap().is_some() {
        produced += 1;
    }
    let mut stats = ExecuteStats::new();
    wrapped.collect_exec_stats(&mut stats);
    assert_eq!(produced, 3);
    assert_eq!(stats.summary_per_executor.len(), 1);
    let summary = stats.summary_per_executor[0];
    assert_eq!(summary.num_produced_rows, 3);
    assert_eq!(summary.num_iterations - summary.num_produced_rows, 1);
}

#[test]
fn scenario_row_projects_encoded_triple() {
    let row = scenario_row();
    let bin = row.get_binary(&[0, 1, 2]).unwrap();
    let mut expect = enc(&Datum::I64(1));
    expect.extend_from_slice(&enc(&Datum::Bytes(b"abc".to_vec())));
    expect.extend_from_slice(&enc(&Datum::I64(10)));
    assert_eq!(bin, expect);
}

#[test]
fn aggregation_row_ignores_output_offsets() {
    let row = Row::agg(vec![Datum::U64(2)], enc(&Datum::Bytes(b"A".to_vec())));
    let with_offsets = row.get_binary(&[7, 8, 9]).unwrap();
    let without = row.get_binary(&[]).unwrap();
    assert_eq!(with_offsets, without);
}

#[test]
fn take_origin_refuses_aggregation_rows() {
    let row = Row::agg(Vec::new(), Vec::new());
    assert_eq!(row.take_origin().unwrap_err(), ExecError::TakeOriginOnAgg);
}

#[test]
fn selection_keeps_truthy_rows_only() {
    let scan = int_column_scan(&[1, 0, 2]);
    let conditions = vec![col_ref(1)];
    let mut sel = SelectionExecutor::new(conditions, 2, scan).unwrap();
    let mut handles = Vec::new();
    while let Some(row) = sel.next().unwrap() {
        handles.push(row.take_origin().unwrap().handle);
    }
    assert_eq!(handles, vec![0, 2]);
}

#[test]
fn unsupported_expression_shape_is_rejected() {
    let scan = int_column_scan(&[1]);
    let func = Expr { tp: ExprType::ScalarFunc, val: Vec::new(), children: vec![col_ref(1)] };
    let mut sel = SelectionExecutor::new(vec![func], 2, scan).unwrap();
    assert_eq!(sel.next().unwrap_err(), ExecError::UnsupportedExpr);
}

#[test]
fn corrupt_stored_bytes_are_a_decode_error() {
    let cols = Arc::new(vec![pk_col(1), col(2)]);
    let mut dict = RowColsDict::new();
    dict.put(2, vec![9, 9, 9]);
    let row = Row::origin(0, dict, cols);
    let origin = row.take_origin().unwrap();
    let ctx = EvalContext::new();
    assert_eq!(origin.inflate_cols_with_offsets(&ctx, &[1]).unwrap_err(), ExecError::Corrupted);
    assert_eq!(decode_datum_exact(&vec![9, 9, 9]).unwrap_err(), ExecError::Corrupted);
}

#[test]
fn datum_encoding_round_trips() {
    let samples = vec![
        Datum::Null,
        Datum::I64(-5),
        Datum::I64(i64::MIN),
        Datum::U64(u64::MAX),
        Datum::Bytes(Vec::new()),
        Datum::Bytes(b"hello".to_vec()),
    ];
    for d in &samples {
        let bytes = enc(d);
        let back = decode_datum_exact(&bytes).unwrap();
        assert_eq!(format!("{:?}", back), format!("{:?}", d));
    }
}

#[test]
fn row_key_round_trips_and_orders_handles() {
    for h in [i64::MIN, -2, -1, 0, 1, 7, i64::MAX] {
        let key = encode_row_key(h);
        assert_eq!(decode_row_key(&key).unwrap(), h);
    }
    assert!(encode_row_key(-1) < encode_row_key(0));
    assert!(encode_row_key(3) < encode_row_key(4));
}

#[test]
fn index_scan_decodes_indexed_columns_and_handle() {
    let cols = Arc::new(vec![pk_col(1), col(2)]);
    let mut records = Vec::new();
    for (name, handle) in [(b"ann", 10i64), (b"bob", 20), (b"cal", 30)] {
        let mut key = enc(&Datum::Bytes(name.to_vec()));
        key.extend_from_slice(&encode_row_key(handle));
        records.push((key, Vec::new()));
    }
    let ranges = vec![KeyRange { start: Vec::new(), end: vec![255u8; 4] }];
    let mut scan = IndexScanExecutor::new(cols, records, ranges);
    let ctx = EvalContext::new();
    let mut seen = Vec::new();
    while let Some(row) = scan.next().unwrap() {
        let origin = row.take_origin().unwrap();
        let inflated = origin.inflate_cols_with_offsets(&ctx, &[0, 1]).unwrap();
        let name = match &inflated[1] {
            Datum::Bytes(b) => b.clone(),
            other => panic!("expected bytes, got {:?}", other),
        };
        seen.push((origin.handle, name));
    }
    assert_eq!(
        seen,
        vec![(10, b"ann".to_vec()), (20, b"bob".to_vec()), (30, b"cal".to_vec())]
    );
}

#[test]
fn scan_walks_ranges_in_order_and_counts_rows() {
    let cols = Arc::new(vec![pk_col(1), col(2)]);
    let mut records = Vec::new();
    for h in 0..6i64 {
        records.push((encode_row_key(h), row_value(&[(2, Datum::I64(h * 10))])));
    }
    let ranges = vec![
        KeyRange { start: encode_row_key(0), end: encode_row_key(2) },
        KeyRange { start: encode_row_key(4), end: encode_row_key(6) },
    ];
    let mut scan = TableScanExecutor::new(cols, records, ranges);
    let mut handles = Vec::new();
    while let Some(row) = scan.next().unwrap() {
        handles.push(row.take_origin().unwrap().handle);
    }
    assert_eq!(handles, vec![0, 1, 4, 5]);
    let mut stats = ExecuteStats::new();
    scan.collect_exec_stats(&mut stats);
    assert_eq!(stats.scanned_rows_per_range, vec![2, 2]);
    let range = scan.take_scanned_range();
    assert_eq!(range.lower_inclusive, encode_row_key(0));
    let mut expected_upper = encode_row_key(5);
    expected_upper.push(0);
    assert_eq!(range.upper_exclusive, expected_upper);
    let drained = scan.take_scanned_range();
    assert_eq!(drained.lower_inclusive, expected_upper);
    assert_eq!(drained.upper_exclusive, expected_upper);
}

#[test]
fn boxed_operator_forwards_the_contract() {
    let scan = int_column_scan(&[1, 2, 3]);
    let mut boxed = Box::new(LimitExecutor::new(2, scan));
    assert!(boxed.next().unwrap().is_some());
    assert!(boxed.next().unwrap().is_some());
    assert!(boxed.next().unwrap().is_none());
    assert_eq!(boxed.get_len_of_columns(), 2);
    assert!(boxed.take_eval_warnings().is_none());
}
