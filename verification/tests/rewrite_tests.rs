use leaf_search::bounds::TimeBound;
use leaf_search::query_ast::QueryAst;
use leaf_search::request::{
    CountHits, SearchRequest, SortField, SortOrder, SplitIdAndFooterOffsets,
};
use leaf_search::bounds::{map_bound, max_bound, min_bound};
use leaf_search::rewrite::{
    remove_redundant_timestamp_range, rewrite_request, rewrite_start_end_time_bounds,
};

const S_TO_NS: i64 = 1_000_000_000;

fn mk_split(timestamp_start: Option<i64>, timestamp_end: Option<i64>) -> SplitIdAndFooterOffsets {
    SplitIdAndFooterOffsets {
        split_id: String::new(),
        split_footer_start: 0,
        split_footer_end: 0,
        timestamp_start,
        timestamp_end,
    }
}

fn mk_request(
    query_ast: QueryAst,
    start_timestamp: Option<i64>,
    end_timestamp: Option<i64>,
) -> SearchRequest {
    SearchRequest {
        query_ast,
        max_hits: 10,
        start_offset: 0,
        sort_fields: Vec::new(),
        start_timestamp,
        end_timestamp,
        aggregation_request: None,
        count_hits: CountHits::Underestimate,
    }
}

fn ts_range(lower: TimeBound, upper: TimeBound) -> QueryAst {
    QueryAst::Range { field: "timestamp".to_string(), lower, upper }
}

fn bool_filter(ast: QueryAst) -> QueryAst {
    QueryAst::Bool {
        must: vec![QueryAst::MatchAll],
        should: Vec::new(),
        must_not: Vec::new(),
        filter: vec![ast],
    }
}

fn assert_ast_eq(got: &SearchRequest, expected: &QueryAst) {
    assert_eq!(&got.query_ast, expected);
    assert!(got.start_timestamp.is_none());
    assert!(got.end_timestamp.is_none());
}

fn remove_timestamp_test_case(
    mut request: SearchRequest,
    split: &SplitIdAndFooterOffsets,
    expected: Option<QueryAst>,
) {
    let timestamp_field = "timestamp".to_string();
    remove_redundant_timestamp_range(&mut request, split, &timestamp_field);
    let expected_direct = expected.map(bool_filter).unwrap_or(QueryAst::MatchAll);
    assert_ast_eq(&request, &expected_direct);
}

#[test]
fn test_remove_timestamp_range() {
    let time1 = 1700001000;
    let time2 = 1700002000;
    let time3 = 1700003000;
    let time4 = 1700004000;

    // cases where the bounds are larger than the split: no bound is emitted
    let split = mk_split(Some(time2), Some(time3));

    let search_request = mk_request(
        ts_range(
            TimeBound::Included(time1 * S_TO_NS),
            // the original carries this bound in milliseconds; it denotes
            // the same instant once interpreted
            TimeBound::Included(time4 * S_TO_NS),
        ),
        None,
        None,
    );
    remove_timestamp_test_case(search_request, &split, None);

    let search_request = mk_request(
        ts_range(
            TimeBound::Included(time1 * S_TO_NS),
            TimeBound::Included(time3 * S_TO_NS),
        ),
        None,
        None,
    );
    remove_timestamp_test_case(search_request, &split, None);

    let search_request = mk_request(QueryAst::MatchAll, Some(time1), Some(time4));
    remove_timestamp_test_case(search_request, &split, None);

    // request bounds that are exclusive are treated properly
    let expected_upper_exclusive = ts_range(
        TimeBound::Unbounded,
        TimeBound::Excluded(time3 * S_TO_NS),
    );
    let search_request = mk_request(
        ts_range(
            TimeBound::Included(time1 * S_TO_NS),
            TimeBound::Excluded(time3 * S_TO_NS),
        ),
        None,
        None,
    );
    remove_timestamp_test_case(search_request, &split, Some(expected_upper_exclusive));

    let expected_upper_exclusive = ts_range(
        TimeBound::Unbounded,
        TimeBound::Excluded(time3 * S_TO_NS),
    );
    let search_request = mk_request(QueryAst::MatchAll, Some(time1), Some(time3));
    remove_timestamp_test_case(search_request, &split, Some(expected_upper_exclusive));

    let expected_lower_exclusive = ts_range(
        TimeBound::Excluded(time2 * S_TO_NS),
        TimeBound::Unbounded,
    );
    let search_request = mk_request(
        ts_range(
            TimeBound::Excluded(time2 * S_TO_NS),
            TimeBound::Included(time3 * S_TO_NS),
        ),
        None,
        None,
    );
    remove_timestamp_test_case(search_request, &split, Some(expected_lower_exclusive));

    // we take the most restrictive bounds
    let split = mk_split(Some(time1), Some(time4));

    let expected_upper_2_ex = ts_range(
        TimeBound::Unbounded,
        TimeBound::Excluded(time2 * S_TO_NS),
    );
    let search_request = mk_request(
        ts_range(
            TimeBound::Included(time1 * S_TO_NS),
            TimeBound::Included(time3 * S_TO_NS),
        ),
        Some(time1),
        Some(time2),
    );
    remove_timestamp_test_case(search_request, &split, Some(expected_upper_2_ex));

    let expected_upper_2_inc = ts_range(
        TimeBound::Unbounded,
        TimeBound::Included(time2 * S_TO_NS),
    );
    let search_request = mk_request(
        ts_range(
            TimeBound::Included(time1 * S_TO_NS),
            TimeBound::Included(time2 * S_TO_NS),
        ),
        Some(time1),
        Some(time3),
    );
    remove_timestamp_test_case(search_request, &split, Some(expected_upper_2_inc));

    let expected_lower_3 = ts_range(
        TimeBound::Included(time3 * S_TO_NS),
        TimeBound::Unbounded,
    );
    let search_request = mk_request(
        ts_range(
            TimeBound::Included(time2 * S_TO_NS),
            TimeBound::Included(time4 * S_TO_NS),
        ),
        Some(time3),
        Some(time4 + 1),
    );
    remove_timestamp_test_case(search_request, &split, Some(expected_lower_3));

    let expected_lower_3 = ts_range(
        TimeBound::Included(time3 * S_TO_NS),
        TimeBound::Unbounded,
    );

    let search_request = mk_request(
        ts_range(
            TimeBound::Included(time3 * S_TO_NS),
            TimeBound::Included(time4 * S_TO_NS),
        ),
        Some(time2),
        Some(time4 + 1),
    );
    remove_timestamp_test_case(search_request, &split, Some(expected_lower_3));

    let mut search_request = mk_request(QueryAst::MatchAll, Some(time1), Some(time4));
    let split = mk_split(Some(time2), Some(time3));
    remove_redundant_timestamp_range(&mut search_request, &split, &"timestamp".to_string());
    assert_ast_eq(&search_request, &QueryAst::MatchAll);
}

#[test]
fn test_remove_timestamp_range_keep_should() {
    let time1 = 1700001000;
    let time2 = 1700002000;
    let time3 = 1700003000;

    let timestamp_field = "timestamp".to_string();

    let split = mk_split(Some(time1), Some(time3));

    let mut search_request = mk_request(
        QueryAst::Bool {
            must: Vec::new(),
            should: vec![QueryAst::MatchAll],
            must_not: Vec::new(),
            filter: Vec::new(),
        },
        Some(time2),
        None,
    );
    remove_redundant_timestamp_range(&mut search_request, &split, &timestamp_field);
    assert_ast_eq(
        &search_request,
        &QueryAst::Bool {
            // original request
            must: vec![QueryAst::Bool {
                must: Vec::new(),
                should: vec![QueryAst::MatchAll],
                must_not: Vec::new(),
                filter: Vec::new(),
            }],
            should: Vec::new(),
            must_not: Vec::new(),
            // time bound
            filter: vec![QueryAst::Range {
                field: "timestamp".to_string(),
                lower: TimeBound::Included(1_700_002_000_000_000_000),
                upper: TimeBound::Unbounded,
            }],
        },
    );
}

#[test]
fn test_rewrite_request_strips_sort_when_no_hits() {
    let split = mk_split(None, None);
    let mut request = mk_request(QueryAst::MatchAll, None, None);
    request.max_hits = 0;
    request.sort_fields = vec![SortField {
        field_name: "timestamp".to_string(),
        sort_order: SortOrder::Desc,
    }];
    rewrite_request(&mut request, &split, None);
    assert!(request.sort_fields.is_empty());
    assert_eq!(request.query_ast, QueryAst::MatchAll);
}

#[test]
fn test_rewrite_request_keeps_sort_when_hits_wanted() {
    let split = mk_split(None, None);
    let mut request = mk_request(QueryAst::MatchAll, None, None);
    request.sort_fields = vec![SortField {
        field_name: "timestamp".to_string(),
        sort_order: SortOrder::Asc,
    }];
    rewrite_request(&mut request, &split, None);
    assert_eq!(request.sort_fields.len(), 1);
}

#[test]
fn test_rewrite_nested_bool_removes_positive_ranges_only() {
    // a range below `should` is kept; the same range under `must` is folded
    let time2 = 1700002000;
    let time3 = 1700003000;
    let split = mk_split(Some(time2), Some(time3));
    let shielded = || QueryAst::Bool {
        must: Vec::new(),
        should: vec![ts_range(TimeBound::Included(time2 * S_TO_NS), TimeBound::Unbounded)],
        must_not: Vec::new(),
        filter: Vec::new(),
    };
    let mut request = mk_request(
        QueryAst::Bool {
            must: vec![ts_range(TimeBound::Included(time2 * S_TO_NS), TimeBound::Unbounded)],
            should: Vec::new(),
            must_not: Vec::new(),
            filter: vec![shielded()],
        },
        None,
        None,
    );
    remove_redundant_timestamp_range(&mut request, &split, &"timestamp".to_string());
    // the must-range was redundant with the split start; the shielded one stays
    assert_eq!(
        request.query_ast,
        QueryAst::Bool {
            must: vec![QueryAst::MatchAll],
            should: Vec::new(),
            must_not: Vec::new(),
            filter: vec![shielded()],
        }
    );
}

#[test]
fn test_rewrite_start_end_time_bounds() {
    let split = mk_split(Some(1700002000), Some(1700003000));

    let mut start = Some(1700001000);
    let mut end = Some(1700004000);
    rewrite_start_end_time_bounds(&mut start, &mut end, &split);
    assert_eq!(start, None);
    assert_eq!(end, None);

    let mut start = Some(1700002500);
    let mut end = Some(1700002700);
    rewrite_start_end_time_bounds(&mut start, &mut end, &split);
    assert_eq!(start, Some(1700002500));
    assert_eq!(end, Some(1700002700));

    let mut start = Some(1700001000);
    let mut end = Some(1700002500);
    let no_bounds_split = mk_split(None, None);
    rewrite_start_end_time_bounds(&mut start, &mut end, &no_bounds_split);
    assert_eq!(start, Some(1700001000));
    assert_eq!(end, Some(1700002500));
}

#[test]
fn test_map_bound() {
    assert_eq!(
        map_bound(TimeBound::Included(5), |x| x * 2),
        TimeBound::Included(10)
    );
    assert_eq!(
        map_bound(TimeBound::Excluded(-3), |x| x + 1),
        TimeBound::Excluded(-2)
    );
    assert_eq!(map_bound(TimeBound::Unbounded, |x| x), TimeBound::Unbounded);
}

#[test]
fn test_max_min_bound_tie_breaking() {
    // at equal values the excluded endpoint is the tighter one, on both sides
    assert_eq!(
        max_bound(TimeBound::Included(5), TimeBound::Excluded(5)),
        TimeBound::Excluded(5)
    );
    assert_eq!(
        max_bound(TimeBound::Excluded(5), TimeBound::Included(5)),
        TimeBound::Excluded(5)
    );
    assert_eq!(
        min_bound(TimeBound::Included(5), TimeBound::Excluded(5)),
        TimeBound::Excluded(5)
    );
    assert_eq!(
        max_bound(TimeBound::Unbounded, TimeBound::Included(1)),
        TimeBound::Included(1)
    );
    assert_eq!(
        max_bound(TimeBound::Excluded(4), TimeBound::Included(5)),
        TimeBound::Included(5)
    );
    assert_eq!(
        min_bound(TimeBound::Excluded(6), TimeBound::Included(5)),
        TimeBound::Included(5)
    );
}
