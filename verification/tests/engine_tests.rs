use leaf_search::executor::{
    join_failure_error, leaf_search_plan, run_all_splits, split_disposition, SplitDisposition,
};
use leaf_search::filter::CanSplitDoBetter;
use leaf_search::footer_cache::{footer_fetch_plan, split_file_name, FooterLookup, SplitFooterCache};
use leaf_search::merge::{hit_ordering_for_request, HitOrdering, IncrementalMerger};
use leaf_search::metastore::{
    decode_json_zstd, encode_json_zstd, EntityKind, IndexMetadataRequest, IndexUid,
    LastDeleteOpstampResponse, ListDeleteTasksRequest, ListIndexesMetadataRequest,
    MarkSplitsForDeletionRequest, MetastoreError, ServiceErrorCode, SourceType,
};
use leaf_search::query_ast::QueryAst;
use leaf_search::request::{
    AggregationRequest, CountHits, LeafSearchResponse, PartialHit, SearchRequest, SortField,
    SortOrder, SortValue, SplitIdAndFooterOffsets, SplitSearchError,
};
use leaf_search::result_cache::LeafSearchCache;
use leaf_search::warmup::{warmup_tasks, WarmupInfo, WarmupTask};

fn mk_split(id: &str, start: i64, end: i64) -> SplitIdAndFooterOffsets {
    SplitIdAndFooterOffsets {
        split_id: id.to_string(),
        split_footer_start: 0,
        split_footer_end: 100,
        timestamp_start: Some(start),
        timestamp_end: Some(end),
    }
}

fn mk_request(sort_fields: Vec<SortField>, max_hits: u64) -> SearchRequest {
    SearchRequest {
        query_ast: QueryAst::MatchAll,
        max_hits,
        start_offset: 0,
        sort_fields,
        start_timestamp: None,
        end_timestamp: None,
        aggregation_request: None,
        count_hits: CountHits::Underestimate,
    }
}

fn desc_ts_sort() -> Vec<SortField> {
    vec![SortField { field_name: "ts".to_string(), sort_order: SortOrder::Desc }]
}

fn mk_hit(split_id: &str, ns: i64) -> PartialHit {
    PartialHit {
        split_id: split_id.to_string(),
        segment_ord: 0,
        doc_id: 0,
        sort_value: Some(SortValue::I64(ns)),
    }
}

fn mk_response(_split_id: &str, hits: Vec<PartialHit>) -> LeafSearchResponse {
    LeafSearchResponse {
        num_hits: hits.len() as u64,
        partial_hits: hits,
        failed_splits: Vec::new(),
        num_attempted_splits: 1,
        num_successful_splits: 1,
        intermediate_aggregation_result: None,
    }
}

#[test]
fn test_from_request_variants() {
    let ts = "ts".to_string();
    let r = mk_request(Vec::new(), 10);
    assert_eq!(
        CanSplitDoBetter::from_request(&r, Some(&ts)),
        CanSplitDoBetter::SplitIdHigher(None)
    );

    let r = mk_request(desc_ts_sort(), 10);
    assert_eq!(
        CanSplitDoBetter::from_request(&r, Some(&ts)),
        CanSplitDoBetter::SplitTimestampHigher(None)
    );

    let r = mk_request(
        vec![SortField { field_name: "ts".to_string(), sort_order: SortOrder::Asc }],
        10,
    );
    assert_eq!(
        CanSplitDoBetter::from_request(&r, Some(&ts)),
        CanSplitDoBetter::SplitTimestampLower(None)
    );

    let r = mk_request(
        vec![SortField { field_name: "other".to_string(), sort_order: SortOrder::Desc }],
        10,
    );
    assert_eq!(CanSplitDoBetter::from_request(&r, Some(&ts)), CanSplitDoBetter::Uninformative);

    let mut r = mk_request(Vec::new(), 0);
    r.aggregation_request = Some(AggregationRequest::FindTraceIdsAggregation {
        span_timestamp_field_name: "ts".to_string(),
    });
    assert_eq!(
        CanSplitDoBetter::from_request(&r, Some(&ts)),
        CanSplitDoBetter::FindTraceIdsAggregation(None)
    );

    // the aggregation must name the timestamp field to count
    let mut r = mk_request(Vec::new(), 0);
    r.aggregation_request = Some(AggregationRequest::FindTraceIdsAggregation {
        span_timestamp_field_name: "other".to_string(),
    });
    assert_eq!(
        CanSplitDoBetter::from_request(&r, Some(&ts)),
        CanSplitDoBetter::SplitIdHigher(None)
    );
}

#[test]
fn test_record_new_worst_hit_rounding() {
    // 1.5 s rounds up for the descending variant
    let mut filter = CanSplitDoBetter::SplitTimestampHigher(Some(0));
    filter.record_new_worst_hit(&mk_hit("a", 1_500_000_000));
    assert_eq!(filter, CanSplitDoBetter::SplitTimestampHigher(Some(2)));

    // and down (toward zero) for the ascending variant
    let mut filter = CanSplitDoBetter::SplitTimestampLower(Some(0));
    filter.record_new_worst_hit(&mk_hit("a", 1_500_000_000));
    assert_eq!(filter, CanSplitDoBetter::SplitTimestampLower(Some(1)));

    // exact second: no rounding either way
    let mut filter = CanSplitDoBetter::SplitTimestampHigher(Some(0));
    filter.record_new_worst_hit(&mk_hit("a", 3_000_000_000));
    assert_eq!(filter, CanSplitDoBetter::SplitTimestampHigher(Some(3)));

    // negative timestamps: ceiling of -1.5 s is -1, truncation is -1
    let mut filter = CanSplitDoBetter::SplitTimestampHigher(Some(0));
    filter.record_new_worst_hit(&mk_hit("a", -1_500_000_000));
    assert_eq!(filter, CanSplitDoBetter::SplitTimestampHigher(Some(-1)));
    let mut filter = CanSplitDoBetter::SplitTimestampLower(Some(0));
    filter.record_new_worst_hit(&mk_hit("a", -1_500_000_000));
    assert_eq!(filter, CanSplitDoBetter::SplitTimestampLower(Some(-1)));

    // split id fallback records the hit's split id
    let mut filter = CanSplitDoBetter::SplitIdHigher(None);
    filter.record_new_worst_hit(&mk_hit("split-07", 0));
    assert_eq!(filter, CanSplitDoBetter::SplitIdHigher(Some("split-07".to_string())));
}

#[test]
fn test_can_be_better() {
    let split = mk_split("split-05", 100, 200);
    assert!(CanSplitDoBetter::Uninformative.can_be_better(&split));
    assert!(CanSplitDoBetter::SplitIdHigher(Some("split-05".to_string())).can_be_better(&split));
    assert!(CanSplitDoBetter::SplitIdHigher(Some("split-04".to_string())).can_be_better(&split));
    assert!(!CanSplitDoBetter::SplitIdHigher(Some("split-06".to_string())).can_be_better(&split));
    assert!(CanSplitDoBetter::SplitTimestampHigher(Some(200)).can_be_better(&split));
    assert!(!CanSplitDoBetter::SplitTimestampHigher(Some(201)).can_be_better(&split));
    assert!(CanSplitDoBetter::SplitTimestampLower(Some(100)).can_be_better(&split));
    assert!(!CanSplitDoBetter::SplitTimestampLower(Some(99)).can_be_better(&split));
}

#[test]
fn test_optimize_split_order() {
    let mut splits = vec![mk_split("a", 10, 20), mk_split("b", 30, 40), mk_split("c", 5, 8)];
    CanSplitDoBetter::SplitTimestampHigher(None).optimize_split_order(&mut splits);
    let ids: Vec<&str> = splits.iter().map(|s| s.split_id.as_str()).collect();
    assert_eq!(ids, vec!["b", "a", "c"]);

    let mut splits = vec![mk_split("a", 10, 20), mk_split("b", 30, 40), mk_split("c", 5, 8)];
    CanSplitDoBetter::SplitTimestampLower(None).optimize_split_order(&mut splits);
    let ids: Vec<&str> = splits.iter().map(|s| s.split_id.as_str()).collect();
    assert_eq!(ids, vec!["c", "a", "b"]);

    let mut splits = vec![mk_split("a", 10, 20), mk_split("b", 30, 40), mk_split("c", 5, 8)];
    CanSplitDoBetter::SplitIdHigher(None).optimize_split_order(&mut splits);
    let ids: Vec<&str> = splits.iter().map(|s| s.split_id.as_str()).collect();
    assert_eq!(ids, vec!["c", "b", "a"]);

    let mut splits = vec![mk_split("a", 10, 20), mk_split("b", 30, 40), mk_split("c", 5, 8)];
    CanSplitDoBetter::Uninformative.optimize_split_order(&mut splits);
    let ids: Vec<&str> = splits.iter().map(|s| s.split_id.as_str()).collect();
    assert_eq!(ids, vec!["a", "b", "c"]);
}

#[test]
fn test_merger_peek_and_monotonicity() {
    // peek stays empty until max_hits hits arrived, then only improves
    let mut merger = IncrementalMerger::new(2, HitOrdering::SortValueDesc);
    assert!(merger.peek_worst_hit().is_none());
    merger.add_split(mk_response("a", vec![mk_hit("a", 50)]));
    assert!(merger.peek_worst_hit().is_none());
    merger.add_split(mk_response("b", vec![mk_hit("b", 10)]));
    let worst = merger.peek_worst_hit().expect("buffer is full");
    assert_eq!(worst.sort_value, Some(SortValue::I64(10)));
    // a worse hit changes nothing; a better one displaces the worst
    merger.add_split(mk_response("c", vec![mk_hit("c", 5)]));
    assert_eq!(merger.peek_worst_hit().unwrap().sort_value, Some(SortValue::I64(10)));
    merger.add_split(mk_response("d", vec![mk_hit("d", 40)]));
    assert_eq!(merger.peek_worst_hit().unwrap().sort_value, Some(SortValue::I64(40)));
}

#[test]
fn test_merger_finalize_counts_and_order() {
    let mut merger = IncrementalMerger::new(3, HitOrdering::SortValueDesc);
    merger.add_split(mk_response("a", vec![mk_hit("a", 10), mk_hit("a", 30)]));
    merger.add_split(mk_response("b", vec![mk_hit("b", 20)]));
    merger.add_failed_split(SplitSearchError {
        split_id: "c".to_string(),
        error: "boom".to_string(),
        retryable_error: true,
    });
    let (response, aggregation_parts) = merger.finalize();
    assert_eq!(response.num_hits, 3);
    assert_eq!(response.num_attempted_splits, 3);
    assert_eq!(response.num_successful_splits, 2);
    assert_eq!(response.failed_splits.len(), 1);
    // best first
    let values: Vec<Option<SortValue>> =
        response.partial_hits.iter().map(|h| h.sort_value).collect();
    assert_eq!(
        values,
        vec![
            Some(SortValue::I64(30)),
            Some(SortValue::I64(20)),
            Some(SortValue::I64(10))
        ]
    );
    assert!(aggregation_parts.is_empty());
    // failure totality
    assert!(
        response.failed_splits.len() as u64 + response.num_successful_splits
            <= response.num_attempted_splits
    );
}

#[test]
fn test_pruning_scenario() {
    // disjoint descending timestamp ranges; after the first split fills the
    // top-K, every later split is pruned
    let n: i64 = 1000;
    let mut splits: Vec<SplitIdAndFooterOffsets> = Vec::new();
    for i in 0..n {
        let start = 10_000 + i * 10;
        splits.push(mk_split(&format!("split-{i:04}"), start, start + 9));
    }
    let request = mk_request(desc_ts_sort(), 10);
    let (filter, run_all, ordering) = leaf_search_plan(&request, &mut splits, Some(&"ts".to_string()));
    assert!(!run_all);
    assert_eq!(filter, CanSplitDoBetter::SplitTimestampHigher(None));
    assert_eq!(ordering, HitOrdering::SortValueDesc);
    // splits now come newest first
    assert_eq!(splits[0].timestamp_end, Some(10_000 + (n - 1) * 10 + 9));

    let mut filter = filter;
    let mut merger = IncrementalMerger::new(request.max_hits as usize, ordering);
    let mut searched = 0u64;
    let mut hits_fed = 0u64;
    for split in &splits {
        match split_disposition(&filter, split, run_all) {
            SplitDisposition::Skip => continue,
            SplitDisposition::AggregationOnly => unreachable!("no aggregation in this request"),
            SplitDisposition::Process => {}
        }
        searched += 1;
        // every split yields 10 hits spread over its seconds
        let start_ns = split.timestamp_start.unwrap() * 1_000_000_000;
        let mut hits = Vec::new();
        for d in 0..10 {
            hits.push(mk_hit(&split.split_id, start_ns + d * 900_000_000));
        }
        hits_fed += 10;
        merger.add_split(mk_response(&split.split_id, hits));
        if let Some(worst) = merger.peek_worst_hit() {
            let worst = PartialHit {
                split_id: worst.split_id.clone(),
                segment_ord: worst.segment_ord,
                doc_id: worst.doc_id,
                sort_value: worst.sort_value,
            };
            filter.record_new_worst_hit(&worst);
        }
    }
    // only a handful of splits near the top could contribute
    assert!(searched <= 3, "searched {searched} splits");
    assert!(hits_fed <= 10 * 3);
}

#[test]
fn test_executor_decisions() {
    let filter = CanSplitDoBetter::SplitTimestampHigher(Some(100));
    let good = mk_split("a", 50, 150);
    let bad = mk_split("b", 10, 50);
    assert_eq!(split_disposition(&filter, &good, false), SplitDisposition::Process);
    assert_eq!(split_disposition(&filter, &bad, false), SplitDisposition::Skip);
    assert_eq!(split_disposition(&filter, &bad, true), SplitDisposition::AggregationOnly);

    let mut count_all = mk_request(Vec::new(), 10);
    count_all.count_hits = CountHits::CountAll;
    assert!(run_all_splits(&count_all, &CanSplitDoBetter::SplitIdHigher(None)));

    let mut agg = mk_request(Vec::new(), 0);
    agg.aggregation_request = Some(AggregationRequest::Opaque { request: "{}".to_string() });
    assert!(run_all_splits(&agg, &CanSplitDoBetter::SplitIdHigher(None)));
    assert!(!run_all_splits(&agg, &CanSplitDoBetter::FindTraceIdsAggregation(None)));

    let plain = mk_request(Vec::new(), 10);
    assert!(!run_all_splits(&plain, &CanSplitDoBetter::SplitIdHigher(None)));

    let err = join_failure_error("task lost".to_string());
    assert_eq!(err.split_id, "unknown");
    assert!(err.retryable_error);

    assert_eq!(
        hit_ordering_for_request(&mk_request(Vec::new(), 10)),
        HitOrdering::SplitIdDesc
    );
}

#[test]
fn test_footer_cache_lru() {
    let mut cache = SplitFooterCache::new(10);
    cache.put("a".to_string(), vec![1, 2, 3, 4]);
    cache.put("b".to_string(), vec![5, 6, 7, 8]);
    assert_eq!(cache.get(&"a".to_string()), Some(vec![1, 2, 3, 4]));
    // "a" is now the most recently used; adding 4 more bytes evicts "b"
    cache.put("c".to_string(), vec![9, 9, 9, 9]);
    assert_eq!(cache.get(&"b".to_string()), None);
    assert_eq!(cache.get(&"a".to_string()), Some(vec![1, 2, 3, 4]));
    assert_eq!(cache.get(&"c".to_string()), Some(vec![9, 9, 9, 9]));
    // an oversized value is not stored
    cache.put("big".to_string(), vec![0; 11]);
    assert_eq!(cache.get(&"big".to_string()), None);
    // replacing a key keeps a single entry
    cache.put("a".to_string(), vec![7]);
    assert_eq!(cache.get(&"a".to_string()), Some(vec![7]));
}

#[test]
fn test_footer_fetch_plan() {
    let mut cache = SplitFooterCache::new(100);
    let split = SplitIdAndFooterOffsets {
        split_id: "s1".to_string(),
        split_footer_start: 128,
        split_footer_end: 256,
        timestamp_start: None,
        timestamp_end: None,
    };
    match footer_fetch_plan(&mut cache, &split) {
        FooterLookup::Miss { path, start, end } => {
            assert_eq!(path, "s1.split");
            assert_eq!(start, 128);
            assert_eq!(end, 256);
        }
        FooterLookup::Hit { .. } => panic!("empty cache cannot hit"),
    }
    cache.put("s1".to_string(), vec![42, 43]);
    match footer_fetch_plan(&mut cache, &split) {
        FooterLookup::Hit { footer } => assert_eq!(footer, vec![42, 43]),
        FooterLookup::Miss { .. } => panic!("footer was cached"),
    }
    assert_eq!(split_file_name(&"abc".to_string()), "abc.split");
}

#[test]
fn test_result_cache() {
    let mut cache = LeafSearchCache::new(4);
    let request = mk_request(desc_ts_sort(), 5);
    assert!(cache.get(&"s1".to_string(), &request).is_none());
    let stored = mk_request(desc_ts_sort(), 5);
    cache.put("s1".to_string(), stored, mk_response("s1", vec![mk_hit("s1", 7)]));
    let found = cache.get(&"s1".to_string(), &request).expect("same request hits");
    assert_eq!(found.num_hits, 1);
    // a different request misses
    let other = mk_request(desc_ts_sort(), 6);
    assert!(cache.get(&"s1".to_string(), &other).is_none());
    // a different split misses
    assert!(cache.get(&"s2".to_string(), &request).is_none());
}

#[test]
fn test_warmup_plan() {
    let info = WarmupInfo {
        term_dict_fields: vec![3],
        full_posting_fields: vec![3],
        terms_grouped_by_field: vec![(1, vec![("alpha".to_string(), true)])],
        term_ranges_grouped_by_field: Vec::new(),
        fast_field_names: vec!["ts".to_string()],
        field_norms: false,
    };
    let tasks = warmup_tasks(&info, &vec![0, 1], 2);
    assert_eq!(
        tasks,
        vec![
            WarmupTask::Postings { segment: 0, field: 1, term: "alpha".to_string(), positions: true },
            WarmupTask::Postings { segment: 1, field: 1, term: "alpha".to_string(), positions: true },
            WarmupTask::TermDict { segment: 0, field: 3 },
            WarmupTask::TermDict { segment: 1, field: 3 },
            WarmupTask::FullPostings { segment: 0, field: 3 },
            WarmupTask::FullPostings { segment: 1, field: 3 },
            WarmupTask::FastField { segment: 0, name: "ts".to_string() },
            WarmupTask::FastField { segment: 1, name: "ts".to_string() },
        ]
    );
    // fieldnorms appear only when scoring requires them
    let info = WarmupInfo {
        term_dict_fields: Vec::new(),
        full_posting_fields: Vec::new(),
        terms_grouped_by_field: Vec::new(),
        term_ranges_grouped_by_field: Vec::new(),
        fast_field_names: Vec::new(),
        field_norms: true,
    };
    let tasks = warmup_tasks(&info, &vec![7], 1);
    assert_eq!(tasks, vec![WarmupTask::FieldNorms { segment: 0, field: 7 }]);
}

#[test]
fn test_metastore_items() {
    assert_eq!(SourceType::Kafka.as_str(), "kafka");
    assert_eq!(SourceType::Cli.as_str(), "ingest-cli");
    assert_eq!(SourceType::PubSub.display_name(), "Google Cloud Pub/Sub");

    let err = MetastoreError::Connection { message: "down".to_string() };
    assert_eq!(err.error_code(), ServiceErrorCode::Internal);
    assert!(err.is_retryable());
    let err = MetastoreError::NotFound(EntityKind::Index { index_id: "logs".to_string() });
    assert_eq!(err.error_code(), ServiceErrorCode::NotFound);
    assert!(!err.is_retryable());
    assert_eq!(MetastoreError::make_load_shed_error(), MetastoreError::TooManyRequests);

    let entity = EntityKind::Splits {
        split_ids: vec!["s1".to_string(), "s2".to_string()],
    };
    assert_eq!(entity.description(), "splits `s1, s2`");
    let entity = EntityKind::Source {
        index_id: "logs".to_string(),
        source_id: "kafka".to_string(),
    };
    assert_eq!(entity.description(), "source `logs/kafka`");

    let uid = IndexUid { index_id: "logs".to_string(), incarnation_id: 7 };
    let req = IndexMetadataRequest::for_index_uid(uid.clone());
    assert_eq!(req.index_uid, Some(uid.clone()));
    assert_eq!(req.index_id, None);
    let req = IndexMetadataRequest::for_index_id("logs".to_string());
    assert_eq!(req.index_id.as_deref(), Some("logs"));

    let req = MarkSplitsForDeletionRequest::new(uid.clone(), vec!["s1".to_string()]);
    assert_eq!(req.split_ids, vec!["s1".to_string()]);
    assert_eq!(LastDeleteOpstampResponse::new(12).last_delete_opstamp, 12);
    assert_eq!(ListDeleteTasksRequest::new(uid, 3).opstamp_start, 3);
    assert_eq!(ListIndexesMetadataRequest::all().index_id_patterns, vec!["*".to_string()]);
}

#[test]
fn test_zstd_json_round_trip() {
    let payload = br#"{"index_id":"logs","sources":[1,2,3]}"#.to_vec();
    let compressed =
        encode_json_zstd(&payload, 3, "IndexMetadata".to_string()).expect("compression works");
    assert_ne!(compressed, payload);
    let decompressed =
        decode_json_zstd(&compressed, "IndexMetadata".to_string()).expect("valid frame");
    assert_eq!(decompressed, payload);
    // the library's compression is real zstd: a plain decoder reads it back
    let decoded = zstd::decode_all(compressed.as_slice()).expect("plain zstd decodes it");
    assert_eq!(decoded, payload);

    let err = decode_json_zstd(&[1, 2, 3], "IndexMetadata".to_string()).unwrap_err();
    match err {
        MetastoreError::JsonDeserializeError { struct_name, .. } => {
            assert_eq!(struct_name, "IndexMetadata");
        }
        other => panic!("unexpected error {other:?}"),
    }
}
