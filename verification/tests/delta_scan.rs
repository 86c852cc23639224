use std::sync::Arc;

use arrow::array::{
    Array, ArrayRef, DictionaryArray, FixedSizeListArray, Int32Array, Int64Array, ListArray,
    StringArray, StructArray, TimestampSecondArray,
};
use arrow::datatypes::{
    i256, DataType, Field, Int64Type, Schema, TimeUnit, UnionFields, UnionMode,
};
use datafusion::common::ScalarValue;
use object_store::path::Path;

use sail_kafka::delta::paths::{looks_like_absolute_uri, rewrite_data_file_location};
use sail_kafka::delta::scalar::Scalar;
use sail_kafka::delta::scan::{
    build_file_scan_config, file_scan_logical_names, file_scan_projection_for_schema,
    logical_file_schema_for_scan, physical_to_logical_name_map, split_files_into_groups,
    try_build_file_scan_config, ColumnMappingMode, DeltaScanConfig, DeltaSnapshot, FileGroups, FileScanConfig, FileScanParams,
    LogicalField, PartitionColumn, ScanFile, StructFieldMatching, TableStatsMode,
};
use sail_kafka::delta::statistics::{
    add_column_statistics, aggregate_table_stats_from_files, are_bounds_fit, bounds_have_mismatched_types,
    has_statistics, is_mapping_fit, map_statistics_to_schema, map_statistics_to_schema_with_name_mapping,
    merge_max_bounds, merge_min_bounds, sanitize_bound_for_type, sanitize_statistics_for_schema,
    stats_for_add, ColumnStatistics, FileStats, Precision, Statistics, UpperBound,
};
use sail_kafka::error::ReadError;
use sail_kafka::json::{parse_json, Json};
use sail_kafka::map::{Duplicate, StringMap};

fn scalar(value: ScalarValue) -> Scalar {
    Scalar::new(value).unwrap()
}

fn exact(value: ScalarValue) -> Precision<Scalar> {
    Precision::Exact(scalar(value))
}

fn inexact(value: ScalarValue) -> Precision<Scalar> {
    Precision::Inexact(scalar(value))
}

fn column(null_count: Precision<usize>, min: Precision<Scalar>, max: Precision<Scalar>) -> ColumnStatistics {
    ColumnStatistics {
        null_count,
        max_value: max,
        min_value: min,
        sum_value: Precision::Absent,
        distinct_count: Precision::Absent,
        byte_size: Precision::Absent,
    }
}

fn logical(name: &str, data_type: DataType, physical: &str) -> LogicalField {
    LogicalField {
        field: Field::new(name, data_type.clone(), true),
        marked: Field::new(name, data_type, true),
        physical_name: physical.to_string(),
    }
}

fn plain_config() -> DeltaScanConfig {
    DeltaScanConfig {
        schema: None,
        file_column_name: None,
        commit_version_column_name: None,
        commit_timestamp_column_name: None,
        wrap_partition_values: false,
        enable_parquet_pushdown: true,
    }
}

fn scan_params(target_partitions: usize, table_stats_mode: TableStatsMode) -> FileScanParams {
    FileScanParams {
        projection: None,
        limit: None,
        has_filter: false,
        has_sort_order: false,
        table_stats_mode,
        target_partitions,
    }
}

fn partitioned_snapshot() -> DeltaSnapshot {
    DeltaSnapshot {
        fields: vec![logical("p", DataType::Utf8, "p"), logical("v", DataType::Int64, "v")],
        partition_columns: vec![PartitionColumn {
            logical_name: "p".to_string(),
            physical_name: "p".to_string(),
        }],
        column_mapping: ColumnMappingMode::Unmapped,
    }
}

fn scan_file(path: &str, partition: &str, stats: Option<FileStats>) -> ScanFile {
    ScanFile {
        path: path.to_string(),
        location: Path::from(path),
        partition_values: vec![scalar(ScalarValue::Utf8(Some(partition.to_string())))],
        commit_version: None,
        commit_timestamp: None,
        stats,
    }
}

fn adds_in_one_partition(count: usize) -> Vec<ScanFile> {
    (0..count)
        .map(|index| scan_file(&format!("p=1/part-{index:05}.parquet"), "1", None))
        .collect()
}

fn one_partition_scan_config(files: Vec<ScanFile>, target_partitions: usize) -> FileScanConfig {
    let file_schema = Schema::new(vec![Field::new("v", DataType::Int64, true)]);
    build_file_scan_config(
        &partitioned_snapshot(),
        &Path::from(""),
        files,
        &plain_config(),
        scan_params(target_partitions, TableStatsMode::AddsOnly),
        &file_schema,
        &vec![false],
        &None,
    )
    .expect("file scan config")
}

fn group_sizes(config: &FileScanConfig) -> Vec<usize> {
    match &config.file_groups {
        FileGroups::Spread(groups) => groups.iter().map(|group| group.len()).collect(),
        FileGroups::ByStatistics(_) => panic!("the files should be spread"),
    }
}

#[test]
fn scan_parallelism_is_independent_of_partition_count() {
    for distinct_partitions in [1usize, 4, 40] {
        let adds = (0..400usize)
            .map(|index| {
                let partition = index % distinct_partitions;
                scan_file(
                    &format!("p={partition}/part-{index:05}.parquet"),
                    &partition.to_string(),
                    None,
                )
            })
            .collect::<Vec<_>>();

        let config = one_partition_scan_config(adds, 200);
        let sizes = group_sizes(&config);
        assert_eq!(
            sizes.len(),
            200,
            "file group count must follow target_partitions, but {distinct_partitions} \
             distinct partition value(s) produced {} group(s)",
            sizes.len()
        );
        let total_files: usize = sizes.iter().sum();
        assert_eq!(total_files, 400, "every file must still be scanned");
    }
}

#[test]
fn scan_file_groups_are_bounded_by_file_count() {
    for file_count in [0usize, 1, 7] {
        let config = one_partition_scan_config(adds_in_one_partition(file_count), 200);
        let sizes = group_sizes(&config);

        assert_eq!(
            sizes.len(),
            file_count.max(1),
            "{file_count} file(s) should produce {} group(s)",
            file_count.max(1)
        );
        assert!(
            sizes.iter().all(|size| *size <= 1),
            "no group should hold more than one file when files are scarce"
        );
    }
}

#[test]
fn single_hive_partition_scan_uses_target_partitions() {
    let config = one_partition_scan_config(adds_in_one_partition(400), 200);
    let sizes = group_sizes(&config);

    let total_files: usize = sizes.iter().sum();
    assert_eq!(total_files, 400, "every file must still be scanned");
    assert_eq!(
        sizes.len(),
        200,
        "400 files in one Hive partition should spread over target_partitions groups, \
         got {} group(s)",
        sizes.len()
    );
}

#[test]
fn test_add_column_statistics_absents_mismatched_bounds() {
    let lhs = column(
        Precision::Absent,
        exact(ScalarValue::Null),
        exact(ScalarValue::Null),
    );
    let rhs = column(
        Precision::Absent,
        exact(ScalarValue::Int64(Some(1))),
        exact(ScalarValue::Int64(Some(5))),
    );

    let merged = add_column_statistics(&lhs, &rhs);
    assert_eq!(merged.max_value, Precision::Absent);
    assert_eq!(merged.min_value, Precision::Absent);
}

#[test]
fn test_sanitize_statistics_for_schema_removes_untyped_null_bounds() {
    let schema = Arc::new(Schema::new(vec![Field::new("v", DataType::Int64, true)]));
    let mut stats = Statistics {
        num_rows: Precision::Exact(10),
        total_byte_size: Precision::Absent,
        column_statistics: vec![column(
            Precision::Absent,
            exact(ScalarValue::Null),
            exact(ScalarValue::Int64(Some(5))),
        )],
    };

    sanitize_statistics_for_schema(&schema, &mut stats);

    assert_eq!(
        stats.column_statistics[0].max_value,
        exact(ScalarValue::Int64(Some(5)))
    );
    assert_eq!(stats.column_statistics[0].min_value, Precision::Absent);
}

#[test]
fn test_sanitize_statistics_for_schema_removes_invalid_min_max() {
    let schema = Arc::new(Schema::new(vec![Field::new("id", DataType::Utf8, true)]));
    let mut stats = Statistics {
        num_rows: Precision::Exact(2),
        total_byte_size: Precision::Absent,
        column_statistics: vec![column(
            Precision::Exact(0),
            exact(ScalarValue::Int32(Some(3))),
            exact(ScalarValue::Int32(Some(22))),
        )],
    };

    sanitize_statistics_for_schema(&schema, &mut stats);

    assert_eq!(stats.column_statistics[0].min_value, Precision::Absent);
    assert_eq!(stats.column_statistics[0].max_value, Precision::Absent);
}

#[test]
fn test_map_statistics_to_schema_reorders_partition_columns_by_name() {
    let source_schema = Arc::new(Schema::new(vec![
        Field::new("load_date", DataType::Date32, true),
        Field::new("id", DataType::Utf8, true),
        Field::new("payload_column_1", DataType::Int32, true),
        Field::new("some_col", DataType::Utf8, true),
    ]));
    let target_schema = Arc::new(Schema::new(vec![
        Field::new("id", DataType::Utf8, true),
        Field::new("payload_column_1", DataType::Int32, true),
        Field::new("some_col", DataType::Utf8, true),
        Field::new("load_date", DataType::Date32, true),
    ]));
    let statistics = Statistics {
        num_rows: Precision::Exact(2),
        total_byte_size: Precision::Absent,
        column_statistics: vec![
            ColumnStatistics::new_unknown(),
            column(
                Precision::Exact(0),
                exact(ScalarValue::Utf8(Some("2".to_string()))),
                exact(ScalarValue::Utf8(Some("3".to_string()))),
            ),
            column(
                Precision::Exact(0),
                exact(ScalarValue::Int32(Some(3))),
                exact(ScalarValue::Int32(Some(22))),
            ),
            column(
                Precision::Exact(0),
                exact(ScalarValue::Utf8(Some("foo".to_string()))),
                exact(ScalarValue::Utf8(Some("foo".to_string()))),
            ),
        ],
    };

    let mapped = map_statistics_to_schema(&statistics, &source_schema, &target_schema);

    assert_eq!(mapped.num_rows, Precision::Exact(2));
    assert_eq!(mapped.column_statistics.len(), 4);
    assert_eq!(
        mapped.column_statistics[0].min_value,
        exact(ScalarValue::Utf8(Some("2".to_string())))
    );
    assert_eq!(
        mapped.column_statistics[0].max_value,
        exact(ScalarValue::Utf8(Some("3".to_string())))
    );
    assert_eq!(
        mapped.column_statistics[1].min_value,
        exact(ScalarValue::Int32(Some(3)))
    );
    assert_eq!(
        mapped.column_statistics[1].max_value,
        exact(ScalarValue::Int32(Some(22)))
    );
    assert_eq!(
        mapped.column_statistics[2].min_value,
        exact(ScalarValue::Utf8(Some("foo".to_string())))
    );
    assert_eq!(mapped.column_statistics[3], ColumnStatistics::new_unknown());
}

#[test]
fn test_map_statistics_to_schema_supports_physical_column_names() {
    let source_schema = Arc::new(Schema::new(vec![Field::new(
        "payload_column_1",
        DataType::Int32,
        true,
    )]));
    let target_schema = Arc::new(Schema::new(vec![Field::new(
        "col-physical-payload",
        DataType::Int32,
        true,
    )]));
    let statistics = Statistics {
        num_rows: Precision::Exact(2),
        total_byte_size: Precision::Absent,
        column_statistics: vec![column(
            Precision::Exact(0),
            exact(ScalarValue::Int32(Some(3))),
            exact(ScalarValue::Int32(Some(22))),
        )],
    };
    let physical_to_logical = StringMap::from_entries(vec![(
        "col-physical-payload".to_string(),
        "payload_column_1".to_string(),
    )]);

    let mapped = map_statistics_to_schema_with_name_mapping(
        &statistics,
        &source_schema,
        &target_schema,
        Some(&physical_to_logical),
    );

    assert_eq!(
        mapped.column_statistics[0].min_value,
        exact(ScalarValue::Int32(Some(3)))
    );
    assert_eq!(
        mapped.column_statistics[0].max_value,
        exact(ScalarValue::Int32(Some(22)))
    );
}

#[test]
fn test_rewrite_data_file_location_preserves_absolute_uri_paths() {
    let table_root = Path::from("bucket/table");
    let absolute = Path::from("s3://other-bucket/path/part-000.parquet");

    let rewritten = rewrite_data_file_location(&table_root, absolute.clone());

    assert_eq!(rewritten, absolute);
}

#[test]
fn test_rewrite_data_file_location_prefixes_relative_paths() {
    let rewritten = rewrite_data_file_location(
        &Path::from("bucket/table"),
        Path::from("part=1/part-000.parquet"),
    );

    assert_eq!(
        rewritten,
        Path::from("bucket/table/part=1/part-000.parquet")
    );
}

#[test]
fn test_rewrite_data_file_location_preserves_percent_encoded_partition_dirs() {
    let location =
        Path::parse("ts_utc=2024-01-15%2010%3A30%3A00.123456/part-00000-abc.snappy.parquet")
            .expect("valid path");

    let rewritten = rewrite_data_file_location(&Path::from("bucket/table"), location);

    assert_eq!(
        rewritten.as_ref(),
        "bucket/table/ts_utc=2024-01-15%2010%3A30%3A00.123456/part-00000-abc.snappy.parquet"
    );
}

/// The statistics of a file as its log writes them, for columns of the type `data_type`.
fn recorded(json: &str, data_type: &DataType) -> FileStats {
    let root = parse_json(json).expect("statistics");
    let number = |value: &Json| match value {
        Json::Number(n) => n.signed,
        _ => None,
    };
    let typed = |n: i64| match data_type {
        DataType::Int32 => ScalarValue::Int32(Some(n as i32)),
        _ => ScalarValue::Int64(Some(n)),
    };
    let entries = |key: &str| match root.entry(key) {
        Some(Json::Object(entries)) => entries
            .iter()
            .filter_map(|(name, value)| number(value).map(|n| (name.clone(), n)))
            .collect::<Vec<_>>(),
        _ => Vec::new(),
    };
    FileStats {
        num_records: root.signed_entry("numRecords").unwrap_or(0),
        tight_bounds: !matches!(root.entry("tightBounds"), Some(Json::Bool(false))),
        min_values: StringMap::from_entries(
            entries("minValues").into_iter().map(|(k, n)| (k, scalar(typed(n)))).collect(),
        ),
        max_values: StringMap::from_entries(
            entries("maxValues")
                .into_iter()
                .map(|(k, n)| (k, UpperBound { value: scalar(typed(n)), widened: scalar(typed(n + 1)) }))
                .collect(),
        ),
        null_counts: StringMap::from_entries(entries("nullCount")),
    }
}

#[test]
fn test_stats_for_add_marks_wide_bounds_as_inexact() {
    let file_schema = Arc::new(Schema::new(vec![Field::new(
        "value",
        DataType::Int32,
        true,
    )]));
    let add = recorded(
        r#"{"numRecords":3,"tightBounds":false,"minValues":{"value":1},"maxValues":{"value":7},"nullCount":{"value":0}}"#,
        &DataType::Int32,
    );

    let stats = stats_for_add(&Some(add), &file_schema, &vec![false]).expect("stats should be present");
    let column = &stats.column_statistics[0];

    assert_eq!(column.min_value, inexact(ScalarValue::Int32(Some(1))));
    assert_eq!(column.max_value, inexact(ScalarValue::Int32(Some(7))));
    assert_eq!(column.null_count, Precision::Inexact(0));
}

#[test]
fn test_stats_for_add_does_not_fallback_to_a_colliding_logical_name() {
    let file_schema = Arc::new(Schema::new(vec![Field::new(
        "col-target",
        DataType::Int64,
        true,
    )]));
    let add = recorded(
        r#"{"numRecords":1,"minValues":{"col-source":0},"maxValues":{"col-source":0},"nullCount":{"col-source":0}}"#,
        &DataType::Int64,
    );
    let stats = stats_for_add(&Some(add), &file_schema, &vec![false]).expect("stats should be present");
    let column = &stats.column_statistics[0];

    assert_eq!(column.min_value, Precision::Absent);
    assert_eq!(column.max_value, Precision::Absent);
    assert_eq!(column.null_count, Precision::Absent);
}

#[test]
fn recorded_statistics_are_exact_where_bounds_are_tight() {
    let schema = Schema::new(vec![Field::new("v", DataType::Int64, true)]);
    let add = recorded(
        r#"{"numRecords":4,"minValues":{"v":2},"maxValues":{"v":9},"nullCount":{"v":-5}}"#,
        &DataType::Int64,
    );
    let stats = stats_for_add(&Some(add), &schema, &vec![false]).unwrap();
    assert_eq!(stats.num_rows, Precision::Exact(4));
    assert_eq!(stats.total_byte_size, Precision::Absent);
    assert_eq!(
        stats.column_statistics,
        vec![column(
            Precision::Exact(0),
            exact(ScalarValue::Int64(Some(2))),
            exact(ScalarValue::Int64(Some(9))),
        )]
    );
    assert!(stats_for_add(&None, &schema, &vec![false]).is_none());
}

#[test]
fn bounds_of_times_are_widened_and_inexact() {
    let schema = Schema::new(vec![Field::new("v", DataType::Int64, true)]);
    let add = recorded(
        r#"{"numRecords":-1,"minValues":{"v":2},"maxValues":{"v":9}}"#,
        &DataType::Int64,
    );
    let stats = stats_for_add(&Some(add), &schema, &vec![true]).unwrap();
    assert_eq!(stats.num_rows, Precision::Absent);
    assert_eq!(stats.column_statistics[0].min_value, inexact(ScalarValue::Int64(Some(2))));
    assert_eq!(stats.column_statistics[0].max_value, inexact(ScalarValue::Int64(Some(10))));
}

#[test]
fn null_bounds_are_not_recorded() {
    let schema = Schema::new(vec![Field::new("v", DataType::Int64, true)]);
    let add = FileStats {
        num_records: 1,
        tight_bounds: true,
        min_values: StringMap::from_entries(vec![(
            "v".to_string(),
            scalar(ScalarValue::Int64(None)),
        )]),
        max_values: StringMap::from_entries(vec![(
            "v".to_string(),
            UpperBound {
                value: scalar(ScalarValue::Int64(None)),
                widened: scalar(ScalarValue::Int64(Some(1))),
            },
        )]),
        null_counts: StringMap::new(),
    };
    let stats = stats_for_add(&Some(add), &schema, &vec![true]).unwrap();
    assert_eq!(stats.column_statistics[0], ColumnStatistics::new_unknown());
}

#[test]
fn statistics_of_files_are_added_up() {
    let one = Statistics {
        num_rows: Precision::Exact(3),
        total_byte_size: Precision::Exact(99),
        column_statistics: vec![column(
            Precision::Exact(1),
            exact(ScalarValue::Int64(Some(5))),
            exact(ScalarValue::Int64(Some(8))),
        )],
    };
    let two = Statistics {
        num_rows: Precision::Exact(4),
        total_byte_size: Precision::Exact(1),
        column_statistics: vec![column(
            Precision::Inexact(2),
            exact(ScalarValue::Int64(Some(-1))),
            inexact(ScalarValue::Int64(Some(7))),
        )],
    };
    let sum = aggregate_table_stats_from_files(&vec![one, two]);
    assert_eq!(sum.num_rows, Precision::Exact(7));
    assert_eq!(sum.total_byte_size, Precision::Absent);
    assert_eq!(
        sum.column_statistics,
        vec![column(
            Precision::Inexact(3),
            exact(ScalarValue::Int64(Some(-1))),
            inexact(ScalarValue::Int64(Some(8))),
        )]
    );
}

#[test]
fn rows_are_absent_where_a_file_does_not_know_them() {
    let known = Statistics {
        num_rows: Precision::Exact(usize::MAX),
        total_byte_size: Precision::Absent,
        column_statistics: vec![],
    };
    let more = Statistics {
        num_rows: Precision::Exact(2),
        total_byte_size: Precision::Absent,
        column_statistics: vec![],
    };
    let sum = aggregate_table_stats_from_files(&vec![known, more]);
    assert_eq!(sum.num_rows, Precision::Exact(usize::MAX));

    let vague = Statistics {
        num_rows: Precision::Inexact(2),
        total_byte_size: Precision::Absent,
        column_statistics: vec![],
    };
    let sum = aggregate_table_stats_from_files(&vec![vague]);
    assert_eq!(sum.num_rows, Precision::Absent);
    let none = aggregate_table_stats_from_files(&vec![]);
    assert_eq!(none.num_rows, Precision::Exact(0));
    assert!(none.column_statistics.is_empty());
}

#[test]
fn counts_that_overflow_are_inexact() {
    assert_eq!(
        Precision::Exact(usize::MAX).plus(&Precision::Exact(1)),
        Precision::Inexact(usize::MAX)
    );
    assert_eq!(Precision::Exact(1).plus(&Precision::Exact(2)), Precision::Exact(3));
    assert_eq!(Precision::Exact(1).plus(&Precision::Absent), Precision::Absent);
    assert_eq!(
        Precision::Inexact(usize::MAX).plus(&Precision::Exact(2)),
        Precision::Inexact(usize::MAX)
    );
}

#[test]
fn bounds_merge_only_within_a_type() {
    let small = exact(ScalarValue::Int32(Some(1)));
    let large = exact(ScalarValue::Int32(Some(6)));
    let other = exact(ScalarValue::Int64(Some(6)));
    assert!(bounds_have_mismatched_types(&small, &other));
    assert!(!bounds_have_mismatched_types(&small, &large));
    assert!(!bounds_have_mismatched_types(&small, &Precision::Absent));
    assert_eq!(merge_max_bounds(&small, &large), exact(ScalarValue::Int32(Some(6))));
    assert_eq!(merge_max_bounds(&large, &small), exact(ScalarValue::Int32(Some(6))));
    assert_eq!(merge_min_bounds(&small, &large), exact(ScalarValue::Int32(Some(1))));
    assert_eq!(merge_min_bounds(&large, &small), exact(ScalarValue::Int32(Some(1))));
    assert_eq!(merge_max_bounds(&small, &other), Precision::Absent);
    assert_eq!(merge_min_bounds(&small, &Precision::Absent), Precision::Absent);
}

#[test]
fn bounds_are_cast_to_the_type_of_the_column() {
    assert_eq!(
        sanitize_bound_for_type(&exact(ScalarValue::Int32(Some(7))), &DataType::Int64),
        exact(ScalarValue::Int64(Some(7)))
    );
    assert_eq!(
        sanitize_bound_for_type(&inexact(ScalarValue::Int32(Some(7))), &DataType::Utf8),
        inexact(ScalarValue::Utf8(Some("7".to_string())))
    );
    assert_eq!(
        sanitize_bound_for_type(
            &exact(ScalarValue::Utf8(Some("no number".to_string()))),
            &DataType::Int64
        ),
        Precision::Absent
    );
}

#[test]
fn files_have_statistics_where_a_column_has_any() {
    assert!(!has_statistics(&None));
    let nothing = Statistics::new_unknown(2);
    assert!(!has_statistics(&Some(nothing)));
    let mut sized = Statistics::new_unknown(1);
    sized.column_statistics[0].byte_size = Precision::Exact(1);
    assert!(!has_statistics(&Some(sized)));
    let mut counted = Statistics::new_unknown(2);
    counted.column_statistics[1].null_count = Precision::Inexact(0);
    assert!(has_statistics(&Some(counted)));
}

#[test]
fn absolute_locations_have_a_scheme() {
    assert!(looks_like_absolute_uri("s3://bucket/key"));
    assert!(looks_like_absolute_uri("file:/tmp"));
    assert!(looks_like_absolute_uri("a+b-c.2:/x"));
    assert!(!looks_like_absolute_uri("part=1/a:/b"));
    assert!(!looks_like_absolute_uri(":/b"));
    assert!(!looks_like_absolute_uri("scheme:rest"));
    assert!(!looks_like_absolute_uri("scheme:"));
    assert!(!looks_like_absolute_uri("no colon"));
}

#[test]
fn files_below_an_empty_root_keep_their_path() {
    let rewritten = rewrite_data_file_location(&Path::from(""), Path::from("a/b"));
    assert_eq!(rewritten.as_ref(), "a/b");
    let rewritten = rewrite_data_file_location(&Path::from("a/b"), Path::from(""));
    assert_eq!(rewritten.as_ref(), "a/b");
}

#[test]
fn files_are_spread_in_turn() {
    let groups = split_files_into_groups(vec![0, 1, 2, 3, 4, 5, 6], 3);
    assert_eq!(groups, vec![vec![0, 3, 6], vec![1, 4], vec![2, 5]]);
    assert_eq!(split_files_into_groups(vec![1, 2], 0), vec![vec![1, 2]]);
    assert_eq!(split_files_into_groups(vec![1, 2], 9), vec![vec![1], vec![2]]);
    assert_eq!(split_files_into_groups(Vec::<u8>::new(), 4), vec![Vec::<u8>::new()]);
}

#[test]
fn first_of_two_fields_with_one_name_in_files_counts() {
    let snapshot = DeltaSnapshot {
        fields: vec![
            logical("a", DataType::Int64, "x"),
            logical("b", DataType::Int64, "x"),
            logical("c", DataType::Int64, "y"),
        ],
        partition_columns: vec![],
        column_mapping: ColumnMappingMode::Name,
    };
    let map = physical_to_logical_name_map(&snapshot);
    assert_eq!(map.len(), 2);
    assert_eq!(map.get("x").unwrap(), "a");
    assert_eq!(map.get("y").unwrap(), "c");
}

#[test]
fn columns_of_a_scan_have_the_names_of_the_table() {
    let snapshot = DeltaSnapshot {
        fields: vec![logical("name", DataType::Utf8, "col-1"), logical("p", DataType::Utf8, "col-2")],
        partition_columns: vec![PartitionColumn {
            logical_name: "p".to_string(),
            physical_name: "col-2".to_string(),
        }],
        column_mapping: ColumnMappingMode::Name,
    };
    let config = DeltaScanConfig {
        file_column_name: Some("file".to_string()),
        commit_version_column_name: Some("version".to_string()),
        commit_timestamp_column_name: Some("at".to_string()),
        ..plain_config()
    };
    let file_schema = Schema::new(vec![
        Field::new("col-1", DataType::Utf8, true),
        Field::new("extra", DataType::Utf8, true),
    ]);
    assert_eq!(
        file_scan_logical_names(&snapshot, &config, &file_schema),
        vec!["name", "extra", "p", "file", "version", "at"]
    );
    let output = Schema::new(vec![
        Field::new("version", DataType::Int64, true),
        Field::new("name", DataType::Utf8, true),
    ]);
    assert_eq!(
        file_scan_projection_for_schema(&snapshot, &config, &file_schema, &output).unwrap(),
        vec![4, 0]
    );
    let missing = Schema::new(vec![Field::new("col-1", DataType::Utf8, true)]);
    match file_scan_projection_for_schema(&snapshot, &config, &file_schema, &missing) {
        Err(ReadError::Plan(text)) => assert_eq!(
            text,
            "Column 'col-1' is not available in Delta file scan schema"
        ),
        other => panic!("unexpected {other:?}"),
    }
}

#[test]
fn fields_of_files_are_those_of_the_table() {
    let physical = Schema::new_with_metadata(
        vec![
            Field::new("col-1", DataType::Int32, false),
            Field::new("extra", DataType::Utf8, true),
        ],
        std::collections::HashMap::from([("k".to_string(), "v".to_string())]),
    );
    let fields = vec![logical("old", DataType::Utf8, "col-1"), logical("id", DataType::Int64, "col-1")];
    let schema = logical_file_schema_for_scan(&physical, &fields);
    assert_eq!(schema.field(0), &Field::new("col-1", DataType::Int64, true));
    assert_eq!(schema.field(1), &Field::new("extra", DataType::Utf8, true));
    assert_eq!(schema.metadata().get("k").unwrap(), "v");
}

#[test]
fn scan_adds_columns_that_are_asked_for() {
    let config = DeltaScanConfig {
        file_column_name: Some("file".to_string()),
        commit_version_column_name: Some("version".to_string()),
        commit_timestamp_column_name: Some("at".to_string()),
        wrap_partition_values: true,
        ..plain_config()
    };
    let mut file = scan_file("p=1/a.parquet", "1", None);
    file.commit_version = Some(12);
    let file_schema = Schema::new(vec![Field::new("v", DataType::Int64, true)]);
    let plan = build_file_scan_config(
        &partitioned_snapshot(),
        &Path::from("root"),
        vec![file],
        &config,
        FileScanParams {
            projection: Some(vec![1]),
            limit: Some(10),
            has_filter: true,
            has_sort_order: true,
            table_stats_mode: TableStatsMode::Unknown,
            target_partitions: 8,
        },
        &file_schema,
        &vec![false],
        &None,
    )
    .unwrap();
    let dictionary =
        DataType::Dictionary(Box::new(DataType::UInt16), Box::new(DataType::Utf8));
    assert_eq!(
        plan.partition_fields,
        vec![
            Field::new("p", dictionary.clone(), true),
            Field::new("file", dictionary, true),
            Field::new("version", DataType::Int64, true),
            Field::new("at", DataType::Int64, true),
        ]
    );
    assert_eq!(plan.statistics, Statistics::new_unknown(5));
    assert_eq!(plan.projection, Some(vec![1]));
    assert_eq!(plan.limit, Some(10));
    assert!(plan.use_filter);
    assert_eq!(plan.struct_matching, StructFieldMatching::Name);
    let groups = match plan.file_groups {
        FileGroups::Spread(groups) => groups,
        FileGroups::ByStatistics(_) => panic!("nothing is known of the file"),
    };
    assert_eq!(groups.len(), 1);
    let planned = &groups[0][0];
    assert_eq!(planned.index, 0);
    assert_eq!(planned.location.as_ref(), "root/p=1/a.parquet");
    assert!(planned.statistics.is_none());
    assert_eq!(
        planned.partition_values,
        vec![
            scalar(ScalarValue::Utf8(Some("1".to_string()))),
            scalar(ScalarValue::Dictionary(
                Box::new(DataType::UInt16),
                Box::new(ScalarValue::Utf8(Some("p=1/a.parquet".to_string())))
            )),
            scalar(ScalarValue::Int64(Some(12))),
            scalar(ScalarValue::Int64(None)),
        ]
    );
}

#[test]
fn partition_columns_have_to_be_in_the_schema() {
    let snapshot = DeltaSnapshot {
        partition_columns: vec![PartitionColumn {
            logical_name: "q".to_string(),
            physical_name: "q".to_string(),
        }],
        ..partitioned_snapshot()
    };
    let result = build_file_scan_config(
        &snapshot,
        &Path::from(""),
        vec![],
        &plain_config(),
        scan_params(1, TableStatsMode::Unknown),
        &Schema::new(vec![Field::new("v", DataType::Int64, true)]),
        &vec![false],
        &None,
    );
    match result {
        Err(ReadError::Plan(text)) => {
            assert_eq!(text, "Partition column q not found in schema")
        }
        other => panic!("unexpected {other:?}"),
    }
}

#[test]
fn statistics_of_a_scan_cover_its_schema() {
    let json = r#"{"numRecords":3,"minValues":{"v":1},"maxValues":{"v":7},"nullCount":{"v":0}}"#;
    let files = vec![
        scan_file("a", "1", Some(recorded(json, &DataType::Int64))),
        scan_file("b", "2", Some(recorded(json, &DataType::Int64))),
    ];
    let config = one_partition_scan_config(files, 2);
    assert_eq!(config.statistics.num_rows, Precision::Exact(6));
    assert_eq!(config.statistics.column_statistics.len(), 2);
    assert_eq!(
        config.statistics.column_statistics[0].max_value,
        exact(ScalarValue::Int64(Some(7)))
    );
    assert_eq!(config.statistics.column_statistics[1], ColumnStatistics::new_unknown());

    let files = vec![
        scan_file("a", "1", Some(recorded(json, &DataType::Int64))),
        scan_file("b", "2", None),
    ];
    let config = one_partition_scan_config(files, 2);
    assert_eq!(config.statistics, Statistics::new_unknown(2));
}

#[test]
fn ordered_scans_are_grouped_by_statistics() {
    let json = r#"{"numRecords":3,"minValues":{"v":1},"maxValues":{"v":7}}"#;
    let file_schema = Schema::new(vec![Field::new("v", DataType::Int64, true)]);
    let plan = |files: Vec<ScanFile>| {
        build_file_scan_config(
            &partitioned_snapshot(),
            &Path::from(""),
            files,
            &plain_config(),
            FileScanParams {
                has_sort_order: true,
                ..scan_params(4, TableStatsMode::Snapshot)
            },
            &file_schema,
            &vec![false],
            &Some(Statistics {
                num_rows: Precision::Exact(9),
                total_byte_size: Precision::Absent,
                column_statistics: vec![
                    ColumnStatistics::new_unknown(),
                    column(
                        Precision::Exact(1),
                        exact(ScalarValue::Int64(Some(0))),
                        exact(ScalarValue::Int64(Some(5))),
                    ),
                ],
            }),
        )
        .unwrap()
    };
    let known = plan(vec![scan_file("a", "1", Some(recorded(json, &DataType::Int64)))]);
    assert!(matches!(known.file_groups, FileGroups::ByStatistics(_)));
    assert_eq!(known.statistics.num_rows, Precision::Exact(9));
    assert_eq!(
        known.statistics.column_statistics[0].max_value,
        exact(ScalarValue::Int64(Some(5)))
    );
    let vague = plan(vec![scan_file("a", "1", None)]);
    assert!(matches!(vague.file_groups, FileGroups::Spread(_)));
}

fn struct_of(field: Field, rows: usize) -> ScalarValue {
    let numbers: Vec<i64> = (0..rows as i64).collect();
    let array: ArrayRef = Arc::new(Int64Array::from(numbers));
    ScalarValue::Struct(Arc::new(StructArray::from(vec![(Arc::new(field), array)])))
}

fn marked_field() -> Field {
    Field::new("a", DataType::Int64, true)
        .with_metadata(std::collections::HashMap::from([("k".to_string(), "v".to_string())]))
}

fn list_of(numbers: &[i64]) -> ScalarValue {
    let items: Vec<ScalarValue> = numbers.iter().map(|n| ScalarValue::Int64(Some(*n))).collect();
    ScalarValue::List(ScalarValue::new_list(&items, &DataType::Int64, true))
}

fn list_type() -> DataType {
    DataType::List(Arc::new(Field::new("item", DataType::Int64, true)))
}

#[test]
fn single_values_have_one_row() {
    assert!(Scalar::new(ScalarValue::Int64(None)).is_some());
    assert!(Scalar::new(ScalarValue::Null).is_some());
    let plain = Field::new("a", DataType::Int64, true);
    assert!(Scalar::new(struct_of(plain.clone(), 1)).is_some());
    assert!(Scalar::new(struct_of(plain, 2)).is_none());
    assert!(Scalar::new(list_of(&[1, 2])).is_some());
    let rows = ListArray::from_iter_primitive::<Int64Type, _, _>(vec![
        Some(vec![Some(1)]),
        Some(vec![Some(2)]),
    ]);
    let rows = ScalarValue::List(Arc::new(rows));
    assert!(Scalar::new(rows.clone()).is_none());
    let kept = |value: ScalarValue| {
        ScalarValue::Dictionary(Box::new(DataType::UInt16), Box::new(value))
    };
    assert!(Scalar::new(kept(rows)).is_none());
    assert!(Scalar::new(kept(list_of(&[]))).is_some());
    let text = ScalarValue::Utf8(Some("x".to_string()));
    assert_eq!(scalar(text.clone()).value(), &text);
}

#[test]
fn values_that_are_not_what_their_type_says_are_not_cast() {
    let bytes = |size: i32, bytes: Option<Vec<u8>>| scalar(ScalarValue::FixedSizeBinary(size, bytes));
    assert!(bytes(2, Some(vec![1, 2])).can_cast_to(&DataType::Binary));
    assert!(bytes(2, None).can_cast_to(&DataType::Binary));
    assert!(!bytes(2, Some(vec![1])).can_cast_to(&DataType::Binary));
    assert!(!bytes(-1, None).can_cast_to(&DataType::Binary));
    let short = bytes(2, Some(vec![1]));
    assert!(short.can_cast_to(&DataType::FixedSizeBinary(2)));
    assert_eq!(short.cast_to(&DataType::FixedSizeBinary(2)), Some(short.duplicate()));
    let kept = |key: DataType| {
        let text = ScalarValue::Utf8(Some("7".to_string()));
        scalar(ScalarValue::Dictionary(Box::new(key), Box::new(text)))
    };
    assert_eq!(
        kept(DataType::UInt16).cast_to(&DataType::Int64),
        Some(scalar(ScalarValue::Int64(Some(7))))
    );
    assert!(!kept(DataType::Utf8).can_cast_to(&DataType::Int64));
    assert!(scalar(ScalarValue::Decimal128(Some(99), 2, 0)).can_cast_to(&DataType::Int64));
    assert!(!scalar(ScalarValue::Decimal128(Some(100), 2, 0)).can_cast_to(&DataType::Int64));
}

#[test]
fn casts_that_could_panic_are_left_out() {
    let null = || scalar(ScalarValue::Null);
    for unit in [TimeUnit::Nanosecond, TimeUnit::Microsecond] {
        assert!(!null().can_cast_to(&DataType::Time32(unit)));
        assert!(null().can_cast_to(&DataType::Time64(unit)));
    }
    for unit in [TimeUnit::Second, TimeUnit::Millisecond] {
        assert!(null().can_cast_to(&DataType::Time32(unit)));
        assert!(!null().can_cast_to(&DataType::Time64(unit)));
    }
    assert_eq!(
        null().cast_to(&DataType::Time32(TimeUnit::Second)),
        Some(scalar(ScalarValue::Time32Second(None)))
    );
    let wide = scalar(ScalarValue::Decimal256(Some(i256::from_i128(1)), 76, 0));
    assert!(!wide.can_cast_to(&DataType::Decimal256(76, 76)));
    assert!(wide.can_cast_to(&DataType::Decimal256(76, 0)));
    let decimal = scalar(ScalarValue::Decimal128(Some(150), 10, 2));
    assert!(!decimal.can_cast_to(&DataType::Decimal128(38, 120)));
    assert_eq!(
        decimal.cast_to(&DataType::Decimal128(12, 4)),
        Some(scalar(ScalarValue::Decimal128(Some(15000), 12, 4)))
    );
    let none = FixedSizeListArray::try_new_with_length(
        Arc::new(Field::new("item", DataType::Int64, true)),
        0,
        Arc::new(Int64Array::from(Vec::<i64>::new())),
        None,
        1,
    );
    let none = scalar(ScalarValue::FixedSizeList(Arc::new(none.unwrap())));
    let texts = DataType::List(Arc::new(Field::new("item", DataType::Utf8, true)));
    assert!(!none.can_cast_to(&texts));
    assert!(scalar(list_of(&[])).can_cast_to(&texts));
    assert!(!null().can_cast_to(&DataType::FixedSizeBinary(-1)));
}

#[test]
fn metadata_tells_types_apart() {
    let plain = Field::new("a", DataType::Int64, true);
    let a = exact(struct_of(plain.clone(), 1));
    let b = exact(struct_of(marked_field(), 1));
    assert!(bounds_have_mismatched_types(&a, &b));
    assert!(!bounds_have_mismatched_types(&a, &exact(struct_of(plain, 1))));
    assert_eq!(merge_max_bounds(&a, &b), Precision::Absent);
    assert_eq!(merge_max_bounds(&a, &a), a);
}

#[test]
fn bounds_of_structures_are_cast_to_the_fields_of_the_table() {
    let bound = exact(struct_of(Field::new("a", DataType::Int64, true), 1));
    let target = DataType::Struct(vec![marked_field()].into());
    let cast = sanitize_bound_for_type(&bound, &target);
    assert_eq!(cast, exact(struct_of(marked_field(), 1)));
    assert_eq!(sanitize_bound_for_type(&cast, &target), cast);
}

#[test]
fn statistics_are_settled_after_the_first_time() {
    let schema = Schema::new(vec![
        Field::new("a", DataType::Int64, true),
        Field::new("b", DataType::Utf8, true),
        Field::new("c", DataType::List(Arc::new(Field::new("item", DataType::Int64, true))), true),
    ]);
    let number = |n: i32| inexact(ScalarValue::Int32(Some(n)));
    let mut stats = Statistics {
        num_rows: Precision::Exact(3),
        total_byte_size: Precision::Absent,
        column_statistics: vec![
            column(Precision::Exact(1), number(1), number(2)),
            column(Precision::Absent, number(20), number(3)),
            column(Precision::Exact(2), Precision::Absent, Precision::Absent),
        ],
    };
    assert!(are_bounds_fit(&stats.column_statistics, &schema));
    sanitize_statistics_for_schema(&schema, &mut stats);
    assert_eq!(stats.column_statistics[0].min_value, inexact(ScalarValue::Int64(Some(1))));
    assert_eq!(
        stats.column_statistics[1].max_value,
        inexact(ScalarValue::Utf8(Some("3".to_string())))
    );
    let first = stats.duplicate();
    sanitize_statistics_for_schema(&schema, &mut stats);
    assert_eq!(stats, first);
}

fn list_of_structures(part: Field, array: ArrayRef) -> ScalarValue {
    let rows = StructArray::from(vec![(Arc::new(part), array)]);
    let item = Field::new("item", rows.data_type().clone(), true);
    let offsets = arrow::buffer::OffsetBuffer::from_lengths([rows.len()]);
    ScalarValue::List(Arc::new(ListArray::new(Arc::new(item), offsets, Arc::new(rows), None)))
}

#[test]
fn times_and_decimals_are_cast_where_they_cannot_overflow() {
    let cast = |value: ScalarValue, target: DataType| {
        let value = scalar(value);
        assert!(value.can_cast_to(&target), "{value:?} to {target}");
        value.cast_to(&target).map(|cast| cast.value().clone())
    };
    assert_eq!(
        cast(ScalarValue::Time32Second(Some(1)), DataType::Time32(TimeUnit::Millisecond)),
        Some(ScalarValue::Time32Millisecond(Some(1000)))
    );
    assert_eq!(
        cast(ScalarValue::Time32Second(Some(i32::MAX)), DataType::Time32(TimeUnit::Millisecond)),
        None
    );
    assert_eq!(
        cast(ScalarValue::Date64(Some(86_400_000 * 3)), DataType::Date32),
        Some(ScalarValue::Date32(Some(3)))
    );
    assert_eq!(
        cast(ScalarValue::DurationSecond(Some(2)), DataType::Duration(TimeUnit::Nanosecond)),
        Some(ScalarValue::DurationNanosecond(Some(2_000_000_000)))
    );
    assert_eq!(
        cast(
            ScalarValue::TimestampNanosecond(Some(0), Some("+14:00".into())),
            DataType::Utf8
        ),
        Some(ScalarValue::Utf8(Some("1970-01-01T14:00:00+14:00".to_string())))
    );
    assert_eq!(
        cast(ScalarValue::Decimal128(Some(-150), 10, 2), DataType::Decimal256(40, 3)),
        Some(ScalarValue::Decimal256(Some(i256::from_i128(-1500)), 40, 3))
    );
    assert_eq!(
        cast(ScalarValue::Decimal256(Some(i256::from_i128(1499)), 40, 3), DataType::Int64),
        Some(ScalarValue::Int64(Some(1)))
    );
    let fields = UnionFields::try_new(vec![0], vec![Field::new("a", DataType::Int64, true)]);
    let union = DataType::Union(fields.unwrap(), UnionMode::Sparse);
    assert_eq!(cast(ScalarValue::Int64(Some(1)), union.clone()), None);
    assert!(!scalar(ScalarValue::Null).can_cast_to(&union));

    let refused = |value: ScalarValue, target: DataType| !scalar(value).can_cast_to(&target);
    assert!(refused(
        ScalarValue::Time64Microsecond(Some(1)),
        DataType::Time64(TimeUnit::Nanosecond)
    ));
    assert!(refused(
        ScalarValue::Date64(Some(1)),
        DataType::Timestamp(TimeUnit::Nanosecond, None)
    ));
    assert!(refused(
        ScalarValue::TimestampSecond(Some(1), Some("+14:00".into())),
        DataType::Date32
    ));
    assert!(refused(ScalarValue::DurationSecond(Some(1)), DataType::Utf8));
    assert!(refused(ScalarValue::Decimal128(Some(1), 38, 0), DataType::Decimal128(38, 100)));
}

#[test]
fn lists_are_written_as_text_where_their_parts_can_be() {
    let numbers: ArrayRef = Arc::new(Int64Array::from(vec![1, 2]));
    let plain = list_of_structures(Field::new("a", DataType::Int64, true), numbers);
    assert_eq!(
        scalar(plain).cast_to(&DataType::Utf8),
        Some(scalar(ScalarValue::Utf8(Some("[{a: 1}, {a: 2}]".to_string()))))
    );
    let zone = DataType::Timestamp(TimeUnit::Second, Some("+14:00".into()));
    let times: ArrayRef =
        Arc::new(TimestampSecondArray::from(vec![1]).with_timezone("+14:00"));
    let zoned = scalar(list_of_structures(Field::new("a", zone, true), times));
    assert!(!zoned.can_cast_to(&DataType::Utf8));
    assert!(zoned.can_cast_to(&DataType::Int64));
    assert_eq!(zoned.cast_to(&DataType::Int64), None);
}

#[test]
fn values_over_dictionaries_of_dictionaries_cannot_be_compared() {
    let key = || Int32Array::from(vec![0]);
    let texts: ArrayRef = Arc::new(StringArray::from(vec!["x"]));
    let once: ArrayRef = Arc::new(DictionaryArray::try_new(key(), texts).unwrap());
    let twice: ArrayRef = Arc::new(DictionaryArray::try_new(key(), once.clone()).unwrap());
    let structure = |array: &ArrayRef| {
        let field = Field::new("a", array.data_type().clone(), true);
        ScalarValue::Struct(Arc::new(StructArray::from(vec![(Arc::new(field), array.clone())])))
    };
    let value = scalar(structure(&once));
    assert!(value.is_at_least(&value.duplicate()));
    assert!(!value.is_greater(&value.duplicate()));
    assert!(Scalar::new(structure(&twice)).is_none());
}

#[test]
fn bounds_of_lists_are_lists() {
    let bound = || exact(ScalarValue::Int64(Some(1)));
    assert_eq!(sanitize_bound_for_type(&bound(), &list_type()), exact(list_of(&[1])));
    let own = inexact(list_of(&[1, 2]));
    assert_eq!(sanitize_bound_for_type(&own, &list_type()), own);

    let schema = Schema::new(vec![Field::new("v", list_type(), true)]);
    let stats = Statistics {
        num_rows: Precision::Exact(3),
        total_byte_size: Precision::Absent,
        column_statistics: vec![column(
            Precision::Absent,
            bound(),
            exact(list_of(&[5])),
        )],
    };
    assert!(are_bounds_fit(&stats.column_statistics, &schema));
    assert!(is_mapping_fit(&stats, &schema, &schema, None));
    let snapshot = DeltaSnapshot {
        fields: vec![logical("v", list_type(), "v")],
        partition_columns: vec![],
        column_mapping: ColumnMappingMode::Unmapped,
    };
    let plan = try_build_file_scan_config(
        &snapshot,
        &Path::from(""),
        vec![],
        &plain_config(),
        scan_params(1, TableStatsMode::Snapshot),
        &schema,
        &vec![false],
        &Some(stats),
    );
    let planned = plan.unwrap().unwrap().statistics;
    assert_eq!(planned.column_statistics[0].min_value, exact(list_of(&[1])));
    assert_eq!(planned.column_statistics[0].max_value, exact(list_of(&[5])));
}

#[test]
fn bounds_that_cannot_be_cast_are_told_beforehand() {
    let data_type = DataType::Time32(TimeUnit::Microsecond);
    let schema = Schema::new(vec![Field::new("v", data_type.clone(), true)]);
    let stats = Statistics {
        num_rows: Precision::Exact(3),
        total_byte_size: Precision::Absent,
        column_statistics: vec![column(
            Precision::Absent,
            exact(ScalarValue::Null),
            Precision::Absent,
        )],
    };
    assert!(!are_bounds_fit(&stats.column_statistics, &schema));
    assert!(!is_mapping_fit(&stats, &schema, &schema, None));
    let snapshot = DeltaSnapshot {
        fields: vec![logical("v", data_type, "v")],
        partition_columns: vec![],
        column_mapping: ColumnMappingMode::Unmapped,
    };
    let plan = |mode: TableStatsMode| {
        try_build_file_scan_config(
            &snapshot,
            &Path::from(""),
            vec![],
            &plain_config(),
            scan_params(1, mode),
            &schema,
            &vec![false],
            &Some(stats.duplicate()),
        )
    };
    assert!(plan(TableStatsMode::Snapshot).is_none());
    assert!(plan(TableStatsMode::Unknown).unwrap().is_ok());
}

#[test]
fn metadata_of_items_is_not_kept() {
    let marked = Field::new("item", DataType::Int64, true)
        .with_metadata(std::collections::HashMap::from([("k".to_string(), "v".to_string())]));
    let target = DataType::List(Arc::new(marked));
    let once = sanitize_bound_for_type(&exact(list_of(&[4])), &target);
    assert_eq!(once, exact(list_of(&[4])));
    assert_eq!(sanitize_bound_for_type(&once, &target), once);
    let none = sanitize_bound_for_type(&exact(ScalarValue::Int64(None)), &target);
    assert_ne!(none, Precision::Absent);
}

#[test]
fn bounds_of_their_own_type_stay() {
    let schema = Schema::new(vec![
        Field::new("a", DataType::Time64(TimeUnit::Microsecond), true),
        Field::new("b", DataType::Decimal256(76, 3), true),
        Field::new("c", DataType::Int64, true),
    ]);
    let time = |n: i64| exact(ScalarValue::Time64Microsecond(Some(n)));
    let wide = |n: i128| inexact(ScalarValue::Decimal256(Some(i256::from_i128(n)), 76, 3));
    let number = |n: i64| exact(ScalarValue::Int64(Some(n)));
    let mut stats = Statistics {
        num_rows: Precision::Exact(3),
        total_byte_size: Precision::Exact(9),
        column_statistics: vec![
            column(Precision::Exact(0), time(1), time(2)),
            column(Precision::Exact(1), wide(-5), wide(5)),
            column(Precision::Exact(2), number(2), number(1)),
        ],
    };
    let before = stats.duplicate();
    assert!(are_bounds_fit(&stats.column_statistics, &schema));
    sanitize_statistics_for_schema(&schema, &mut stats);
    assert_eq!(stats.column_statistics[0], before.column_statistics[0]);
    assert_eq!(stats.column_statistics[1], before.column_statistics[1]);
    assert_eq!(
        stats.column_statistics[2],
        column(Precision::Exact(2), Precision::Absent, Precision::Absent)
    );
}

#[test]
fn empty_segments_of_paths_are_left_out() {
    let root = Path::from("a").child("");
    assert_eq!(root.as_ref(), "a/");
    let file = rewrite_data_file_location(&root, Path::from("x/y"));
    assert_eq!(file.as_ref(), "a/x/y");
    let file = rewrite_data_file_location(&Path::from("a"), Path::from("x").child(""));
    assert_eq!(file.as_ref(), "a/x");
}

#[test]
fn metadata_of_the_table_goes_with_its_fields() {
    let physical = Schema::new(vec![Field::new("col-1", DataType::Int64, true)]);
    let fields = vec![LogicalField {
        field: Field::new("a", DataType::Int64, true),
        marked: marked_field(),
        physical_name: "col-1".to_string(),
    }];
    let schema = logical_file_schema_for_scan(&physical, &fields);
    assert_eq!(schema.field(0), &marked_field().with_name("col-1"));
    assert_eq!(schema.field(0).metadata().get("k").unwrap(), "v");
}
