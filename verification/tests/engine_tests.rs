use tabular_engine::dataset::{check_well_formed, dataframe_to_rows, process_dataframe, Column, Dataset, MetadataInfo};
use tabular_engine::engine::Engine;
use tabular_engine::filter::{FilterAtom, FilterValue, Filtering};
use tabular_engine::histogram::{get_column_histogram, HistogramError};
use tabular_engine::plan::{filter_columns, materialize, sort_columns, LazyPlan};
use tabular_engine::sort::Sorting;
use tabular_engine::stats::get_statistics;
use tabular_engine::value::{Cell, ColType, Scalar};

fn int_cell(i: i64) -> Cell {
    Cell::S(Scalar::Int(i))
}

fn null_cell() -> Cell {
    Cell::S(Scalar::Null)
}

fn age_dataset() -> Dataset {
    Dataset {
        columns: vec![Column {
            name: "age".to_string(),
            ctype: ColType::Int64,
            dict: vec![],
            cells: vec![int_cell(10), int_cell(20), null_cell(), int_cell(40)],
        }],
    }
}

#[test]
fn well_formed_dataset_checks() {
    let d = age_dataset();
    assert!(check_well_formed(&d));
    let bad = Dataset {
        columns: vec![Column {
            name: "x".to_string(),
            ctype: ColType::Bool,
            dict: vec![],
            cells: vec![int_cell(1)],
        }],
    };
    assert!(!check_well_formed(&bad));
}

#[test]
fn statistics_of_age_column() {
    let d = age_dataset();
    let stats = get_statistics(&d);
    assert_eq!(stats.len(), 1);
    let st = &stats[0];
    assert_eq!(st.name, "age");
    assert_eq!(st.null_values, 1);
    assert_eq!(st.min, Some(10_000_000));
    assert_eq!(st.max, Some(40_000_000));
    assert_eq!(st.mean, Some(23_333_333));
    assert_eq!(st.median, Some(20_000_000));
    assert_eq!(st.percentile_25, Some(15_000_000));
    assert_eq!(st.percentile_75, Some(30_000_000));
    assert!(st.true_count.is_none());
    assert!(st.unique_values.is_none());
}

#[test]
fn statistics_of_boolean_column() {
    let d = Dataset {
        columns: vec![Column {
            name: "flag".to_string(),
            ctype: ColType::Bool,
            dict: vec![],
            cells: vec![
                Cell::S(Scalar::Bool(true)),
                Cell::S(Scalar::Bool(true)),
                Cell::S(Scalar::Bool(false)),
                null_cell(),
            ],
        }],
    };
    let stats = get_statistics(&d);
    let st = &stats[0];
    assert_eq!(st.null_values, 1);
    assert_eq!(st.true_count.as_deref(), Some("2 (66.7%)"));
    assert_eq!(st.false_count.as_deref(), Some("1 (33.3%)"));
}

#[test]
fn statistics_of_text_and_categorical_columns() {
    let d = Dataset {
        columns: vec![
            Column {
                name: "word".to_string(),
                ctype: ColType::Str,
                dict: vec![],
                cells: vec![
                    Cell::S(Scalar::Str("a".to_string())),
                    Cell::S(Scalar::Str("b".to_string())),
                    Cell::S(Scalar::Str("a".to_string())),
                    null_cell(),
                ],
            },
            Column {
                name: "kind".to_string(),
                ctype: ColType::Enum,
                dict: vec!["red".to_string(), "green".to_string(), "blue".to_string()],
                cells: vec![
                    Cell::S(Scalar::Cat(0)),
                    Cell::S(Scalar::Cat(0)),
                    Cell::S(Scalar::Cat(2)),
                    null_cell(),
                ],
            },
        ],
    };
    let stats = get_statistics(&d);
    assert_eq!(stats[0].unique_values, Some(2));
    assert_eq!(stats[1].unique_values, Some(2));
    let labels = stats[1].available_values.as_ref().unwrap();
    assert_eq!(labels, &vec!["red".to_string(), "green".to_string(), "blue".to_string()]);
}

#[test]
fn between_filter_keeps_exactly_one_row() {
    let d = age_dataset();
    let clauses = vec![Filtering {
        column: "age".to_string(),
        condition: "between".to_string(),
        value: FilterValue::Pair(
            FilterAtom::Number(15_000_000),
            FilterAtom::Number(35_000_000),
        ),
    }];
    let plan = filter_columns(LazyPlan::new(), clauses).unwrap();
    let out = materialize(&d, &plan).unwrap();
    let rows = dataframe_to_rows(&out);
    assert_eq!(rows, vec![vec!["20".to_string()]]);
}

#[test]
fn descending_sort_puts_nulls_last() {
    let d = age_dataset();
    let plan = sort_columns(
        LazyPlan::new(),
        vec![Sorting { column: "age".to_string(), ascending: false }],
    );
    let out = materialize(&d, &plan).unwrap();
    let rows = dataframe_to_rows(&out);
    assert_eq!(
        rows,
        vec![
            vec!["40".to_string()],
            vec!["20".to_string()],
            vec!["10".to_string()],
            vec!["".to_string()],
        ]
    );
}

#[test]
fn sorting_twice_is_idempotent() {
    let d = Dataset {
        columns: vec![Column {
            name: "n".to_string(),
            ctype: ColType::Int64,
            dict: vec![],
            cells: vec![int_cell(3), int_cell(1), null_cell(), int_cell(2), int_cell(1)],
        }],
    };
    let plan = sort_columns(
        LazyPlan::new(),
        vec![Sorting { column: "n".to_string(), ascending: true }],
    );
    let once = materialize(&d, &plan).unwrap();
    let plan2 = sort_columns(
        LazyPlan::new(),
        vec![Sorting { column: "n".to_string(), ascending: true }],
    );
    let twice = materialize(&once, &plan2).unwrap();
    assert_eq!(dataframe_to_rows(&once), dataframe_to_rows(&twice));
}

#[test]
fn filtering_is_monotonic() {
    let d = Dataset {
        columns: vec![Column {
            name: "n".to_string(),
            ctype: ColType::Int64,
            dict: vec![],
            cells: (0..20).map(int_cell).collect(),
        }],
    };
    let one = vec![Filtering {
        column: "n".to_string(),
        condition: ">".to_string(),
        value: FilterValue::Number(5_000_000),
    }];
    let two = vec![
        Filtering {
            column: "n".to_string(),
            condition: ">".to_string(),
            value: FilterValue::Number(5_000_000),
        },
        Filtering {
            column: "n".to_string(),
            condition: "<".to_string(),
            value: FilterValue::Number(12_000_000),
        },
    ];
    let p1 = filter_columns(LazyPlan::new(), one).unwrap();
    let p2 = filter_columns(LazyPlan::new(), two).unwrap();
    let r1 = dataframe_to_rows(&materialize(&d, &p1).unwrap());
    let r2 = dataframe_to_rows(&materialize(&d, &p2).unwrap());
    assert!(r2.len() <= r1.len());
    assert!(r1.len() <= 20);
    assert_eq!(r1.len(), 14);
    assert_eq!(r2.len(), 6);
}

#[test]
fn cache_hit_does_not_rematerialize() {
    let d = age_dataset();
    let mut engine = Engine::new();
    let sort = || Some(vec![Sorting { column: "age".to_string(), ascending: true }]);
    let first = engine
        .get_data("mem://ages", &d, sort(), None, 250, None)
        .unwrap();
    assert_eq!(engine.materializations, 1);
    let second = engine
        .get_data("mem://ages", &d, sort(), None, 250, None)
        .unwrap();
    assert_eq!(engine.materializations, 1);
    assert_eq!(first.rows, second.rows);
    assert_eq!(first.shape, (4, 1));
    // a different key must invalidate the entry and re-materialize
    let third = engine
        .get_data("mem://ages", &d, None, None, 250, None)
        .unwrap();
    assert_eq!(engine.materializations, 2);
    assert_eq!(third.rows.len(), 4);
}

#[test]
fn more_rows_window_follows_the_cache() {
    let d = Dataset {
        columns: vec![Column {
            name: "n".to_string(),
            ctype: ColType::Int64,
            dict: vec![],
            cells: (0..10).map(int_cell).collect(),
        }],
    };
    let mut engine = Engine::new();
    let rows = engine
        .get_more_rows("mem://n", &d, 4, 3, None, None)
        .unwrap();
    assert_eq!(
        rows,
        vec![vec!["4".to_string()], vec!["5".to_string()], vec!["6".to_string()]]
    );
    assert_eq!(engine.materializations, 1);
    let again = engine.get_more_rows("mem://n", &d, 8, 5, None, None).unwrap();
    assert_eq!(again, vec![vec!["8".to_string()], vec!["9".to_string()]]);
    assert_eq!(engine.materializations, 1);
}

#[test]
fn histogram_degenerate_single_bin() {
    let d = Dataset {
        columns: vec![Column {
            name: "x".to_string(),
            ctype: ColType::Float64,
            dict: vec![],
            cells: vec![
                Cell::S(Scalar::Num(1_000_000)),
                Cell::S(Scalar::Num(1_000_000)),
                Cell::S(Scalar::Num(1_000_000)),
            ],
        }],
    };
    let h = get_column_histogram(&d, "x", 10).unwrap();
    assert_eq!(h.counts, vec![3]);
    assert_eq!(h.edges, vec![1_000_000, 1_000_000]);
    assert_eq!(h.observed_min, 1_000_000);
    assert_eq!(h.observed_max, 1_000_000);
}

#[test]
fn histogram_counts_sum_to_non_null_count() {
    let d = Dataset {
        columns: vec![Column {
            name: "n".to_string(),
            ctype: ColType::Int64,
            dict: vec![],
            cells: vec![
                int_cell(1),
                int_cell(2),
                int_cell(3),
                int_cell(4),
                int_cell(10),
                null_cell(),
            ],
        }],
    };
    for bins in [1usize, 2, 3, 7, 20] {
        let h = get_column_histogram(&d, "n", bins).unwrap();
        let total: usize = h.counts.iter().sum();
        assert_eq!(total, 5);
        assert_eq!(h.counts.len(), bins);
        assert_eq!(h.edges.len(), bins + 1);
    }
}

#[test]
fn histogram_error_cases() {
    let d = Dataset {
        columns: vec![
            Column {
                name: "s".to_string(),
                ctype: ColType::Str,
                dict: vec![],
                cells: vec![Cell::S(Scalar::Str("a".to_string()))],
            },
            Column {
                name: "e".to_string(),
                ctype: ColType::Int64,
                dict: vec![],
                cells: vec![null_cell()],
            },
        ],
    };
    assert!(matches!(
        get_column_histogram(&d, "missing", 5),
        Err(HistogramError::ColumnNotFound)
    ));
    assert!(matches!(
        get_column_histogram(&d, "s", 5),
        Err(HistogramError::NonNumericColumn)
    ));
    assert!(matches!(get_column_histogram(&d, "e", 5), Err(HistogramError::NoData)));
}

#[test]
fn contains_filters_match_substrings() {
    let d = Dataset {
        columns: vec![Column {
            name: "w".to_string(),
            ctype: ColType::Str,
            dict: vec![],
            cells: vec![
                Cell::S(Scalar::Str("xxABCyy".to_string())),
                Cell::S(Scalar::Str("zz".to_string())),
                Cell::S(Scalar::Str("abc".to_string())),
            ],
        }],
    };
    let ci = vec![Filtering {
        column: "w".to_string(),
        condition: "contains_case_insensitive".to_string(),
        value: FilterValue::Text("aBc".to_string()),
    }];
    let p = filter_columns(LazyPlan::new(), ci).unwrap();
    let rows = dataframe_to_rows(&materialize(&d, &p).unwrap());
    assert_eq!(rows.len(), 2);

    let cs = vec![Filtering {
        column: "w".to_string(),
        condition: "contains".to_string(),
        value: FilterValue::Text("abc".to_string()),
    }];
    let p2 = filter_columns(LazyPlan::new(), cs).unwrap();
    let rows2 = dataframe_to_rows(&materialize(&d, &p2).unwrap());
    assert_eq!(rows2, vec![vec!["abc".to_string()]]);
}

#[test]
fn timestamp_filter_parses_both_formats() {
    // 2020-01-01T00:00:00 UTC is 1_577_836_800 seconds since the epoch.
    let t2019 = 1_546_300_800_000_000i64; // 2019-01-01
    let t2021 = 1_609_459_200_000_000i64; // 2021-01-01
    let d = Dataset {
        columns: vec![Column {
            name: "ts".to_string(),
            ctype: ColType::Datetime,
            dict: vec![],
            cells: vec![Cell::S(Scalar::Datetime(t2019)), Cell::S(Scalar::Datetime(t2021))],
        }],
    };
    for text in ["2020-01-01T00:00:00Z", "2020-01-01T00:00:00"] {
        let clauses = vec![Filtering {
            column: "ts".to_string(),
            condition: "<".to_string(),
            value: FilterValue::Text(text.to_string()),
        }];
        let p = filter_columns(LazyPlan::new(), clauses).unwrap();
        let rows = dataframe_to_rows(&materialize(&d, &p).unwrap());
        assert_eq!(rows.len(), 1, "filter text {:?}", text);
    }
}

#[test]
fn malformed_filters_are_rejected_with_messages() {
    let unknown = vec![Filtering {
        column: "age".to_string(),
        condition: "around".to_string(),
        value: FilterValue::Number(1),
    }];
    let e = filter_columns(LazyPlan::new(), unknown).unwrap_err();
    assert_eq!(e.message(), "Unknown filter condition: around");

    let bad_date = vec![Filtering {
        column: "age".to_string(),
        condition: "<".to_string(),
        value: FilterValue::Text("not a date".to_string()),
    }];
    let e2 = filter_columns(LazyPlan::new(), bad_date).unwrap_err();
    assert_eq!(e2.message(), "Invalid date value for filter");

    let bad_between = vec![Filtering {
        column: "age".to_string(),
        condition: "between".to_string(),
        value: FilterValue::Pair(
            FilterAtom::Number(1),
            FilterAtom::Text("later".to_string()),
        ),
    }];
    let e3 = filter_columns(LazyPlan::new(), bad_between).unwrap_err();
    assert_eq!(e3.message(), "Invalid values for between filter");

    let bad_bool = vec![Filtering {
        column: "age".to_string(),
        condition: "<".to_string(),
        value: FilterValue::Boolean(true),
    }];
    let e4 = filter_columns(LazyPlan::new(), bad_bool).unwrap_err();
    assert_eq!(e4.message(), "Invalid boolean filter condition");
}

#[test]
fn equals_filter_on_categorical_uses_labels() {
    let d = Dataset {
        columns: vec![Column {
            name: "kind".to_string(),
            ctype: ColType::Categorical,
            dict: vec!["red".to_string(), "green".to_string()],
            cells: vec![
                Cell::S(Scalar::Cat(0)),
                Cell::S(Scalar::Cat(1)),
                Cell::S(Scalar::Cat(0)),
            ],
        }],
    };
    let clauses = vec![Filtering {
        column: "kind".to_string(),
        condition: "equals".to_string(),
        value: FilterValue::Text("red".to_string()),
    }];
    let p = filter_columns(LazyPlan::new(), clauses).unwrap();
    let rows = dataframe_to_rows(&materialize(&d, &p).unwrap());
    assert_eq!(rows, vec![vec!["red".to_string()], vec!["red".to_string()]]);
}

#[test]
fn materialize_reports_missing_and_incompatible_columns() {
    let d = age_dataset();
    let missing = vec![Filtering {
        column: "height".to_string(),
        condition: "is_null".to_string(),
        value: FilterValue::Empty,
    }];
    let p = filter_columns(LazyPlan::new(), missing).unwrap();
    let e = materialize(&d, &p).unwrap_err();
    assert_eq!(e.message(), "Column not found: height");

    let incompatible = vec![Filtering {
        column: "age".to_string(),
        condition: "equals".to_string(),
        value: FilterValue::Text("ten".to_string()),
    }];
    let p2 = filter_columns(LazyPlan::new(), incompatible).unwrap();
    let e2 = materialize(&d, &p2).unwrap_err();
    assert_eq!(e2.message(), "Filter or sort is incompatible with column: age");
}

#[test]
fn copy_full_table_renders_tsv() {
    let d = Dataset {
        columns: vec![
            Column {
                name: "a".to_string(),
                ctype: ColType::Int64,
                dict: vec![],
                cells: vec![int_cell(1), int_cell(2)],
            },
            Column {
                name: "b".to_string(),
                ctype: ColType::Str,
                dict: vec![],
                cells: vec![
                    Cell::S(Scalar::Str("x".to_string())),
                    Cell::S(Scalar::Str("y".to_string())),
                ],
            },
        ],
    };
    let mut engine = Engine::new();
    engine.get_data("mem://t", &d, None, None, 250, None).unwrap();
    let tsv = engine.copy_full_table().unwrap();
    assert_eq!(tsv, "a\tb\n1\tx\n2\ty");
}

#[test]
fn query_results_are_cached_by_text() {
    let d = age_dataset();
    let mut engine = Engine::new();
    assert!(!engine.query_hit("select * from t"));
    engine.store_query_result("select * from t", d);
    assert!(engine.query_hit("select * from t"));
    assert!(!engine.query_hit("select * from u"));
    assert_eq!(engine.materializations, 1);
}

#[test]
fn process_dataframe_reports_schema_and_head() {
    let d = age_dataset();
    let info = process_dataframe(&d, 2, None);
    assert_eq!(info.shape, (4, 1));
    assert_eq!(info.columns.len(), 1);
    assert_eq!(info.columns[0].name, "age");
    assert_eq!(info.columns[0].dtype, "Int64");
    assert_eq!(info.rows, vec![vec!["10".to_string()], vec!["20".to_string()]]);
}

#[test]
fn stable_sort_keeps_original_order_on_ties() {
    let d = Dataset {
        columns: vec![
            Column {
                name: "grp".to_string(),
                ctype: ColType::Int64,
                dict: vec![],
                cells: vec![int_cell(2), int_cell(1), int_cell(2), int_cell(1)],
            },
            Column {
                name: "tag".to_string(),
                ctype: ColType::Str,
                dict: vec![],
                cells: vec![
                    Cell::S(Scalar::Str("a".to_string())),
                    Cell::S(Scalar::Str("b".to_string())),
                    Cell::S(Scalar::Str("c".to_string())),
                    Cell::S(Scalar::Str("d".to_string())),
                ],
            },
        ],
    };
    let plan = sort_columns(
        LazyPlan::new(),
        vec![Sorting { column: "grp".to_string(), ascending: true }],
    );
    let out = materialize(&d, &plan).unwrap();
    let rows = dataframe_to_rows(&out);
    // ties within each group keep their original relative order
    assert_eq!(
        rows,
        vec![
            vec!["1".to_string(), "b".to_string()],
            vec!["1".to_string(), "d".to_string()],
            vec!["2".to_string(), "a".to_string()],
            vec!["2".to_string(), "c".to_string()],
        ]
    );
}

#[test]
fn cache_key_is_source_and_sort_only() {
    // The cache key is (source identity, sort spec, query presence); the
    // filter is not part of it, so a second request with the same key
    // reads the cached materialization even when its filter differs.
    let d = age_dataset();
    let mut engine = Engine::new();
    let filtered = Some(vec![Filtering {
        column: "age".to_string(),
        condition: ">".to_string(),
        value: FilterValue::Number(15_000_000),
    }]);
    let first = engine
        .get_data("mem://ages", &d, None, filtered, 250, None)
        .unwrap();
    assert_eq!(first.rows.len(), 2);
    assert_eq!(engine.materializations, 1);
    let second = engine.get_data("mem://ages", &d, None, None, 250, None).unwrap();
    assert_eq!(engine.materializations, 1);
    assert_eq!(second.rows, first.rows);
}

#[test]
fn histogram_casts_boolean_and_temporal_columns() {
    let d = Dataset {
        columns: vec![
            Column {
                name: "flag".to_string(),
                ctype: ColType::Bool,
                dict: vec![],
                cells: vec![
                    Cell::S(Scalar::Bool(true)),
                    Cell::S(Scalar::Bool(false)),
                    Cell::S(Scalar::Bool(true)),
                    null_cell(),
                ],
            },
            Column {
                name: "ts".to_string(),
                ctype: ColType::Datetime,
                dict: vec![],
                cells: vec![
                    Cell::S(Scalar::Datetime(0)),
                    Cell::S(Scalar::Datetime(1_000)),
                    Cell::S(Scalar::Datetime(2_000)),
                    Cell::S(Scalar::Datetime(2_000)),
                ],
            },
        ],
    };
    // booleans cast to zero and one
    let hb = get_column_histogram(&d, "flag", 2).unwrap();
    assert_eq!(hb.observed_min, 0);
    assert_eq!(hb.observed_max, 1_000_000);
    assert_eq!(hb.counts, vec![1, 2]);
    // datetimes cast to their microsecond count
    let ht = get_column_histogram(&d, "ts", 2).unwrap();
    assert_eq!(ht.observed_min, 0);
    assert_eq!(ht.observed_max, 2_000 * 1_000_000);
    let total: usize = ht.counts.iter().sum();
    assert_eq!(total, 4);
    assert_eq!(ht.counts, vec![1, 3]);
}

#[test]
fn request_errors_name_the_failing_stage() {
    let d = age_dataset();
    let mut engine = Engine::new();
    let bad_filter = Some(vec![Filtering {
        column: "age".to_string(),
        condition: "around".to_string(),
        value: FilterValue::Number(1),
    }]);
    let e = engine
        .get_data("mem://ages", &d, None, bad_filter, 250, None)
        .unwrap_err();
    assert_eq!(
        e.message(),
        "Failed to filter DataFrame: Unknown filter condition: around"
    );
    let missing = Some(vec![Filtering {
        column: "height".to_string(),
        condition: "is_null".to_string(),
        value: FilterValue::Empty,
    }]);
    let e2 = engine
        .get_data("mem://ages", &d, None, missing, 250, None)
        .unwrap_err();
    assert_eq!(
        e2.message(),
        "Failed to process DataFrame: Column not found: height"
    );
    // failed requests leave the cache and counter untouched
    assert_eq!(engine.materializations, 0);
}

#[test]
fn pagination_at_offset_zero_matches_the_initial_page() {
    let d = age_dataset();
    let sort = || Some(vec![Sorting { column: "age".to_string(), ascending: false }]);
    let mut engine = Engine::new();
    let info = engine
        .get_data("mem://ages", &d, sort(), None, 250, None)
        .unwrap();
    let rows = engine
        .get_more_rows("mem://ages", &d, 0, 250, sort(), None)
        .unwrap();
    assert_eq!(info.rows, rows);
    assert_eq!(engine.materializations, 1);
}

#[test]
fn data_request_carries_the_metadata_through() {
    let d = age_dataset();
    let mut engine = Engine::new();
    let meta = MetadataInfo {
        file_name: "ages.parquet".to_string(),
        created_at: Some(1_000_000),
        modified_at: None,
        file_size: 123,
        row_groups: 1,
        num_rows: 4,
        columns: vec![],
    };
    let info = engine
        .get_data("mem://ages", &d, None, None, 250, Some(meta))
        .unwrap();
    let m = info.metadata.unwrap();
    assert_eq!(m.file_name, "ages.parquet");
    assert_eq!(m.file_size, 123);
    // every returned row has exactly one cell per column
    for row in &info.rows {
        assert_eq!(row.len(), info.columns.len());
    }
}
