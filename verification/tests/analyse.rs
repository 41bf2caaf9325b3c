use tskv_jobs::analyse::transform_count_gen_time_col::{
    add_time_column, analyze_internal as analyze_count, analyze_plan as analyze_count_plan,
    is_count_of_literals, AggregateCall, CountError, CountRewrite, PlanNode, ScanSource,
    TransformCountGenTimeColRule,
};
use tskv_jobs::analyse::transform_update::{
    analyze_internal as analyze_update, analyze_plan as analyze_update_plan, update_field,
    update_tag, update_time, ColumnKind, TableKind, TransformUpdateRule, UpdateError, UpdateKind,
    UpdateTarget,
};

fn tskv(assigned: Vec<Option<ColumnKind>>) -> UpdateTarget {
    UpdateTarget {
        is_adapter: true,
        table: TableKind::Tskv,
        assigned,
    }
}

#[test]
fn rules_have_their_names() {
    assert_eq!(TransformUpdateRule::new().name(), "transform_update");
    assert_eq!(TransformUpdateRule::default().name(), "transform_update");
    assert_eq!(
        (TransformCountGenTimeColRule {}).name(),
        "transform_count_gen_time_col"
    );
}

#[test]
fn update_needs_the_adapter_and_a_tskv_table() {
    let foreign = UpdateTarget {
        is_adapter: false,
        table: TableKind::Tskv,
        assigned: vec![Some(ColumnKind::Tag)],
    };
    assert_eq!(analyze_update(&foreign), Err(UpdateError::SourceNotAdapter));
    let foreign = UpdateTarget {
        is_adapter: false,
        table: TableKind::Other,
        assigned: vec![None],
    };
    assert_eq!(analyze_update(&foreign), Err(UpdateError::SourceNotAdapter));
    let external = UpdateTarget {
        is_adapter: true,
        table: TableKind::Other,
        assigned: vec![None, Some(ColumnKind::Field)],
    };
    assert_eq!(analyze_update(&external), Err(UpdateError::NotTskvTable));
}

#[test]
fn update_of_an_unknown_column_names_the_first_one() {
    let target = tskv(vec![
        Some(ColumnKind::Tag),
        None,
        Some(ColumnKind::Field),
        None,
    ]);
    assert_eq!(
        analyze_update(&target),
        Err(UpdateError::ColumnNotFound { position: 1 })
    );
    assert_eq!(
        analyze_update(&tskv(vec![None])),
        Err(UpdateError::ColumnNotFound { position: 0 })
    );
}

#[test]
fn update_of_time_is_not_implemented() {
    assert_eq!(
        analyze_update(&tskv(vec![Some(ColumnKind::Time)])),
        Err(UpdateError::UpdateTime)
    );
    assert_eq!(
        analyze_update(&tskv(vec![Some(ColumnKind::Time), Some(ColumnKind::Time)])),
        Err(UpdateError::UpdateTime)
    );
    assert_eq!(analyze_update(&tskv(vec![])), Err(UpdateError::UpdateTime));
    assert_eq!(update_time(), Err(UpdateError::UpdateTime));
}

#[test]
fn update_kind_follows_the_assigned_columns() {
    assert_eq!(
        analyze_update(&tskv(vec![Some(ColumnKind::Tag), Some(ColumnKind::Tag)])),
        Ok(UpdateKind::Tag)
    );
    assert_eq!(
        analyze_update(&tskv(vec![Some(ColumnKind::Field)])),
        Ok(UpdateKind::Field)
    );
}

#[test]
fn update_of_mixed_columns_is_refused() {
    for assigned in [
        vec![Some(ColumnKind::Tag), Some(ColumnKind::Field)],
        vec![Some(ColumnKind::Time), Some(ColumnKind::Tag)],
        vec![Some(ColumnKind::Field), Some(ColumnKind::Time)],
        vec![
            Some(ColumnKind::Field),
            Some(ColumnKind::Field),
            Some(ColumnKind::Tag),
        ],
    ] {
        assert_eq!(
            analyze_update(&tskv(assigned)),
            Err(UpdateError::MixedColumns)
        );
    }
}

#[test]
fn tag_update_projects_tags_and_time() {
    let columns = vec![
        ColumnKind::Time,
        ColumnKind::Tag,
        ColumnKind::Field,
        ColumnKind::Tag,
        ColumnKind::Field,
    ];
    assert_eq!(update_tag(&columns), vec![0, 1, 3]);
    assert_eq!(update_tag(&vec![]), Vec::<usize>::new());
    assert_eq!(
        update_tag(&vec![ColumnKind::Field, ColumnKind::Field]),
        Vec::<usize>::new()
    );
}

#[test]
fn field_update_takes_the_first_assignment_of_each_column() {
    let fields: Vec<String> = ["time", "host", "cpu", "mem"]
        .iter()
        .map(|name| name.to_string())
        .collect();
    let assigned: Vec<String> = ["mem", "cpu", "mem", "disk"]
        .iter()
        .map(|name| name.to_string())
        .collect();
    assert_eq!(
        update_field(&fields, &assigned),
        vec![None, None, Some(1), Some(0)]
    );
    assert_eq!(update_field(&fields, &vec![]), vec![None, None, None, None]);
    assert_eq!(update_field(&vec![], &assigned), Vec::<Option<usize>>::new());
}

#[test]
fn count_of_literals_is_recognized() {
    assert!(is_count_of_literals(&AggregateCall::Count(vec![true])));
    assert!(is_count_of_literals(&AggregateCall::Count(vec![])));
    assert!(is_count_of_literals(&AggregateCall::Count(vec![true, true])));
    assert!(!is_count_of_literals(&AggregateCall::Count(vec![true, false])));
    assert!(!is_count_of_literals(&AggregateCall::Count(vec![false])));
    assert!(!is_count_of_literals(&AggregateCall::Other));
}

#[test]
fn time_column_goes_in_front() {
    assert_eq!(add_time_column(&None), vec![0]);
    assert_eq!(add_time_column(&Some(vec![])), vec![0]);
    assert_eq!(add_time_column(&Some(vec![2, 5])), vec![0, 2, 5]);
    assert_eq!(add_time_column(&Some(vec![0, 1])), vec![0, 0, 1]);
}

#[test]
fn count_rule_rewrites_the_scan_of_a_cluster_table() {
    let calls = vec![AggregateCall::Other, AggregateCall::Count(vec![true])];
    let chain = vec![
        PlanNode::Other,
        PlanNode::Other,
        PlanNode::TableScan(ScanSource::ClusterTable, Some(vec![3, 4])),
        PlanNode::Join,
    ];
    assert_eq!(
        analyze_count(&calls, &chain),
        Ok(Some(CountRewrite {
            depth: 2,
            projection: vec![0, 3, 4]
        }))
    );
    let chain = vec![
        PlanNode::Other,
        PlanNode::TableScan(ScanSource::ClusterTable, None),
    ];
    assert_eq!(
        analyze_count(&calls, &chain),
        Ok(Some(CountRewrite {
            depth: 1,
            projection: vec![0]
        }))
    );
}

#[test]
fn count_rule_leaves_other_plans_alone() {
    let literal = vec![AggregateCall::Count(vec![true])];
    let scan = vec![
        PlanNode::Other,
        PlanNode::TableScan(ScanSource::ClusterTable, None),
    ];
    assert_eq!(analyze_count(&vec![AggregateCall::Other], &scan), Ok(None));
    assert_eq!(
        analyze_count(&vec![AggregateCall::Count(vec![false])], &scan),
        Ok(None)
    );
    assert_eq!(analyze_count(&vec![], &scan), Ok(None));
    assert_eq!(analyze_count(&vec![AggregateCall::Other], &vec![]), Ok(None));

    let join = vec![
        PlanNode::Other,
        PlanNode::Join,
        PlanNode::TableScan(ScanSource::ClusterTable, None),
    ];
    assert_eq!(analyze_count(&literal, &join), Ok(None));
    let cross = vec![PlanNode::Other, PlanNode::Other, PlanNode::CrossJoin];
    assert_eq!(analyze_count(&literal, &cross), Ok(None));
    let other = vec![
        PlanNode::Other,
        PlanNode::TableScan(ScanSource::OtherProvider, Some(vec![1])),
    ];
    assert_eq!(analyze_count(&literal, &other), Ok(None));
}

#[test]
fn count_rule_fails_on_a_source_that_is_no_provider() {
    let literal = vec![AggregateCall::Count(vec![])];
    let chain = vec![
        PlanNode::Other,
        PlanNode::TableScan(ScanSource::NotProvider, None),
    ];
    assert_eq!(analyze_count(&literal, &chain), Err(CountError::NotProvider));
    assert_eq!(
        analyze_count(&vec![AggregateCall::Other], &chain),
        Ok(None)
    );
}

#[test]
fn plan_that_is_no_update_stays_as_it_is() {
    assert_eq!(analyze_update_plan(None), Ok(None));
    assert_eq!(
        analyze_update_plan(Some(&tskv(vec![Some(ColumnKind::Tag)]))),
        Ok(Some(UpdateKind::Tag))
    );
    assert_eq!(
        analyze_update_plan(Some(&tskv(vec![Some(ColumnKind::Field)]))),
        Ok(Some(UpdateKind::Field))
    );
    assert_eq!(
        analyze_update_plan(Some(&tskv(vec![]))),
        Err(UpdateError::UpdateTime)
    );
    assert_eq!(
        analyze_update_plan(Some(&tskv(vec![None]))),
        Err(UpdateError::ColumnNotFound { position: 0 })
    );
}

#[test]
fn plan_that_is_no_aggregate_stays_as_it_is() {
    assert_eq!(analyze_count_plan(None), Ok(None));
    let calls = vec![AggregateCall::Count(vec![true])];
    let chain = vec![
        PlanNode::Other,
        PlanNode::TableScan(ScanSource::ClusterTable, Some(vec![7])),
    ];
    assert_eq!(
        analyze_count_plan(Some((&calls, &chain))),
        Ok(Some(CountRewrite {
            depth: 1,
            projection: vec![0, 7]
        }))
    );
    let join = vec![PlanNode::Other, PlanNode::Join];
    assert_eq!(analyze_count_plan(Some((&calls, &join))), Ok(None));
}
