use prql_anchor::anchor::anchor_split;
use prql_anchor::anchor::split_off_back;
use prql_anchor::context::AnchorContext;
use prql_anchor::context::ColumnDecl;
use prql_anchor::rq::CId;
use prql_anchor::rq::Compute;
use prql_anchor::rq::ColumnSort;
use prql_anchor::rq::Expr;
use prql_anchor::rq::RelationColumn;
use prql_anchor::rq::SortDirection;
use prql_anchor::rq::TableRef;
use prql_anchor::rq::TakeRange;
use prql_anchor::rq::Transform;
use prql_anchor::rq::Window;

fn cref(c: CId) -> Expr {
    Expr::ColumnRef(c)
}

/// A context with one table instance exposing named columns; returns the
/// context, the table reference and the column ids.
fn table_with(names: &[&str]) -> (AnchorContext, TableRef, Vec<CId>) {
    let mut ctx = AnchorContext::new();
    let tid = ctx.gen_tid();
    let mut columns = Vec::new();
    let mut cids = Vec::new();
    for n in names {
        let c = ctx.gen_cid();
        columns.push((RelationColumn::Single(Some(String::from(*n))), c));
        cids.push(c);
    }
    let tr = TableRef { source: tid, name: Some(String::from("t")), columns };
    ctx.create_table_instance(tr.clone());
    (ctx, tr, cids)
}

#[test]
fn empty_pipeline_split_is_trivial() {
    let mut ctx = AnchorContext::new();
    let (remaining, suffix) = split_off_back(&mut ctx, vec![], vec![]);
    assert!(remaining.is_none());
    assert!(suffix.is_empty());
}

#[test]
fn simple_projection_single_select() {
    let (mut ctx, tr, cids) = table_with(&["salary"]);
    let salary = cids[0];
    let pipeline = vec![Transform::From(tr), Transform::Select(vec![salary])];
    let (remaining, suffix) = split_off_back(&mut ctx, vec![salary], pipeline);
    assert!(remaining.is_none());
    assert_eq!(suffix.len(), 2);
    assert!(matches!(&suffix[0], Transform::Select(cs) if cs == &vec![salary]));
    assert!(matches!(&suffix[1], Transform::From(_)));
}

#[test]
fn where_aggregate_having_sort_take_fit_one_select() {
    let (mut ctx, tr, cids) = table_with(&["country", "salary"]);
    let country = cids[0];
    let salary = cids[1];
    let mut ctx2 = ctx;
    let count = ctx2.gen_cid();
    ctx2.register_compute(Compute {
        id: count,
        expr: cref(salary),
        is_aggregation: true,
        window: None,
    });
    let pipeline = vec![
        Transform::From(tr),
        Transform::Filter(cref(country)),
        Transform::Aggregate { partition: vec![country], compute: vec![count] },
        Transform::Sort(vec![ColumnSort { column: count, direction: SortDirection::Asc }]),
        Transform::Filter(cref(count)),
        Transform::Take(TakeRange { start: None, end: Some(Expr::Literal) }),
    ];
    let (remaining, suffix) = split_off_back(&mut ctx2, vec![count], pipeline);
    assert!(remaining.is_none(), "the whole pipeline fits one SELECT");
    assert_eq!(suffix.len(), 7);
    assert!(matches!(&suffix[0], Transform::Select(_)));
    assert!(matches!(&suffix[1], Transform::From(_)));
}

#[test]
fn aggregate_after_aggregate_cuts() {
    let (mut ctx, tr, cids) = table_with(&["emp_no", "salary"]);
    let emp_no = cids[0];
    let salary = cids[1];
    let emp_salary = ctx.gen_cid();
    ctx.register_compute(Compute {
        id: emp_salary,
        expr: cref(salary),
        is_aggregation: true,
        window: None,
    });
    let avg_salary = ctx.gen_cid();
    ctx.register_compute(Compute {
        id: avg_salary,
        expr: cref(emp_salary),
        is_aggregation: true,
        window: None,
    });
    let pipeline = vec![
        Transform::From(tr),
        Transform::Aggregate { partition: vec![emp_no], compute: vec![emp_salary] },
        Transform::Aggregate { partition: vec![], compute: vec![avg_salary] },
    ];
    let (remaining, suffix) = split_off_back(&mut ctx, vec![avg_salary], pipeline);
    let (prefix, missing) = remaining.expect("a second sub-pipeline is needed");
    assert_eq!(prefix.len(), 2, "From and the first Aggregate stay behind");
    assert!(matches!(&prefix[1], Transform::Aggregate { .. }));
    assert_eq!(missing, vec![avg_salary]);
    assert_eq!(suffix.len(), 2);
    assert!(matches!(&suffix[0], Transform::Select(cs) if cs == &vec![avg_salary]));
    assert!(matches!(&suffix[1], Transform::Aggregate { .. }));
}

#[test]
fn sort_forces_column_into_select_list() {
    let (mut ctx, tr, cids) = table_with(&["x", "y"]);
    let x = cids[0];
    let y = cids[1];
    let pipeline = vec![
        Transform::From(tr),
        Transform::Sort(vec![ColumnSort { column: x, direction: SortDirection::Desc }]),
        Transform::Select(vec![y]),
    ];
    let (remaining, suffix) = split_off_back(&mut ctx, vec![y], pipeline);
    assert!(remaining.is_none());
    assert!(matches!(&suffix[0], Transform::Select(cs) if cs == &vec![y, x]));
}

#[test]
fn windowed_compute_consumed_at_plain_is_pushed_back() {
    let (mut ctx, tr, cids) = table_with(&["salary"]);
    let salary = cids[0];
    let w = ctx.gen_cid();
    let compute = Compute {
        id: w,
        expr: cref(salary),
        is_aggregation: false,
        window: Some(Window {}),
    };
    ctx.register_compute(Compute {
        id: w,
        expr: cref(salary),
        is_aggregation: false,
        window: Some(Window {}),
    });
    // take's bound references the windowed column, so it requires it Plain
    let pipeline = vec![
        Transform::From(tr),
        Transform::Compute(compute),
        Transform::Take(TakeRange { start: Some(cref(w)), end: None }),
    ];
    let (remaining, suffix) = split_off_back(&mut ctx, vec![w], pipeline);
    let (prefix, missing) = remaining.expect("the compute cannot stay with its consumer");
    assert_eq!(prefix.len(), 2, "From and the compute stay behind");
    assert!(matches!(&prefix[1], Transform::Compute(_)));
    // first occurrences first: the output column, then the compute's input
    assert_eq!(missing, vec![w, salary]);
    assert_eq!(suffix.len(), 2);
    assert!(matches!(&suffix[1], Transform::Take(_)));
}

#[test]
fn windowed_compute_before_filter_splits_and_filter_is_redirected() {
    let (mut ctx, tr, cids) = table_with(&["salary"]);
    let salary = cids[0];
    let w = ctx.gen_cid();
    let windowed = Compute {
        id: w,
        expr: cref(salary),
        is_aggregation: false,
        window: Some(Window {}),
    };
    ctx.register_compute(Compute {
        id: w,
        expr: cref(salary),
        is_aggregation: false,
        window: Some(Window {}),
    });
    let pipeline = vec![
        Transform::From(tr),
        Transform::Compute(windowed),
        Transform::Filter(cref(w)),
    ];
    let (remaining, suffix) = split_off_back(&mut ctx, vec![w], pipeline);
    let (prefix, missing) = remaining.expect("the compute cannot join the filter's SELECT");
    assert_eq!(prefix.len(), 2);
    assert!(matches!(&prefix[1], Transform::Compute(_)));
    assert_eq!(missing, vec![w]);
    assert_eq!(suffix.len(), 2);
    assert!(matches!(&suffix[1], Transform::Filter(_)));
    // reconnect the halves: the filter now reads the intermediate relation
    let second = anchor_split(&mut ctx, "table_0", &missing, suffix);
    assert_eq!(second.len(), 3);
    let fresh = match &second[0] {
        Transform::From(new_tr) => new_tr.columns[0].1,
        other => panic!("expected a prepended From, got {:?}", other),
    };
    assert_ne!(fresh, w);
    assert!(matches!(&second[1], Transform::Select(cs) if cs == &vec![fresh]));
    assert!(matches!(&second[2], Transform::Filter(Expr::ColumnRef(c)) if *c == fresh));
}

#[test]
fn empty_output_falls_back_to_wildcard() {
    let (ctx, tr, _) = table_with(&["a"]);
    let mut ctx = ctx;
    let t2 = ctx.gen_tid();
    let t3 = ctx.gen_tid();
    let tr2 = TableRef { source: t2, name: Some(String::from("u")), columns: vec![] };
    let tr3 = TableRef { source: t3, name: Some(String::from("v")), columns: vec![] };
    let next_cid = CId(ctx.column_decls.len());
    // two concats force a cut; the suffix selects nothing by itself
    let pipeline = vec![
        Transform::From(tr),
        Transform::Concat(tr2),
        Transform::Concat(tr3),
    ];
    let (remaining, suffix) = split_off_back(&mut ctx, vec![], pipeline);
    assert!(remaining.is_some());
    match &suffix[0] {
        Transform::Select(cs) => {
            assert_eq!(cs.len(), 1, "one wildcard per input table of the remainder");
            assert_eq!(cs[0], next_cid);
        },
        other => panic!("expected a synthesized Select, got {:?}", other),
    }
    // the wildcard standin was declared in the context
    assert!(matches!(
        ctx.column_decls[next_cid.0],
        Some(ColumnDecl::RelationColumn(_, _, RelationColumn::Wildcard))
    ));
}

#[test]
fn split_is_deterministic_across_fresh_contexts() {
    let run = || {
        let (mut ctx, tr, cids) = table_with(&["emp_no", "salary"]);
        let emp_no = cids[0];
        let salary = cids[1];
        let emp_salary = ctx.gen_cid();
        ctx.register_compute(Compute {
            id: emp_salary,
            expr: cref(salary),
            is_aggregation: true,
            window: None,
        });
        let pipeline = vec![
            Transform::From(tr),
            Transform::Aggregate { partition: vec![emp_no], compute: vec![emp_salary] },
            Transform::Sort(vec![ColumnSort { column: emp_salary, direction: SortDirection::Asc }]),
        ];
        split_off_back(&mut ctx, vec![emp_salary], pipeline)
    };
    let (r1, s1) = run();
    let (r2, s2) = run();
    assert_eq!(s1, s2);
    assert_eq!(r1.is_none(), r2.is_none());
    if let (Some(a), Some(b)) = (r1, r2) {
        assert_eq!(a.0, b.0);
        assert_eq!(a.1, b.1);
    }
}

#[test]
fn anchor_prepends_from_and_redirects() {
    let (mut ctx, tr, cids) = table_with(&["emp_no", "salary"]);
    let _ = tr;
    let emp_no = cids[0];
    let avg_salary = ctx.gen_cid();
    ctx.register_compute(Compute {
        id: avg_salary,
        expr: cref(emp_no),
        is_aggregation: true,
        window: None,
    });
    let second = vec![
        Transform::Select(vec![avg_salary]),
        Transform::Aggregate { partition: vec![], compute: vec![avg_salary] },
    ];
    let result = anchor_split(&mut ctx, "table_0", &vec![avg_salary], second);
    assert_eq!(result.len(), 3);
    let fresh = match &result[0] {
        Transform::From(new_tr) => {
            assert_eq!(new_tr.name, Some(String::from("table_0")));
            assert_eq!(new_tr.columns.len(), 1);
            new_tr.columns[0].1
        },
        other => panic!("expected a prepended From, got {:?}", other),
    };
    assert_ne!(fresh, avg_salary, "the cut column gets a fresh identifier");
    assert!(matches!(&result[1], Transform::Select(cs) if cs == &vec![fresh]));
    assert!(
        matches!(&result[2], Transform::Aggregate { compute, .. } if compute == &vec![fresh])
    );
}

#[test]
fn anchor_keeps_column_names_across_the_cut() {
    let (mut ctx, _tr, cids) = table_with(&["salary"]);
    let salary = cids[0];
    let second = vec![Transform::Select(vec![salary])];
    let result = anchor_split(&mut ctx, "t0", &vec![salary], second);
    match &result[0] {
        Transform::From(new_tr) => {
            let fresh = new_tr.columns[0].1;
            assert_eq!(
                new_tr.columns[0].0,
                RelationColumn::Single(Some(String::from("salary")))
            );
            assert_eq!(ctx.column_names[fresh.0], Some(String::from("salary")));
        },
        other => panic!("expected a prepended From, got {:?}", other),
    }
}

#[test]
fn anchor_synthesizes_names_for_anonymous_columns() {
    let mut ctx = AnchorContext::new();
    let anon = ctx.gen_cid();
    ctx.register_compute(Compute {
        id: anon,
        expr: Expr::Literal,
        is_aggregation: false,
        window: None,
    });
    let first = ctx.ensure_column_name(anon);
    let again = ctx.ensure_column_name(anon);
    let name = first.expect("a name is synthesized for an anonymous column");
    assert!(!name.is_empty());
    assert_eq!(Some(name), again, "resolution is stable");
}
