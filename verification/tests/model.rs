use prql_anchor::anchor::is_split_required;
use prql_anchor::collector::CidCollector;
use prql_anchor::context::AnchorContext;
use prql_anchor::requirements::Complexity;
use prql_anchor::requirements::Following;
use prql_anchor::requirements::Requirement;
use prql_anchor::requirements::can_materialize;
use prql_anchor::requirements::get_requirements;
use prql_anchor::requirements::infer_complexity;
use prql_anchor::requirements::into_requirements;
use prql_anchor::rq::CId;
use prql_anchor::rq::ColumnSort;
use prql_anchor::rq::Compute;
use prql_anchor::rq::Expr;
use prql_anchor::rq::JoinSide;
use prql_anchor::rq::SortDirection;
use prql_anchor::rq::TableRef;
use prql_anchor::rq::TakeRange;
use prql_anchor::rq::Transform;
use prql_anchor::rq::TransformKind;
use prql_anchor::rq::Window;

fn cref(n: usize) -> Expr {
    Expr::ColumnRef(CId(n))
}

fn bin(l: Expr, r: Expr) -> Expr {
    Expr::Binary(Box::new(l), Box::new(r))
}

fn plain_compute(id: usize, expr: Expr) -> Compute {
    Compute { id: CId(id), expr, is_aggregation: false, window: None }
}

#[test]
fn complexity_is_totally_ordered() {
    assert!(Complexity::Plain.le(Complexity::Windowed));
    assert!(Complexity::Windowed.le(Complexity::Aggregation));
    assert!(!Complexity::Aggregation.le(Complexity::Windowed));
    assert!(!Complexity::Windowed.le(Complexity::Plain));
    assert_eq!(Complexity::highest(), Complexity::Aggregation);
    assert_eq!(Complexity::Windowed.min(Complexity::Plain), Complexity::Plain);
    assert_eq!(Complexity::Windowed.min(Complexity::Aggregation), Complexity::Windowed);
}

#[test]
fn infer_complexity_ranks_window_first() {
    assert_eq!(infer_complexity(&plain_compute(0, Expr::Literal)), Complexity::Plain);
    let agg = Compute { id: CId(0), expr: Expr::Literal, is_aggregation: true, window: None };
    assert_eq!(infer_complexity(&agg), Complexity::Aggregation);
    let win = Compute { id: CId(0), expr: Expr::Literal, is_aggregation: false, window: Some(Window {}) };
    assert_eq!(infer_complexity(&win), Complexity::Windowed);
    let both = Compute { id: CId(0), expr: Expr::Literal, is_aggregation: true, window: Some(Window {}) };
    assert_eq!(infer_complexity(&both), Complexity::Windowed, "a window frame wins");
}

#[test]
fn collector_keeps_order_and_duplicates() {
    let e = bin(bin(cref(3), Expr::Literal), bin(cref(1), cref(3)));
    assert_eq!(CidCollector::collect(e), vec![CId(3), CId(1), CId(3)]);
    assert_eq!(CidCollector::collect(Expr::Literal), Vec::<CId>::new());
}

#[test]
fn into_requirements_tags_every_column() {
    let r = into_requirements(vec![CId(4), CId(7)], Complexity::Plain, true);
    assert_eq!(
        r,
        vec![
            Requirement { col: CId(4), max_complexity: Complexity::Plain, selected: true },
            Requirement { col: CId(7), max_complexity: Complexity::Plain, selected: true },
        ]
    );
}

#[test]
fn can_materialize_checks_every_consumer() {
    let c = plain_compute(5, cref(1));
    assert!(can_materialize(&c, &vec![]), "no consumer, no constraint");
    let tight = vec![Requirement { col: CId(5), max_complexity: Complexity::Plain, selected: false }];
    assert!(can_materialize(&c, &tight));
    let win = Compute { id: CId(5), expr: cref(1), is_aggregation: false, window: Some(Window {}) };
    assert!(!can_materialize(&win, &tight), "a windowed compute cannot serve a Plain consumer");
    let loose = vec![
        Requirement { col: CId(5), max_complexity: Complexity::Aggregation, selected: false },
        Requirement { col: CId(9), max_complexity: Complexity::Plain, selected: false },
    ];
    assert!(can_materialize(&win, &loose), "requirements on other columns do not count");
}

#[test]
fn filter_requirements_depend_on_aggregate_position() {
    let f = Transform::Filter(cref(2));
    let none = Following::new();
    let r = get_requirements(&f, &none);
    assert_eq!(
        r,
        vec![Requirement { col: CId(2), max_complexity: Complexity::Aggregation, selected: false }],
        "a filter with no aggregate after it becomes HAVING and may aggregate"
    );
    let mut after_agg = Following::new();
    after_agg.insert(TransformKind::Aggregate);
    let r = get_requirements(&f, &after_agg);
    assert_eq!(
        r,
        vec![Requirement { col: CId(2), max_complexity: Complexity::Plain, selected: false }],
        "a filter before the aggregate becomes WHERE and must stay scalar"
    );
}

#[test]
fn sort_requirements_are_selected() {
    let s = Transform::Sort(vec![
        ColumnSort { column: CId(8), direction: SortDirection::Asc },
        ColumnSort { column: CId(2), direction: SortDirection::Desc },
    ]);
    let r = get_requirements(&s, &Following::new());
    assert_eq!(
        r,
        vec![
            Requirement { col: CId(8), max_complexity: Complexity::Aggregation, selected: true },
            Requirement { col: CId(2), max_complexity: Complexity::Aggregation, selected: true },
        ]
    );
}

#[test]
fn take_join_and_compute_requirements() {
    let t = Transform::Take(TakeRange { start: Some(cref(1)), end: Some(cref(6)) });
    assert_eq!(
        get_requirements(&t, &Following::new()),
        vec![
            Requirement { col: CId(1), max_complexity: Complexity::Plain, selected: false },
            Requirement { col: CId(6), max_complexity: Complexity::Plain, selected: false },
        ]
    );
    let j = Transform::Join {
        side: JoinSide::Inner,
        with: TableRef { source: prql_anchor::rq::TId(0), name: None, columns: vec![] },
        filter: cref(3),
    };
    assert_eq!(
        get_requirements(&j, &Following::new()),
        vec![Requirement { col: CId(3), max_complexity: Complexity::Plain, selected: false }]
    );
    let plain = Transform::Compute(plain_compute(9, cref(4)));
    assert_eq!(
        get_requirements(&plain, &Following::new()),
        vec![Requirement { col: CId(4), max_complexity: Complexity::Aggregation, selected: false }],
        "a plain compute may be inlined into aggregations"
    );
    let win = Transform::Compute(Compute {
        id: CId(9),
        expr: cref(4),
        is_aggregation: false,
        window: Some(Window {}),
    });
    assert_eq!(
        get_requirements(&win, &Following::new()),
        vec![Requirement { col: CId(4), max_complexity: Complexity::Plain, selected: false }],
        "a non-plain compute must stand as a projected column over plain inputs"
    );
}

#[test]
fn aggregate_requirements_split_partition_and_compute() {
    let a = Transform::Aggregate { partition: vec![CId(1)], compute: vec![CId(2), CId(3)] };
    assert_eq!(
        get_requirements(&a, &Following::new()),
        vec![
            Requirement { col: CId(1), max_complexity: Complexity::Plain, selected: false },
            Requirement { col: CId(2), max_complexity: Complexity::Aggregation, selected: false },
            Requirement { col: CId(3), max_complexity: Complexity::Aggregation, selected: false },
        ]
    );
}

#[test]
fn structural_transforms_have_no_requirements() {
    let f = Following::new();
    assert!(get_requirements(&Transform::Unique, &f).is_empty());
    assert!(get_requirements(&Transform::Select(vec![CId(1)]), &f).is_empty());
    let tr = TableRef { source: prql_anchor::rq::TId(0), name: None, columns: vec![] };
    assert!(get_requirements(&Transform::From(tr.clone()), &f).is_empty());
    assert!(get_requirements(&Transform::Concat(tr), &f).is_empty());
}

#[test]
fn admission_rule_cuts_out_of_order_kinds() {
    // a second From cuts
    let tr = TableRef { source: prql_anchor::rq::TId(0), name: None, columns: vec![] };
    let mut f = Following::new();
    assert!(!is_split_required(&Transform::From(tr.clone()), &mut f));
    assert!(f.contains(TransformKind::From));
    assert!(is_split_required(&Transform::From(tr.clone()), &mut f));
    // a filter admitted after a From cuts the filter off
    assert!(is_split_required(&Transform::Filter(cref(0)), &mut f));
    // a sort after only a take is fine, after a compute it is not
    let sort = Transform::Sort(vec![ColumnSort { column: CId(0), direction: SortDirection::Asc }]);
    let mut f = Following::new();
    f.insert(TransformKind::Take);
    let mut g = f;
    assert!(!is_split_required(&sort, &mut g));
    f.insert(TransformKind::Compute);
    let mut g = f;
    assert!(is_split_required(&sort, &mut g));
    // Select never cuts
    let mut f = Following::new();
    f.insert(TransformKind::From);
    f.insert(TransformKind::Concat);
    f.insert(TransformKind::Unique);
    assert!(!is_split_required(&Transform::Select(vec![]), &mut f));
}

#[test]
fn aggregation_computes_are_transparent() {
    let mut f = Following::new();
    f.insert(TransformKind::Filter);
    let agg_compute = Transform::Compute(Compute {
        id: CId(0),
        expr: Expr::Literal,
        is_aggregation: true,
        window: None,
    });
    let before = f;
    assert!(!is_split_required(&agg_compute, &mut f));
    assert_eq!(f, before, "an aggregation compute neither cuts nor records its kind");
    let plain = Transform::Compute(plain_compute(0, Expr::Literal));
    assert!(is_split_required(&plain, &mut f), "a real compute after a filter cuts");
}

#[test]
fn wildcard_columns_have_no_name() {
    let mut ctx = AnchorContext::new();
    let tid = ctx.gen_tid();
    let c = ctx.gen_cid();
    let tr = TableRef {
        source: tid,
        name: Some(String::from("t")),
        columns: vec![(prql_anchor::rq::RelationColumn::Wildcard, c)],
    };
    ctx.create_table_instance(tr);
    assert_eq!(ctx.ensure_column_name(c), None);
}

#[test]
fn context_mints_monotonically() {
    let mut ctx = AnchorContext::new();
    let a = ctx.gen_cid();
    let b = ctx.gen_cid();
    assert_eq!(a, CId(0));
    assert_eq!(b, CId(1));
    let t = ctx.gen_tid();
    assert_eq!(t, prql_anchor::rq::TId(0));
}
