//! The requirements and complexity model: classifies column expressions by
//! complexity class and computes, per transform, which columns it reads, at
//! what maximum complexity, and whether they must appear in the SELECT list.

use vstd::prelude::*;
use crate::collector::CidCollector;
use crate::rq::CId;
use crate::rq::ColumnSort;
use crate::rq::Compute;
use crate::rq::Expr;
use crate::rq::Transform;
use crate::rq::TransformKind;
use crate::rq::TransformV;
use crate::rq::expr_cids;

verus! {

/// Complexity of a column expression, totally ordered
/// `Plain < Windowed < Aggregation`. `Windowed` ranks below `Aggregation` so
/// that a windowed column is legal anywhere an aggregated one is.
#[derive(Clone, Copy, PartialEq, Eq, Structural, Debug)]
pub enum Complexity {
    /// Non-aggregated and non-windowed expressions.
    Plain,
    /// Expressions with a window frame.
    Windowed,
    /// Everything.
    Aggregation,
}

impl Complexity {
    /// Position in the order.
    pub open spec fn rank(self) -> nat {
        match self {
            Complexity::Plain => 0,
            Complexity::Windowed => 1,
            Complexity::Aggregation => 2,
        }
    }

    pub open spec fn spec_le(self, other: Complexity) -> bool {
        self.rank() <= other.rank()
    }

    pub open spec fn spec_min(self, other: Complexity) -> Complexity {
        if self.rank() <= other.rank() {
            self
        } else {
            other
        }
    }

    fn rank_val(self) -> (n: u8)
        ensures
            n as nat == self.rank(),
    {
        match self {
            Complexity::Plain => 0,
            Complexity::Windowed => 1,
            Complexity::Aggregation => 2,
        }
    }

    /// `self` is legal wherever `other` is.
    pub fn le(self, other: Complexity) -> (r: bool)
        ensures
            r == self.spec_le(other),
    {
        self.rank_val() <= other.rank_val()
    }

    pub fn min(self, other: Complexity) -> (r: Complexity)
        ensures
            r == self.spec_min(other),
    {
        if self.rank_val() <= other.rank_val() {
            self
        } else {
            other
        }
    }

    /// The loosest bound: every expression is admissible at `Aggregation`.
    pub fn highest() -> (c: Complexity)
        ensures
            c == Complexity::Aggregation,
    {
        Complexity::Aggregation
    }
}

/// An input requirement of a transform.
#[derive(Clone, Copy, PartialEq, Eq, Structural, Debug)]
pub struct Requirement {
    pub col: CId,
    /// Maximum complexity with which this column can be expressed in this
    /// transform.
    pub max_complexity: Complexity,
    /// True iff this column needs to be SELECTed so it can be referenced in
    /// this transform.
    pub selected: bool,
}

/// One requirement per identifier, all at the same complexity bound and
/// selection flag.
pub open spec fn reqs_of(cids: Seq<CId>, max_complexity: Complexity, selected: bool) -> Seq<
    Requirement,
> {
    cids.map_values(|col: CId| (Requirement { col, max_complexity, selected }))
}

pub fn into_requirements(cids: Vec<CId>, max_complexity: Complexity, selected: bool) -> (r: Vec<
    Requirement,
>)
    ensures
        r@ == reqs_of(cids@, max_complexity, selected),
{
    let mut r: Vec<Requirement> = Vec::new();
    let mut i: usize = 0;
    while i < cids.len()
        invariant
            0 <= i <= cids.len(),
            r@.len() == i,
            forall|j: int| 0 <= j < i ==> r@[j] == (Requirement {
                col: cids@[j],
                max_complexity,
                selected,
            }),
        decreases cids.len() - i,
    {
        r.push(Requirement { col: cids[i], max_complexity, selected });
        i = i + 1;
    }
    assert(r@ =~= reqs_of(cids@, max_complexity, selected));
    r
}

/// The complexity class of a computed column: `Windowed` if a window frame is
/// present, else `Aggregation` if it aggregates, else `Plain`.
pub open spec fn spec_infer_complexity(c: Compute) -> Complexity {
    if c.window is Some {
        Complexity::Windowed
    } else if c.is_aggregation {
        Complexity::Aggregation
    } else {
        Complexity::Plain
    }
}

pub fn infer_complexity(compute: &Compute) -> (r: Complexity)
    ensures
        r == spec_infer_complexity(*compute),
{
    if compute.window.is_some() {
        Complexity::Windowed
    } else if compute.is_aggregation {
        Complexity::Aggregation
    } else {
        Complexity::Plain
    }
}

/// The tightest bound the requirements place on `col`: the minimum
/// `max_complexity` over all requirements for it, or `Aggregation` where
/// there is none.
pub open spec fn spec_required_max(col: CId, reqs: Seq<Requirement>) -> Complexity
    decreases reqs.len(),
{
    if reqs.len() == 0 {
        Complexity::Aggregation
    } else {
        let prev = spec_required_max(col, reqs.drop_last());
        if reqs.last().col == col {
            prev.spec_min(reqs.last().max_complexity)
        } else {
            prev
        }
    }
}

/// A compute may stay in place iff every consumer tolerates at least its own
/// complexity.
pub open spec fn spec_can_materialize(c: Compute, reqs: Seq<Requirement>) -> bool {
    spec_infer_complexity(c).spec_le(spec_required_max(c.id, reqs))
}

pub fn can_materialize(compute: &Compute, inputs_required: &Vec<Requirement>) -> (r: bool)
    ensures
        r == spec_can_materialize(*compute, inputs_required@),
{
    let complexity = infer_complexity(compute);
    let mut required_max = Complexity::highest();
    let mut i: usize = 0;
    while i < inputs_required.len()
        invariant
            0 <= i <= inputs_required.len(),
            required_max == spec_required_max(compute.id, inputs_required@.subrange(0, i as int)),
        decreases inputs_required.len() - i,
    {
        let req = inputs_required[i];
        if req.col == compute.id {
            required_max = required_max.min(req.max_complexity);
        }
        proof {
            assert(inputs_required@.subrange(0, i + 1 as int).drop_last() =~= inputs_required@
                .subrange(0, i as int));
            assert(inputs_required@.subrange(0, i + 1 as int).last() == inputs_required@[i as int]);
        }
        i = i + 1;
    }
    proof {
        assert(inputs_required@.subrange(0, inputs_required@.len() as int) =~= inputs_required@);
    }
    complexity.le(required_max)
}

/// The set of transform kinds already admitted after the current transform
/// into the sub-pipeline under construction.
#[derive(Clone, Copy, PartialEq, Eq, Structural, Debug)]
pub struct Following {
    pub from: bool,
    pub join: bool,
    pub filter: bool,
    pub compute: bool,
    pub aggregate: bool,
    pub sort: bool,
    pub take: bool,
    pub unique: bool,
    pub concat: bool,
    pub select: bool,
}

impl Following {
    pub open spec fn spec_contains(self, k: TransformKind) -> bool {
        match k {
            TransformKind::From => self.from,
            TransformKind::Join => self.join,
            TransformKind::Filter => self.filter,
            TransformKind::Compute => self.compute,
            TransformKind::Aggregate => self.aggregate,
            TransformKind::Sort => self.sort,
            TransformKind::Take => self.take,
            TransformKind::Unique => self.unique,
            TransformKind::Concat => self.concat,
            TransformKind::Select => self.select,
        }
    }

    pub open spec fn spec_empty() -> Following {
        Following {
            from: false,
            join: false,
            filter: false,
            compute: false,
            aggregate: false,
            sort: false,
            take: false,
            unique: false,
            concat: false,
            select: false,
        }
    }

    pub open spec fn spec_insert(self, k: TransformKind) -> Following {
        match k {
            TransformKind::From => Following { from: true, ..self },
            TransformKind::Join => Following { join: true, ..self },
            TransformKind::Filter => Following { filter: true, ..self },
            TransformKind::Compute => Following { compute: true, ..self },
            TransformKind::Aggregate => Following { aggregate: true, ..self },
            TransformKind::Sort => Following { sort: true, ..self },
            TransformKind::Take => Following { take: true, ..self },
            TransformKind::Unique => Following { unique: true, ..self },
            TransformKind::Concat => Following { concat: true, ..self },
            TransformKind::Select => Following { select: true, ..self },
        }
    }

    pub fn new() -> (f: Following)
        ensures
            f == Following::spec_empty(),
    {
        Following {
            from: false,
            join: false,
            filter: false,
            compute: false,
            aggregate: false,
            sort: false,
            take: false,
            unique: false,
            concat: false,
            select: false,
        }
    }

    pub fn insert(&mut self, k: TransformKind)
        ensures
            *final(self) == old(self).spec_insert(k),
    {
        match k {
            TransformKind::From => self.from = true,
            TransformKind::Join => self.join = true,
            TransformKind::Filter => self.filter = true,
            TransformKind::Compute => self.compute = true,
            TransformKind::Aggregate => self.aggregate = true,
            TransformKind::Sort => self.sort = true,
            TransformKind::Take => self.take = true,
            TransformKind::Unique => self.unique = true,
            TransformKind::Concat => self.concat = true,
            TransformKind::Select => self.select = true,
        }
    }

    pub fn contains(&self, k: TransformKind) -> (r: bool)
        ensures
            r == self.spec_contains(k),
    {
        match k {
            TransformKind::From => self.from,
            TransformKind::Join => self.join,
            TransformKind::Filter => self.filter,
            TransformKind::Compute => self.compute,
            TransformKind::Aggregate => self.aggregate,
            TransformKind::Sort => self.sort,
            TransformKind::Take => self.take,
            TransformKind::Unique => self.unique,
            TransformKind::Concat => self.concat,
            TransformKind::Select => self.select,
        }
    }
}

pub open spec fn opt_expr_cids(o: Option<Expr>) -> Seq<CId> {
    match o {
        Some(e) => expr_cids(e),
        None => seq![],
    }
}

/// The columns a transform needs as input, each with the maximum legal
/// complexity at that consumption site and whether it must be SELECTed:
/// a pre-aggregate filter becomes WHERE (scalar only), a post-aggregate one
/// HAVING; ORDER BY may reference output aliases, so sorts admit any
/// complexity but force the column into the SELECT list; LIMIT bounds are
/// scalar; a plain compute may be inlined into aggregations, any other one
/// must be projected and reaches consumers as plain.
pub open spec fn spec_requirements(t: TransformV, following: Following) -> Seq<Requirement> {
    match t {
        TransformV::Aggregate { partition, compute } => reqs_of(partition, Complexity::Plain, false)
            + reqs_of(compute, Complexity::Aggregation, false),
        TransformV::Compute(c) => reqs_of(
            expr_cids(c.expr),
            if spec_infer_complexity(c) == Complexity::Plain {
                Complexity::Aggregation
            } else {
                Complexity::Plain
            },
            false,
        ),
        TransformV::Filter(e) => reqs_of(
            expr_cids(e),
            if !following.aggregate {
                Complexity::Aggregation
            } else {
                Complexity::Plain
            },
            false,
        ),
        TransformV::Join { filter, .. } => reqs_of(expr_cids(filter), Complexity::Plain, false),
        TransformV::Sort(sorts) => reqs_of(
            sorts.map_values(|s: ColumnSort| s.column),
            Complexity::Aggregation,
            true,
        ),
        TransformV::Take(range) => reqs_of(
            opt_expr_cids(range.start) + opt_expr_cids(range.end),
            Complexity::Plain,
            false,
        ),
        _ => seq![],
    }
}

pub fn clone_cids(v: &Vec<CId>) -> (r: Vec<CId>)
    ensures
        r@ == v@,
{
    let mut r: Vec<CId> = Vec::new();
    let mut i: usize = 0;
    while i < v.len()
        invariant
            0 <= i <= v.len(),
            r@.len() == i,
            forall|j: int| 0 <= j < i ==> r@[j] == v@[j],
        decreases v.len() - i,
    {
        r.push(v[i]);
        i = i + 1;
    }
    assert(r@ =~= v@);
    r
}

pub fn get_requirements(transform: &Transform, following: &Following) -> (r: Vec<Requirement>)
    ensures
        r@ == spec_requirements(transform@, *following),
{
    match transform {
        Transform::Aggregate { partition, compute } => {
            let mut r = into_requirements(clone_cids(partition), Complexity::Plain, false);
            let mut r2 = into_requirements(clone_cids(compute), Complexity::Aggregation, false);
            r.append(&mut r2);
            r
        },
        Transform::Compute(c) => {
            let cids = CidCollector::collect(c.expr.clone());
            let max_complexity = if infer_complexity(c) == Complexity::Plain {
                Complexity::Aggregation
            } else {
                Complexity::Plain
            };
            into_requirements(cids, max_complexity, false)
        },
        Transform::Filter(e) => {
            let cids = CidCollector::collect(e.clone());
            let max_complexity = if !following.contains(TransformKind::Aggregate) {
                Complexity::Aggregation
            } else {
                Complexity::Plain
            };
            into_requirements(cids, max_complexity, false)
        },
        Transform::Join { filter, .. } => {
            into_requirements(CidCollector::collect(filter.clone()), Complexity::Plain, false)
        },
        Transform::Sort(sorts) => {
            let mut cids: Vec<CId> = Vec::new();
            let mut i: usize = 0;
            while i < sorts.len()
                invariant
                    0 <= i <= sorts.len(),
                    cids@.len() == i,
                    forall|j: int| 0 <= j < i ==> cids@[j] == sorts@[j].column,
                decreases sorts.len() - i,
            {
                cids.push(sorts[i].column);
                i = i + 1;
            }
            assert(cids@ =~= sorts@.map_values(|s: ColumnSort| s.column));
            into_requirements(cids, Complexity::Aggregation, true)
        },
        Transform::Take(range) => {
            let mut cids: Vec<CId> = Vec::new();
            if let Some(e) = &range.start {
                let mut v = CidCollector::collect(e.clone());
                cids.append(&mut v);
            }
            if let Some(e) = &range.end {
                let mut v = CidCollector::collect(e.clone());
                cids.append(&mut v);
            }
            assert(cids@ =~= opt_expr_cids(range.start) + opt_expr_cids(range.end));
            into_requirements(cids, Complexity::Plain, false)
        },
        _ => Vec::new(),
    }
}

} // verus!
