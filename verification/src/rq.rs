//! The relational-query (RQ) data model: column and table identifiers,
//! expressions, computed columns, and the pipeline transforms.
//!
//! Each executable type that holds a `Vec` or a `String` has a mirror type
//! (suffixed `V`) over `Seq`, which the contracts speak of.

use vstd::prelude::*;

verus! {

/// Opaque process-unique handle of a column. Two `CId`s compare equal iff
/// they denote the same column.
#[derive(Clone, Copy, PartialEq, Eq, Structural, Debug, Hash)]
pub struct CId(pub usize);

/// Opaque process-unique handle of a relation.
#[derive(Clone, Copy, PartialEq, Eq, Structural, Debug, Hash)]
pub struct TId(pub usize);

/// A column as exposed by a relation instance: either all columns of a
/// source relation, or a single (possibly anonymous) column.
#[derive(PartialEq, Debug)]
pub enum RelationColumn {
    Wildcard,
    Single(Option<String>),
}

impl Clone for RelationColumn {
    fn clone(&self) -> (res: Self)
        ensures
            res == *self,
    {
        match self {
            RelationColumn::Wildcard => RelationColumn::Wildcard,
            RelationColumn::Single(name) => RelationColumn::Single(
                match name {
                    Some(s) => Some(s.clone()),
                    None => None,
                },
            ),
        }
    }
}

#[verifier::ext_equal]
pub enum RelationColumnV {
    Wildcard,
    Single(Option<Seq<char>>),
}

pub open spec fn opt_name_view(o: Option<String>) -> Option<Seq<char>> {
    match o {
        Some(s) => Some(s@),
        None => None,
    }
}

impl View for RelationColumn {
    type V = RelationColumnV;

    open spec fn view(&self) -> RelationColumnV {
        match self {
            RelationColumn::Wildcard => RelationColumnV::Wildcard,
            RelationColumn::Single(name) => RelationColumnV::Single(opt_name_view(*name)),
        }
    }
}

/// A binding of a table to the columns this instance exposes and their
/// identifiers in the surrounding scope.
#[derive(PartialEq, Debug)]
pub struct TableRef {
    pub source: TId,
    pub name: Option<String>,
    pub columns: Vec<(RelationColumn, CId)>,
}

impl Clone for TableRef {
    fn clone(&self) -> (res: Self)
        ensures
            res@ == self@,
    {
        let mut columns: Vec<(RelationColumn, CId)> = Vec::new();
        let mut i: usize = 0;
        while i < self.columns.len()
            invariant
                0 <= i <= self.columns.len(),
                columns@.len() == i,
                forall|j: int| 0 <= j < i ==> columns@[j] == self.columns@[j],
            decreases self.columns.len() - i,
        {
            let (col, cid) = &self.columns[i];
            columns.push((col.clone(), *cid));
            i = i + 1;
        }
        assert(columns@ =~= self.columns@);
        TableRef {
            source: self.source,
            name: match &self.name {
                Some(s) => Some(s.clone()),
                None => None,
            },
            columns,
        }
    }
}

#[verifier::ext_equal]
pub struct TableRefV {
    pub source: TId,
    pub name: Option<Seq<char>>,
    pub columns: Seq<(RelationColumnV, CId)>,
}

impl View for TableRef {
    type V = TableRefV;

    open spec fn view(&self) -> TableRefV {
        TableRefV {
            source: self.source,
            name: opt_name_view(self.name),
            columns: self.columns@.map_values(|p: (RelationColumn, CId)| (p.0@, p.1)),
        }
    }
}

/// A column expression. Only the column references inside it matter to
/// anchoring; everything else (constants, s-strings, operators) is `Literal`
/// leaves and `Binary` nodes.
#[derive(PartialEq, Debug)]
pub enum Expr {
    ColumnRef(CId),
    Literal,
    Binary(Box<Expr>, Box<Expr>),
}

impl Clone for Expr {
    fn clone(&self) -> (res: Self)
        ensures
            res == *self,
        decreases *self,
    {
        match self {
            Expr::ColumnRef(c) => Expr::ColumnRef(*c),
            Expr::Literal => Expr::Literal,
            Expr::Binary(l, r) => Expr::Binary(Box::new((**l).clone()), Box::new((**r).clone())),
        }
    }
}

/// Marks a windowed expression. The frame itself plays no role in anchoring;
/// only its presence does.
#[derive(PartialEq, Debug)]
pub struct Window {}

impl Clone for Window {
    fn clone(&self) -> (res: Self)
        ensures
            res == *self,
    {
        Window {  }
    }
}

/// A derived column.
#[derive(PartialEq, Debug)]
pub struct Compute {
    pub id: CId,
    pub expr: Expr,
    pub is_aggregation: bool,
    pub window: Option<Window>,
}

#[derive(Clone, Copy, PartialEq, Eq, Structural, Debug)]
pub enum SortDirection {
    Asc,
    Desc,
}

#[derive(Clone, Copy, PartialEq, Eq, Structural, Debug)]
pub struct ColumnSort {
    pub column: CId,
    pub direction: SortDirection,
}

/// The (half-open) range of rows a `Take` keeps; the endpoints are
/// expressions.
#[derive(PartialEq, Debug)]
pub struct TakeRange {
    pub start: Option<Expr>,
    pub end: Option<Expr>,
}

#[derive(Clone, Copy, PartialEq, Eq, Structural, Debug)]
pub enum JoinSide {
    Inner,
    Left,
    Right,
    Full,
}

/// One relational transform of a pipeline.
#[derive(PartialEq, Debug)]
pub enum Transform {
    From(TableRef),
    Join { side: JoinSide, with: TableRef, filter: Expr },
    Filter(Expr),
    Compute(Compute),
    Aggregate { partition: Vec<CId>, compute: Vec<CId> },
    Sort(Vec<ColumnSort>),
    Take(TakeRange),
    Unique,
    Concat(TableRef),
    Select(Vec<CId>),
}

#[verifier::ext_equal]
pub enum TransformV {
    From(TableRefV),
    Join { side: JoinSide, with: TableRefV, filter: Expr },
    Filter(Expr),
    Compute(Compute),
    Aggregate { partition: Seq<CId>, compute: Seq<CId> },
    Sort(Seq<ColumnSort>),
    Take(TakeRange),
    Unique,
    Concat(TableRefV),
    Select(Seq<CId>),
}

impl View for Transform {
    type V = TransformV;

    open spec fn view(&self) -> TransformV {
        match self {
            Transform::From(t) => TransformV::From(t@),
            Transform::Join { side, with, filter } => TransformV::Join {
                side: *side,
                with: with@,
                filter: *filter,
            },
            Transform::Filter(e) => TransformV::Filter(*e),
            Transform::Compute(c) => TransformV::Compute(*c),
            Transform::Aggregate { partition, compute } => TransformV::Aggregate {
                partition: partition@,
                compute: compute@,
            },
            Transform::Sort(s) => TransformV::Sort(s@),
            Transform::Take(r) => TransformV::Take(*r),
            Transform::Unique => TransformV::Unique,
            Transform::Concat(t) => TransformV::Concat(t@),
            Transform::Select(cs) => TransformV::Select(cs@),
        }
    }
}

/// The views of a whole pipeline.
pub open spec fn pipeline_view(p: Seq<Transform>) -> Seq<TransformV> {
    p.map_values(|t: Transform| t@)
}

/// The discriminator of a transform, the name the admission rule goes by.
#[derive(Clone, Copy, PartialEq, Eq, Structural, Debug)]
pub enum TransformKind {
    From,
    Join,
    Filter,
    Compute,
    Aggregate,
    Sort,
    Take,
    Unique,
    Concat,
    Select,
}

pub open spec fn kind_of(t: TransformV) -> TransformKind {
    match t {
        TransformV::From(_) => TransformKind::From,
        TransformV::Join { .. } => TransformKind::Join,
        TransformV::Filter(_) => TransformKind::Filter,
        TransformV::Compute(_) => TransformKind::Compute,
        TransformV::Aggregate { .. } => TransformKind::Aggregate,
        TransformV::Sort(_) => TransformKind::Sort,
        TransformV::Take(_) => TransformKind::Take,
        TransformV::Unique => TransformKind::Unique,
        TransformV::Concat(_) => TransformKind::Concat,
        TransformV::Select(_) => TransformKind::Select,
    }
}

impl Transform {
    pub fn kind(&self) -> (k: TransformKind)
        ensures
            k == kind_of(self@),
    {
        match self {
            Transform::From(_) => TransformKind::From,
            Transform::Join { .. } => TransformKind::Join,
            Transform::Filter(_) => TransformKind::Filter,
            Transform::Compute(_) => TransformKind::Compute,
            Transform::Aggregate { .. } => TransformKind::Aggregate,
            Transform::Sort(_) => TransformKind::Sort,
            Transform::Take(_) => TransformKind::Take,
            Transform::Unique => TransformKind::Unique,
            Transform::Concat(_) => TransformKind::Concat,
            Transform::Select(_) => TransformKind::Select,
        }
    }
}

/// The identifiers a table instance exposes.
pub open spec fn table_ref_cids(t: TableRefV) -> Seq<CId> {
    t.columns.map_values(|p: (RelationColumnV, CId)| p.1)
}

/// The column references of an expression, one entry per occurrence, in
/// left-to-right order.
pub open spec fn expr_cids(e: Expr) -> Seq<CId>
    decreases e,
{
    match e {
        Expr::ColumnRef(c) => seq![c],
        Expr::Literal => seq![],
        Expr::Binary(l, r) => expr_cids(*l) + expr_cids(*r),
    }
}

} // verus!
