//! The two expression/transform traversals of the core: collecting the
//! column references of an expression, and redirecting column references
//! through a replacement table.

use vstd::prelude::*;
use crate::rq::CId;
use crate::rq::ColumnSort;
use crate::rq::Compute;
use crate::rq::Expr;
use crate::rq::RelationColumn;
use crate::rq::RelationColumnV;
use crate::rq::TableRef;
use crate::rq::TableRefV;
use crate::rq::TakeRange;
use crate::rq::Transform;
use crate::rq::TransformV;
use crate::rq::expr_cids;

verus! {

/// Gathers the column references of an expression.
pub struct CidCollector {
    pub cids: Vec<CId>,
}

impl CidCollector {
    fn fold_expr(&mut self, e: &Expr)
        ensures
            final(self).cids@ == old(self).cids@ + expr_cids(*e),
        decreases *e,
    {
        match e {
            Expr::ColumnRef(c) => {
                self.cids.push(*c);
                assert(self.cids@ =~= old(self).cids@ + expr_cids(*e));
            },
            Expr::Literal => {
                assert(self.cids@ =~= old(self).cids@ + expr_cids(*e));
            },
            Expr::Binary(l, r) => {
                self.fold_expr(l);
                self.fold_expr(r);
                assert(self.cids@ =~= old(self).cids@ + expr_cids(*e));
            },
        }
    }

    /// Every column an expression references, one entry per occurrence, in
    /// left-to-right order. Duplicates are kept; consumers de-duplicate.
    pub fn collect(expr: Expr) -> (r: Vec<CId>)
        ensures
            r@ == expr_cids(expr),
    {
        let mut collector = CidCollector { cids: Vec::new() };
        collector.fold_expr(&expr);
        assert(collector.cids@ =~= expr_cids(expr));
        collector.cids
    }
}

/// The replacement a redirect table maps `c` to: the value of the last pair
/// whose key is `c`, or `c` itself where no pair matches.
pub open spec fn assoc_redirect(rs: Seq<(CId, CId)>, c: CId) -> CId
    decreases rs.len(),
{
    if rs.len() == 0 {
        c
    } else if rs.last().0 == c {
        rs.last().1
    } else {
        assoc_redirect(rs.drop_last(), c)
    }
}

/// Whether the redirect table has a pair for `c`.
pub open spec fn assoc_has_key(rs: Seq<(CId, CId)>, c: CId) -> bool {
    exists|i: int| 0 <= i < rs.len() && rs[i].0 == c
}

pub open spec fn spec_redirect_expr(rs: Seq<(CId, CId)>, e: Expr) -> Expr
    decreases e,
{
    match e {
        Expr::ColumnRef(c) => Expr::ColumnRef(assoc_redirect(rs, c)),
        Expr::Literal => Expr::Literal,
        Expr::Binary(l, r) => Expr::Binary(
            Box::new(spec_redirect_expr(rs, *l)),
            Box::new(spec_redirect_expr(rs, *r)),
        ),
    }
}

pub open spec fn spec_redirect_compute(rs: Seq<(CId, CId)>, c: Compute) -> Compute {
    Compute {
        id: assoc_redirect(rs, c.id),
        expr: spec_redirect_expr(rs, c.expr),
        is_aggregation: c.is_aggregation,
        window: c.window,
    }
}

pub open spec fn spec_redirect_table_ref(rs: Seq<(CId, CId)>, t: TableRefV) -> TableRefV {
    TableRefV {
        source: t.source,
        name: t.name,
        columns: t.columns.map_values(
            |p: (RelationColumnV, CId)| (p.0, assoc_redirect(rs, p.1)),
        ),
    }
}

pub open spec fn spec_redirect_opt_expr(rs: Seq<(CId, CId)>, o: Option<Expr>) -> Option<Expr> {
    match o {
        Some(e) => Some(spec_redirect_expr(rs, e)),
        None => None,
    }
}

/// One transform with every column reference sent through the redirect
/// table. Fresh identifiers are absent from the table, so redirection is
/// never applied twice.
pub open spec fn spec_redirect_transform(rs: Seq<(CId, CId)>, t: TransformV) -> TransformV {
    match t {
        TransformV::From(tr) => TransformV::From(spec_redirect_table_ref(rs, tr)),
        TransformV::Join { side, with, filter } => TransformV::Join {
            side,
            with: spec_redirect_table_ref(rs, with),
            filter: spec_redirect_expr(rs, filter),
        },
        TransformV::Filter(e) => TransformV::Filter(spec_redirect_expr(rs, e)),
        TransformV::Compute(c) => TransformV::Compute(spec_redirect_compute(rs, c)),
        TransformV::Aggregate { partition, compute } => TransformV::Aggregate {
            partition: partition.map_values(|c: CId| assoc_redirect(rs, c)),
            compute: compute.map_values(|c: CId| assoc_redirect(rs, c)),
        },
        TransformV::Sort(sorts) => TransformV::Sort(
            sorts.map_values(
                |s: ColumnSort| (ColumnSort { column: assoc_redirect(rs, s.column), direction: s.direction }),
            ),
        ),
        TransformV::Take(range) => TransformV::Take(TakeRange {
            start: spec_redirect_opt_expr(rs, range.start),
            end: spec_redirect_opt_expr(rs, range.end),
        }),
        TransformV::Unique => TransformV::Unique,
        TransformV::Concat(tr) => TransformV::Concat(spec_redirect_table_ref(rs, tr)),
        TransformV::Select(cs) => TransformV::Select(cs.map_values(|c: CId| assoc_redirect(rs, c))),
    }
}

/// Replaces column references according to a redirect table, built from the
/// pairs in order (a later pair for the same key wins, as a map insert
/// would).
pub struct CidRedirector {
    pub cid_redirects: Vec<(CId, CId)>,
}

impl CidRedirector {
    pub fn fold_cid(&self, c: CId) -> (r: CId)
        ensures
            r == assoc_redirect(self.cid_redirects@, c),
    {
        let rs = &self.cid_redirects;
        let mut i: usize = rs.len();
        assert(rs@.subrange(0, i as int) =~= rs@);
        loop
            invariant
                0 <= i <= rs.len(),
                rs == self.cid_redirects,
                assoc_redirect(self.cid_redirects@, c) == assoc_redirect(rs@.subrange(0, i as int), c),
            decreases i,
        {
            if i == 0 {
                return c;
            }
            i = i - 1;
            let p = rs[i];
            proof {
                assert(rs@.subrange(0, i + 1 as int).drop_last() =~= rs@.subrange(0, i as int));
                assert(rs@.subrange(0, i + 1 as int).last() == rs@[i as int]);
            }
            if p.0 == c {
                return p.1;
            }
        }
    }

    pub fn fold_expr(&self, e: &Expr) -> (r: Expr)
        ensures
            r == spec_redirect_expr(self.cid_redirects@, *e),
        decreases *e,
    {
        match e {
            Expr::ColumnRef(c) => Expr::ColumnRef(self.fold_cid(*c)),
            Expr::Literal => Expr::Literal,
            Expr::Binary(l, r) => Expr::Binary(
                Box::new(self.fold_expr(l)),
                Box::new(self.fold_expr(r)),
            ),
        }
    }

    pub fn fold_compute(&self, c: &Compute) -> (r: Compute)
        ensures
            r == spec_redirect_compute(self.cid_redirects@, *c),
    {
        Compute {
            id: self.fold_cid(c.id),
            expr: self.fold_expr(&c.expr),
            is_aggregation: c.is_aggregation,
            window: match &c.window {
                Some(w) => Some(w.clone()),
                None => None,
            },
        }
    }

    pub fn fold_cids(&self, cs: &Vec<CId>) -> (r: Vec<CId>)
        ensures
            r@ == cs@.map_values(|c: CId| assoc_redirect(self.cid_redirects@, c)),
    {
        let mut out: Vec<CId> = Vec::new();
        let mut i: usize = 0;
        while i < cs.len()
            invariant
                0 <= i <= cs.len(),
                out@.len() == i,
                forall|j: int| 0 <= j < i ==> out@[j] == assoc_redirect(self.cid_redirects@, cs@[j]),
            decreases cs.len() - i,
        {
            let v = self.fold_cid(cs[i]);
            out.push(v);
            i = i + 1;
        }
        assert(out@ =~= cs@.map_values(|c: CId| assoc_redirect(self.cid_redirects@, c)));
        out
    }

    pub fn fold_table_ref(&self, t: &TableRef) -> (r: TableRef)
        ensures
            r@ == spec_redirect_table_ref(self.cid_redirects@, t@),
    {
        let mut columns: Vec<(RelationColumn, CId)> = Vec::new();
        let mut i: usize = 0;
        while i < t.columns.len()
            invariant
                0 <= i <= t.columns.len(),
                columns@.len() == i,
                forall|j: int| 0 <= j < i ==> columns@[j].0@ == t.columns@[j].0@
                    && columns@[j].1 == assoc_redirect(self.cid_redirects@, t.columns@[j].1),
            decreases t.columns.len() - i,
        {
            let (col, cid) = &t.columns[i];
            columns.push((col.clone(), self.fold_cid(*cid)));
            i = i + 1;
        }
        let r = TableRef { source: t.source, name: clone_opt_string(&t.name), columns };
        assert(r@.columns =~= spec_redirect_table_ref(self.cid_redirects@, t@).columns);
        r
    }

    pub fn fold_transform(&self, transform: Transform) -> (r: Transform)
        ensures
            r@ == spec_redirect_transform(self.cid_redirects@, transform@),
    {
        match transform {
            Transform::From(t) => Transform::From(self.fold_table_ref(&t)),
            Transform::Join { side, with, filter } => Transform::Join {
                side,
                with: self.fold_table_ref(&with),
                filter: self.fold_expr(&filter),
            },
            Transform::Filter(e) => Transform::Filter(self.fold_expr(&e)),
            Transform::Compute(c) => Transform::Compute(self.fold_compute(&c)),
            Transform::Aggregate { partition, compute } => Transform::Aggregate {
                partition: self.fold_cids(&partition),
                compute: self.fold_cids(&compute),
            },
            Transform::Sort(sorts) => {
                let mut out: Vec<ColumnSort> = Vec::new();
                let mut i: usize = 0;
                while i < sorts.len()
                    invariant
                        0 <= i <= sorts.len(),
                        out@.len() == i,
                        forall|j: int| 0 <= j < i ==> out@[j] == (ColumnSort {
                            column: assoc_redirect(self.cid_redirects@, sorts@[j].column),
                            direction: sorts@[j].direction,
                        }),
                    decreases sorts.len() - i,
                {
                    let s = sorts[i];
                    out.push(ColumnSort { column: self.fold_cid(s.column), direction: s.direction });
                    i = i + 1;
                }
                assert(out@ =~= sorts@.map_values(
                    |s: ColumnSort| (ColumnSort {
                        column: assoc_redirect(self.cid_redirects@, s.column),
                        direction: s.direction,
                    }),
                ));
                Transform::Sort(out)
            },
            Transform::Take(range) => Transform::Take(TakeRange {
                start: match &range.start {
                    Some(e) => Some(self.fold_expr(e)),
                    None => None,
                },
                end: match &range.end {
                    Some(e) => Some(self.fold_expr(e)),
                    None => None,
                },
            }),
            Transform::Unique => Transform::Unique,
            Transform::Concat(t) => Transform::Concat(self.fold_table_ref(&t)),
            Transform::Select(cs) => Transform::Select(self.fold_cids(&cs)),
        }
    }
}

fn clone_opt_string(o: &Option<String>) -> (r: Option<String>)
    ensures
        r == *o,
{
    match o {
        Some(s) => Some(s.clone()),
        None => None,
    }
}

} // verus!
